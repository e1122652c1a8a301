//! The command-line history: an append-only log of accepted prompt lines with
//! a scroll cursor for the up/down arrow keys.
//!
//! The store is owned by whoever runs the prompt session and handed to each
//! prompt invocation; the scroll cursor is reset at the start of each prompt.

use vstd::prelude::*;

verus! {

/// What appending a line does to the stored log: nothing when the line equals
/// the chronologically last entry, otherwise it is pushed at the end.
pub open spec fn history_append(lines: Seq<Seq<char>>, l: Seq<char>) -> Seq<Seq<char>> {
    if lines.len() > 0 && lines.last() == l {
        lines
    } else {
        lines.push(l)
    }
}

/// Law: adjacent duplicates are never stored. Appending the same line twice
/// changes the log exactly as much as appending it once.
pub proof fn lemma_append_adjacent_dedup(lines: Seq<Seq<char>>, l: Seq<char>)
    ensures
        history_append(history_append(lines, l), l) == history_append(lines, l),
{
    let once = history_append(lines, l);
    assert(once.len() > 0 && once.last() == l);
}

/// No two chronologically adjacent stored entries are equal.
pub open spec fn no_adjacent_duplicates(lines: Seq<Seq<char>>) -> bool {
    forall|i: int| 0 <= i < lines.len() - 1 ==> lines[i] != #[trigger] lines[i + 1]
}

/// Law: appending preserves the no-adjacent-duplicates invariant, so a log
/// that grows only through appends never holds two equal neighbours.
pub proof fn lemma_append_keeps_no_adjacent_duplicates(lines: Seq<Seq<char>>, l: Seq<char>)
    requires
        no_adjacent_duplicates(lines),
    ensures
        no_adjacent_duplicates(history_append(lines, l)),
{
    let r = history_append(lines, l);
    if !(lines.len() > 0 && lines.last() == l) {
        assert forall|i: int| 0 <= i < r.len() - 1 implies r[i] != #[trigger] r[i + 1] by {
            if i < lines.len() - 1 {
                assert(r[i] == lines[i] && r[i + 1] == lines[i + 1]);
            } else {
                assert(r[i] == lines.last() && r[i + 1] == l);
            }
        }
    }
}

/// The history log together with a scroll cursor.
///
/// The cursor ranges over `0 ..= lines.len()`; sitting at `lines.len()` means
/// "not browsing, looking at the live edit".
pub struct HistoryHandle {
    lines: Vec<String>,
    curr_index: usize,
}

impl HistoryHandle {
    /// The stored lines, oldest first.
    pub closed spec fn lines_view(&self) -> Seq<Seq<char>> {
        self.lines.deep_view()
    }

    /// The scroll cursor position.
    pub closed spec fn cursor(&self) -> int {
        self.curr_index as int
    }

    /// The cursor never points past the end of the log, and the log never
    /// holds two chronologically adjacent equal entries.
    pub open spec fn wf(&self) -> bool {
        &&& 0 <= self.cursor() <= self.lines_view().len()
        &&& no_adjacent_duplicates(self.lines_view())
    }

    /// A fresh, empty history whose cursor sits at the bottom.
    pub fn get() -> (h: Self)
        ensures
            h.lines_view() == Seq::<Seq<char>>::empty(),
            h.cursor() == 0,
            h.wf(),
    {
        let h = HistoryHandle { lines: Vec::new(), curr_index: 0 };
        proof {
            assert(h.lines.deep_view() =~= Seq::<Seq<char>>::empty());
        }
        h
    }

    /// Number of stored lines.
    pub fn len(&self) -> (n: usize)
        ensures
            n == self.lines_view().len(),
    {
        proof {
            assert(self.lines.deep_view().len() == self.lines@.len());
        }
        self.lines.len()
    }

    /// The stored line at position `i` (oldest first).
    pub fn at(&self, i: usize) -> (r: &String)
        requires
            i < self.lines_view().len(),
        ensures
            r@ == self.lines_view()[i as int],
    {
        proof {
            assert(self.lines.deep_view()[i as int] == self.lines@[i as int]@);
        }
        &self.lines[i]
    }

    /// Moves the scroll cursor back to the bottom, ready for a new prompt.
    pub fn reset_cursor(&mut self)
        requires
            old(self).wf(),
        ensures
            final(self).lines_view() == old(self).lines_view(),
            final(self).cursor() == final(self).lines_view().len(),
            final(self).wf(),
    {
        proof {
            assert(self.lines.deep_view().len() == self.lines@.len());
        }
        self.curr_index = self.lines.len();
    }

    /// Appends a line, silently suppressing an adjacent duplicate. The scroll
    /// cursor is left where it was.
    pub fn add(&mut self, new_line: String)
        requires
            old(self).wf(),
        ensures
            final(self).lines_view() == history_append(old(self).lines_view(), new_line@),
            final(self).cursor() == old(self).cursor(),
            final(self).wf(),
    {
        proof {
            assert(self.lines.deep_view().len() == self.lines@.len());
        }
        let n = self.lines.len();
        if n > 0 {
            proof {
                assert(self.lines.deep_view()[n - 1 as int] == self.lines@[n - 1 as int]@);
            }
            if self.lines[n - 1].eq(&new_line) {
                return ;
            }
        }
        proof {
            lemma_append_keeps_no_adjacent_duplicates(self.lines.deep_view(), new_line@);
        }
        self.lines.push(new_line);
        proof {
            assert(self.lines.deep_view() =~= old(self).lines.deep_view().push(new_line@));
        }
    }

    /// The entry just above the cursor, or nothing at the top of the log (or
    /// when the log is empty). On success the cursor moves up by one.
    pub fn up_next(&mut self) -> (r: Option<String>)
        requires
            old(self).wf(),
        ensures
            final(self).lines_view() == old(self).lines_view(),
            final(self).wf(),
            old(self).cursor() == 0 || old(self).lines_view().len() == 0 ==> final(self).cursor()
                == old(self).cursor() && r is None,
            old(self).cursor() > 0 && old(self).lines_view().len() > 0 ==> final(self).cursor()
                == old(self).cursor() - 1 && (r matches Some(s) && s@ == old(
                self,
            ).lines_view()[old(self).cursor() - 1]),
    {
        proof {
            assert(self.lines.deep_view().len() == self.lines@.len());
        }
        if self.curr_index == 0 || self.lines.len() == 0 {
            return None;
        }
        self.curr_index = self.curr_index - 1;
        proof {
            assert(self.lines.deep_view()[self.curr_index as int]
                == self.lines@[self.curr_index as int]@);
        }
        Some(self.lines[self.curr_index].clone())
    }

    /// The entry just below the cursor. Stepping past the last entry returns
    /// nothing (the caller substitutes its own pending snapshot), and at the
    /// bottom the call is a no-op.
    pub fn down_next(&mut self) -> (r: Option<String>)
        requires
            old(self).wf(),
        ensures
            final(self).lines_view() == old(self).lines_view(),
            final(self).wf(),
            old(self).cursor() >= old(self).lines_view().len() ==> final(self).cursor() == old(
                self,
            ).cursor() && r is None,
            old(self).cursor() < old(self).lines_view().len() ==> final(self).cursor() == old(
                self,
            ).cursor() + 1 && (if old(self).cursor() + 1 == old(self).lines_view().len() {
                r is None
            } else {
                r matches Some(s) && s@ == old(self).lines_view()[old(self).cursor() + 1]
            }),
    {
        proof {
            assert(self.lines.deep_view().len() == self.lines@.len());
        }
        if self.curr_index >= self.lines.len() {
            return None;
        }
        self.curr_index = self.curr_index + 1;
        if self.curr_index == self.lines.len() {
            None
        } else {
            proof {
                assert(self.lines.deep_view()[self.curr_index as int]
                    == self.lines@[self.curr_index as int]@);
            }
            Some(self.lines[self.curr_index].clone())
        }
    }
}

} // verus!
