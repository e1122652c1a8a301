//! Word-boundary search used by word-wise deletion, and the command action type.

use vstd::prelude::*;
use vstd::string::StrSliceExecFns;

use crate::text::{is_sep_char, sep_char};

verus! {

/// Index of the last separator strictly before `i`, or `-1` when none exists.
pub open spec fn last_sep_before(s: Seq<char>, i: int) -> int
    decreases i,
{
    if i <= 0 {
        -1
    } else if is_sep_char(s[i - 1]) {
        i - 1
    } else {
        last_sep_before(s, i - 1)
    }
}

/// Start of the maximal separator run that ends at position `m`.
pub open spec fn sep_run_start(s: Seq<char>, m: int) -> int
    decreases m,
{
    if m <= 0 {
        0
    } else if is_sep_char(s[m - 1]) {
        sep_run_start(s, m - 1)
    } else {
        m
    }
}

/// Where a word-wise deletion starting from the end of `s` stops: everything
/// from this index to the end of the line is removed.
///
/// The rules, scanning from the end: with no separator at all the whole line
/// is one word and nothing precedes it (index 0). Otherwise consider the last
/// maximal separator run. A line that starts with that run collapses entirely.
/// When the run is a single separator sitting at the very end of the line, the
/// deletion also swallows the word before it, back to just after the previous
/// separator (or the whole line when that previous separator starts the line
/// or none exists). In every other case the deletion keeps the first character
/// of the run and removes what follows it.
pub open spec fn word_boundary(s: Seq<char>) -> int {
    let n = s.len() as int;
    let m = last_sep_before(s, n);
    if m < 0 {
        0
    } else {
        let a = sep_run_start(s, m);
        if a == 0 {
            0
        } else {
            let b = last_sep_before(s, a);
            if b < 0 {
                if a == n - 1 {
                    0
                } else {
                    a + 1
                }
            } else if b == 0 {
                0
            } else if a == n - 1 {
                b + 1
            } else {
                a + 1
            }
        }
    }
}

fn last_sep_before_exec(s: &str, i: usize) -> (r: Option<usize>)
    requires
        i <= s@.len(),
    ensures
        match r {
            Some(j) => last_sep_before(s@, i as int) == j && j < i,
            None => last_sep_before(s@, i as int) == -1,
        },
    decreases i,
{
    if i == 0 {
        None
    } else if sep_char(s.get_char(i - 1)) {
        Some(i - 1)
    } else {
        last_sep_before_exec(s, i - 1)
    }
}

fn sep_run_start_exec(s: &str, m: usize) -> (r: usize)
    requires
        m < s@.len(),
    ensures
        r == sep_run_start(s@, m as int),
        r <= m,
    decreases m,
{
    if m == 0 {
        0
    } else if sep_char(s.get_char(m - 1)) {
        sep_run_start_exec(s, m - 1)
    } else {
        m
    }
}

/// Index where the trailing word-wise deletion span begins; see
/// [`word_boundary`] for the exact rules.
pub fn str_rfind_last_word_separator(str_original: &str) -> (r: usize)
    ensures
        r == word_boundary(str_original@),
        r <= str_original@.len(),
{
    let n = str_original.unicode_len();
    match last_sep_before_exec(str_original, n) {
        None => 0,
        Some(m) => {
            let a = sep_run_start_exec(str_original, m);
            if a == 0 {
                0
            } else {
                match last_sep_before_exec(str_original, a) {
                    None => if a == n - 1 {
                        0
                    } else {
                        a + 1
                    },
                    Some(b) => {
                        if b == 0 {
                            0
                        } else if a == n - 1 {
                            b + 1
                        } else {
                            a + 1
                        }
                    },
                }
            }
        },
    }
}

/// What the caller of a dispatched command should do next.
pub enum CmdAction {
    /// Nothing further: stay at the current prompt.
    Done,
    /// Enter a new prompt mode whose prefix is the given text.
    EnterMode(String),
}

} // verus!
