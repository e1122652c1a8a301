//! The line editor: a key-event state machine over an input buffer.
//!
//! Each key event maps the current editor state to a new state, an optional
//! resolved token sequence, and a list of planned drawing steps. Tab and
//! Enter share one resolution algorithm: the buffer is split into words,
//! the words are walked against the command tree through the prefix matcher,
//! and unique matches are spliced back into the buffer as auto-completions.

use vstd::prelude::*;
use vstd::string::StrSliceExecFns;
use vstd::string::StringExecFns;

use crate::history::{history_append, HistoryHandle};
use crate::matcher::{matches_of, Matcher};
use crate::render::{completion_line, completion_line_view, invalid_input_line,
    missing_argument_line, steps_of, RenderCmd, RenderStep};
use crate::text::{is_ws_char, string_of_chars, trim_chars, trim_vec, ws_char};
use crate::tree::{find_child, find_child_idx, get_arg_values_vector, get_command_vocabulary,
    get_visible_command_vector, node_view, visible_words_of_children, words_of_children,
    ArgView, CommandNode, NodeView};
use crate::util::{str_rfind_last_word_separator, word_boundary};

verus! {

/// One word of the input line: `len` characters starting at offset `start`.
pub struct Token {
    pub start: usize,
    pub len: usize,
}

/// Ghost mirror of a [`Token`].
#[verifier::ext_equal]
pub struct TokSpan {
    pub start: int,
    pub len: int,
}

/// What a list of tokens means.
pub open spec fn toks_view(ts: Seq<Token>) -> Seq<TokSpan> {
    ts.map_values(|t: Token| TokSpan { start: t.start as int, len: t.len as int })
}

/// The word spans of `s`, scanning left to right from position `i`.
/// `word_start` is the start of the word currently open (when `in_word`), and
/// `acc` holds the spans already closed.
pub open spec fn scan_tokens(
    s: Seq<char>,
    i: int,
    word_start: int,
    in_word: bool,
    acc: Seq<TokSpan>,
) -> Seq<TokSpan>
    decreases s.len() - i,
{
    if i < 0 || i >= s.len() {
        if in_word {
            acc.push(TokSpan { start: word_start, len: i - word_start })
        } else {
            acc
        }
    } else if is_ws_char(s[i]) {
        if in_word {
            scan_tokens(s, i + 1, 0, false, acc.push(TokSpan { start: word_start, len: i - word_start }))
        } else {
            scan_tokens(s, i + 1, 0, false, acc)
        }
    } else {
        if in_word {
            scan_tokens(s, i + 1, word_start, true, acc)
        } else {
            scan_tokens(s, i + 1, i, true, acc)
        }
    }
}

/// The word spans of the whole line: maximal runs of non-whitespace.
pub open spec fn spec_tokens(s: Seq<char>) -> Seq<TokSpan> {
    scan_tokens(s, 0, 0, false, Seq::empty())
}

/// Every span denotes a non-empty range inside a line of length `n`.
pub open spec fn spans_in_range(ts: Seq<TokSpan>, n: int) -> bool {
    forall|k: int|
        0 <= k < ts.len() ==> 0 <= (#[trigger] ts[k]).start && ts[k].len > 0 && ts[k].start
            + ts[k].len <= n
}

/// Spans appear left to right without overlapping.
pub open spec fn spans_ordered(ts: Seq<TokSpan>) -> bool {
    forall|k: int|
        0 <= k < ts.len() - 1 ==> (#[trigger] ts[k]).start + ts[k].len <= ts[k + 1].start
}

proof fn lemma_scan_wf(s: Seq<char>, i: int, word_start: int, in_word: bool, acc: Seq<TokSpan>)
    requires
        0 <= i <= s.len(),
        in_word ==> 0 <= word_start < i,
        spans_in_range(
            acc,
            if in_word {
                word_start
            } else {
                i
            },
        ),
        spans_ordered(acc),
    ensures
        spans_in_range(scan_tokens(s, i, word_start, in_word, acc), s.len() as int),
        spans_ordered(scan_tokens(s, i, word_start, in_word, acc)),
        scan_tokens(s, i, word_start, in_word, acc).len() >= acc.len(),
    decreases s.len() - i,
{
    if i >= s.len() {
        if in_word {
            let r = acc.push(TokSpan { start: word_start, len: i - word_start });
            assert forall|k: int| 0 <= k < r.len() - 1 implies (#[trigger] r[k]).start + r[k].len
                <= r[k + 1].start by {
                if k < acc.len() - 1 {
                    assert(acc[k].start + acc[k].len <= acc[k + 1].start);
                }
            }
        }
    } else if is_ws_char(s[i]) {
        if in_word {
            let acc2 = acc.push(TokSpan { start: word_start, len: i - word_start });
            assert forall|k: int| 0 <= k < acc2.len() - 1 implies (#[trigger] acc2[k]).start
                + acc2[k].len <= acc2[k + 1].start by {
                if k < acc.len() - 1 {
                    assert(acc[k].start + acc[k].len <= acc[k + 1].start);
                }
            }
            lemma_scan_wf(s, i + 1, 0, false, acc2);
        } else {
            lemma_scan_wf(s, i + 1, 0, false, acc);
        }
    } else {
        if in_word {
            lemma_scan_wf(s, i + 1, word_start, true, acc);
        } else {
            lemma_scan_wf(s, i + 1, i, true, acc);
        }
    }
}

/// Splits the line into its word spans.
pub fn tokenize(v: &Vec<char>) -> (toks: Vec<Token>)
    ensures
        toks_view(toks@) == spec_tokens(v@),
        spans_in_range(spec_tokens(v@), v@.len() as int),
        spans_ordered(spec_tokens(v@)),
{
    let n = v.len();
    let mut toks: Vec<Token> = Vec::new();
    let mut in_word = false;
    let mut word_start: usize = 0;
    let mut i: usize = 0;
    proof {
        assert(toks_view(toks@) =~= Seq::<TokSpan>::empty());
    }
    while i < n
        invariant
            i <= n,
            n == v@.len(),
            in_word ==> word_start < i,
            spec_tokens(v@) == scan_tokens(
                v@,
                i as int,
                if in_word {
                    word_start as int
                } else {
                    0
                },
                in_word,
                toks_view(toks@),
            ),
        decreases n - i,
    {
        let ghost acc0 = toks_view(toks@);
        if ws_char(v[i]) {
            if in_word {
                toks.push(Token { start: word_start, len: i - word_start });
                proof {
                    assert(toks_view(toks@) =~= acc0.push(
                        TokSpan { start: word_start as int, len: i - word_start },
                    ));
                }
                in_word = false;
            }
        } else {
            if !in_word {
                word_start = i;
                in_word = true;
            }
        }
        i += 1;
    }
    if in_word {
        let ghost acc0 = toks_view(toks@);
        toks.push(Token { start: word_start, len: n - word_start });
        proof {
            assert(toks_view(toks@) =~= acc0.push(
                TokSpan { start: word_start as int, len: n - word_start },
            ));
        }
    }
    proof {
        lemma_scan_wf(v@, 0, 0, false, Seq::empty());
    }
    toks
}

/// The text of each span, in order.
pub open spec fn texts_of(s: Seq<char>, ts: Seq<TokSpan>) -> Seq<Seq<char>> {
    ts.map_values(|t: TokSpan| s.subrange(t.start, t.start + t.len))
}

/// Extracts the characters of one span as a string.
pub fn token_text(v: &Vec<char>, start: usize, len: usize) -> (r: String)
    requires
        start + len <= v@.len(),
    ensures
        r@ == v@.subrange(start as int, start as int + len as int),
{
    let mut r = String::new();
    let vn = v.len();
    let mut j: usize = 0;
    while j < len
        invariant
            j <= len,
            vn == v@.len(),
            start + len <= vn,
            r@ == v@.subrange(start as int, start as int + j as int),
        decreases len - j,
    {
        r.push(v[start + j]);
        proof {
            assert(v@.subrange(start as int, start as int + j + 1 as int) =~= v@.subrange(
                start as int,
                start as int + j as int,
            ).push(v@[start + j as int]));
        }
        j += 1;
    }
    r
}

/// The line with each word replaced by its canonical completion, keeping all
/// the whitespace between and around the words: the text before the first
/// span, then `canon[0]`, then the text between the spans, and so on.
pub open spec fn rebuild_from(
    s: Seq<char>,
    ts: Seq<TokSpan>,
    canon: Seq<Seq<char>>,
    pos: int,
) -> Seq<char>
    decreases ts.len(),
{
    if ts.len() == 0 {
        s.subrange(pos, s.len() as int)
    } else {
        s.subrange(pos, ts[0].start) + canon[0] + rebuild_from(
            s,
            ts.drop_first(),
            canon.drop_first(),
            ts[0].start + ts[0].len,
        )
    }
}

/// The line after auto-completion: the first `canon.len()` words are replaced
/// by their canonical completions, later words and all whitespace stay.
pub open spec fn completed_line(s: Seq<char>, canon: Seq<Seq<char>>) -> Seq<char> {
    let ts = spec_tokens(s);
    rebuild_from(s, ts, canon + texts_of(s, ts).skip(canon.len() as int), 0)
}

/// Appends `v[from..to]` to `out`.
fn push_range(out: &mut Vec<char>, v: &Vec<char>, from: usize, to: usize)
    requires
        from <= to <= v@.len(),
    ensures
        final(out)@ == old(out)@ + v@.subrange(from as int, to as int),
{
    let mut j: usize = from;
    proof {
        assert(old(out)@ + v@.subrange(from as int, from as int) =~= old(out)@);
    }
    while j < to
        invariant
            from <= j <= to <= v@.len(),
            out@ == old(out)@ + v@.subrange(from as int, j as int),
        decreases to - j,
    {
        out.push(v[j]);
        proof {
            assert(old(out)@ + v@.subrange(from as int, j + 1 as int) =~= (old(out)@ + v@.subrange(
                from as int,
                j as int,
            )).push(v@[j as int]));
        }
        j += 1;
    }
}

/// Appends the characters of `s` to `out`.
fn push_str_chars(out: &mut Vec<char>, s: &str)
    ensures
        final(out)@ == old(out)@ + s@,
{
    let n = s.unicode_len();
    let mut j: usize = 0;
    proof {
        assert(old(out)@ + s@.take(0) =~= old(out)@);
    }
    while j < n
        invariant
            j <= n,
            n == s@.len(),
            out@ == old(out)@ + s@.take(j as int),
        decreases n - j,
    {
        out.push(s.get_char(j));
        proof {
            assert(old(out)@ + s@.take(j + 1 as int) =~= (old(out)@ + s@.take(j as int)).push(
                s@[j as int],
            ));
        }
        j += 1;
    }
    proof {
        assert(s@.take(n as int) =~= s@);
    }
}

/// Builds the completed line: the word at each span is replaced by the
/// corresponding canonical word, whitespace is kept.
fn rebuild_exec(v: &Vec<char>, toks: &Vec<Token>, canon: &Vec<String>) -> (out: Vec<char>)
    requires
        toks@.len() == canon@.len(),
        spans_in_range(toks_view(toks@), v@.len() as int),
        spans_ordered(toks_view(toks@)),
    ensures
        out@ == rebuild_from(v@, toks_view(toks@), canon.deep_view(), 0),
{
    let ghost ts = toks_view(toks@);
    let ghost cv = canon.deep_view();
    let n = toks.len();
    let vn = v.len();
    let mut out: Vec<char> = Vec::new();
    let mut pos: usize = 0;
    let mut k: usize = 0;
    proof {
        assert(cv.len() == canon@.len());
        assert(ts.skip(0) =~= ts);
        assert(cv.skip(0) =~= cv);
    }
    while k < n
        invariant
            k <= n,
            n == toks@.len(),
            n == canon@.len(),
            ts == toks_view(toks@),
            cv == canon.deep_view(),
            ts.len() == n,
            cv.len() == n,
            vn == v@.len(),
            spans_in_range(ts, v@.len() as int),
            spans_ordered(ts),
            k < n ==> pos <= ts[k as int].start,
            k == n ==> pos <= v@.len(),
            k == 0 ==> pos == 0,
            k > 0 ==> pos == ts[k - 1 as int].start + ts[k - 1 as int].len,
            rebuild_from(v@, ts, cv, 0) == out@ + rebuild_from(
                v@,
                ts.skip(k as int),
                cv.skip(k as int),
                pos as int,
            ),
        decreases n - k,
    {
        let ghost t_tail = ts.skip(k as int);
        let ghost c_tail = cv.skip(k as int);
        proof {
            assert(t_tail[0] == ts[k as int]);
            assert(c_tail[0] == cv[k as int]);
            assert(t_tail.drop_first() =~= ts.skip(k + 1 as int));
            assert(c_tail.drop_first() =~= cv.skip(k + 1 as int));
            assert(toks_view(toks@)[k as int] == (TokSpan {
                start: toks@[k as int].start as int,
                len: toks@[k as int].len as int,
            }));
            assert(cv[k as int] == canon@[k as int]@);
        }
        let start = toks[k].start;
        let len = toks[k].len;
        let ghost out0 = out@;
        push_range(&mut out, v, pos, start);
        push_str_chars(&mut out, canon[k].as_str());
        proof {
            assert(out@ =~= out0 + v@.subrange(pos as int, start as int) + cv[k as int]);
            assert(out0 + rebuild_from(v@, t_tail, c_tail, pos as int) =~= out@ + rebuild_from(
                v@,
                ts.skip(k + 1 as int),
                cv.skip(k + 1 as int),
                start + len,
            ));
            if k + 1 < n {
                assert(ts[k as int].start + ts[k as int].len <= ts[k + 1 as int].start);
            }
        }
        pos = start + len;
        k += 1;
    }
    let ghost out0 = out@;
    push_range(&mut out, v, pos, v.len());
    proof {
        assert(ts.skip(n as int) =~= Seq::<TokSpan>::empty());
        assert(cv.skip(n as int) =~= Seq::<Seq<char>>::empty());
        assert(rebuild_from(v@, ts.skip(n as int), cv.skip(n as int), pos as int) == v@.subrange(
            pos as int,
            v@.len() as int,
        ));
        assert(out@ =~= out0 + v@.subrange(pos as int, v@.len() as int));
    }
    out
}


/// A word handed to the resolution walk: its text and whether the user had
/// already finished it with a trailing whitespace.
#[verifier::ext_equal]
pub struct TokView {
    pub text: Seq<char>,
    pub terminated: bool,
}

/// The words of the line as the walk sees them.
pub open spec fn token_views(s: Seq<char>, ts: Seq<TokSpan>) -> Seq<TokView> {
    ts.map_values(
        |t: TokSpan| TokView {
            text: s.subrange(t.start, t.start + t.len),
            terminated: t.start + t.len < s.len(),
        },
    )
}

/// The matching vocabulary at a node: the argument values when the node has
/// an argument slot, otherwise the names and aliases of its children.
pub open spec fn step_vocab(n: NodeView) -> Seq<Seq<char>> {
    match n.arg {
        Some(a) => a.values,
        None => words_of_children(n.children),
    }
}

/// Outcome of walking the words of the line against the command tree.
#[verifier::ext_equal]
pub enum SpecWalk {
    /// A word matched nothing, or matched several entries although it was
    /// already finished with a whitespace. `canon` holds the words resolved
    /// before the failure.
    Invalid { word: Seq<char>, canon: Seq<Seq<char>> },
    /// An unfinished word matched several entries: resolution is suspended
    /// and the candidates are offered.
    Suspend { cands: Seq<Seq<char>>, canon: Seq<Seq<char>> },
    /// Every word resolved. `canon` holds the canonical tokens, `node` is the
    /// tree position reached, and `arg_given` says whether the position's
    /// argument slot consumed at least one word.
    Done { node: NodeView, arg_given: bool, canon: Seq<Seq<char>> },
}

/// The resolution walk shared by Tab and Enter. At a node with a free-form
/// argument slot the word is consumed verbatim; at one with enumerated values
/// the word is matched against them; otherwise it is matched against the
/// children's names and aliases and the walk descends into the first matched
/// child.
pub open spec fn spec_walk(
    n: NodeView,
    toks: Seq<TokView>,
    arg_given: bool,
    canon: Seq<Seq<char>>,
) -> SpecWalk
    decreases toks.len(),
{
    if toks.len() == 0 {
        SpecWalk::Done { node: n, arg_given, canon }
    } else {
        let t = toks[0];
        match n.arg {
            Some(a) => {
                if a.values.len() == 0 {
                    spec_walk(n, toks.drop_first(), true, canon.push(t.text))
                } else {
                    let ms = matches_of(a.values, t.text);
                    if ms.len() == 0 || (ms.len() > 1 && t.terminated) {
                        SpecWalk::Invalid { word: t.text, canon }
                    } else if ms.len() > 1 {
                        SpecWalk::Suspend { cands: ms, canon }
                    } else {
                        spec_walk(n, toks.drop_first(), true, canon.push(ms[0]))
                    }
                }
            },
            None => {
                let ms = matches_of(words_of_children(n.children), t.text);
                if ms.len() == 0 || (ms.len() > 1 && t.terminated) {
                    SpecWalk::Invalid { word: t.text, canon }
                } else if ms.len() > 1 {
                    SpecWalk::Suspend { cands: ms, canon }
                } else {
                    let w = ms[0];
                    let ci = find_child_idx(n.children, w);
                    if ci < 0 {
                        SpecWalk::Invalid { word: t.text, canon }
                    } else {
                        spec_walk(n.children[ci], toks.drop_first(), arg_given, canon.push(w))
                    }
                }
            },
        }
    }
}

/// Executable outcome of the resolution walk.
pub enum WalkOutcome<'a> {
    Invalid { word: String, canon: Vec<String> },
    Suspend { candidates: Vec<String>, canon: Vec<String> },
    Done { node: &'a CommandNode, arg_given: bool, canon: Vec<String> },
}

/// The executable outcome carries the same data as the ghost one.
pub open spec fn walk_agrees<'a>(r: WalkOutcome<'a>, g: SpecWalk) -> bool {
    match r {
        WalkOutcome::Invalid { word, canon } => g matches SpecWalk::Invalid {
            word: gw,
            canon: gc,
        } && word@ == gw && canon.deep_view() == gc,
        WalkOutcome::Suspend { candidates, canon } => g matches SpecWalk::Suspend {
            cands: gs,
            canon: gc,
        } && candidates.deep_view() == gs && canon.deep_view() == gc,
        WalkOutcome::Done { node, arg_given, canon } => g matches SpecWalk::Done {
            node: gn,
            arg_given: ga,
            canon: gc,
        } && node_view(*node) == gn && arg_given == ga && canon.deep_view() == gc,
    }
}

/// Walks the words of the line against the command tree; see [`spec_walk`].
fn resolve_walk<'a>(root: &'a CommandNode, v: &Vec<char>, toks: &Vec<Token>) -> (r: WalkOutcome<
    'a,
>)
    requires
        spans_in_range(toks_view(toks@), v@.len() as int),
    ensures
        walk_agrees(
            r,
            spec_walk(node_view(*root), token_views(v@, toks_view(toks@)), false, Seq::empty()),
        ),
{
    let ghost tvs = token_views(v@, toks_view(toks@));
    let mut cur: &CommandNode = root;
    let mut arg_given = false;
    let mut canon: Vec<String> = Vec::new();
    let n = toks.len();
    let vn = v.len();
    let mut k: usize = 0;
    proof {
        assert(tvs.skip(0) =~= tvs);
        assert(canon.deep_view() =~= Seq::<Seq<char>>::empty());
    }
    while k < n
        invariant
            k <= n,
            n == toks@.len(),
            vn == v@.len(),
            tvs == token_views(v@, toks_view(toks@)),
            tvs.len() == n,
            spans_in_range(toks_view(toks@), v@.len() as int),
            spec_walk(node_view(*root), tvs, false, Seq::empty()) == spec_walk(
                node_view(*cur),
                tvs.skip(k as int),
                arg_given,
                canon.deep_view(),
            ),
        decreases n - k,
    {
        let ghost tail = tvs.skip(k as int);
        let ghost span = toks_view(toks@)[k as int];
        proof {
            assert(tail[0] == tvs[k as int]);
            assert(span == (TokSpan {
                start: toks@[k as int].start as int,
                len: toks@[k as int].len as int,
            }));
            assert(tvs[k as int] == (TokView {
                text: v@.subrange(span.start, span.start + span.len),
                terminated: span.start + span.len < v@.len(),
            }));
            assert(tail.drop_first() =~= tvs.skip(k + 1 as int));
        }
        let start = toks[k].start;
        let len = toks[k].len;
        let text = token_text(v, start, len);
        let terminated = start + len < vn;
        match &cur.arg {
            Some(a) => {
                proof {
                    assert(node_view(*cur).arg == Some(crate::tree::arg_view(*a)));
                    assert(crate::tree::arg_view(*a).values.len() == a.values@.len());
                }
                if a.values.len() == 0 {
                    let ghost c0 = canon.deep_view();
                    canon.push(text);
                    proof {
                        assert(canon.deep_view() =~= c0.push(tail[0].text));
                    }
                    arg_given = true;
                } else {
                    let vocab = get_arg_values_vector(a);
                    let m = Matcher::build(vocab);
                    let ms = m.collect_matches(&text);
                    let ghost msv = matches_of(crate::tree::arg_view(*a).values, tail[0].text);
                    proof {
                        assert(ms.deep_view() == msv);
                        assert(ms.deep_view().len() == ms@.len());
                    }
                    if ms.len() == 0 || (ms.len() > 1 && terminated) {
                        return WalkOutcome::Invalid { word: text, canon };
                    } else if ms.len() > 1 {
                        return WalkOutcome::Suspend { candidates: ms, canon };
                    } else {
                        let w = ms[0].clone();
                        proof {
                            assert(ms.deep_view()[0] == ms@[0]@);
                            assert(w@ == msv[0]);
                        }
                        let ghost c0 = canon.deep_view();
                        canon.push(w);
                        proof {
                            assert(canon.deep_view() =~= c0.push(msv[0]));
                        }
                        arg_given = true;
                    }
                }
            },
            None => {
                proof {
                    assert(node_view(*cur).arg is None);
                }
                let vocab = get_command_vocabulary(cur);
                let m = Matcher::build(vocab);
                let ms = m.collect_matches(&text);
                let ghost msv = matches_of(
                    words_of_children(node_view(*cur).children),
                    tail[0].text,
                );
                proof {
                    assert(ms.deep_view() == msv);
                    assert(ms.deep_view().len() == ms@.len());
                }
                if ms.len() == 0 || (ms.len() > 1 && terminated) {
                    return WalkOutcome::Invalid { word: text, canon };
                } else if ms.len() > 1 {
                    return WalkOutcome::Suspend { candidates: ms, canon };
                } else {
                    let w = ms[0].clone();
                    proof {
                        assert(ms.deep_view()[0] == ms@[0]@);
                        assert(w@ == msv[0]);
                    }
                    match find_child(cur, &w) {
                        Some(c) => {
                            let ghost c0 = canon.deep_view();
                            canon.push(w);
                            proof {
                                assert(canon.deep_view() =~= c0.push(msv[0]));
                            }
                            cur = c;
                        },
                        None => {
                            return WalkOutcome::Invalid { word: text, canon };
                        },
                    }
                }
            },
        }
        k += 1;
    }
    proof {
        assert(tvs.skip(n as int) =~= Seq::<TokView>::empty());
    }
    WalkOutcome::Done { node: cur, arg_given, canon }
}


/// The key events the editor understands, one consumed per loop iteration.
#[derive(Clone, Copy)]
pub enum KeyEvent {
    /// A printable character.
    Character(char),
    /// Backspace; `word` is true when the word-delete modifier was held.
    Backspace { word: bool },
    Tab,
    Enter,
    ArrowUp,
    ArrowDown,
    CtrlC,
    CtrlD,
    CtrlL,
    /// Any other key: ignored.
    Other,
}

/// Whether the editor keeps reading or has resolved the line into tokens.
pub enum EditorStep {
    Continue,
    Resolved(Vec<String>),
}

/// What an editor step means: nothing yet, or the resolved tokens.
pub open spec fn step_view(s: EditorStep) -> Option<Seq<Seq<char>>> {
    match s {
        EditorStep::Continue => None,
        EditorStep::Resolved(ts) => Some(ts.deep_view()),
    }
}

/// Ghost state of a prompt: the styled prompt texts, the input buffer, the
/// history log with its scroll cursor, the pending snapshot of the live edit,
/// and whether a suggestion line is currently shown below the cursor.
#[verifier::ext_equal]
pub struct PromptView {
    pub prefix: Seq<char>,
    pub symbol: Seq<char>,
    pub buffer: Seq<char>,
    pub lines: Seq<Seq<char>>,
    pub cursor: int,
    pub snapshot: Option<Seq<char>>,
    pub suggesting: bool,
}

/// What one key event does to the prompt: the new state, the resolved tokens
/// if the line resolved, and the planned drawing steps.
pub type KeyResult = (PromptView, Option<Seq<Seq<char>>>, Seq<RenderStep>);

/// A typed character is appended to the buffer and echoed.
pub open spec fn char_result(pre: PromptView, c: char) -> KeyResult {
    (
        PromptView { buffer: pre.buffer.push(c), ..pre },
        None,
        seq![RenderStep::Text(seq![c])],
    )
}

/// Backspace removes the last character, or with the word-delete modifier the
/// whole span back to the last word boundary, and clears what was erased; a
/// suggestion line below is cleared too. An empty buffer ignores the key.
pub open spec fn backspace_result(pre: PromptView, word: bool) -> KeyResult {
    if pre.buffer.len() == 0 {
        (pre, None, Seq::empty())
    } else {
        let cut = if word {
            word_boundary(pre.buffer)
        } else {
            pre.buffer.len() - 1
        };
        let count = pre.buffer.len() - cut;
        let erase: Seq<RenderStep> = if count > 0 {
            seq![RenderStep::EraseBack(count)]
        } else {
            Seq::empty()
        };
        let clear: Seq<RenderStep> = if pre.suggesting {
            seq![RenderStep::ClearLineBelow]
        } else {
            Seq::empty()
        };
        (
            PromptView { buffer: pre.buffer.take(cut), suggesting: false, ..pre },
            None,
            erase + clear,
        )
    }
}

/// The interrupt key echoes `^C`, reprints the prompt on a fresh line and
/// clears the buffer; the session stays alive.
pub open spec fn ctrl_c_result(pre: PromptView) -> KeyResult {
    (
        PromptView { buffer: Seq::empty(), ..pre },
        None,
        seq![
            RenderStep::Text("^C"@),
            RenderStep::AdvanceLine,
            RenderStep::Prompt { prefix: pre.prefix, symbol: pre.symbol },
        ],
    )
}

/// The end-of-input key resolves an empty buffer to the exit directive and
/// adds nothing to the history; with text in the buffer it is ignored.
pub open spec fn ctrl_d_result(pre: PromptView) -> KeyResult {
    if pre.buffer.len() == 0 {
        (pre, Some(seq!["exit"@]), seq![RenderStep::Text("^D"@), RenderStep::AdvanceLine])
    } else {
        (pre, None, Seq::empty())
    }
}

/// The clear-screen key scrolls everything above the cursor out of view and
/// leaves the buffer untouched.
pub open spec fn ctrl_l_result(pre: PromptView) -> KeyResult {
    (pre, None, seq![RenderStep::ClearAbove])
}

/// Arrow up browses one entry back in the history. On first use the live
/// buffer is snapshotted. At the top of the log (or with no log) nothing
/// happens.
pub open spec fn arrow_up_result(pre: PromptView) -> KeyResult {
    if pre.cursor == 0 || pre.lines.len() == 0 {
        (pre, None, Seq::empty())
    } else {
        let text = pre.lines[pre.cursor - 1];
        let snap = if pre.snapshot is None {
            Some(pre.buffer)
        } else {
            pre.snapshot
        };
        let erase: Seq<RenderStep> = if pre.buffer.len() > 0 {
            seq![RenderStep::EraseBack(pre.buffer.len() as int)]
        } else {
            Seq::empty()
        };
        (
            PromptView { buffer: text, cursor: pre.cursor - 1, snapshot: snap, ..pre },
            None,
            erase + seq![RenderStep::Text(text)],
        )
    }
}

/// Arrow down browses one entry forward. Stepping past the last entry
/// restores the snapshotted live edit; at the bottom the buffer is only
/// redrawn.
pub open spec fn arrow_down_result(pre: PromptView) -> KeyResult {
    let erase: Seq<RenderStep> = if pre.buffer.len() > 0 {
        seq![RenderStep::EraseBack(pre.buffer.len() as int)]
    } else {
        Seq::empty()
    };
    if pre.cursor < pre.lines.len() && pre.cursor + 1 < pre.lines.len() {
        let text = pre.lines[pre.cursor + 1];
        (
            PromptView { buffer: text, cursor: pre.cursor + 1, ..pre },
            None,
            erase + seq![RenderStep::Text(text)],
        )
    } else {
        let cursor2 = if pre.cursor < pre.lines.len() {
            pre.cursor + 1
        } else {
            pre.cursor
        };
        match pre.snapshot {
            Some(snap) => (
                PromptView { buffer: snap, cursor: cursor2, snapshot: None, ..pre },
                None,
                erase + seq![RenderStep::Text(snap)],
            ),
            None => (
                PromptView { cursor: cursor2, ..pre },
                None,
                erase + seq![RenderStep::Text(pre.buffer)],
            ),
        }
    }
}

/// The line editor: owns the input buffer and the history, and maps key
/// events to new state plus planned drawing steps.
pub struct Prompt {
    prefix: String,
    symbol: String,
    user_input: Vec<char>,
    history: HistoryHandle,
    last_prompt: Option<String>,
    suggestion_printed_below: bool,
}

impl View for Prompt {
    type V = PromptView;

    closed spec fn view(&self) -> PromptView {
        PromptView {
            prefix: self.prefix@,
            symbol: self.symbol@,
            buffer: self.user_input@,
            lines: self.history.lines_view(),
            cursor: self.history.cursor(),
            snapshot: match self.last_prompt {
                Some(v) => Some(v@),
                None => None,
            },
            suggesting: self.suggestion_printed_below,
        }
    }
}

impl Prompt {
    /// The scroll cursor never leaves the history log.
    pub closed spec fn wf(&self) -> bool {
        self.history.wf()
    }

    /// A fresh prompt with the default styling, empty buffer and history.
    pub fn new() -> (p: Prompt)
        ensures
            p@ == (PromptView {
                prefix: "cli"@,
                symbol: ">"@,
                buffer: Seq::empty(),
                lines: Seq::empty(),
                cursor: 0,
                snapshot: None,
                suggesting: false,
            }),
            p.wf(),
    {
        let p = Prompt {
            prefix: String::from_str("cli"),
            symbol: String::from_str(">"),
            user_input: Vec::new(),
            history: HistoryHandle::get(),
            last_prompt: None,
            suggestion_printed_below: false,
        };
        proof {
            assert(p@ =~= (PromptView {
                prefix: "cli"@,
                symbol: ">"@,
                buffer: Seq::empty(),
                lines: Seq::empty(),
                cursor: 0,
                snapshot: None,
                suggesting: false,
            }));
        }
        p
    }

    /// Updates the prompt prefix shown before the symbol.
    pub fn set_prefix(&mut self, p: String)
        requires
            old(self).wf(),
        ensures
            final(self)@ == (PromptView { prefix: p@, ..old(self)@ }),
            final(self).wf(),
    {
        self.prefix = p;
        proof {
            assert(self@ =~= (PromptView { prefix: self.prefix@, ..old(self)@ }));
        }
    }

    /// Updates the prompt symbol shown after the prefix.
    pub fn set_symbol(&mut self, s: String)
        requires
            old(self).wf(),
        ensures
            final(self)@ == (PromptView { symbol: s@, ..old(self)@ }),
            final(self).wf(),
    {
        self.symbol = s;
        proof {
            assert(self@ =~= (PromptView { symbol: self.symbol@, ..old(self)@ }));
        }
    }

    /// The current buffer as text.
    pub fn buffer_string(&self) -> (r: String)
        ensures
            r@ == self@.buffer,
    {
        string_of_chars(&self.user_input)
    }

    /// The history log underneath this prompt.
    pub fn history(&self) -> (h: &HistoryHandle)
        ensures
            h.lines_view() == self@.lines,
            h.cursor() == self@.cursor,
    {
        &self.history
    }

    /// Begins a fresh prompt: empty buffer, no snapshot, no suggestion line,
    /// scroll cursor at the bottom of the history, and the prompt printed.
    pub fn start_prompt(&mut self) -> (cmds: Vec<RenderCmd>)
        requires
            old(self).wf(),
        ensures
            final(self)@ == (PromptView {
                buffer: Seq::empty(),
                snapshot: None,
                suggesting: false,
                cursor: old(self)@.lines.len() as int,
                ..old(self)@
            }),
            final(self).wf(),
            steps_of(cmds@) == seq![
                RenderStep::Prompt { prefix: old(self)@.prefix, symbol: old(self)@.symbol },
            ],
    {
        self.user_input = Vec::new();
        self.last_prompt = None;
        self.suggestion_printed_below = false;
        self.history.reset_cursor();
        let mut cmds: Vec<RenderCmd> = Vec::new();
        cmds.push(RenderCmd::Prompt { prefix: self.prefix.clone(), symbol: self.symbol.clone() });
        proof {
            assert(self@ =~= (PromptView {
                buffer: Seq::empty(),
                snapshot: None,
                suggesting: false,
                cursor: old(self)@.lines.len() as int,
                ..old(self)@
            }));
            assert(steps_of(cmds@) =~= seq![
                RenderStep::Prompt { prefix: old(self)@.prefix, symbol: old(self)@.symbol },
            ]);
        }
        cmds
    }

    fn on_char(&mut self, c: char) -> (r: (EditorStep, Vec<RenderCmd>))
        requires
            old(self).wf(),
        ensures
            final(self).wf(),
            ({
                let (post, out, steps) = char_result(old(self)@, c);
                final(self)@ == post && step_view(r.0) == out && steps_of(r.1@) == steps
            }),
    {
        self.user_input.push(c);
        let mut echo = String::new();
        echo.push(c);
        let mut cmds: Vec<RenderCmd> = Vec::new();
        cmds.push(RenderCmd::Text(echo));
        proof {
            assert(self@ =~= (PromptView { buffer: old(self)@.buffer.push(c), ..old(self)@ }));
            assert(steps_of(cmds@) =~= seq![RenderStep::Text(seq![c])]);
        }
        (EditorStep::Continue, cmds)
    }

    fn on_backspace(&mut self, word: bool) -> (r: (EditorStep, Vec<RenderCmd>))
        requires
            old(self).wf(),
        ensures
            final(self).wf(),
            ({
                let (post, out, steps) = backspace_result(old(self)@, word);
                final(self)@ == post && step_view(r.0) == out && steps_of(r.1@) == steps
            }),
    {
        let mut cmds: Vec<RenderCmd> = Vec::new();
        if self.user_input.len() == 0 {
            proof {
                assert(self@ =~= old(self)@);
                assert(steps_of(cmds@) =~= Seq::<RenderStep>::empty());
            }
            return (EditorStep::Continue, cmds);
        }
        let blen = self.user_input.len();
        let cut: usize = if word {
            let text = string_of_chars(&self.user_input);
            str_rfind_last_word_separator(text.as_str())
        } else {
            blen - 1
        };
        let count = blen - cut;
        self.user_input.truncate(cut);
        if count > 0 {
            cmds.push(RenderCmd::EraseBack(count));
        }
        let ghost erased = cmds@;
        if self.suggestion_printed_below {
            cmds.push(RenderCmd::ClearLineBelow);
            self.suggestion_printed_below = false;
        }
        proof {
            let (post, out, steps) = backspace_result(old(self)@, word);
            assert(self.user_input@ =~= old(self)@.buffer.take(cut as int));
            assert(self@ =~= post);
            assert(steps_of(cmds@) =~= steps);
        }
        (EditorStep::Continue, cmds)
    }

    fn on_ctrl_c(&mut self) -> (r: (EditorStep, Vec<RenderCmd>))
        requires
            old(self).wf(),
        ensures
            final(self).wf(),
            ({
                let (post, out, steps) = ctrl_c_result(old(self)@);
                final(self)@ == post && step_view(r.0) == out && steps_of(r.1@) == steps
            }),
    {
        self.user_input = Vec::new();
        let mut cmds: Vec<RenderCmd> = Vec::new();
        cmds.push(RenderCmd::Text(String::from_str("^C")));
        cmds.push(RenderCmd::AdvanceLine);
        cmds.push(RenderCmd::Prompt { prefix: self.prefix.clone(), symbol: self.symbol.clone() });
        proof {
            let (post, out, steps) = ctrl_c_result(old(self)@);
            assert(self@ =~= post);
            assert(steps_of(cmds@) =~= steps);
        }
        (EditorStep::Continue, cmds)
    }

    fn on_ctrl_d(&mut self) -> (r: (EditorStep, Vec<RenderCmd>))
        requires
            old(self).wf(),
        ensures
            final(self).wf(),
            ({
                let (post, out, steps) = ctrl_d_result(old(self)@);
                final(self)@ == post && step_view(r.0) == out && steps_of(r.1@) == steps
            }),
    {
        let mut cmds: Vec<RenderCmd> = Vec::new();
        if self.user_input.len() == 0 {
            cmds.push(RenderCmd::Text(String::from_str("^D")));
            cmds.push(RenderCmd::AdvanceLine);
            let mut tokens: Vec<String> = Vec::new();
            tokens.push(String::from_str("exit"));
            proof {
                let (post, out, steps) = ctrl_d_result(old(self)@);
                assert(self@ =~= post);
                assert(tokens.deep_view() =~= seq!["exit"@]);
                assert(steps_of(cmds@) =~= steps);
            }
            (EditorStep::Resolved(tokens), cmds)
        } else {
            proof {
                assert(self@ =~= old(self)@);
                assert(steps_of(cmds@) =~= Seq::<RenderStep>::empty());
            }
            (EditorStep::Continue, cmds)
        }
    }

    fn on_ctrl_l(&mut self) -> (r: (EditorStep, Vec<RenderCmd>))
        requires
            old(self).wf(),
        ensures
            final(self).wf(),
            ({
                let (post, out, steps) = ctrl_l_result(old(self)@);
                final(self)@ == post && step_view(r.0) == out && steps_of(r.1@) == steps
            }),
    {
        let mut cmds: Vec<RenderCmd> = Vec::new();
        cmds.push(RenderCmd::ClearAbove);
        proof {
            assert(self@ =~= old(self)@);
            assert(steps_of(cmds@) =~= seq![RenderStep::ClearAbove]);
        }
        (EditorStep::Continue, cmds)
    }

    fn on_arrow_up(&mut self) -> (r: (EditorStep, Vec<RenderCmd>))
        requires
            old(self).wf(),
        ensures
            final(self).wf(),
            ({
                let (post, out, steps) = arrow_up_result(old(self)@);
                final(self)@ == post && step_view(r.0) == out && steps_of(r.1@) == steps
            }),
    {
        let mut cmds: Vec<RenderCmd> = Vec::new();
        match self.history.up_next() {
            Some(text) => {
                let count = self.user_input.len();
                if self.last_prompt.is_none() {
                    self.last_prompt = Some(string_of_chars(&self.user_input));
                }
                self.user_input = chars_of_string(&text);
                if count > 0 {
                    cmds.push(RenderCmd::EraseBack(count));
                }
                cmds.push(RenderCmd::Text(text));
                proof {
                    let (post, out, steps) = arrow_up_result(old(self)@);
                    assert(self@ =~= post);
                    assert(steps_of(cmds@) =~= steps);
                }
                (EditorStep::Continue, cmds)
            },
            None => {
                proof {
                    assert(self@ =~= old(self)@);
                    assert(steps_of(cmds@) =~= Seq::<RenderStep>::empty());
                }
                (EditorStep::Continue, cmds)
            },
        }
    }

    fn on_arrow_down(&mut self) -> (r: (EditorStep, Vec<RenderCmd>))
        requires
            old(self).wf(),
        ensures
            final(self).wf(),
            ({
                let (post, out, steps) = arrow_down_result(old(self)@);
                final(self)@ == post && step_view(r.0) == out && steps_of(r.1@) == steps
            }),
    {
        let mut cmds: Vec<RenderCmd> = Vec::new();
        let count = self.user_input.len();
        match self.history.down_next() {
            Some(text) => {
                self.user_input = chars_of_string(&text);
                if count > 0 {
                    cmds.push(RenderCmd::EraseBack(count));
                }
                cmds.push(RenderCmd::Text(text));
                proof {
                    let (post, out, steps) = arrow_down_result(old(self)@);
                    assert(self@ =~= post);
                    assert(steps_of(cmds@) =~= steps);
                }
                (EditorStep::Continue, cmds)
            },
            None => {
                if count > 0 {
                    cmds.push(RenderCmd::EraseBack(count));
                }
                match &self.last_prompt {
                    Some(snap) => {
                        let sv = snap.clone();
                        self.user_input = chars_of_string(&sv);
                        self.last_prompt = None;
                        cmds.push(RenderCmd::Text(sv));
                    },
                    None => {
                        let shown = string_of_chars(&self.user_input);
                        cmds.push(RenderCmd::Text(shown));
                    },
                }
                proof {
                    let (post, out, steps) = arrow_down_result(old(self)@);
                    assert(self@ =~= post);
                    assert(steps_of(cmds@) =~= steps);
                }
                (EditorStep::Continue, cmds)
            },
        }
    }
}

/// Collects the characters of a string into a vector.
fn chars_of_string(s: &String) -> (v: Vec<char>)
    ensures
        v@ == s@,
{
    crate::text::chars_of_str(s.as_str())
}


/// The canonical words collected by the walk never outnumber the words of
/// the line, and on full success they match them one for one.
proof fn lemma_walk_canon_len(
    n: NodeView,
    toks: Seq<TokView>,
    arg_given: bool,
    canon: Seq<Seq<char>>,
)
    ensures
        match spec_walk(n, toks, arg_given, canon) {
            SpecWalk::Invalid { word, canon: c } => canon.len() <= c.len() <= canon.len()
                + toks.len(),
            SpecWalk::Suspend { cands, canon: c } => canon.len() <= c.len() <= canon.len()
                + toks.len(),
            SpecWalk::Done { node, arg_given: ag, canon: c } => c.len() == canon.len()
                + toks.len(),
        },
    decreases toks.len(),
{
    if toks.len() > 0 {
        let t = toks[0];
        match n.arg {
            Some(a) => {
                if a.values.len() == 0 {
                    lemma_walk_canon_len(n, toks.drop_first(), true, canon.push(t.text));
                } else {
                    let ms = matches_of(a.values, t.text);
                    if !(ms.len() == 0 || (ms.len() > 1 && t.terminated)) && ms.len() <= 1 {
                        lemma_walk_canon_len(n, toks.drop_first(), true, canon.push(ms[0]));
                    }
                }
            },
            None => {
                let ms = matches_of(words_of_children(n.children), t.text);
                if !(ms.len() == 0 || (ms.len() > 1 && t.terminated)) && ms.len() <= 1 {
                    let w = ms[0];
                    let ci = find_child_idx(n.children, w);
                    if ci >= 0 {
                        lemma_walk_canon_len(
                            n.children[ci],
                            toks.drop_first(),
                            arg_given,
                            canon.push(w),
                        );
                    }
                }
            },
        }
    }
}

/// Extends the canonical words with the raw texts of the words left over,
/// so that every word of the line has a replacement.
fn pad_canon(v: &Vec<char>, toks: &Vec<Token>, canon: Vec<String>) -> (r: Vec<String>)
    requires
        canon@.len() <= toks@.len(),
        spans_in_range(toks_view(toks@), v@.len() as int),
    ensures
        r.deep_view() == canon.deep_view() + texts_of(v@, toks_view(toks@)).skip(
            canon@.len() as int,
        ),
        r@.len() == toks@.len(),
{
    let ghost txts = texts_of(v@, toks_view(toks@));
    let mut r = canon;
    let k0 = r.len();
    let n = toks.len();
    let ghost cd = r.deep_view();
    let mut k: usize = k0;
    proof {
        assert(cd.len() == k0);
        assert(cd + txts.subrange(k0 as int, k0 as int) =~= cd);
    }
    while k < n
        invariant
            k0 <= k <= n,
            n == toks@.len(),
            txts == texts_of(v@, toks_view(toks@)),
            spans_in_range(toks_view(toks@), v@.len() as int),
            r@.len() == k,
            r.deep_view() == cd + txts.subrange(k0 as int, k as int),
        decreases n - k,
    {
        proof {
            assert(toks_view(toks@)[k as int] == (TokSpan {
                start: toks@[k as int].start as int,
                len: toks@[k as int].len as int,
            }));
            assert(txts[k as int] == v@.subrange(
                toks@[k as int].start as int,
                toks@[k as int].start as int + toks@[k as int].len as int,
            ));
        }
        let ghost r0 = r.deep_view();
        let t = token_text(v, toks[k].start, toks[k].len);
        r.push(t);
        proof {
            assert(r.deep_view() =~= r0.push(txts[k as int]));
            assert(cd + txts.subrange(k0 as int, k + 1 as int) =~= r.deep_view());
        }
        k += 1;
    }
    proof {
        assert(txts.subrange(k0 as int, n as int) =~= txts.skip(k0 as int));
    }
    r
}

/// Character-wise equality of two character vectors.
fn chars_eq(a: &Vec<char>, b: &Vec<char>) -> (r: bool)
    ensures
        r == (a@ == b@),
{
    let na = a.len();
    let nb = b.len();
    if na != nb {
        return false;
    }
    let mut i: usize = 0;
    while i < na
        invariant
            i <= na,
            na == a@.len(),
            na == b@.len(),
            forall|j: int| 0 <= j < i ==> a@[j] == b@[j],
        decreases na - i,
    {
        if a[i] != b[i] {
            return false;
        }
        i += 1;
    }
    proof {
        assert(a@ =~= b@);
    }
    true
}

/// A fully resolved line asks for the next level when it already ends with a
/// whitespace and the reached node still has subcommands or an argument slot
/// that consumed nothing.
pub open spec fn wants_browse(n: NodeView, arg_given: bool, s: Seq<char>) -> bool {
    s.len() > 0 && is_ws_char(s[s.len() - 1]) && (n.children.len() > 0 || (n.arg is Some
        && !arg_given))
}

/// What the next-level listing shows: the node's subcommands, or the values
/// of its argument slot.
pub open spec fn browse_words(n: NodeView) -> Seq<Seq<char>> {
    if n.children.len() > 0 {
        visible_words_of_children(n.children)
    } else {
        match n.arg {
            Some(a) => a.values,
            None => Seq::empty(),
        }
    }
}

/// The complaint shown for an unmatched word.
pub open spec fn invalid_line_view(word: Seq<char>) -> Seq<char> {
    "x Invalid input: "@ + word
}

/// Tab on an empty buffer does nothing. Otherwise it first clears a stale
/// suggestion line and resolves the line: an invalid word changes nothing
/// further; ambiguity shows the candidates below the cursor and leaves the
/// buffer alone; a trailing-space line browses the next level; and a changed
/// completion is spliced into the buffer, which is redrawn with a trailing
/// space appended.
pub open spec fn tab_result(tree: NodeView, pre: PromptView) -> KeyResult {
    let clear: Seq<RenderStep> = if pre.suggesting {
        seq![RenderStep::ClearLineBelow]
    } else {
        Seq::empty()
    };
    if pre.buffer.len() == 0 {
        (pre, None, Seq::empty())
    } else {
        let g = spec_walk(tree, token_views(pre.buffer, spec_tokens(pre.buffer)), false, Seq::empty());
        match g {
            SpecWalk::Invalid { word, canon } => (
                PromptView { suggesting: false, ..pre },
                None,
                clear,
            ),
            SpecWalk::Suspend { cands, canon } => (
                PromptView { suggesting: true, ..pre },
                None,
                clear + seq![RenderStep::LineBelow(completion_line_view(cands))],
            ),
            SpecWalk::Done { node, arg_given, canon } => {
                if wants_browse(node, arg_given, pre.buffer) {
                    (
                        PromptView { suggesting: true, ..pre },
                        None,
                        clear + seq![
                            RenderStep::LineBelow(completion_line_view(browse_words(node))),
                        ],
                    )
                } else {
                    let completed = completed_line(pre.buffer, canon);
                    if completed == pre.buffer {
                        (PromptView { suggesting: false, ..pre }, None, clear)
                    } else {
                        (
                            PromptView { buffer: completed.push(' '), suggesting: false, ..pre },
                            None,
                            clear + seq![
                                RenderStep::CursorToStart,
                                RenderStep::Prompt { prefix: pre.prefix, symbol: pre.symbol },
                                RenderStep::Text(completed),
                                RenderStep::Text(" "@),
                            ],
                        )
                    }
                }
            },
        }
    }
}

/// Enter first clears a stale suggestion line; an empty buffer only reprints
/// the prompt. Otherwise the line is resolved: an unmatched word complains,
/// records the trimmed line in the history and clears the buffer; ambiguity
/// and next-level browsing reprint the prompt with the buffer unchanged; on
/// full resolution the completed line is echoed and recorded, and either the
/// missing-argument complaint reprompts with a cleared buffer, or the line
/// resolves into its canonical tokens.
pub open spec fn enter_result(tree: NodeView, pre: PromptView) -> KeyResult {
    let clear: Seq<RenderStep> = if pre.suggesting {
        seq![RenderStep::ClearLineBelow]
    } else {
        Seq::empty()
    };
    let prompt = RenderStep::Prompt { prefix: pre.prefix, symbol: pre.symbol };
    if pre.buffer.len() == 0 {
        (PromptView { suggesting: false, ..pre }, None, clear + seq![prompt])
    } else {
        let g = spec_walk(tree, token_views(pre.buffer, spec_tokens(pre.buffer)), false, Seq::empty());
        match g {
            SpecWalk::Invalid { word, canon } => {
                let line = trim_chars(completed_line(pre.buffer, canon));
                let lines2 = if line.len() > 0 {
                    history_append(pre.lines, line)
                } else {
                    pre.lines
                };
                (
                    PromptView { buffer: Seq::empty(), lines: lines2, suggesting: false, ..pre },
                    None,
                    clear + seq![
                        RenderStep::AdvanceLine,
                        RenderStep::Text(invalid_line_view(word)),
                        RenderStep::AdvanceLine,
                        prompt,
                    ],
                )
            },
            SpecWalk::Suspend { cands, canon } => (
                PromptView { suggesting: false, ..pre },
                None,
                clear + seq![
                    RenderStep::AdvanceLine,
                    RenderStep::Text(completion_line_view(cands)),
                    prompt,
                    RenderStep::Text(pre.buffer),
                ],
            ),
            SpecWalk::Done { node, arg_given, canon } => {
                if wants_browse(node, arg_given, pre.buffer) {
                    (
                        PromptView { suggesting: false, ..pre },
                        None,
                        clear + seq![
                            RenderStep::AdvanceLine,
                            RenderStep::Text(completion_line_view(browse_words(node))),
                            prompt,
                            RenderStep::Text(pre.buffer),
                        ],
                    )
                } else {
                    let completed = completed_line(pre.buffer, canon);
                    let line = trim_chars(completed);
                    let lines2 = if line.len() > 0 {
                        history_append(pre.lines, line)
                    } else {
                        pre.lines
                    };
                    let shown = seq![
                        RenderStep::CursorToStart,
                        prompt,
                        RenderStep::Text(completed),
                        RenderStep::FreshLine,
                    ];
                    let missing = match node.arg {
                        Some(a) => a.required && !arg_given,
                        None => false,
                    };
                    if missing {
                        (
                            PromptView {
                                buffer: Seq::empty(),
                                lines: lines2,
                                suggesting: false,
                                ..pre
                            },
                            None,
                            clear + shown + seq![
                                RenderStep::Text("Missing argument"@),
                                RenderStep::AdvanceLine,
                                prompt,
                            ],
                        )
                    } else {
                        (
                            PromptView {
                                buffer: Seq::empty(),
                                lines: lines2,
                                suggesting: false,
                                ..pre
                            },
                            Some(canon),
                            clear + shown,
                        )
                    }
                }
            },
        }
    }
}

/// What one key event does to the prompt; see the per-key functions.
pub open spec fn key_result(tree: NodeView, pre: PromptView, key: KeyEvent) -> KeyResult {
    match key {
        KeyEvent::Character(c) => char_result(pre, c),
        KeyEvent::Backspace { word } => backspace_result(pre, word),
        KeyEvent::Tab => tab_result(tree, pre),
        KeyEvent::Enter => enter_result(tree, pre),
        KeyEvent::ArrowUp => arrow_up_result(pre),
        KeyEvent::ArrowDown => arrow_down_result(pre),
        KeyEvent::CtrlC => ctrl_c_result(pre),
        KeyEvent::CtrlD => ctrl_d_result(pre),
        KeyEvent::CtrlL => ctrl_l_result(pre),
        KeyEvent::Other => (pre, None, Seq::empty()),
    }
}


impl Prompt {
    fn on_tab(&mut self, tree: &CommandNode) -> (r: (EditorStep, Vec<RenderCmd>))
        requires
            old(self).wf(),
        ensures
            final(self).wf(),
            ({
                let (post, out, steps) = tab_result(node_view(*tree), old(self)@);
                final(self)@ == post && step_view(r.0) == out && steps_of(r.1@) == steps
            }),
    {
        let ghost pre = old(self)@;
        let mut cmds: Vec<RenderCmd> = Vec::new();
        if self.user_input.len() == 0 {
            proof {
                assert(self@ =~= pre);
                assert(steps_of(cmds@) =~= Seq::<RenderStep>::empty());
            }
            return (EditorStep::Continue, cmds);
        }
        if self.suggestion_printed_below {
            cmds.push(RenderCmd::ClearLineBelow);
            self.suggestion_printed_below = false;
        }
        proof {
            assert(steps_of(cmds@) =~= (if pre.suggesting {
                seq![RenderStep::ClearLineBelow]
            } else {
                Seq::<RenderStep>::empty()
            }));
        }
        let toks = tokenize(&self.user_input);
        let outcome = resolve_walk(tree, &self.user_input, &toks);
        let ghost tvs = token_views(pre.buffer, spec_tokens(pre.buffer));
        proof {
            lemma_walk_canon_len(node_view(*tree), tvs, false, Seq::empty());
        }
        match outcome {
            WalkOutcome::Invalid { .. } => {
                proof {
                    let (post, out, steps) = tab_result(node_view(*tree), pre);
                    assert(self@ =~= post);
                    assert(steps_of(cmds@) =~= steps);
                }
                (EditorStep::Continue, cmds)
            },
            WalkOutcome::Suspend { candidates, canon } => {
                let line = completion_line(&candidates);
                cmds.push(RenderCmd::LineBelow(line));
                self.suggestion_printed_below = true;
                proof {
                    let (post, out, steps) = tab_result(node_view(*tree), pre);
                    assert(self@ =~= post);
                    assert(steps_of(cmds@) =~= steps);
                }
                (EditorStep::Continue, cmds)
            },
            WalkOutcome::Done { node, arg_given, canon } => {
                let ghost gn = node_view(*node);
                proof {
                    crate::tree::lemma_children_views(node.children@);
                    assert(gn.children.len() == node.children@.len());
                    if node.arg is Some {
                        assert(gn.arg is Some);
                    } else {
                        assert(gn.arg is None);
                    }
                }
                let bl = self.user_input.len();
                let ends_ws = ws_char(self.user_input[bl - 1]);
                let has_children = node.children.len() > 0;
                let has_arg = node.arg.is_some();
                let browse = ends_ws && (has_children || (has_arg && !arg_given));
                proof {
                    assert(browse == wants_browse(gn, arg_given, pre.buffer));
                }
                if browse {
                    let words = if has_children {
                        get_visible_command_vector(node)
                    } else {
                        match &node.arg {
                            Some(a) => get_arg_values_vector(a),
                            None => Vec::new(),
                        }
                    };
                    proof {
                        assert(words.deep_view() =~= browse_words(gn));
                    }
                    let line = completion_line(&words);
                    cmds.push(RenderCmd::LineBelow(line));
                    self.suggestion_printed_below = true;
                    proof {
                        let (post, out, steps) = tab_result(node_view(*tree), pre);
                        assert(self@ =~= post);
                        assert(steps_of(cmds@) =~= steps);
                    }
                    (EditorStep::Continue, cmds)
                } else {
                    let ghost gc = canon.deep_view();
                    proof {
                        assert(canon@.len() == gc.len());
                        assert(tvs.len() == spec_tokens(pre.buffer).len());
                        assert(toks_view(toks@).len() == toks@.len());
                    }
                    let padded = pad_canon(&self.user_input, &toks, canon);
                    let completed = rebuild_exec(&self.user_input, &toks, &padded);
                    proof {
                        assert(padded.deep_view() == gc + texts_of(
                            pre.buffer,
                            spec_tokens(pre.buffer),
                        ).skip(gc.len() as int));
                        assert(completed@ == completed_line(pre.buffer, gc));
                    }
                    if chars_eq(&completed, &self.user_input) {
                        proof {
                            let (post, out, steps) = tab_result(node_view(*tree), pre);
                            assert(self@ =~= post);
                            assert(steps_of(cmds@) =~= steps);
                        }
                        (EditorStep::Continue, cmds)
                    } else {
                        let shown = string_of_chars(&completed);
                        let mut nb = completed;
                        nb.push(' ');
                        self.user_input = nb;
                        cmds.push(RenderCmd::CursorToStart);
                        cmds.push(
                            RenderCmd::Prompt {
                                prefix: self.prefix.clone(),
                                symbol: self.symbol.clone(),
                            },
                        );
                        cmds.push(RenderCmd::Text(shown));
                        cmds.push(RenderCmd::Text(String::from_str(" ")));
                        proof {
                            let (post, out, steps) = tab_result(node_view(*tree), pre);
                            assert(self@ =~= post);
                            assert(steps_of(cmds@) =~= steps);
                        }
                        (EditorStep::Continue, cmds)
                    }
                }
            },
        }
    }

    fn on_enter(&mut self, tree: &CommandNode) -> (r: (EditorStep, Vec<RenderCmd>))
        requires
            old(self).wf(),
        ensures
            final(self).wf(),
            ({
                let (post, out, steps) = enter_result(node_view(*tree), old(self)@);
                final(self)@ == post && step_view(r.0) == out && steps_of(r.1@) == steps
            }),
    {
        let ghost pre = old(self)@;
        let mut cmds: Vec<RenderCmd> = Vec::new();
        if self.suggestion_printed_below {
            cmds.push(RenderCmd::ClearLineBelow);
            self.suggestion_printed_below = false;
        }
        proof {
            assert(steps_of(cmds@) =~= (if pre.suggesting {
                seq![RenderStep::ClearLineBelow]
            } else {
                Seq::<RenderStep>::empty()
            }));
        }
        if self.user_input.len() == 0 {
            cmds.push(
                RenderCmd::Prompt { prefix: self.prefix.clone(), symbol: self.symbol.clone() },
            );
            proof {
                let (post, out, steps) = enter_result(node_view(*tree), pre);
                assert(self@ =~= post);
                assert(steps_of(cmds@) =~= steps);
            }
            return (EditorStep::Continue, cmds);
        }
        let toks = tokenize(&self.user_input);
        let outcome = resolve_walk(tree, &self.user_input, &toks);
        let ghost tvs = token_views(pre.buffer, spec_tokens(pre.buffer));
        proof {
            lemma_walk_canon_len(node_view(*tree), tvs, false, Seq::empty());
        }
        match outcome {
            WalkOutcome::Invalid { word, canon } => {
                let ghost gc = canon.deep_view();
                proof {
                    assert(canon@.len() == gc.len());
                    assert(toks_view(toks@).len() == toks@.len());
                }
                let padded = pad_canon(&self.user_input, &toks, canon);
                let completed = rebuild_exec(&self.user_input, &toks, &padded);
                proof {
                    assert(completed@ == completed_line(pre.buffer, gc));
                }
                let trimmed = trim_vec(&completed);
                if trimmed.len() > 0 {
                    self.history.add(string_of_chars(&trimmed));
                }
                self.user_input = Vec::new();
                cmds.push(RenderCmd::AdvanceLine);
                cmds.push(RenderCmd::Text(invalid_input_line(&word)));
                cmds.push(RenderCmd::AdvanceLine);
                cmds.push(
                    RenderCmd::Prompt { prefix: self.prefix.clone(), symbol: self.symbol.clone() },
                );
                proof {
                    let (post, out, steps) = enter_result(node_view(*tree), pre);
                    assert(self@ =~= post);
                    assert(steps_of(cmds@) =~= steps);
                }
                (EditorStep::Continue, cmds)
            },
            WalkOutcome::Suspend { candidates, canon } => {
                let line = completion_line(&candidates);
                let shown = string_of_chars(&self.user_input);
                cmds.push(RenderCmd::AdvanceLine);
                cmds.push(RenderCmd::Text(line));
                cmds.push(
                    RenderCmd::Prompt { prefix: self.prefix.clone(), symbol: self.symbol.clone() },
                );
                cmds.push(RenderCmd::Text(shown));
                proof {
                    let (post, out, steps) = enter_result(node_view(*tree), pre);
                    assert(self@ =~= post);
                    assert(steps_of(cmds@) =~= steps);
                }
                (EditorStep::Continue, cmds)
            },
            WalkOutcome::Done { node, arg_given, canon } => {
                let ghost gn = node_view(*node);
                proof {
                    crate::tree::lemma_children_views(node.children@);
                    assert(gn.children.len() == node.children@.len());
                    if node.arg is Some {
                        assert(gn.arg is Some);
                    } else {
                        assert(gn.arg is None);
                    }
                }
                let bl = self.user_input.len();
                let ends_ws = ws_char(self.user_input[bl - 1]);
                let has_children = node.children.len() > 0;
                let has_arg = node.arg.is_some();
                let browse = ends_ws && (has_children || (has_arg && !arg_given));
                proof {
                    assert(browse == wants_browse(gn, arg_given, pre.buffer));
                }
                if browse {
                    let words = if has_children {
                        get_visible_command_vector(node)
                    } else {
                        match &node.arg {
                            Some(a) => get_arg_values_vector(a),
                            None => Vec::new(),
                        }
                    };
                    proof {
                        assert(words.deep_view() =~= browse_words(gn));
                    }
                    let line = completion_line(&words);
                    let shown = string_of_chars(&self.user_input);
                    cmds.push(RenderCmd::AdvanceLine);
                    cmds.push(RenderCmd::Text(line));
                    cmds.push(
                        RenderCmd::Prompt {
                            prefix: self.prefix.clone(),
                            symbol: self.symbol.clone(),
                        },
                    );
                    cmds.push(RenderCmd::Text(shown));
                    proof {
                        let (post, out, steps) = enter_result(node_view(*tree), pre);
                        assert(self@ =~= post);
                        assert(steps_of(cmds@) =~= steps);
                    }
                    (EditorStep::Continue, cmds)
                } else {
                    let required = match &node.arg {
                        Some(a) => a.required,
                        None => false,
                    };
                    let ghost gc = canon.deep_view();
                    proof {
                        assert(canon@.len() == gc.len());
                        assert(toks_view(toks@).len() == toks@.len());
                    }
                    let padded = pad_canon(&self.user_input, &toks, canon);
                    let completed = rebuild_exec(&self.user_input, &toks, &padded);
                    proof {
                        assert(padded.deep_view() == gc + texts_of(
                            pre.buffer,
                            spec_tokens(pre.buffer),
                        ).skip(gc.len() as int));
                        assert(padded.deep_view() =~= gc);
                        assert(completed@ == completed_line(pre.buffer, gc));
                    }
                    let shown = string_of_chars(&completed);
                    let trimmed = trim_vec(&completed);
                    if trimmed.len() > 0 {
                        self.history.add(string_of_chars(&trimmed));
                    }
                    cmds.push(RenderCmd::CursorToStart);
                    cmds.push(
                        RenderCmd::Prompt {
                            prefix: self.prefix.clone(),
                            symbol: self.symbol.clone(),
                        },
                    );
                    cmds.push(RenderCmd::Text(shown));
                    cmds.push(RenderCmd::FreshLine);
                    self.user_input = Vec::new();
                    if required && !arg_given {
                        cmds.push(RenderCmd::Text(missing_argument_line()));
                        cmds.push(RenderCmd::AdvanceLine);
                        cmds.push(
                            RenderCmd::Prompt {
                                prefix: self.prefix.clone(),
                                symbol: self.symbol.clone(),
                            },
                        );
                        proof {
                            let (post, out, steps) = enter_result(node_view(*tree), pre);
                            assert(self@ =~= post);
                            assert(steps_of(cmds@) =~= steps);
                        }
                        (EditorStep::Continue, cmds)
                    } else {
                        proof {
                            let (post, out, steps) = enter_result(node_view(*tree), pre);
                            assert(self@ =~= post);
                            assert(steps_of(cmds@) =~= steps);
                            assert(step_view(EditorStep::Resolved(padded)) == out);
                        }
                        (EditorStep::Resolved(padded), cmds)
                    }
                }
            },
        }
    }

    /// Feeds one key event to the editor: the state changes, drawing steps
    /// are planned, and a fully resolved line is handed back as its
    /// canonical tokens.
    pub fn key_event(&mut self, cmd_schema: &CommandNode, event: KeyEvent) -> (r: (
        EditorStep,
        Vec<RenderCmd>,
    ))
        requires
            old(self).wf(),
        ensures
            final(self).wf(),
            ({
                let (post, out, steps) = key_result(node_view(*cmd_schema), old(self)@, event);
                final(self)@ == post && step_view(r.0) == out && steps_of(r.1@) == steps
            }),
    {
        match event {
            KeyEvent::Character(c) => self.on_char(c),
            KeyEvent::Backspace { word } => self.on_backspace(word),
            KeyEvent::Tab => self.on_tab(cmd_schema),
            KeyEvent::Enter => self.on_enter(cmd_schema),
            KeyEvent::ArrowUp => self.on_arrow_up(),
            KeyEvent::ArrowDown => self.on_arrow_down(),
            KeyEvent::CtrlC => self.on_ctrl_c(),
            KeyEvent::CtrlD => self.on_ctrl_d(),
            KeyEvent::CtrlL => self.on_ctrl_l(),
            KeyEvent::Other => {
                let cmds: Vec<RenderCmd> = Vec::new();
                proof {
                    assert(self@ =~= old(self)@);
                    assert(steps_of(cmds@) =~= Seq::<RenderStep>::empty());
                }
                (EditorStep::Continue, cmds)
            },
        }
    }
}


proof fn lemma_scan_single_word(s: Seq<char>, w: Seq<char>, i: int)
    requires
        s == w.push(' '),
        w.len() > 0,
        forall|k: int| 0 <= k < w.len() ==> !is_ws_char(#[trigger] w[k]),
        0 < i <= w.len(),
    ensures
        scan_tokens(s, i, 0, true, Seq::empty()) == seq![
            TokSpan { start: 0, len: w.len() as int },
        ],
    decreases s.len() - i,
{
    if i < w.len() {
        assert(s[i] == w[i]);
        lemma_scan_single_word(s, w, i + 1);
    } else {
        assert(s[i] == ' ');
        let acc2 = Seq::<TokSpan>::empty().push(TokSpan { start: 0, len: i - 0 });
        assert(scan_tokens(s, i + 1, 0, false, acc2) == acc2);
        assert(scan_tokens(s, i, 0, true, Seq::empty()) == acc2);
        assert(acc2 =~= seq![TokSpan { start: 0, len: w.len() as int }]);
    }
}

/// A single word followed by one trailing space makes exactly one token:
/// the word itself, finished.
pub proof fn lemma_tokens_single_word(w: Seq<char>)
    requires
        w.len() > 0,
        forall|k: int| 0 <= k < w.len() ==> !is_ws_char(#[trigger] w[k]),
    ensures
        spec_tokens(w.push(' ')) == seq![TokSpan { start: 0, len: w.len() as int }],
        token_views(w.push(' '), spec_tokens(w.push(' '))) == seq![
            TokView { text: w, terminated: true },
        ],
{
    let s = w.push(' ');
    assert(s[0] == w[0]);
    assert(!is_ws_char(s[0]));
    lemma_scan_single_word(s, w, 1);
    assert(spec_tokens(s) == seq![TokSpan { start: 0, len: w.len() as int }]);
    let tv = token_views(s, spec_tokens(s));
    assert(tv[0] == (TokView {
        text: s.subrange(0, w.len() as int),
        terminated: w.len() < s.len(),
    }));
    assert(s.subrange(0, w.len() as int) =~= w);
    assert(tv =~= seq![TokView { text: w, terminated: true }]);
}

/// Law: exact-one-match auto-completion is idempotent. When a single typed
/// word resolves fully and its canonical completion is `w`, then entering the
/// completed buffer `w` followed by its trailing space resolves to exactly
/// the same canonical token, the same tree position and the same argument
/// state: resolving a completed line changes nothing further.
pub proof fn lemma_completion_idempotent(n: NodeView, t: TokView, w: Seq<char>)
    requires
        spec_walk(n, seq![t], false, Seq::empty()) matches SpecWalk::Done {
            node,
            arg_given,
            canon,
        } && canon == seq![w],
        w.len() > 0,
        forall|k: int| 0 <= k < w.len() ==> !is_ws_char(#[trigger] w[k]),
    ensures
        spec_walk(n, token_views(w.push(' '), spec_tokens(w.push(' '))), false, Seq::empty())
            == spec_walk(n, seq![t], false, Seq::empty()),
{
    lemma_tokens_single_word(w);
    let toks1 = seq![t];
    let toks2 = token_views(w.push(' '), spec_tokens(w.push(' ')));
    assert(toks2 == seq![TokView { text: w, terminated: true }]);
    let t2 = TokView { text: w, terminated: true };
    assert(toks1[0] == t);
    assert(toks2[0] == t2);
    assert(toks1.drop_first() =~= Seq::<TokView>::empty());
    assert(toks2.drop_first() =~= Seq::<TokView>::empty());
    let none: Seq<Seq<char>> = Seq::empty();
    match n.arg {
        Some(a) => {
            if a.values.len() == 0 {
                let c1 = none.push(t.text);
                assert(spec_walk(n, toks1.drop_first(), true, c1) == SpecWalk::Done {
                    node: n,
                    arg_given: true,
                    canon: c1,
                });
                assert(spec_walk(n, toks1, false, none) == SpecWalk::Done {
                    node: n,
                    arg_given: true,
                    canon: c1,
                });
                assert(c1 == seq![w]);
                assert(c1[0] == t.text && seq![w][0] == w);
                assert(t.text == w);
                let c2 = none.push(t2.text);
                assert(spec_walk(n, toks2.drop_first(), true, c2) == SpecWalk::Done {
                    node: n,
                    arg_given: true,
                    canon: c2,
                });
                assert(spec_walk(n, toks2, false, none) == SpecWalk::Done {
                    node: n,
                    arg_given: true,
                    canon: c2,
                });
                assert(c2 =~= c1);
            } else {
                let ms = matches_of(a.values, t.text);
                assert(ms.len() == 1);
                let c1 = none.push(ms[0]);
                assert(spec_walk(n, toks1.drop_first(), true, c1) == SpecWalk::Done {
                    node: n,
                    arg_given: true,
                    canon: c1,
                });
                assert(spec_walk(n, toks1, false, none) == SpecWalk::Done {
                    node: n,
                    arg_given: true,
                    canon: c1,
                });
                assert(c1 == seq![w]);
                assert(c1[0] == ms[0] && seq![w][0] == w);
                assert(ms[0] == w);
                assert(ms =~= seq![w]);
                crate::matcher::lemma_unique_match_idempotent(a.values, t.text, w);
                let ms2 = matches_of(a.values, t2.text);
                assert(ms2 == seq![w]);
                assert(ms2.len() == 1 && ms2[0] == w);
                let c2 = none.push(ms2[0]);
                assert(spec_walk(n, toks2.drop_first(), true, c2) == SpecWalk::Done {
                    node: n,
                    arg_given: true,
                    canon: c2,
                });
                assert(spec_walk(n, toks2, false, none) == SpecWalk::Done {
                    node: n,
                    arg_given: true,
                    canon: c2,
                });
                assert(c2 =~= c1);
            }
        },
        None => {
            let vocab = words_of_children(n.children);
            let ms = matches_of(vocab, t.text);
            assert(ms.len() == 1);
            let ci = find_child_idx(n.children, ms[0]);
            assert(ci >= 0);
            let c1 = none.push(ms[0]);
            assert(spec_walk(n.children[ci], toks1.drop_first(), false, c1) == SpecWalk::Done {
                node: n.children[ci],
                arg_given: false,
                canon: c1,
            });
            assert(spec_walk(n, toks1, false, none) == SpecWalk::Done {
                node: n.children[ci],
                arg_given: false,
                canon: c1,
            });
            assert(c1 == seq![w]);
            assert(c1[0] == ms[0] && seq![w][0] == w);
            assert(ms[0] == w);
            assert(ms =~= seq![w]);
            crate::matcher::lemma_unique_match_idempotent(vocab, t.text, w);
            let ms2 = matches_of(vocab, t2.text);
            assert(ms2 == seq![w]);
            assert(ms2.len() == 1 && ms2[0] == w);
            assert(find_child_idx(n.children, ms2[0]) == ci);
            let c2 = none.push(ms2[0]);
            assert(spec_walk(n.children[ci], toks2.drop_first(), false, c2) == SpecWalk::Done {
                node: n.children[ci],
                arg_given: false,
                canon: c2,
            });
            assert(spec_walk(n, toks2, false, none) == SpecWalk::Done {
                node: n.children[ci],
                arg_given: false,
                canon: c2,
            });
            assert(c2 =~= c1);
        },
    }
}


/// The spans describe the line exactly: every character inside a span is
/// not whitespace, and every non-whitespace character lies inside a span.
pub open spec fn tokens_cover(s: Seq<char>, ts: Seq<TokSpan>) -> bool {
    &&& forall|k: int, j: int|
        0 <= k < ts.len() && (#[trigger] ts[k]).start <= j < ts[k].start + ts[k].len
            ==> !is_ws_char(#[trigger] s[j])
    &&& forall|j: int|
        0 <= j < s.len() && !is_ws_char(#[trigger] s[j]) ==> exists|k: int|
            0 <= k < ts.len() && (#[trigger] ts[k]).start <= j < ts[k].start + ts[k].len
}

proof fn lemma_scan_covers(
    s: Seq<char>,
    i: int,
    word_start: int,
    in_word: bool,
    acc: Seq<TokSpan>,
)
    requires
        0 <= i <= s.len(),
        in_word ==> 0 <= word_start < i,
        in_word ==> forall|j: int| word_start <= j < i ==> !is_ws_char(#[trigger] s[j]),
        forall|k: int, j: int|
            0 <= k < acc.len() && (#[trigger] acc[k]).start <= j < acc[k].start + acc[k].len
                ==> !is_ws_char(#[trigger] s[j]),
        forall|j: int|
            0 <= j < i && !is_ws_char(#[trigger] s[j]) ==> (in_word && word_start <= j) || exists|
                k: int,
            |
                0 <= k < acc.len() && (#[trigger] acc[k]).start <= j < acc[k].start + acc[k].len,
    ensures
        tokens_cover(s, scan_tokens(s, i, word_start, in_word, acc)),
    decreases s.len() - i,
{
    if i >= s.len() {
        if in_word {
            let r = acc.push(TokSpan { start: word_start, len: i - word_start });
            assert forall|k: int, j: int|
                0 <= k < r.len() && (#[trigger] r[k]).start <= j < r[k].start + r[k].len implies
                !is_ws_char(#[trigger] s[j]) by {
                if k < acc.len() {
                    assert(r[k] == acc[k]);
                } else {
                    assert(r[k] == (TokSpan { start: word_start, len: i - word_start }));
                }
            }
            assert forall|j: int| 0 <= j < s.len() && !is_ws_char(#[trigger] s[j]) implies exists|
                k: int,
            | 0 <= k < r.len() && (#[trigger] r[k]).start <= j < r[k].start + r[k].len by {
                if in_word && word_start <= j {
                    assert(r[r.len() - 1].start <= j < r[r.len() - 1].start + r[r.len()
                        - 1].len);
                } else {
                    let k = choose|k: int|
                        0 <= k < acc.len() && (#[trigger] acc[k]).start <= j < acc[k].start
                            + acc[k].len;
                    assert(r[k].start <= j < r[k].start + r[k].len);
                }
            }
            assert(tokens_cover(s, r));
            assert(scan_tokens(s, i, word_start, in_word, acc) == r);
        } else {
            assert(tokens_cover(s, acc));
            assert(scan_tokens(s, i, word_start, in_word, acc) == acc);
        }
    } else if is_ws_char(s[i]) {
        if in_word {
            let acc2 = acc.push(TokSpan { start: word_start, len: i - word_start });
            assert forall|k: int, j: int|
                0 <= k < acc2.len() && (#[trigger] acc2[k]).start <= j < acc2[k].start
                    + acc2[k].len implies !is_ws_char(#[trigger] s[j]) by {
                if k < acc.len() {
                    assert(acc2[k] == acc[k]);
                } else {
                    assert(acc2[k] == (TokSpan { start: word_start, len: i - word_start }));
                }
            }
            assert forall|j: int|
                0 <= j < i + 1 && !is_ws_char(#[trigger] s[j]) implies exists|k: int|
                0 <= k < acc2.len() && (#[trigger] acc2[k]).start <= j < acc2[k].start
                    + acc2[k].len by {
                if j < i && word_start <= j {
                    assert(acc2[acc2.len() - 1].start <= j < acc2[acc2.len() - 1].start
                        + acc2[acc2.len() - 1].len);
                } else {
                    let k = choose|k: int|
                        0 <= k < acc.len() && (#[trigger] acc[k]).start <= j < acc[k].start
                            + acc[k].len;
                    assert(acc2[k].start <= j < acc2[k].start + acc2[k].len);
                }
            }
            lemma_scan_covers(s, i + 1, 0, false, acc2);
        } else {
            lemma_scan_covers(s, i + 1, 0, false, acc);
        }
    } else {
        if in_word {
            lemma_scan_covers(s, i + 1, word_start, true, acc);
        } else {
            lemma_scan_covers(s, i + 1, i, true, acc);
        }
    }
}

/// Law: the word spans of a line are exactly its maximal whitespace-free
/// runs: they lie inside the line in order, every character inside a span is
/// not whitespace, and every non-whitespace character of the line lies
/// inside some span.
pub proof fn lemma_tokens_characterize(s: Seq<char>)
    ensures
        spans_in_range(spec_tokens(s), s.len() as int),
        spans_ordered(spec_tokens(s)),
        tokens_cover(s, spec_tokens(s)),
{
    lemma_scan_wf(s, 0, 0, false, Seq::empty());
    lemma_scan_covers(s, 0, 0, false, Seq::empty());
}

} // verus!
