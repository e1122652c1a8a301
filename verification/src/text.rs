//! Characters, words and small string utilities shared by the prompt engine.

use vstd::prelude::*;
use vstd::string::StrSliceExecFns;

verus! {

/// A whitespace character, as used for splitting an input line into words.
pub open spec fn is_ws_char(c: char) -> bool {
    c == ' ' || c == '\t' || c == '\n' || c == '\r' || c == '\x0C'
}

/// An ASCII punctuation character.
pub open spec fn is_punct_char(c: char) -> bool {
    ||| 0x21 <= c as u32 && c as u32 <= 0x2F
    ||| 0x3A <= c as u32 && c as u32 <= 0x40
    ||| 0x5B <= c as u32 && c as u32 <= 0x60
    ||| 0x7B <= c as u32 && c as u32 <= 0x7E
}

/// A word separator: punctuation or whitespace.
pub open spec fn is_sep_char(c: char) -> bool {
    is_ws_char(c) || is_punct_char(c)
}

/// Executable check for [`is_ws_char`].
pub fn ws_char(c: char) -> (r: bool)
    ensures
        r == is_ws_char(c),
{
    c == ' ' || c == '\t' || c == '\n' || c == '\r' || c == '\x0C'
}

/// Executable check for [`is_sep_char`].
pub fn sep_char(c: char) -> (r: bool)
    ensures
        r == is_sep_char(c),
{
    let u = c as u32;
    ws_char(c) || (0x21 <= u && u <= 0x2F) || (0x3A <= u && u <= 0x40) || (0x5B <= u && u
        <= 0x60) || (0x7B <= u && u <= 0x7E)
}

/// Relies on std's `String::push`: appends exactly one character at the end.
pub assume_specification[ String::push ](s: &mut String, c: char)
    ensures
        final(s)@ == old(s)@.push(c),
;

/// Builds a `String` holding exactly the given characters.
pub fn string_of_chars(v: &Vec<char>) -> (s: String)
    ensures
        s@ == v@,
{
    let mut s = String::new();
    let mut i: usize = 0;
    while i < v.len()
        invariant
            i <= v.len(),
            s@ == v@.take(i as int),
        decreases v.len() - i,
    {
        s.push(v[i]);
        proof {
            assert(v@.take(i + 1 as int) =~= v@.take(i as int).push(v@[i as int]));
        }
        i += 1;
    }
    proof {
        assert(v@.take(v@.len() as int) =~= v@);
    }
    s
}

/// Collects the characters of a string slice into a vector.
pub fn chars_of_str(t: &str) -> (v: Vec<char>)
    ensures
        v@ == t@,
{
    let n = t.unicode_len();
    let mut v: Vec<char> = Vec::new();
    let mut i: usize = 0;
    while i < n
        invariant
            i <= n,
            n == t@.len(),
            v@ == t@.take(i as int),
        decreases n - i,
    {
        v.push(t.get_char(i));
        proof {
            assert(t@.take(i + 1 as int) =~= t@.take(i as int).push(t@[i as int]));
        }
        i += 1;
    }
    proof {
        assert(t@.take(n as int) =~= t@);
    }
    v
}

/// Character-wise equality of two string slices.
pub fn str_eq(a: &str, b: &str) -> (r: bool)
    ensures
        r == (a@ == b@),
{
    let na = a.unicode_len();
    let nb = b.unicode_len();
    if na != nb {
        return false;
    }
    let mut i: usize = 0;
    while i < na
        invariant
            i <= na,
            na == a@.len(),
            na == b@.len(),
            forall|j: int| 0 <= j < i ==> a@[j] == b@[j],
        decreases na - i,
    {
        if a.get_char(i) != b.get_char(i) {
            return false;
        }
        i += 1;
    }
    proof {
        assert(a@ =~= b@);
    }
    true
}

/// `p` is a prefix of `w`.
pub open spec fn starts_with(w: Seq<char>, p: Seq<char>) -> bool {
    p.len() <= w.len() && w.take(p.len() as int) == p
}

/// Executable prefix test for string slices.
pub fn str_starts_with(w: &str, p: &str) -> (r: bool)
    ensures
        r == starts_with(w@, p@),
{
    let nw = w.unicode_len();
    let np = p.unicode_len();
    if np > nw {
        return false;
    }
    let mut i: usize = 0;
    while i < np
        invariant
            i <= np,
            np <= nw,
            nw == w@.len(),
            np == p@.len(),
            forall|j: int| 0 <= j < i ==> w@[j] == p@[j],
        decreases np - i,
    {
        if w.get_char(i) != p.get_char(i) {
            proof {
                assert(w@.take(p@.len() as int)[i as int] != p@[i as int]);
            }
            return false;
        }
        i += 1;
    }
    proof {
        assert(w@.take(p@.len() as int) =~= p@);
    }
    true
}

/// The line with leading and trailing whitespace removed.
pub open spec fn trim_chars(s: Seq<char>) -> Seq<char>
    decreases s.len(),
{
    if s.len() == 0 {
        s
    } else if is_ws_char(s[0]) {
        trim_chars(s.drop_first())
    } else if is_ws_char(s.last()) {
        trim_chars(s.drop_last())
    } else {
        s
    }
}

fn trim_range(v: &Vec<char>, lo: usize, hi: usize) -> (r: Vec<char>)
    requires
        lo <= hi <= v@.len(),
    ensures
        r@ == trim_chars(v@.subrange(lo as int, hi as int)),
    decreases hi - lo,
{
    if lo == hi {
        Vec::new()
    } else if ws_char(v[lo]) {
        let r = trim_range(v, lo + 1, hi);
        proof {
            assert(v@.subrange(lo as int, hi as int).drop_first() =~= v@.subrange(
                lo + 1 as int,
                hi as int,
            ));
        }
        r
    } else if ws_char(v[hi - 1]) {
        let r = trim_range(v, lo, hi - 1);
        proof {
            assert(v@.subrange(lo as int, hi as int).drop_last() =~= v@.subrange(
                lo as int,
                hi - 1 as int,
            ));
        }
        r
    } else {
        let mut out: Vec<char> = Vec::new();
        let mut i: usize = lo;
        while i < hi
            invariant
                lo <= i <= hi <= v@.len(),
                out@ == v@.subrange(lo as int, i as int),
            decreases hi - i,
        {
            out.push(v[i]);
            proof {
                assert(v@.subrange(lo as int, i + 1 as int) =~= v@.subrange(
                    lo as int,
                    i as int,
                ).push(v@[i as int]));
            }
            i += 1;
        }
        out
    }
}

/// The input characters with leading and trailing whitespace removed.
pub fn trim_vec(v: &Vec<char>) -> (r: Vec<char>)
    ensures
        r@ == trim_chars(v@),
{
    let r = trim_range(v, 0, v.len());
    proof {
        assert(v@.subrange(0, v@.len() as int) =~= v@);
    }
    r
}

} // verus!
