//! Prefix matching over a flat vocabulary.
//!
//! A [`Matcher`] is built from the words that are valid at the current
//! position in the command tree and answers, for a typed word, which
//! vocabulary entries begin with it.

use vstd::prelude::*;

use crate::text::{starts_with, str_starts_with};

verus! {

/// The vocabulary entries that begin with prefix `p`, in vocabulary order.
pub open spec fn matches_of(vocab: Seq<Seq<char>>, p: Seq<char>) -> Seq<Seq<char>>
    decreases vocab.len(),
{
    if vocab.len() == 0 {
        Seq::empty()
    } else if starts_with(vocab[0], p) {
        seq![vocab[0]] + matches_of(vocab.drop_first(), p)
    } else {
        matches_of(vocab.drop_first(), p)
    }
}

/// Every word starts with itself.
pub proof fn lemma_starts_with_refl(w: Seq<char>)
    ensures
        starts_with(w, w),
{
    assert(w.take(w.len() as int) =~= w);
}

/// Prefixes compose: a word starting with `w` also starts with any prefix of `w`.
pub proof fn lemma_starts_with_trans(v: Seq<char>, w: Seq<char>, p: Seq<char>)
    requires
        starts_with(v, w),
        starts_with(w, p),
    ensures
        starts_with(v, p),
{
    assert(v.take(p.len() as int) =~= v.take(w.len() as int).take(p.len() as int));
}

/// Every reported match is a vocabulary entry and begins with the prefix.
pub proof fn lemma_matches_sound(vocab: Seq<Seq<char>>, p: Seq<char>)
    ensures
        forall|i: int|
            0 <= i < matches_of(vocab, p).len() ==> starts_with(
                #[trigger] matches_of(vocab, p)[i],
                p,
            ) && vocab.contains(matches_of(vocab, p)[i]),
    decreases vocab.len(),
{
    if vocab.len() > 0 {
        lemma_matches_sound(vocab.drop_first(), p);
        assert forall|i: int| 0 <= i < matches_of(vocab, p).len() implies starts_with(
            #[trigger] matches_of(vocab, p)[i],
            p,
        ) && vocab.contains(matches_of(vocab, p)[i]) by {
            let m = matches_of(vocab, p);
            let rest = matches_of(vocab.drop_first(), p);
            if starts_with(vocab[0], p) {
                if i == 0 {
                    assert(vocab.contains(vocab[0]));
                } else {
                    assert(m[i] == rest[i - 1]);
                    assert(vocab.drop_first().contains(rest[i - 1]));
                    let j = choose|j: int|
                        0 <= j < vocab.drop_first().len() && vocab.drop_first()[j] == rest[i - 1];
                    assert(vocab[j + 1] == rest[i - 1]);
                }
            } else {
                assert(m[i] == rest[i]);
                let j = choose|j: int|
                    0 <= j < vocab.drop_first().len() && vocab.drop_first()[j] == rest[i];
                assert(vocab[j + 1] == rest[i]);
            }
        }
    }
}

/// Every vocabulary entry that begins with the prefix is reported.
pub proof fn lemma_matches_complete(vocab: Seq<Seq<char>>, p: Seq<char>, w: Seq<char>)
    requires
        vocab.contains(w),
        starts_with(w, p),
    ensures
        matches_of(vocab, p).contains(w),
    decreases vocab.len(),
{
    let m = matches_of(vocab, p);
    if vocab[0] == w {
        assert(m[0] == w);
    } else {
        let j = choose|j: int| 0 <= j < vocab.len() && vocab[j] == w;
        assert(vocab.drop_first()[j - 1] == w);
        assert(vocab.drop_first().contains(w));
        lemma_matches_complete(vocab.drop_first(), p, w);
        let rest = matches_of(vocab.drop_first(), p);
        let k = choose|k: int| 0 <= k < rest.len() && rest[k] == w;
        if starts_with(vocab[0], p) {
            assert(m[k + 1] == w);
        } else {
            assert(m[k] == w);
        }
    }
}

/// Law: for every vocabulary and prefix, the reported matches are exactly the
/// vocabulary entries that start with that prefix.
pub proof fn lemma_matches_characterization(vocab: Seq<Seq<char>>, p: Seq<char>, w: Seq<char>)
    ensures
        matches_of(vocab, p).contains(w) <==> vocab.contains(w) && starts_with(w, p),
{
    if matches_of(vocab, p).contains(w) {
        lemma_matches_sound(vocab, p);
    }
    if vocab.contains(w) && starts_with(w, p) {
        lemma_matches_complete(vocab, p, w);
    }
}

/// Law: the empty prefix matches the whole vocabulary, unchanged.
pub proof fn lemma_matches_empty_prefix(vocab: Seq<Seq<char>>)
    ensures
        matches_of(vocab, Seq::<char>::empty()) == vocab,
    decreases vocab.len(),
{
    if vocab.len() == 0 {
        assert(matches_of(vocab, Seq::<char>::empty()) =~= vocab);
    } else {
        assert(vocab[0].take(0) =~= Seq::<char>::empty());
        lemma_matches_empty_prefix(vocab.drop_first());
        assert(seq![vocab[0]] + vocab.drop_first() =~= vocab);
    }
}

/// Law: auto-completion on a unique match is idempotent. When `w` is the only
/// entry matching prefix `p`, the completed word `w` again matches exactly
/// itself, so resolving the completed input cannot change it further.
pub proof fn lemma_unique_match_idempotent(vocab: Seq<Seq<char>>, p: Seq<char>, w: Seq<char>)
    requires
        matches_of(vocab, p) == seq![w],
    ensures
        matches_of(vocab, w) == seq![w],
    decreases vocab.len(),
{
    lemma_matches_sound(vocab, p);
    assert(matches_of(vocab, p)[0] == w);
    assert(starts_with(w, p));
    let rest = vocab.drop_first();
    if starts_with(vocab[0], p) {
        // the head is the unique match, so it is w and nothing behind it matches p
        assert(vocab[0] == w);
        assert(matches_of(rest, p) =~= Seq::<Seq<char>>::empty());
        lemma_starts_with_refl(w);
        if matches_of(rest, w).len() > 0 {
            lemma_matches_sound(rest, w);
            let x = matches_of(rest, w)[0];
            lemma_starts_with_trans(x, w, p);
            lemma_matches_complete(rest, p, x);
            assert(false);
        }
        assert(matches_of(rest, w) =~= Seq::<Seq<char>>::empty());
        assert(matches_of(vocab, w) =~= seq![w]);
    } else {
        assert(matches_of(rest, p) == seq![w]);
        lemma_unique_match_idempotent(rest, p, w);
        if starts_with(vocab[0], w) {
            lemma_starts_with_trans(vocab[0], w, p);
            assert(false);
        }
        assert(matches_of(vocab, w) == matches_of(rest, w));
    }
}

/// A prefix-search structure over a fixed vocabulary.
pub struct Matcher {
    vocab: Vec<String>,
}

impl View for Matcher {
    type V = Seq<Seq<char>>;

    closed spec fn view(&self) -> Seq<Seq<char>> {
        self.vocab.deep_view()
    }
}

impl Matcher {
    /// Builds the matcher over the given vocabulary; entries keep their order.
    pub fn build(vocabulary: Vec<String>) -> (m: Matcher)
        ensures
            m@ == vocabulary.deep_view(),
    {
        Matcher { vocab: vocabulary }
    }

    /// All vocabulary entries that start with `prefix`, in vocabulary order.
    pub fn collect_matches(&self, prefix: &String) -> (r: Vec<String>)
        ensures
            r.deep_view() == matches_of(self@, prefix@),
    {
        let mut r: Vec<String> = Vec::new();
        let n = self.vocab.len();
        let mut i: usize = 0;
        proof {
            assert(self@.skip(0) =~= self@);
        }
        while i < n
            invariant
                i <= n,
                n == self.vocab.len(),
                self@ == self.vocab.deep_view(),
                matches_of(self@, prefix@) == r.deep_view() + matches_of(
                    self@.skip(i as int),
                    prefix@,
                ),
            decreases n - i,
        {
            let ghost pre = r.deep_view();
            let ghost tail = self@.skip(i as int);
            proof {
                assert(tail.len() == n - i);
                assert(tail[0] == self@[i as int]);
                assert(tail.drop_first() =~= self@.skip(i + 1 as int));
            }
            if str_starts_with(self.vocab[i].as_str(), prefix.as_str()) {
                r.push(self.vocab[i].clone());
                proof {
                    assert(self.vocab[i as int]@ == self@[i as int]);
                    assert(r.deep_view() =~= pre.push(self@[i as int]));
                    assert(pre + matches_of(tail, prefix@) =~= r.deep_view() + matches_of(
                        self@.skip(i + 1 as int),
                        prefix@,
                    ));
                }
            } else {
                proof {
                    assert(matches_of(tail, prefix@) == matches_of(
                        self@.skip(i + 1 as int),
                        prefix@,
                    ));
                }
            }
            i += 1;
        }
        proof {
            assert(self@.skip(n as int) =~= Seq::<Seq<char>>::empty());
            assert(r.deep_view() + matches_of(self@.skip(n as int), prefix@) =~= r.deep_view());
        }
        r
    }
}

} // verus!
