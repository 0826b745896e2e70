//! The keyword matcher: normalizing a title into lowercase word tokens and
//! testing whether a query's keyword set is contained in a candidate name's
//! token set.  Matching is a boolean subset test over whole tokens, not a
//! substring or ranked search.

use vstd::prelude::*;
use crate::bytes::{is_alnum, lower_byte};
use crate::error::Error;

verus! {

/// A token byte is normalized when it is alphanumeric and already lowercase.
pub open spec fn norm_token(t: Seq<u8>) -> bool {
    forall|k: int| 0 <= k < t.len() ==> is_alnum(#[trigger] t[k]) && lower_byte(t[k]) == t[k]
}

/// Splitting a byte sequence into lowercased alphanumeric runs, keeping the
/// empty runs between consecutive boundaries.  Defined over the last byte so
/// a forward scan matches it step by step.
pub open spec fn split_words(s: Seq<u8>) -> Seq<Seq<u8>>
    decreases s.len(),
{
    if s.len() == 0 {
        seq![Seq::<u8>::empty()]
    } else if is_alnum(s.last()) {
        let r = split_words(s.drop_last());
        r.update(r.len() - 1, r.last().push(lower_byte(s.last())))
    } else {
        split_words(s.drop_last()).push(Seq::<u8>::empty())
    }
}

pub proof fn lemma_split_words_len(s: Seq<u8>)
    ensures
        split_words(s).len() >= 1,
    decreases s.len(),
{
    if s.len() > 0 {
        lemma_split_words_len(s.drop_last());
    }
}

/// Dropping the empty runs, keeping the order of the rest.
pub open spec fn drop_empties(ps: Seq<Seq<u8>>) -> Seq<Seq<u8>>
    decreases ps.len(),
{
    if ps.len() == 0 {
        Seq::empty()
    } else if ps.last().len() > 0 {
        drop_empties(ps.drop_last()).push(ps.last())
    } else {
        drop_empties(ps.drop_last())
    }
}

/// The token sequence of a byte string: its maximal alphanumeric runs,
/// lowercased, in order of appearance.  Tokens shorter than one byte (the
/// empty runs) are discarded as noise.
pub open spec fn tokens(s: Seq<u8>) -> Seq<Seq<u8>> {
    drop_empties(split_words(s))
}

/// Every run that [`split_words`] produces is made of normalized bytes.
pub proof fn lemma_split_words_norm(s: Seq<u8>)
    ensures
        forall|i: int| 0 <= i < split_words(s).len() ==> norm_token(#[trigger] split_words(s)[i]),
    decreases s.len(),
{
    if s.len() > 0 {
        lemma_split_words_norm(s.drop_last());
        lemma_split_words_len(s.drop_last());
        if is_alnum(s.last()) {
            let r = split_words(s.drop_last());
            let b = lower_byte(s.last());
            assert(is_alnum(b) && lower_byte(b) == b);
            assert(norm_token(r.last().push(b)));
        }
    }
}

/// Every token is nonempty and normalized.
pub proof fn lemma_tokens_norm(s: Seq<u8>)
    ensures
        forall|i: int| 0 <= i < tokens(s).len() ==> norm_token(#[trigger] tokens(s)[i]) && tokens(
            s,
        )[i].len() > 0,
{
    lemma_split_words_norm(s);
    lemma_drop_empties_sub(split_words(s));
}

/// Whatever survives [`drop_empties`] was one of the runs, and is nonempty.
proof fn lemma_drop_empties_sub(ps: Seq<Seq<u8>>)
    ensures
        forall|i: int| 0 <= i < drop_empties(ps).len() ==> (exists|j: int|
            0 <= j < ps.len() && ps[j] == #[trigger] drop_empties(ps)[i]) && drop_empties(
            ps,
        )[i].len() > 0,
    decreases ps.len(),
{
    if ps.len() > 0 {
        lemma_drop_empties_sub(ps.drop_last());
        assert forall|i: int| 0 <= i < drop_empties(ps).len() implies (exists|j: int|
            0 <= j < ps.len() && ps[j] == #[trigger] drop_empties(ps)[i]) && drop_empties(
            ps,
        )[i].len() > 0 by {
            let d = drop_empties(ps);
            let dprev = drop_empties(ps.drop_last());
            if i < dprev.len() {
                let j = choose|j: int| 0 <= j < ps.drop_last().len() && ps.drop_last()[j] == dprev[i];
                assert(ps[j] == d[i]);
            } else {
                assert(ps.last().len() > 0 && d[i] == ps.last());
                assert(ps[ps.len() - 1] == d[i]);
            }
        }
    }
}

/// Executable tokenization: the lowercased maximal alphanumeric runs of the
/// input, in order.
pub fn tokenize(s: &[u8]) -> (r: Vec<Vec<u8>>)
    ensures
        r.deep_view() == tokens(s@),
{
    let mut done: Vec<Vec<u8>> = Vec::new();
    let mut cur: Vec<u8> = Vec::new();
    let mut i: usize = 0;
    while i < s.len()
        invariant
            i <= s.len(),
            done.deep_view() == drop_empties(split_words(s@.take(i as int)).drop_last()),
            cur@ == split_words(s@.take(i as int)).last(),
            split_words(s@.take(i as int)).len() >= 1,
        decreases s.len() - i,
    {
        let ghost d0 = done.deep_view();
        let ghost c0 = cur@;
        let ghost swp = split_words(s@.take(i as int));
        proof {
            assert(s@.take(i + 1 as int).drop_last() =~= s@.take(i as int));
            lemma_split_words_len(s@.take(i + 1 as int));
        }
        let b = s[i];
        let alnum = (48 <= b && b <= 57) || (65 <= b && b <= 90) || (97 <= b && b <= 122);
        if alnum {
            let lb = if 65 <= b && b <= 90 {
                b + 32
            } else {
                b
            };
            cur.push(lb);
            proof {
                let sw1 = split_words(s@.take(i + 1 as int));
                assert(sw1 == swp.update(swp.len() - 1, swp.last().push(lower_byte(s@[i as int]))));
                assert(sw1.drop_last() =~= swp.drop_last());
                assert(cur@ == sw1.last());
            }
        } else {
            if cur.len() > 0 {
                done.push(cur);
                cur = Vec::new();
                proof {
                    assert(done.deep_view() =~~= d0.push(c0));
                }
            }
            proof {
                let sw1 = split_words(s@.take(i + 1 as int));
                assert(sw1 == swp.push(Seq::<u8>::empty()));
                assert(sw1.drop_last() =~= swp);
                assert(sw1.drop_last().drop_last() =~= swp.drop_last());
                assert(done.deep_view() == drop_empties(sw1.drop_last()));
                assert(cur@ == sw1.last());
            }
        }
        i = i + 1;
    }
    proof {
        assert(s@.take(s@.len() as int) =~= s@);
    }
    let ghost d1 = done.deep_view();
    let ghost c1 = cur@;
    if cur.len() > 0 {
        done.push(cur);
        proof {
            assert(done.deep_view() =~~= d1.push(c1));
            assert(tokens(s@) == drop_empties(split_words(s@).drop_last()).push(c1));
        }
    }
    done
}

/// Containment of one token in a token list, byte for byte.
pub fn contains_token(toks: &Vec<Vec<u8>>, w: &Vec<u8>) -> (r: bool)
    ensures
        r == toks.deep_view().contains(w@),
{
    let mut i: usize = 0;
    while i < toks.len()
        invariant
            i <= toks.len(),
            forall|j: int| 0 <= j < i ==> toks.deep_view()[j] != w@,
        decreases toks.len() - i,
    {
        proof {
            assert(toks@[i as int]@ == toks.deep_view()[i as int]);
        }
        if crate::bytes::bytes_eq(toks[i].as_slice(), w.as_slice()) {
            proof {
                assert(toks.deep_view()[i as int] == w@);
            }
            return true;
        }
        i = i + 1;
    }
    proof {
        if toks.deep_view().contains(w@) {
            let j = choose|j: int| 0 <= j < toks.deep_view().len() && toks.deep_view()[j] == w@;
            assert(toks.deep_view()[j] != w@);
        }
    }
    false
}

/// A query matches a name exactly when every keyword appears among the
/// name's tokens.
pub open spec fn kw_matches(kws: Seq<Seq<u8>>, name: Seq<u8>) -> bool {
    forall|i: int| 0 <= i < kws.len() ==> tokens(name).contains(#[trigger] kws[i])
}

/// A normalized, unordered collection of lowercase word tokens, used for
/// subset-containment matching against title names.
#[derive(Debug)]
pub struct KeywordSet {
    words: Vec<Vec<u8>>,
}

impl View for KeywordSet {
    type V = Seq<Seq<u8>>;

    closed spec fn view(&self) -> Seq<Seq<u8>> {
        self.words.deep_view()
    }
}

impl KeywordSet {
    /// Building a keyword set from raw user input tokenizes it; input whose
    /// token set comes out empty is rejected.
    pub fn new(text: &[u8]) -> (r: Result<KeywordSet, Error>)
        ensures
            match r {
                Ok(ks) => ks@ == tokens(text@) && tokens(text@).len() > 0,
                Err(e) => e == Error::EmptyOrTooShortKeywordSet && tokens(text@).len() == 0,
            },
    {
        let words = tokenize(text);
        if words.len() == 0 {
            Err(Error::EmptyOrTooShortKeywordSet)
        } else {
            Ok(KeywordSet { words })
        }
    }

    /// An owned copy with the same keywords.
    pub fn duplicate(&self) -> (r: KeywordSet)
        ensures
            r@ == self@,
    {
        let mut words: Vec<Vec<u8>> = Vec::new();
        let mut i: usize = 0;
        while i < self.words.len()
            invariant
                i <= self.words.len(),
                words.deep_view() == self.words.deep_view().take(i as int),
            decreases self.words.len() - i,
        {
            let ghost d0 = words.deep_view();
            words.push(crate::bytes::copy_bytes(&self.words[i]));
            proof {
                assert(words.deep_view() =~~= d0.push(self.words@[i as int]@));
                assert(self.words.deep_view().take(i + 1 as int) =~= self.words.deep_view().take(
                    i as int,
                ).push(self.words.deep_view()[i as int]));
            }
            i = i + 1;
        }
        proof {
            assert(self.words.deep_view().take(self.words@.len() as int) =~= self.words.deep_view());
        }
        KeywordSet { words }
    }

    /// The subset test: true exactly when every keyword of this set appears
    /// among the tokens of `name`.
    pub fn matches(&self, name: &[u8]) -> (r: bool)
        ensures
            r == kw_matches(self@, name@),
    {
        let toks = tokenize(name);
        let mut i: usize = 0;
        while i < self.words.len()
            invariant
                i <= self.words.len(),
                toks.deep_view() == tokens(name@),
                forall|j: int| 0 <= j < i ==> tokens(name@).contains(#[trigger] self@[j]),
            decreases self.words.len() - i,
        {
            proof {
                assert(self.words@[i as int]@ == self@[i as int]);
            }
            if !contains_token(&toks, &self.words[i]) {
                proof {
                    assert(!tokens(name@).contains(self@[i as int]));
                }
                return false;
            }
            i = i + 1;
        }
        true
    }
}

/// Joining tokens with single spaces: the canonical printed form of a token
/// sequence.
pub open spec fn join_spaces(ts: Seq<Seq<u8>>) -> Seq<u8>
    decreases ts.len(),
{
    if ts.len() == 0 {
        Seq::empty()
    } else if ts.len() == 1 {
        ts[0]
    } else {
        join_spaces(ts.drop_last()) + seq![32u8] + ts.last()
    }
}

/// The normalized string form of the input's tokens, joined with spaces.
pub fn tokenize_to_string(s: &[u8]) -> (r: Vec<u8>)
    ensures
        r@ == join_spaces(tokens(s@)),
{
    let toks = tokenize(s);
    let mut r: Vec<u8> = Vec::new();
    let mut i: usize = 0;
    while i < toks.len()
        invariant
            i <= toks.len(),
            toks.deep_view() == tokens(s@),
            r@ == join_spaces(tokens(s@).take(i as int)),
        decreases toks.len() - i,
    {
        proof {
            assert(toks@[i as int]@ == tokens(s@)[i as int]);
            assert(tokens(s@).take(i + 1 as int).drop_last() =~= tokens(s@).take(i as int));
            assert(tokens(s@).take(i + 1 as int).last() == tokens(s@)[i as int]);
        }
        if i > 0 {
            r.push(32);
        }
        let ghost r0 = r@;
        let w = &toks[i];
        let mut k: usize = 0;
        while k < w.len()
            invariant
                k <= w.len(),
                r@ == r0 + w@.take(k as int),
            decreases w.len() - k,
        {
            r.push(w[k]);
            proof {
                assert(w@.take(k + 1 as int) =~= w@.take(k as int).push(w@[k as int]));
                assert(r@ =~= r0 + w@.take(k + 1 as int));
            }
            k = k + 1;
        }
        proof {
            assert(w@.take(w@.len() as int) =~= w@);
            if i == 0 {
                assert(r@ =~= join_spaces(tokens(s@).take(1)));
            } else {
                assert(r@ =~= join_spaces(tokens(s@).take(i + 1 as int)));
            }
        }
        i = i + 1;
    }
    proof {
        assert(tokens(s@).take(tokens(s@).len() as int) =~= tokens(s@));
    }
    r
}

/// Appending a normalized run extends the last word and nothing else.
proof fn lemma_split_words_append_norm(s: Seq<u8>, t: Seq<u8>)
    requires
        norm_token(t),
    ensures
        split_words(s + t) == split_words(s).update(
            split_words(s).len() - 1,
            split_words(s).last() + t,
        ),
    decreases t.len(),
{
    lemma_split_words_len(s);
    if t.len() == 0 {
        assert(s + t =~= s);
        assert(split_words(s).last() + t =~= split_words(s).last());
        assert(split_words(s).update(split_words(s).len() - 1, split_words(s).last()) =~= split_words(
            s,
        ));
    } else {
        let t0 = t.drop_last();
        let b = t.last();
        assert(norm_token(t0));
        lemma_split_words_append_norm(s, t0);
        assert((s + t).drop_last() =~= s + t0);
        assert(is_alnum(b) && lower_byte(b) == b);
        let sw = split_words(s);
        let swp = split_words(s + t0);
        assert(split_words(s + t) == swp.update(swp.len() - 1, swp.last().push(b)));
        assert(swp.last() == sw.last() + t0);
        assert((sw.last() + t0).push(b) =~= sw.last() + t);
        assert(swp.update(swp.len() - 1, sw.last() + t) =~= sw.update(sw.len() - 1, sw.last() + t));
    }
}

/// The tokens of a space-joined sequence of nonempty normalized tokens are
/// exactly that sequence.
proof fn lemma_tokens_join(ts: Seq<Seq<u8>>)
    requires
        forall|i: int| 0 <= i < ts.len() ==> norm_token(#[trigger] ts[i]) && ts[i].len() > 0,
    ensures
        tokens(join_spaces(ts)) == ts,
    decreases ts.len(),
{
    if ts.len() == 0 {
        assert(split_words(Seq::<u8>::empty()) =~= seq![Seq::<u8>::empty()]);
        assert(seq![Seq::<u8>::empty()].len() == 1);
        assert(seq![Seq::<u8>::empty()].last() == Seq::<u8>::empty());
        assert(seq![Seq::<u8>::empty()].drop_last() == Seq::<Seq<u8>>::empty()) by {
            assert(seq![Seq::<u8>::empty()].drop_last() =~= Seq::<Seq<u8>>::empty());
        }
        assert(drop_empties(Seq::<Seq<u8>>::empty()) == Seq::<Seq<u8>>::empty());
        assert(drop_empties(seq![Seq::<u8>::empty()]) =~= Seq::<Seq<u8>>::empty());
        assert(tokens(join_spaces(ts)) =~= ts);
    } else if ts.len() == 1 {
        let t = ts[0];
        assert(norm_token(t) && t.len() > 0);
        assert(Seq::<u8>::empty() + t =~= t);
        lemma_split_words_append_norm(Seq::<u8>::empty(), t);
        assert(split_words(Seq::<u8>::empty()) =~= seq![Seq::<u8>::empty()]);
        assert(seq![Seq::<u8>::empty()].update(0, Seq::<u8>::empty() + t) =~= seq![t]);
        assert(split_words(t) =~= seq![t]);
        assert(seq![t].len() == 1 && seq![t].last() == t);
        assert(seq![t].drop_last() == Seq::<Seq<u8>>::empty()) by {
            assert(seq![t].drop_last() =~= Seq::<Seq<u8>>::empty());
        }
        assert(drop_empties(Seq::<Seq<u8>>::empty()) == Seq::<Seq<u8>>::empty());
        assert(drop_empties(seq![t]) =~= seq![t]);
        assert(tokens(join_spaces(ts)) =~= ts);
    } else {
        let dl = ts.drop_last();
        let t = ts.last();
        lemma_tokens_join(dl);
        let j = join_spaces(dl);
        assert(join_spaces(ts) == j + seq![32u8] + t);
        assert(j + seq![32u8] =~= (j + seq![32u8] + t).take((j + seq![32u8]).len() as int));
        assert((j + seq![32u8]).drop_last() =~= j);
        assert(!is_alnum(32u8));
        assert(split_words(j + seq![32u8]) == split_words(j).push(Seq::<u8>::empty()));
        lemma_split_words_append_norm(j + seq![32u8], t);
        let swj = split_words(j);
        let sw1 = swj.push(Seq::<u8>::empty());
        assert((j + seq![32u8]) + t =~= j + seq![32u8] + t);
        assert(split_words(j + seq![32u8] + t) == sw1.update(sw1.len() - 1, Seq::<u8>::empty() + t));
        assert(Seq::<u8>::empty() + t =~= t);
        assert(sw1.update(sw1.len() - 1, t) =~= swj.push(t));
        assert(ts[ts.len() - 1].len() > 0);
        assert(swj.push(t).last() == t && t.len() > 0);
        assert(swj.push(t).drop_last() =~= swj);
        assert(drop_empties(swj.push(t)) == drop_empties(swj).push(t));
        assert(tokens(join_spaces(ts)) == tokens(j).push(t));
        assert(dl.push(t) =~= ts);
    }
}

/// Tokenization is idempotent on already-normalized text: re-tokenizing the
/// space-joined token string of any input gives that input's tokens again.
pub proof fn lemma_tokenize_idempotent(x: Seq<u8>)
    ensures
        tokens(join_spaces(tokens(x))) == tokens(x),
{
    lemma_tokens_norm(x);
    lemma_tokens_join(tokens(x));
}

} // verus!
