//! Splitting wire text into whitespace-delimited tokens.
//!
//! `spec_tokenize` is the mathematical split of a character sequence on the
//! single space character, exactly as the executable `tokenize` performs it:
//! consecutive spaces yield empty tokens, and the text after the last space
//! (possibly empty) is always a final token.  `lemma_tokenize_units` is the
//! key algebraic fact the round-trip proof rests on: splitting a
//! concatenation of space-terminated, space-free tokens recovers exactly
//! those tokens, whatever follows them.

use vstd::prelude::*;

verus! {

/// Index of the first space in `s`, or `s.len()` when `s` has none.
pub open spec fn first_space(s: Seq<char>) -> int
    decreases s.len(),
{
    if s.len() == 0 {
        0
    } else if s[0] == ' ' {
        0
    } else {
        1 + first_space(s.skip(1))
    }
}

/// The split of `s` on single spaces.  Splitting never yields an empty
/// token list: text without a space is one token (so the empty text is one
/// empty token), and each space separates two tokens.
pub open spec fn spec_tokenize(s: Seq<char>) -> Seq<Seq<char>>
    decreases s.len(),
{
    let i = first_space(s);
    if 0 <= i < s.len() {
        seq![s.take(i)] + spec_tokenize(s.skip(i + 1))
    } else {
        seq![s]
    }
}

/// The views of a sequence of string slices.
pub open spec fn views_of(ts: Seq<&str>) -> Seq<Seq<char>> {
    ts.map_values(|t: &str| t@)
}

/// A wire token: non-empty and free of spaces.
pub open spec fn token_ok(t: Seq<char>) -> bool {
    t.len() >= 1 && forall|j: int| 0 <= j < t.len() ==> #[trigger] t[j] != ' '
}

/// Every token of `ts` is a wire token.
pub open spec fn tokens_ok(ts: Seq<Seq<char>>) -> bool {
    forall|i: int| 0 <= i < ts.len() ==> token_ok(#[trigger] ts[i])
}

/// The text that writes each token of `ts` followed by one space.
pub open spec fn spaced(ts: Seq<Seq<char>>) -> Seq<char>
    decreases ts.len(),
{
    if ts.len() == 0 {
        Seq::empty()
    } else {
        ts[0] + seq![' '] + spaced(ts.skip(1))
    }
}

/// `spaced` distributes over concatenation of token lists.
pub proof fn lemma_spaced_append(a: Seq<Seq<char>>, b: Seq<Seq<char>>)
    ensures
        spaced(a + b) == spaced(a) + spaced(b),
    decreases a.len(),
{
    if a.len() == 0 {
        assert(a + b =~= b);
        assert(spaced(a) + spaced(b) =~= spaced(b));
    } else {
        assert((a + b).skip(1) =~= a.skip(1) + b);
        lemma_spaced_append(a.skip(1), b);
        assert(spaced(a + b) =~= spaced(a) + spaced(b));
    }
}

/// Where the first space of `s` stands: at `k` if everything before `k` is
/// space-free and `k` is a space or the end.
pub proof fn lemma_first_space_is(s: Seq<char>, k: int)
    requires
        0 <= k <= s.len(),
        forall|j: int| 0 <= j < k ==> #[trigger] s[j] != ' ',
        k == s.len() || s[k] == ' ',
    ensures
        first_space(s) == k,
    decreases s.len(),
{
    if s.len() == 0 {
    } else if s[0] == ' ' {
        assert(k == 0);
    } else {
        assert(k >= 1);
        lemma_first_space_is(s.skip(1), k - 1);
    }
}

/// Splitting a concatenation of space-terminated wire tokens yields those
/// tokens, followed by the split of whatever text comes after them.
pub proof fn lemma_tokenize_units(ts: Seq<Seq<char>>, rest: Seq<char>)
    requires
        tokens_ok(ts),
    ensures
        spec_tokenize(spaced(ts) + rest) == ts + spec_tokenize(rest),
    decreases ts.len(),
{
    if ts.len() == 0 {
        assert(spaced(ts) + rest =~= rest);
        assert(ts + spec_tokenize(rest) =~= spec_tokenize(rest));
    } else {
        let s = spaced(ts) + rest;
        let t0 = ts[0];
        assert(token_ok(t0));
        assert(s =~= t0 + seq![' '] + (spaced(ts.skip(1)) + rest));
        assert(forall|j: int| 0 <= j < t0.len() ==> #[trigger] s[j] != ' ');
        assert(s[t0.len() as int] == ' ');
        lemma_first_space_is(s, t0.len() as int);
        assert(s.take(t0.len() as int) =~= t0);
        assert(s.skip(t0.len() as int + 1) =~= spaced(ts.skip(1)) + rest);
        assert(tokens_ok(ts.skip(1)));
        lemma_tokenize_units(ts.skip(1), rest);
        assert(spec_tokenize(s) == seq![t0] + (ts.skip(1) + spec_tokenize(rest)));
        assert(seq![t0] + (ts.skip(1) + spec_tokenize(rest)) =~= ts + spec_tokenize(rest));
    }
}

/// Character-for-character equality of two string slices.
pub fn str_eq(a: &str, b: &str) -> (r: bool)
    ensures
        r == (a@ == b@),
{
    let la = a.unicode_len();
    let lb = b.unicode_len();
    if la != lb {
        return false;
    }
    let mut i: usize = 0;
    while i < la
        invariant
            i <= la,
            la == a@.len(),
            la == b@.len(),
            forall|j: int| 0 <= j < i ==> a@[j] == b@[j],
        decreases la - i,
    {
        if a.get_char(i) != b.get_char(i) {
            return false;
        }
        i = i + 1;
    }
    assert(a@ =~= b@);
    true
}

/// Split `s` on single spaces.  The resulting slices are exactly the tokens
/// `spec_tokenize` assigns to the text.
pub fn tokenize<'a>(s: &'a str) -> (toks: Vec<&'a str>)
    ensures
        views_of(toks@) == spec_tokenize(s@),
{
    let len = s.unicode_len();
    let mut toks: Vec<&str> = Vec::new();
    let mut start: usize = 0;
    let mut i: usize = 0;
    proof {
        assert(s@.skip(0) =~= s@);
        assert(views_of(toks@) + spec_tokenize(s@) =~= spec_tokenize(s@));
    }
    while i < len
        invariant
            start <= i <= len,
            len == s@.len(),
            forall|j: int| start <= j < i ==> s@[j] != ' ',
            spec_tokenize(s@) == views_of(toks@) + spec_tokenize(s@.skip(start as int)),
        decreases len - i,
    {
        let c = s.get_char(i);
        if c == ' ' {
            let tok = s.substring_char(start, i);
            proof {
                let rest = s@.skip(start as int);
                assert(forall|j: int| 0 <= j < i - start ==> #[trigger] rest[j] != ' ');
                assert(rest[i - start] == ' ');
                lemma_first_space_is(rest, i - start);
                assert(rest.take(i - start) =~= s@.subrange(start as int, i as int));
                assert(rest.skip(i - start + 1) =~= s@.skip(i + 1));
                assert(views_of(toks@.push(tok)) =~= views_of(toks@).push(tok@));
                assert(views_of(toks@) + (seq![tok@] + spec_tokenize(s@.skip(i + 1))) =~= views_of(
                    toks@.push(tok),
                ) + spec_tokenize(s@.skip(i + 1)));
            }
            toks.push(tok);
            start = i + 1;
        }
        i = i + 1;
    }
    let tok = s.substring_char(start, len);
    proof {
        let rest = s@.skip(start as int);
        assert(forall|j: int| 0 <= j < rest.len() ==> #[trigger] rest[j] != ' ');
        lemma_first_space_is(rest, rest.len() as int);
        assert(spec_tokenize(rest) == seq![rest]);
        assert(rest =~= s@.subrange(start as int, len as int));
        assert(views_of(toks@.push(tok)) =~= views_of(toks@).push(tok@));
        assert(views_of(toks@.push(tok)) =~= views_of(toks@) + seq![rest]);
    }
    toks.push(tok);
    toks
}

} // verus!
