//! Facts about trimming, searching and splitting that hold of texts put
//! together from parts.

use crate::text::{
    after_word, first_word, is_space, lemma_find_from_is, lemma_find_from_none,
    lemma_trim_end_is_take, lemma_trim_start_is_skip, occurs_at, split_by, trim, trim_end,
    trim_start, word_len,
};
use vstd::prelude::*;

verus! {

/// Whether every character of `s` is white space.
pub open spec fn all_space(s: Seq<char>) -> bool {
    forall|i: int| 0 <= i < s.len() ==> is_space(#[trigger] s[i])
}

/// Whether no character of `s` is white space.
pub open spec fn no_space(s: Seq<char>) -> bool {
    forall|i: int| 0 <= i < s.len() ==> !is_space(#[trigger] s[i])
}

/// Whether `c` stands nowhere in `s`.
pub open spec fn lacks(s: Seq<char>, c: char) -> bool {
    forall|i: int| 0 <= i < s.len() ==> #[trigger] s[i] != c
}

/// A text that neither begins nor ends with white space is its own
/// trimming.
pub proof fn lemma_trim_fixed(s: Seq<char>)
    requires
        s.len() > 0 ==> !is_space(s[0]) && !is_space(s.last()),
    ensures
        trim(s) == s,
{
}

/// A text that is its own trimming neither begins nor ends with white
/// space.
pub proof fn lemma_trimmed_ends(s: Seq<char>)
    requires
        trim(s) == s,
        s.len() > 0,
    ensures
        !is_space(s[0]),
        !is_space(s.last()),
{
    let n = lemma_trim_start_is_skip(s);
    let m = lemma_trim_end_is_take(s.skip(n));
    assert(s.skip(n).take(m).len() == m);
    assert(n == 0 && m == s.len());
    assert(s.skip(0) =~= s);
}

/// White space in front of a text does not change what is left when the
/// leading white space is taken off.
pub proof fn lemma_trim_start_padded(pre: Seq<char>, s: Seq<char>)
    requires
        all_space(pre),
    ensures
        trim_start(pre + s) == trim_start(s),
    decreases pre.len(),
{
    if pre.len() == 0 {
        assert(pre + s =~= s);
    } else {
        assert((pre + s)[0] == pre[0]);
        assert((pre + s).skip(1) =~= pre.skip(1) + s);
        assert forall|i: int| 0 <= i < pre.skip(1).len() implies is_space(
            #[trigger] pre.skip(1)[i],
        ) by {
            assert(pre.skip(1)[i] == pre[i + 1]);
        }
        lemma_trim_start_padded(pre.skip(1), s);
    }
}

/// White space behind a text does not change what is left when the
/// trailing white space is taken off.
pub proof fn lemma_trim_end_padded(s: Seq<char>, post: Seq<char>)
    requires
        all_space(post),
    ensures
        trim_end(s + post) == trim_end(s),
    decreases post.len(),
{
    if post.len() == 0 {
        assert(s + post =~= s);
    } else {
        assert((s + post).last() == post.last());
        assert((s + post).drop_last() =~= s + post.drop_last());
        assert forall|i: int| 0 <= i < post.drop_last().len() implies is_space(
            #[trigger] post.drop_last()[i],
        ) by {
            assert(post.drop_last()[i] == post[i]);
        }
        lemma_trim_end_padded(s, post.drop_last());
    }
}

/// A text between two runs of white space is what trimming leaves, if it
/// neither begins nor ends with white space itself.
pub proof fn lemma_trim_padded(pre: Seq<char>, s: Seq<char>, post: Seq<char>)
    requires
        all_space(pre),
        all_space(post),
        s.len() > 0 ==> !is_space(s[0]) && !is_space(s.last()),
    ensures
        trim(pre + s + post) == s,
{
    assert(pre + s + post =~= pre + (s + post));
    lemma_trim_start_padded(pre, s + post);
    if s.len() > 0 {
        assert((s + post)[0] == s[0]);
        lemma_trim_end_padded(s, post);
    } else {
        assert(s + post =~= post);
        lemma_trim_start_padded(post, Seq::empty());
        assert(post + Seq::<char>::empty() =~= post);
    }
}

/// A pattern of one character stands where that character does.
pub proof fn lemma_occurs_char(s: Seq<char>, pat: Seq<char>, i: int)
    requires
        pat.len() == 1,
    ensures
        occurs_at(s, pat, i) == (0 <= i < s.len() && s[i] == pat[0]),
{
    if 0 <= i < s.len() {
        if s[i] == pat[0] {
            assert(s.subrange(i, i + 1) =~= pat);
        } else {
            assert(s.subrange(i, i + 1)[0] == s[i]);
        }
    }
}

/// Where a pattern stands, each of its characters stands.
pub proof fn lemma_occurs_chars(s: Seq<char>, pat: Seq<char>, i: int)
    requires
        occurs_at(s, pat, i),
    ensures
        forall|k: int| 0 <= k < pat.len() ==> s[i + k] == #[trigger] pat[k],
{
    assert forall|k: int| 0 <= k < pat.len() implies s[i + k] == #[trigger] pat[k] by {
        assert(s.subrange(i, i + pat.len())[k] == s[i + k]);
    }
}

/// A text without the separator is one piece.
pub proof fn lemma_split_none(s: Seq<char>, sep: Seq<char>)
    requires
        sep.len() > 0,
        forall|i: int| !occurs_at(s, sep, i),
    ensures
        split_by(s, sep) == seq![s],
{
    lemma_find_from_none(s, sep, 0);
}

/// A text without the separator, the separator and a rest: the text is
/// the first piece, and the pieces of the rest follow.
pub proof fn lemma_split_first(a: Seq<char>, sep: Seq<char>, rest: Seq<char>)
    requires
        sep.len() > 0,
        forall|i: int| 0 <= i < a.len() ==> !occurs_at(a + sep + rest, sep, i),
    ensures
        split_by(a + sep + rest, sep) == seq![a] + split_by(rest, sep),
{
    let s = a + sep + rest;
    assert(s.subrange(a.len() as int, (a.len() + sep.len()) as int) =~= sep);
    lemma_find_from_is(s, sep, 0, a.len() as int);
    assert(s.take(a.len() as int) =~= a);
    assert(s.skip((a.len() + sep.len()) as int) =~= rest);
}

/// A run without white space, followed by nothing or by white space, is a
/// word.
pub proof fn lemma_word_len_is(x: Seq<char>, rest: Seq<char>)
    requires
        no_space(x),
        rest.len() > 0 ==> is_space(rest[0]),
    ensures
        word_len(x + rest) == x.len(),
    decreases x.len(),
{
    if x.len() == 0 {
        assert(x + rest =~= rest);
    } else {
        assert((x + rest)[0] == x[0]);
        assert((x + rest).skip(1) =~= x.skip(1) + rest);
        assert forall|i: int| 0 <= i < x.skip(1).len() implies !is_space(
            #[trigger] x.skip(1)[i],
        ) by {
            assert(x.skip(1)[i] == x[i + 1]);
        }
        lemma_word_len_is(x.skip(1), rest);
    }
}

/// A text that begins with a run without white space, followed by nothing
/// or by white space: the run is its first word, and the rest is what
/// follows the word.
pub proof fn lemma_first_word(x: Seq<char>, rest: Seq<char>)
    requires
        x.len() > 0,
        no_space(x),
        rest.len() > 0 ==> is_space(rest[0]),
    ensures
        first_word(x + rest) == x,
        after_word(x + rest) == rest,
{
    let s = x + rest;
    assert(s[0] == x[0]);
    assert(trim_start(s) == s);
    lemma_word_len_is(x, rest);
    assert(s.take(x.len() as int) =~= x);
    assert(s.skip(x.len() as int) =~= rest);
}

/// White space in front of a text changes neither its first word nor what
/// follows the word.
pub proof fn lemma_first_word_padded(pre: Seq<char>, s: Seq<char>)
    requires
        all_space(pre),
    ensures
        first_word(pre + s) == first_word(s),
        after_word(pre + s) == after_word(s),
{
    lemma_trim_start_padded(pre, s);
    lemma_trim_start_idempotent(s);
}

/// Taking the leading white space off twice is taking it off once.
pub proof fn lemma_trim_start_idempotent(s: Seq<char>)
    ensures
        trim_start(trim_start(s)) == trim_start(s),
{
    let n = lemma_trim_start_is_skip(s);
    let t = s.skip(n);
    if n < s.len() {
        assert(t[0] == s[n]);
    }
}

} // verus!
