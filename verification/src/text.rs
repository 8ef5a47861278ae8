//! Text as sequences of characters: the searching, trimming and splitting
//! that the statement recognisers are built from.
//!
//! Every function here has a specification over `Seq<char>`. The executable
//! forms work on `Vec<char>`, which indexes in constant time.

use vstd::prelude::*;
use vstd::std_specs::iter::IteratorSpec;
use vstd::utf8::is_ascii_chars;

verus! {

/// The characters that count as white space: those with the Unicode
/// `White_Space` property.
pub open spec fn is_space(c: char) -> bool {
    let u = c as u32;
    ||| 0x09 <= u <= 0x0D
    ||| u == 0x20
    ||| u == 0x85
    ||| u == 0xA0
    ||| u == 0x1680
    ||| 0x2000 <= u <= 0x200A
    ||| u == 0x2028
    ||| u == 0x2029
    ||| u == 0x202F
    ||| u == 0x205F
    ||| u == 0x3000
}

/// Executable form of [`is_space`].
pub fn is_whitespace(c: char) -> (b: bool)
    ensures
        b == is_space(c),
{
    let u: u32 = c as u32;
    (0x09 <= u && u <= 0x0D) || u == 0x20 || u == 0x85 || u == 0xA0 || u == 0x1680 || (0x2000 <= u
        && u <= 0x200A) || u == 0x2028 || u == 0x2029 || u == 0x202F || u == 0x205F || u == 0x3000
}

/// The characters of `s`, in order.
pub fn chars_of(s: &str) -> (v: Vec<char>)
    ensures
        v@ == s@,
{
    broadcast use vstd::string::group_string_axioms;

    let mut v: Vec<char> = Vec::new();
    for c in it: s.chars()
        invariant
            it.seq() == s@,
            v@ == it.seq().take(it.index()),
    {
        v.push(c);
    }
    v
}

/// `String::push` of std: appends one character to the string.
#[verifier::external_body]
fn push_char(s: &mut String, c: char)
    ensures
        final(s)@ == old(s)@.push(c),
{
    s.push(c)
}

/// The string made of `v[lo..hi]`.
pub fn string_from(v: &Vec<char>, lo: usize, hi: usize) -> (s: String)
    requires
        lo <= hi <= v.len(),
    ensures
        s@ == v@.subrange(lo as int, hi as int),
{
    let mut s = String::new();
    let mut i: usize = lo;
    while i < hi
        invariant
            lo <= i <= hi <= v.len(),
            s@ == v@.subrange(lo as int, i as int),
        decreases hi - i,
    {
        push_char(&mut s, v[i]);
        i = i + 1;
    }
    s
}

/// The string made of all of `v`.
pub fn string_of(v: &Vec<char>) -> (s: String)
    ensures
        s@ == v@,
{
    let s = string_from(v, 0, v.len());
    assert(v@.subrange(0, v.len() as int) =~= v@);
    s
}

/// A copy of `v[lo..hi]`.
pub fn slice_of(v: &Vec<char>, lo: usize, hi: usize) -> (r: Vec<char>)
    requires
        lo <= hi <= v.len(),
    ensures
        r@ == v@.subrange(lo as int, hi as int),
{
    let mut r: Vec<char> = Vec::new();
    let mut i: usize = lo;
    while i < hi
        invariant
            lo <= i <= hi <= v.len(),
            r@ == v@.subrange(lo as int, i as int),
        decreases hi - i,
    {
        r.push(v[i]);
        i = i + 1;
    }
    r
}

/// Whether `pat` stands in `s` at index `i`.
pub open spec fn occurs_at(s: Seq<char>, pat: Seq<char>, i: int) -> bool {
    0 <= i && i + pat.len() <= s.len() && s.subrange(i, i + pat.len()) == pat
}

/// Executable form of [`occurs_at`].
pub fn matches_at(v: &Vec<char>, pat: &Vec<char>, i: usize) -> (b: bool)
    ensures
        b == occurs_at(v@, pat@, i as int),
{
    if pat.len() > v.len() || i > v.len() - pat.len() {
        return false;
    }
    let mut k: usize = 0;
    while k < pat.len()
        invariant
            k <= pat.len(),
            i + pat.len() <= v.len(),
            forall|j: int| 0 <= j < k ==> v@[i + j] == pat@[j],
        decreases pat.len() - k,
    {
        if v[i + k] != pat[k] {
            assert(v@.subrange(i as int, i + pat.len())[k as int] != pat@[k as int]);
            return false;
        }
        k = k + 1;
    }
    assert(v@.subrange(i as int, i + pat.len()) =~= pat@);
    true
}

/// Whether the two texts are the same.
pub fn same_text(a: &Vec<char>, b: &Vec<char>) -> (r: bool)
    ensures
        r == (a@ == b@),
{
    if a.len() != b.len() {
        return false;
    }
    let r = matches_at(a, b, 0);
    assert(a@.subrange(0, a@.len() as int) =~= a@);
    r
}

/// Whether `s` begins with `pat`.
pub open spec fn has_prefix(s: Seq<char>, pat: Seq<char>) -> bool {
    occurs_at(s, pat, 0)
}

/// Whether `s` ends with `pat`.
pub open spec fn has_suffix(s: Seq<char>, pat: Seq<char>) -> bool {
    occurs_at(s, pat, s.len() - pat.len())
}

/// Executable form of [`has_prefix`].
pub fn starts_with(v: &Vec<char>, pat: &Vec<char>) -> (b: bool)
    ensures
        b == has_prefix(v@, pat@),
{
    matches_at(v, pat, 0)
}

/// Executable form of [`has_suffix`].
pub fn ends_with(v: &Vec<char>, pat: &Vec<char>) -> (b: bool)
    ensures
        b == has_suffix(v@, pat@),
{
    if pat.len() > v.len() {
        return false;
    }
    matches_at(v, pat, v.len() - pat.len())
}

/// The least index at or after `from` at which `pat` stands in `s`.
pub open spec fn find_from(s: Seq<char>, pat: Seq<char>, from: int) -> Option<int>
    decreases s.len() + 1 - from,
{
    if from < 0 || from + pat.len() > s.len() {
        None
    } else if occurs_at(s, pat, from) {
        Some(from)
    } else {
        find_from(s, pat, from + 1)
    }
}

/// The least index at which `pat` stands in `s`.
pub open spec fn index_of(s: Seq<char>, pat: Seq<char>) -> Option<int> {
    find_from(s, pat, 0)
}

/// Whether `pat` stands somewhere in `s`.
pub open spec fn contains(s: Seq<char>, pat: Seq<char>) -> bool {
    index_of(s, pat) is Some
}

/// [`find_from`] gives the first occurrence at or after `from`, and `None`
/// exactly when there is none.
pub proof fn lemma_find_from(s: Seq<char>, pat: Seq<char>, from: int)
    requires
        0 <= from,
    ensures
        match find_from(s, pat, from) {
            Some(i) => from <= i && occurs_at(s, pat, i) && forall|j: int|
                from <= j < i ==> !occurs_at(s, pat, j),
            None => forall|j: int| from <= j ==> !occurs_at(s, pat, j),
        },
    decreases s.len() + 1 - from,
{
    if from + pat.len() > s.len() {
    } else if occurs_at(s, pat, from) {
    } else {
        lemma_find_from(s, pat, from + 1);
    }
}

/// An occurrence at `i` with none before it, from `from` on, is what
/// [`find_from`] finds.
pub proof fn lemma_find_from_is(s: Seq<char>, pat: Seq<char>, from: int, i: int)
    requires
        0 <= from <= i,
        occurs_at(s, pat, i),
        forall|j: int| from <= j < i ==> !occurs_at(s, pat, j),
    ensures
        find_from(s, pat, from) == Some(i),
{
    lemma_find_from(s, pat, from);
}

/// Where nothing occurs from `from` on, [`find_from`] finds nothing.
pub proof fn lemma_find_from_none(s: Seq<char>, pat: Seq<char>, from: int)
    requires
        0 <= from,
        forall|j: int| from <= j ==> !occurs_at(s, pat, j),
    ensures
        find_from(s, pat, from) is None,
{
    lemma_find_from(s, pat, from);
}

/// Executable form of [`find_from`].
pub fn find_at(v: &Vec<char>, pat: &Vec<char>, from: usize) -> (r: Option<usize>)
    ensures
        match r {
            Some(i) => find_from(v@, pat@, from as int) == Some(i as int),
            None => find_from(v@, pat@, from as int) is None,
        },
{
    if pat.len() > v.len() || from > v.len() - pat.len() {
        return None;
    }
    let last: usize = v.len() - pat.len();
    let mut i: usize = from;
    while i < last
        invariant
            from <= i <= last,
            last == v.len() - pat.len(),
            pat.len() <= v.len(),
            find_from(v@, pat@, from as int) == find_from(v@, pat@, i as int),
        decreases last - i,
    {
        if matches_at(v, pat, i) {
            return Some(i);
        }
        i = i + 1;
    }
    if matches_at(v, pat, last) {
        Some(last)
    } else {
        assert(find_from(v@, pat@, last + 1) is None);
        None
    }
}

/// Executable form of [`index_of`].
pub fn find(v: &Vec<char>, pat: &Vec<char>) -> (r: Option<usize>)
    ensures
        match r {
            Some(i) => index_of(v@, pat@) == Some(i as int),
            None => index_of(v@, pat@) is None,
        },
{
    find_at(v, pat, 0)
}

/// Executable form of [`contains`].
pub fn includes(v: &Vec<char>, pat: &Vec<char>) -> (b: bool)
    ensures
        b == contains(v@, pat@),
{
    find(v, pat).is_some()
}

/// `s` without its leading white space.
pub open spec fn trim_start(s: Seq<char>) -> Seq<char>
    decreases s.len(),
{
    if s.len() > 0 && is_space(s[0]) {
        trim_start(s.skip(1))
    } else {
        s
    }
}

/// `s` without its trailing white space.
pub open spec fn trim_end(s: Seq<char>) -> Seq<char>
    decreases s.len(),
{
    if s.len() > 0 && is_space(s.last()) {
        trim_end(s.drop_last())
    } else {
        s
    }
}

/// `s` without its leading and trailing white space.
pub open spec fn trim(s: Seq<char>) -> Seq<char> {
    trim_end(trim_start(s))
}

/// [`trim_start`] drops a prefix of `s`.
pub proof fn lemma_trim_start_is_skip(s: Seq<char>) -> (n: int)
    ensures
        0 <= n <= s.len(),
        trim_start(s) == s.skip(n),
        forall|i: int| 0 <= i < n ==> is_space(s[i]),
        n < s.len() ==> !is_space(s[n]),
    decreases s.len(),
{
    if s.len() > 0 && is_space(s[0]) {
        let m = lemma_trim_start_is_skip(s.skip(1));
        assert(s.skip(1).skip(m) =~= s.skip(m + 1));
        assert forall|i: int| 0 <= i < m + 1 implies is_space(s[i]) by {
            if i > 0 {
                assert(s[i] == s.skip(1)[i - 1]);
            }
        }
        if m + 1 < s.len() {
            assert(s[m + 1] == s.skip(1)[m]);
        }
        m + 1
    } else {
        assert(s.skip(0) =~= s);
        0
    }
}

/// [`trim_end`] keeps a prefix of `s`.
pub proof fn lemma_trim_end_is_take(s: Seq<char>) -> (n: int)
    ensures
        0 <= n <= s.len(),
        trim_end(s) == s.take(n),
        forall|i: int| n <= i < s.len() ==> is_space(s[i]),
        n > 0 ==> !is_space(s[n - 1]),
    decreases s.len(),
{
    if s.len() > 0 && is_space(s.last()) {
        let m = lemma_trim_end_is_take(s.drop_last());
        assert(s.drop_last().take(m) =~= s.take(m));
        assert forall|i: int| m <= i < s.len() implies is_space(s[i]) by {
            if i < s.len() - 1 {
                assert(s[i] == s.drop_last()[i]);
            }
        }
        if m > 0 {
            assert(s[m - 1] == s.drop_last()[m - 1]);
        }
        m
    } else {
        assert(s.take(s.len() as int) =~= s);
        s.len() as int
    }
}

/// Executable form of [`trim`].
pub fn trimmed(v: &Vec<char>) -> (r: Vec<char>)
    ensures
        r@ == trim(v@),
{
    let mut lo: usize = 0;
    assert(v@.skip(0) =~= v@);
    while lo < v.len() && is_whitespace(v[lo])
        invariant
            lo <= v.len(),
            trim_start(v@) == trim_start(v@.skip(lo as int)),
        decreases v.len() - lo,
    {
        assert(v@.skip(lo as int).skip(1) =~= v@.skip(lo + 1));
        lo = lo + 1;
    }
    assert(trim_start(v@) == v@.skip(lo as int));
    let ghost t = v@.skip(lo as int);
    let mut hi: usize = v.len();
    assert(t.take(hi - lo) =~= t);
    while hi > lo && is_whitespace(v[hi - 1])
        invariant
            lo <= hi <= v.len(),
            t == v@.skip(lo as int),
            trim_end(t) == trim_end(t.take(hi - lo)),
        decreases hi - lo,
    {
        assert(t.take(hi - lo).drop_last() =~= t.take(hi - lo - 1));
        hi = hi - 1;
    }
    proof {
        assert(trim_end(t.take(hi - lo)) == t.take(hi - lo));
        assert(t.take(hi - lo) =~= v@.subrange(lo as int, hi as int));
    }
    slice_of(v, lo, hi)
}

/// `s` without the run of `c` at its end.
pub open spec fn strip_trailing(s: Seq<char>, c: char) -> Seq<char>
    decreases s.len(),
{
    if s.len() > 0 && s.last() == c {
        strip_trailing(s.drop_last(), c)
    } else {
        s
    }
}

/// Executable form of [`strip_trailing`].
pub fn without_trailing(v: &Vec<char>, c: char) -> (r: Vec<char>)
    ensures
        r@ == strip_trailing(v@, c),
{
    let mut hi: usize = v.len();
    assert(v@.take(hi as int) =~= v@);
    while hi > 0 && v[hi - 1] == c
        invariant
            hi <= v.len(),
            strip_trailing(v@, c) == strip_trailing(v@.take(hi as int), c),
        decreases hi,
    {
        assert(v@.take(hi as int).drop_last() =~= v@.take(hi - 1));
        hi = hi - 1;
    }
    assert(v@.take(hi as int) =~= v@.subrange(0, hi as int));
    slice_of(v, 0, hi)
}

/// `s` with every `c` taken out.
pub open spec fn without_char(s: Seq<char>, c: char) -> Seq<char>
    decreases s.len(),
{
    if s.len() == 0 {
        s
    } else if s.last() == c {
        without_char(s.drop_last(), c)
    } else {
        without_char(s.drop_last(), c).push(s.last())
    }
}

/// Executable form of [`without_char`].
pub fn remove_char(v: &Vec<char>, c: char) -> (r: Vec<char>)
    ensures
        r@ == without_char(v@, c),
{
    let mut r: Vec<char> = Vec::new();
    let mut i: usize = 0;
    while i < v.len()
        invariant
            i <= v.len(),
            r@ == without_char(v@.take(i as int), c),
        decreases v.len() - i,
    {
        assert(v@.take(i + 1).drop_last() =~= v@.take(i as int));
        if v[i] != c {
            r.push(v[i]);
        }
        i = i + 1;
    }
    assert(v@.take(v.len() as int) =~= v@);
    r
}

/// The greatest index at which `c` stands in `s`.
pub open spec fn last_index_of(s: Seq<char>, c: char) -> Option<int>
    decreases s.len(),
{
    if s.len() == 0 {
        None
    } else if s.last() == c {
        Some(s.len() - 1)
    } else {
        last_index_of(s.drop_last(), c)
    }
}

/// Executable form of [`last_index_of`].
pub fn rfind_char(v: &Vec<char>, c: char) -> (r: Option<usize>)
    ensures
        match r {
            Some(i) => last_index_of(v@, c) == Some(i as int),
            None => last_index_of(v@, c) is None,
        },
{
    let mut hi: usize = v.len();
    assert(v@.take(hi as int) =~= v@);
    while hi > 0
        invariant
            hi <= v.len(),
            last_index_of(v@, c) == last_index_of(v@.take(hi as int), c),
        decreases hi,
    {
        if v[hi - 1] == c {
            return Some(hi - 1);
        }
        assert(v@.take(hi as int).drop_last() =~= v@.take(hi - 1));
        hi = hi - 1;
    }
    None
}

/// The pieces of `s` between the occurrences of `pat`, found from the left
/// and not overlapping. A text in which `pat` does not occur is one piece.
pub open spec fn split_by(s: Seq<char>, pat: Seq<char>) -> Seq<Seq<char>>
    decreases s.len(),
    via split_by_decreases
{
    if pat.len() == 0 {
        seq![s]
    } else {
        match index_of(s, pat) {
            None => seq![s],
            Some(i) => seq![s.take(i)] + split_by(s.skip(i + pat.len()), pat),
        }
    }
}

#[via_fn]
proof fn split_by_decreases(s: Seq<char>, pat: Seq<char>) {
    lemma_find_from(s, pat, 0);
}

/// An occurrence in a suffix of `s` is an occurrence in `s`, shifted.
pub proof fn lemma_occurs_at_skip(s: Seq<char>, pat: Seq<char>, from: int, i: int)
    requires
        0 <= from <= s.len(),
        0 <= i,
    ensures
        occurs_at(s.skip(from), pat, i) == occurs_at(s, pat, from + i),
{
    if i + pat.len() <= s.len() - from {
        assert(s.skip(from).subrange(i, i + pat.len()) =~= s.subrange(
            from + i,
            from + i + pat.len(),
        ));
    }
}

/// Searching a suffix of `s` is searching `s` from where the suffix begins.
pub proof fn lemma_find_in_skip(s: Seq<char>, pat: Seq<char>, from: int)
    requires
        0 <= from <= s.len(),
    ensures
        match find_from(s, pat, from) {
            Some(i) => index_of(s.skip(from), pat) == Some(i - from),
            None => index_of(s.skip(from), pat) is None,
        },
{
    let t = s.skip(from);
    lemma_find_from(s, pat, from);
    match find_from(s, pat, from) {
        Some(i) => {
            lemma_occurs_at_skip(s, pat, from, i - from);
            assert forall|j: int| 0 <= j < i - from implies !occurs_at(t, pat, j) by {
                lemma_occurs_at_skip(s, pat, from, j);
            }
            lemma_find_from_is(t, pat, 0, i - from);
        },
        None => {
            assert forall|j: int| 0 <= j implies !occurs_at(t, pat, j) by {
                lemma_occurs_at_skip(s, pat, from, j);
            }
            lemma_find_from_none(t, pat, 0);
        },
    }
}

/// Executable form of [`split_by`].
pub fn split(v: &Vec<char>, pat: &Vec<char>) -> (r: Vec<Vec<char>>)
    ensures
        r@.map_values(|p: Vec<char>| p@) == split_by(v@, pat@),
{
    let mut r: Vec<Vec<char>> = Vec::new();
    if pat.len() == 0 {
        r.push(slice_of(v, 0, v.len()));
        assert(v@.subrange(0, v.len() as int) =~= v@);
        assert(r@.map_values(|p: Vec<char>| p@) =~= seq![v@]);
        return r;
    }
    let mut pos: usize = 0;
    assert(v@.skip(0) =~= v@);
    loop
        invariant
            pos <= v.len(),
            pat.len() > 0,
            split_by(v@, pat@) == r@.map_values(|p: Vec<char>| p@) + split_by(
                v@.skip(pos as int),
                pat@,
            ),
        decreases v.len() - pos,
    {
        let ghost done = r@.map_values(|p: Vec<char>| p@);
        let ghost rest = v@.skip(pos as int);
        proof {
            lemma_find_in_skip(v@, pat@, pos as int);
            lemma_find_from(v@, pat@, pos as int);
        }
        match find_at(v, pat, pos) {
            Some(i) => {
                r.push(slice_of(v, pos, i));
                proof {
                    assert(rest.take(i - pos) =~= v@.subrange(pos as int, i as int));
                    assert(rest.skip(i - pos + pat.len()) =~= v@.skip(i + pat.len()));
                    assert(r@.map_values(|p: Vec<char>| p@) =~= done.push(
                        v@.subrange(pos as int, i as int),
                    ));
                    assert(done + (seq![rest.take(i - pos)] + split_by(
                        v@.skip(i + pat.len()),
                        pat@,
                    )) =~= done.push(rest.take(i - pos)) + split_by(v@.skip(i + pat.len()), pat@));
                }
                pos = i + pat.len();
            },
            None => {
                r.push(slice_of(v, pos, v.len()));
                proof {
                    assert(rest =~= v@.subrange(pos as int, v.len() as int));
                    assert(r@.map_values(|p: Vec<char>| p@) =~= done.push(rest));
                    assert(done + seq![rest] =~= done.push(rest));
                }
                return r;
            },
        }
    }
}

/// The length of the run of characters at the start of `s` that are not
/// white space.
pub open spec fn word_len(s: Seq<char>) -> int
    decreases s.len(),
{
    if s.len() == 0 || is_space(s[0]) {
        0
    } else {
        1 + word_len(s.skip(1))
    }
}

/// The first word of `s`: the run of characters that are not white space
/// which follows its leading white space. It is empty where `s` has no
/// word.
pub open spec fn first_word(s: Seq<char>) -> Seq<char> {
    trim_start(s).take(word_len(trim_start(s)))
}

/// What follows the first word of `s`.
pub open spec fn after_word(s: Seq<char>) -> Seq<char> {
    trim_start(s).skip(word_len(trim_start(s)))
}

/// Finds the first word of `v[from..]`: the indices at which it begins and
/// ends.
pub fn next_word(v: &Vec<char>, from: usize) -> (r: (usize, usize))
    requires
        from <= v.len(),
    ensures
        from <= r.0 <= r.1 <= v.len(),
        first_word(v@.skip(from as int)) == v@.subrange(r.0 as int, r.1 as int),
        after_word(v@.skip(from as int)) == v@.skip(r.1 as int),
{
    let mut lo: usize = from;
    while lo < v.len() && is_whitespace(v[lo])
        invariant
            from <= lo <= v.len(),
            trim_start(v@.skip(from as int)) == trim_start(v@.skip(lo as int)),
        decreases v.len() - lo,
    {
        assert(v@.skip(lo as int).skip(1) =~= v@.skip(lo + 1));
        lo = lo + 1;
    }
    let ghost t = v@.skip(lo as int);
    assert(trim_start(v@.skip(from as int)) == t);
    let mut hi: usize = lo;
    while hi < v.len() && !is_whitespace(v[hi])
        invariant
            lo <= hi <= v.len(),
            t == v@.skip(lo as int),
            word_len(t) == (hi - lo) + word_len(v@.skip(hi as int)),
        decreases v.len() - hi,
    {
        assert(v@.skip(hi as int).skip(1) =~= v@.skip(hi + 1));
        hi = hi + 1;
    }
    assert(t.take(hi - lo) =~= v@.subrange(lo as int, hi as int));
    assert(t.skip(hi - lo) =~= v@.skip(hi as int));
    (lo, hi)
}

/// Whether the two strings hold the same text.
pub fn same_str(a: &str, b: &str) -> (r: bool)
    ensures
        r == (a@ == b@),
{
    let x = chars_of(a);
    let y = chars_of(b);
    same_text(&x, &y)
}

/// Appends the characters of `s` to `out`.
pub fn push_str(out: &mut Vec<char>, s: &str)
    ensures
        final(out)@ == old(out)@ + s@,
{
    let v = chars_of(s);
    push_all(out, &v);
}

/// Appends the characters of `v` to `out`.
pub fn push_all(out: &mut Vec<char>, v: &Vec<char>)
    ensures
        final(out)@ == old(out)@ + v@,
{
    let mut i: usize = 0;
    assert(old(out)@ + v@.take(0) =~= old(out)@);
    while i < v.len()
        invariant
            i <= v.len(),
            out@ == old(out)@ + v@.take(i as int),
        decreases v.len() - i,
    {
        out.push(v[i]);
        assert(old(out)@ + v@.take(i + 1) =~= (old(out)@ + v@.take(i as int)).push(v@[i as int]));
        i = i + 1;
    }
    assert(v@.take(v.len() as int) =~= v@);
}

/// Whether `c` can stand inside a word: an ASCII letter, a decimal digit
/// or `_`.
pub open spec fn is_word_char(c: char) -> bool {
    let u = c as u32;
    0x41 <= u <= 0x5A || 0x61 <= u <= 0x7A || 0x30 <= u <= 0x39 || c == '_'
}

/// Executable form of [`is_word_char`].
pub fn word_char(c: char) -> (b: bool)
    ensures
        b == is_word_char(c),
{
    let u: u32 = c as u32;
    (0x41 <= u && u <= 0x5A) || (0x61 <= u && u <= 0x7A) || (0x30 <= u && u <= 0x39) || c == '_'
}

/// Whether `word` stands in `text` at `i` as a whole word: with no word
/// character directly before it or after it.
pub open spec fn word_at(text: Seq<char>, word: Seq<char>, i: int) -> bool {
    &&& word.len() > 0
    &&& occurs_at(text, word, i)
    &&& (i == 0 || !is_word_char(text[i - 1]))
    &&& (i + word.len() == text.len() || !is_word_char(text[i + word.len()]))
}

/// Whether `word` stands somewhere in `text` as a whole word.
pub open spec fn mentions_word(text: Seq<char>, word: Seq<char>) -> bool {
    exists|i: int| word_at(text, word, i)
}

/// Executable form of [`mentions_word`].
pub fn mentions(text: &Vec<char>, word: &Vec<char>) -> (b: bool)
    ensures
        b == mentions_word(text@, word@),
{
    if word.len() == 0 || word.len() > text.len() {
        return false;
    }
    let last: usize = text.len() - word.len();
    let mut i: usize = 0;
    while i <= last
        invariant
            i <= last + 1,
            0 < word.len() <= text.len(),
            last == text.len() - word.len(),
            forall|j: int| 0 <= j < i ==> !word_at(text@, word@, j),
        decreases last + 1 - i,
    {
        if matches_at(text, word, i) && (i == 0 || !word_char(text[i - 1])) && (i == last
            || !word_char(text[i + word.len()])) {
            assert(word_at(text@, word@, i as int));
            return true;
        }
        i = i + 1;
    }
    false
}

/// Executable form of [`word_at`].
pub fn is_word_at(text: &Vec<char>, word: &Vec<char>, i: usize) -> (b: bool)
    ensures
        b == word_at(text@, word@, i as int),
{
    if word.len() == 0 {
        return false;
    }
    let stands: bool = matches_at(text, word, i);
    if !stands {
        return false;
    }
    let len: usize = text.len();
    let end: usize = i + word.len();
    let before: bool = i == 0 || !word_char(text[i - 1]);
    let after: bool = end == len || !word_char(text[end]);
    before && after
}

/// Whether the position `i` of `s` is inside a quoted literal: an odd
/// number of single quotes stands before it.
pub open spec fn in_quotes(s: Seq<char>, i: int) -> bool
    decreases i,
{
    if i <= 0 || i > s.len() {
        false
    } else if s[i - 1] == '\'' {
        !in_quotes(s, i - 1)
    } else {
        in_quotes(s, i - 1)
    }
}

/// Executable form of [`in_quotes`].
pub fn quoted_at(v: &Vec<char>, i: usize) -> (b: bool)
    requires
        i <= v.len(),
    ensures
        b == in_quotes(v@, i as int),
{
    let mut inside: bool = false;
    let mut k: usize = 0;
    while k < i
        invariant
            k <= i <= v.len(),
            inside == in_quotes(v@, k as int),
        decreases i - k,
    {
        if v[k] == '\'' {
            inside = !inside;
        }
        k = k + 1;
    }
    inside
}

/// Whether `word` stands in `s` at `i` as a keyword: as a whole word and
/// outside quoted literals.
pub open spec fn keyword_at(s: Seq<char>, word: Seq<char>, i: int) -> bool {
    word_at(s, word, i) && !in_quotes(s, i)
}

/// The least index at or after `from` at which `word` stands in `s` as a
/// keyword.
pub open spec fn find_keyword_from(s: Seq<char>, word: Seq<char>, from: int) -> Option<int>
    decreases s.len() + 1 - from,
{
    if from < 0 || from + word.len() > s.len() {
        None
    } else if keyword_at(s, word, from) {
        Some(from)
    } else {
        find_keyword_from(s, word, from + 1)
    }
}

/// The least index at which `word` stands in `s` as a keyword.
pub open spec fn index_of_keyword(s: Seq<char>, word: Seq<char>) -> Option<int> {
    find_keyword_from(s, word, 0)
}

/// [`find_keyword_from`] gives the first place at or after `from` where
/// the word stands as a keyword, and `None` exactly when there is none.
pub proof fn lemma_find_keyword_from(s: Seq<char>, word: Seq<char>, from: int)
    requires
        0 <= from,
    ensures
        match find_keyword_from(s, word, from) {
            Some(i) => from <= i && keyword_at(s, word, i) && forall|j: int|
                from <= j < i ==> !keyword_at(s, word, j),
            None => forall|j: int| from <= j ==> !keyword_at(s, word, j),
        },
    decreases s.len() + 1 - from,
{
    if from + word.len() > s.len() {
    } else if keyword_at(s, word, from) {
    } else {
        lemma_find_keyword_from(s, word, from + 1);
    }
}

/// Executable form of [`find_keyword_from`].
pub fn find_keyword_at(v: &Vec<char>, word: &Vec<char>, from: usize) -> (r: Option<usize>)
    ensures
        match r {
            Some(i) => find_keyword_from(v@, word@, from as int) == Some(i as int) && from <= i
                && i + word@.len() <= v@.len() && word@.len() > 0,
            None => find_keyword_from(v@, word@, from as int) is None,
        },
{
    if word.len() > v.len() || from > v.len() - word.len() {
        return None;
    }
    let last: usize = v.len() - word.len();
    let mut inside: bool = quoted_at(v, from);
    let mut i: usize = from;
    while i < last
        invariant
            from <= i <= last,
            last == v.len() - word.len(),
            word.len() <= v.len(),
            inside == in_quotes(v@, i as int),
            find_keyword_from(v@, word@, from as int) == find_keyword_from(v@, word@, i as int),
        decreases last - i,
    {
        if !inside && is_word_at(v, word, i) {
            return Some(i);
        }
        if v[i] == '\'' {
            inside = !inside;
        }
        i = i + 1;
    }
    if !inside && is_word_at(v, word, last) {
        Some(last)
    } else {
        assert(find_keyword_from(v@, word@, last + 1) is None);
        None
    }
}

/// Executable form of [`index_of_keyword`].
pub fn find_keyword(v: &Vec<char>, word: &Vec<char>) -> (r: Option<usize>)
    ensures
        match r {
            Some(i) => index_of_keyword(v@, word@) == Some(i as int) && i + word@.len()
                <= v@.len() && word@.len() > 0,
            None => index_of_keyword(v@, word@) is None,
        },
{
    find_keyword_at(v, word, 0)
}

/// The pieces of `s` from `from` on, between the places where `word`
/// stands as a keyword.
pub open spec fn split_at_keyword_from(s: Seq<char>, word: Seq<char>, from: int) -> Seq<
    Seq<char>,
>
    decreases s.len() - from,
{
    if !(0 <= from <= s.len()) {
        seq![Seq::empty()]
    } else {
        match find_keyword_from(s, word, from) {
            None => seq![s.subrange(from, s.len() as int)],
            Some(i) => {
                proof {
                    lemma_find_keyword_from(s, word, from);
                }
                seq![s.subrange(from, i)] + split_at_keyword_from(s, word, i + word.len())
            },
        }
    }
}

/// The pieces of `s` between the places where `word` stands as a keyword.
/// A text in which it does not is one piece.
pub open spec fn split_at_keyword(s: Seq<char>, word: Seq<char>) -> Seq<Seq<char>> {
    split_at_keyword_from(s, word, 0)
}

/// Executable form of [`split_at_keyword`].
pub fn split_keywords(v: &Vec<char>, word: &Vec<char>) -> (r: Vec<Vec<char>>)
    ensures
        r@.map_values(|p: Vec<char>| p@) == split_at_keyword(v@, word@),
{
    let mut r: Vec<Vec<char>> = Vec::new();
    let mut pos: usize = 0;
    assert(r@.map_values(|p: Vec<char>| p@) + split_at_keyword_from(v@, word@, 0)
        =~= split_at_keyword_from(v@, word@, 0));
    loop
        invariant
            pos <= v.len(),
            split_at_keyword(v@, word@) == r@.map_values(|p: Vec<char>| p@)
                + split_at_keyword_from(v@, word@, pos as int),
        decreases v.len() - pos,
    {
        let ghost done = r@.map_values(|p: Vec<char>| p@);
        match find_keyword_at(v, word, pos) {
            Some(i) => {
                r.push(slice_of(v, pos, i));
                proof {
                    let piece = v@.subrange(pos as int, i as int);
                    let rest = split_at_keyword_from(v@, word@, i + word@.len());
                    assert(r@.map_values(|p: Vec<char>| p@) =~= done.push(piece));
                    assert(done + (seq![piece] + rest) =~= done.push(piece) + rest);
                }
                pos = i + word.len();
            },
            None => {
                r.push(slice_of(v, pos, v.len()));
                proof {
                    let piece = v@.subrange(pos as int, v.len() as int);
                    assert(r@.map_values(|p: Vec<char>| p@) =~= done.push(piece));
                    assert(done + seq![piece] =~= done.push(piece));
                }
                return r;
            },
        }
    }
}

/// What `str::to_uppercase` of std returns for the text `s`.
pub uninterp spec fn uppercase_of(s: Seq<char>) -> Seq<char>;

/// `c` with a lower-case ASCII letter turned into its capital.
pub open spec fn ascii_upper_char(c: char) -> char {
    if 0x61 <= c as u32 <= 0x7A {
        ((c as u32 - 0x20) as u8) as char
    } else {
        c
    }
}

/// `s` with each lower-case ASCII letter turned into its capital.
pub open spec fn ascii_upper(s: Seq<char>) -> Seq<char> {
    s.map_values(|c: char| ascii_upper_char(c))
}

/// `s` in upper case: for a text of ASCII characters, the text with its
/// letters turned into capitals; for any other, what std makes of it.
pub open spec fn upper(s: Seq<char>) -> Seq<char> {
    if is_ascii_chars(s) {
        ascii_upper(s)
    } else {
        uppercase_of(s)
    }
}

/// `str::to_uppercase` of std: the text in upper case. In a text of ASCII
/// characters it turns the letters `a` to `z` into `A` to `Z` and leaves
/// the rest.
#[verifier::external_body]
fn to_uppercase(s: &str) -> (r: String)
    ensures
        r@ == uppercase_of(s@),
        is_ascii_chars(s@) ==> r@ == ascii_upper(s@),
{
    s.to_uppercase()
}

/// Executable form of [`upper`].
pub fn uppercased(s: &str) -> (r: String)
    ensures
        r@ == upper(s@),
{
    to_uppercase(s)
}

/// What `str::to_lowercase` of std returns for the text `s`.
pub uninterp spec fn lowercase_of(s: Seq<char>) -> Seq<char>;

/// `c` with a capital ASCII letter turned into its small letter.
pub open spec fn ascii_lower_char(c: char) -> char {
    if 0x41 <= c as u32 <= 0x5A {
        ((c as u32 + 0x20) as u8) as char
    } else {
        c
    }
}

/// `s` with each capital ASCII letter turned into its small letter.
pub open spec fn ascii_lower(s: Seq<char>) -> Seq<char> {
    s.map_values(|c: char| ascii_lower_char(c))
}

/// `s` in lower case: for a text of ASCII characters, the text with its
/// capitals turned into small letters; for any other, what std makes of
/// it.
pub open spec fn lower(s: Seq<char>) -> Seq<char> {
    if is_ascii_chars(s) {
        ascii_lower(s)
    } else {
        lowercase_of(s)
    }
}

/// `str::to_lowercase` of std: the text in lower case. In a text of ASCII
/// characters it turns the letters `A` to `Z` into `a` to `z` and leaves
/// the rest.
#[verifier::external_body]
fn to_lowercase(s: &str) -> (r: String)
    ensures
        r@ == lowercase_of(s@),
        is_ascii_chars(s@) ==> r@ == ascii_lower(s@),
{
    s.to_lowercase()
}

/// Executable form of [`lower`].
pub fn lowercased(s: &str) -> (r: String)
    ensures
        r@ == lower(s@),
{
    to_lowercase(s)
}

} // verus!
