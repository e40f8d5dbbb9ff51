//! Character sequences: conversion between strings and character vectors,
//! comparison, prefixes and suffixes, decimal numerals and letter case.

use vstd::prelude::*;

verus! {

/// The characters of `s`, in order.
pub fn to_chars(s: &str) -> (v: Vec<char>)
    ensures
        v@ == s@,
{
    broadcast use vstd::string::group_string_axioms;

    let mut v: Vec<char> = Vec::new();
    for c in it: s.chars()
        invariant
            it.seq() == s@,
            v@ == s@.take(it.index() as int),
    {
        v.push(c);
    }
    assert(v@ == s@);
    v
}

/// `String::push` of the standard library: appends one character.
#[verifier::external_body]
fn push_char(s: &mut String, c: char)
    ensures
        final(s)@ == old(s)@.push(c),
{
    s.push(c)
}

/// The string made of the characters of `v`, in order.
pub fn from_chars(v: &Vec<char>) -> (s: String)
    ensures
        s@ == v@,
{
    let mut s = String::new();
    let mut i: usize = 0;
    while i < v.len()
        invariant
            i <= v.len(),
            s@ == v@.take(i as int),
        decreases v.len() - i,
    {
        push_char(&mut s, v[i]);
        i += 1;
        assert(v@.take(i as int) == v@.take(i - 1).push(v@[i - 1]));
    }
    assert(v@.take(v.len() as int) == v@);
    s
}

/// Whether `a` and `b` hold the same characters.
pub fn chars_eq(a: &Vec<char>, b: &Vec<char>) -> (r: bool)
    ensures
        r == (a@ == b@),
{
    if a.len() != b.len() {
        return false;
    }
    let mut i: usize = 0;
    while i < a.len()
        invariant
            i <= a.len(),
            a.len() == b.len(),
            forall|j: int| 0 <= j < i ==> a@[j] == b@[j],
        decreases a.len() - i,
    {
        if a[i] != b[i] {
            return false;
        }
        i += 1;
    }
    assert(a@ =~= b@);
    true
}

/// Whether `p` occurs in `s` at position `at`.
pub open spec fn occurs_at(s: Seq<char>, at: int, p: Seq<char>) -> bool {
    0 <= at && at + p.len() <= s.len() && s.subrange(at, at + p.len()) == p
}

/// Whether `p` occurs in `s` at position `at`.
pub fn matches_at(s: &Vec<char>, at: usize, p: &Vec<char>) -> (r: bool)
    ensures
        r == occurs_at(s@, at as int, p@),
{
    if at > s.len() || p.len() > s.len() - at {
        return false;
    }
    let mut i: usize = 0;
    while i < p.len()
        invariant
            i <= p.len(),
            at + p.len() <= s.len(),
            forall|j: int| 0 <= j < i ==> s@[at + j] == p@[j],
        decreases p.len() - i,
    {
        if s[at + i] != p[i] {
            assert(s@.subrange(at as int, at + p.len())[i as int] != p@[i as int]);
            return false;
        }
        i += 1;
    }
    assert(s@.subrange(at as int, at + p.len()) =~= p@);
    true
}

/// Whether `s` begins with `p`.
pub fn starts_with(s: &Vec<char>, p: &Vec<char>) -> (r: bool)
    ensures
        r == p@.is_prefix_of(s@),
{
    matches_at(s, 0, p)
}

/// Whether `s` ends with `p`.
pub fn ends_with(s: &Vec<char>, p: &Vec<char>) -> (r: bool)
    ensures
        r == p@.is_suffix_of(s@),
{
    if p.len() > s.len() {
        false
    } else {
        matches_at(s, s.len() - p.len(), p)
    }
}

/// Appends the characters of `tail` to `v`.
pub fn append_chars(v: &mut Vec<char>, tail: &Vec<char>)
    ensures
        final(v)@ == old(v)@ + tail@,
{
    let mut i: usize = 0;
    while i < tail.len()
        invariant
            i <= tail.len(),
            v@ == old(v)@ + tail@.take(i as int),
        decreases tail.len() - i,
    {
        v.push(tail[i]);
        i += 1;
        assert(tail@.take(i as int) == tail@.take(i - 1).push(tail@[i - 1]));
    }
    assert(tail@.take(tail.len() as int) == tail@);
}

/// The characters of `s` from `from` up to, not including, `to`.
pub fn slice_chars(s: &Vec<char>, from: usize, to: usize) -> (r: Vec<char>)
    requires
        from <= to <= s.len(),
    ensures
        r@ == s@.subrange(from as int, to as int),
{
    let mut r: Vec<char> = Vec::new();
    let mut i: usize = from;
    while i < to
        invariant
            from <= i <= to,
            to <= s.len(),
            r@ == s@.subrange(from as int, i as int),
        decreases to - i,
    {
        r.push(s[i]);
        i += 1;
        assert(s@.subrange(from as int, i as int) == s@.subrange(from as int, i - 1).push(
            s@[i - 1],
        ));
    }
    r
}

/// The digit character of a value below ten.
pub open spec fn digit_char(d: nat) -> char
    recommends
        d < 10,
{
    (('0' as u8) + (d as u8)) as char
}

/// The decimal numeral of `n`, without leading zeros (`0` is written "0").
pub open spec fn decimal(n: nat) -> Seq<char>
    decreases n,
{
    if n < 10 {
        seq![digit_char(n)]
    } else {
        decimal(n / 10).push(digit_char(n % 10))
    }
}

/// A decimal numeral is not empty and holds digits only.
pub proof fn lemma_decimal_is_digits(n: nat)
    ensures
        decimal(n).len() >= 1,
        forall|i: int| 0 <= i < decimal(n).len() ==> '0' <= #[trigger] decimal(n)[i] <= '9',
    decreases n,
{
    if n >= 10 {
        lemma_decimal_is_digits(n / 10);
    }
}

/// The decimal numeral of `n`.
pub fn decimal_chars(n: u64) -> (r: Vec<char>)
    ensures
        r@ == decimal(n as nat),
{
    let mut digits: Vec<char> = Vec::new();
    let mut rest: u64 = n;
    while rest >= 10
        invariant
            decimal(n as nat) == decimal(rest as nat) + digits@.reverse(),
        decreases rest,
    {
        let d: u8 = (rest % 10) as u8;
        let c: char = (48u8 + d) as char;
        assert(c == digit_char((rest % 10) as nat));
        proof {
            let before = digits@;
            assert(before.push(c).reverse() =~= seq![c] + before.reverse());
            assert(decimal(rest as nat) == decimal((rest / 10) as nat).push(c));
            assert(decimal((rest / 10) as nat).push(c) + before.reverse() =~= decimal(
                (rest / 10) as nat,
            ) + (seq![c] + before.reverse()));
        }
        digits.push(c);
        rest = rest / 10;
    }
    let c: char = (48u8 + (rest as u8)) as char;
    assert(c == digit_char(rest as nat));
    let mut r: Vec<char> = Vec::new();
    r.push(c);
    let ghost tail = digits@.reverse();
    let mut i: usize = digits.len();
    while i > 0
        invariant
            i <= digits.len(),
            tail == digits@.reverse(),
            r@ == seq![c] + tail.take(digits.len() - i),
        decreases i,
    {
        i -= 1;
        r.push(digits[i]);
        assert(tail[digits.len() - i - 1] == digits@[i as int]);
        assert(tail.take(digits.len() - i) == tail.take(digits.len() - i - 1).push(
            digits@[i as int],
        ));
    }
    assert(tail.take(digits.len() as int) == tail);
    r
}

/// The lower-case form of an ASCII capital letter; any other character as
/// it is.
pub open spec fn ascii_lower(c: char) -> char {
    if 'A' <= c && c <= 'Z' {
        ((c as u8) + 32) as char
    } else {
        c
    }
}

/// `s` with each ASCII capital letter replaced by its lower-case form.
pub open spec fn ascii_lowercase(s: Seq<char>) -> Seq<char> {
    Seq::new(s.len(), |i: int| ascii_lower(s[i]))
}

/// The lower-case form of an ASCII capital letter; any other character as
/// it is.
pub fn to_ascii_lower(c: char) -> (r: char)
    ensures
        r == ascii_lower(c),
{
    if 'A' <= c && c <= 'Z' {
        ((c as u8) + 32) as char
    } else {
        c
    }
}

/// `s` with each ASCII capital letter replaced by its lower-case form.
pub fn to_ascii_lowercase(s: &Vec<char>) -> (r: Vec<char>)
    ensures
        r@ == ascii_lowercase(s@),
{
    let mut r: Vec<char> = Vec::new();
    let mut i: usize = 0;
    while i < s.len()
        invariant
            i <= s.len(),
            r@.len() == i,
            forall|j: int| 0 <= j < i ==> r@[j] == ascii_lower(s@[j]),
        decreases s.len() - i,
    {
        r.push(to_ascii_lower(s[i]));
        i += 1;
    }
    assert(r@ =~= ascii_lowercase(s@));
    r
}

/// What `char::to_uppercase` yields for `c`: its upper-case mapping, which
/// may hold more than one character.
pub uninterp spec fn uppercase_of(c: char) -> Seq<char>;

/// `char::to_uppercase` of the standard library, its characters collected.
#[verifier::external_body]
pub(crate) fn char_to_uppercase(c: char) -> (r: Vec<char>)
    ensures
        r@ == uppercase_of(c),
{
    c.to_uppercase().collect()
}

/// What `str::to_lowercase` returns for `s`.
pub uninterp spec fn lowercase_of(s: Seq<char>) -> Seq<char>;

/// `str::to_lowercase` of the standard library.
#[verifier::external_body]
pub(crate) fn str_to_lowercase(s: &str) -> (r: String)
    ensures
        r@ == lowercase_of(s@),
{
    s.to_lowercase()
}

/// The character sequences that the vectors of `v` hold.
pub open spec fn views(v: Seq<Vec<char>>) -> Seq<Seq<char>> {
    v.map_values(|x: Vec<char>| x@)
}

/// The position of the first character of `s` that is one of `seps`, or the
/// length of `s` where there is none.
pub open spec fn first_of(s: Seq<char>, seps: Seq<char>) -> int
    decreases s.len(),
{
    if s.len() == 0 || seps.contains(s[0]) {
        0
    } else {
        1 + first_of(s.drop_first(), seps)
    }
}

/// The pieces of `s` between the characters that are one of `seps`. There is
/// always at least one piece, and a piece may be empty.
pub open spec fn pieces(s: Seq<char>, seps: Seq<char>) -> Seq<Seq<char>>
    decreases s.len(),
{
    let k = first_of(s, seps);
    if 0 <= k < s.len() {
        seq![s.take(k)] + pieces(s.skip(k + 1), seps)
    } else {
        seq![s]
    }
}

/// The parts, with `sep` between each two neighbours.
pub open spec fn joined(parts: Seq<Seq<char>>, sep: char) -> Seq<char>
    decreases parts.len(),
{
    if parts.len() == 0 {
        Seq::empty()
    } else if parts.len() == 1 {
        parts[0]
    } else {
        parts[0] + seq![sep] + joined(parts.drop_first(), sep)
    }
}

/// The position of the last character of `s` that is one of `seps`, or -1
/// where there is none.
pub open spec fn last_of(s: Seq<char>, seps: Seq<char>) -> int
    decreases s.len(),
{
    if s.len() == 0 {
        -1
    } else if seps.contains(s.last()) {
        s.len() - 1
    } else {
        last_of(s.drop_last(), seps)
    }
}

/// The greatest position not above `from` at which `p` occurs in `s`.
pub open spec fn last_occurrence_from(s: Seq<char>, p: Seq<char>, from: int) -> Option<int>
    decreases from + 1,
{
    if from < 0 {
        None
    } else if occurs_at(s, from, p) {
        Some(from)
    } else {
        last_occurrence_from(s, p, from - 1)
    }
}

/// The greatest position at which `p` occurs in `s`.
pub open spec fn last_occurrence(s: Seq<char>, p: Seq<char>) -> Option<int> {
    last_occurrence_from(s, p, s.len() - p.len())
}

/// `first_of` is the position `k` before which no separator stands and at
/// which one stands, or the text ends.
pub proof fn lemma_first_of(s: Seq<char>, seps: Seq<char>, k: int)
    requires
        0 <= k <= s.len(),
        forall|j: int| 0 <= j < k ==> !seps.contains(s[j]),
        k < s.len() ==> seps.contains(s[k]),
    ensures
        first_of(s, seps) == k,
    decreases s.len(),
{
    if k > 0 {
        let t = s.drop_first();
        assert forall|j: int| 0 <= j < k - 1 implies !seps.contains(t[j]) by {
            assert(t[j] == s[j + 1]);
        }
        lemma_first_of(t, seps, k - 1);
    }
}

/// `first_of` lies within the text, no separator stands before it, and one
/// stands at it unless the text ends there.
pub proof fn lemma_first_of_bounds(s: Seq<char>, seps: Seq<char>)
    ensures
        0 <= first_of(s, seps) <= s.len(),
        forall|j: int| 0 <= j < first_of(s, seps) ==> !seps.contains(s[j]),
        first_of(s, seps) < s.len() ==> seps.contains(s[first_of(s, seps)]),
    decreases s.len(),
{
    if !(s.len() == 0 || seps.contains(s[0])) {
        let t = s.drop_first();
        lemma_first_of_bounds(t, seps);
        assert forall|j: int| 0 <= j < first_of(s, seps) implies !seps.contains(s[j]) by {
            if j > 0 {
                assert(s[j] == t[j - 1]);
            }
        }
    }
}

/// Joining the pieces of a text with the separator that split it gives the
/// text back.
pub proof fn lemma_join_pieces(s: Seq<char>, sep: char)
    ensures
        joined(pieces(s, seq![sep]), sep) == s,
    decreases s.len(),
{
    let seps = seq![sep];
    lemma_first_of_bounds(s, seps);
    let k = first_of(s, seps);
    if k < s.len() {
        let rest = s.skip(k + 1);
        lemma_join_pieces(rest, sep);
        lemma_pieces_nonempty(rest, seps);
        let ps = seq![s.take(k)] + pieces(rest, seps);
        assert(ps.drop_first() =~= pieces(rest, seps));
        assert(seps[0] == sep);
        assert(s[k] == sep);
        assert(s =~= s.take(k) + seq![sep] + rest);
    }
}

/// A text has at least one piece.
pub proof fn lemma_pieces_nonempty(s: Seq<char>, seps: Seq<char>)
    ensures
        pieces(s, seps).len() >= 1,
    decreases s.len(),
{
    lemma_first_of_bounds(s, seps);
    let k = first_of(s, seps);
    if k < s.len() {
        lemma_pieces_nonempty(s.skip(k + 1), seps);
    }
}

/// Whether no character of `s` is one of `seps`.
pub open spec fn free_of(s: Seq<char>, seps: Seq<char>) -> bool {
    forall|j: int| 0 <= j < s.len() ==> !seps.contains(#[trigger] s[j])
}

/// Two texts that hold none of the separators make one that holds none.
pub proof fn lemma_free_of_concat(a: Seq<char>, b: Seq<char>, seps: Seq<char>)
    requires
        free_of(a, seps),
        free_of(b, seps),
    ensures
        free_of(a + b, seps),
{
    assert forall|j: int| 0 <= j < (a + b).len() implies !seps.contains(#[trigger] (a + b)[j]) by {
        if j < a.len() {
            assert((a + b)[j] == a[j]);
        } else {
            assert((a + b)[j] == b[j - a.len()]);
        }
    }
}

/// Splitting a joined text gives the parts back, where the separator that
/// joined them is one of those that split, no part holds any of these, and
/// there is at least one part.
pub proof fn lemma_pieces_joined(parts: Seq<Seq<char>>, sep: char, seps: Seq<char>)
    requires
        parts.len() >= 1,
        seps.contains(sep),
        forall|i: int| 0 <= i < parts.len() ==> free_of(#[trigger] parts[i], seps),
    ensures
        pieces(joined(parts, sep), seps) == parts,
    decreases parts.len(),
{
    let head = parts[0];
    assert(free_of(head, seps));
    if parts.len() == 1 {
        lemma_first_of(head, seps, head.len() as int);
        assert(pieces(head, seps) =~= parts);
    } else {
        let tail = parts.drop_first();
        assert forall|i: int| 0 <= i < tail.len() implies free_of(#[trigger] tail[i], seps) by {
            assert(tail[i] == parts[i + 1]);
        }
        lemma_pieces_joined(tail, sep, seps);
        let text = head + seq![sep] + joined(tail, sep);
        assert(text[head.len() as int] == sep);
        assert forall|j: int| 0 <= j < head.len() implies !seps.contains(text[j]) by {
            assert(text[j] == head[j]);
        }
        lemma_first_of(text, seps, head.len() as int);
        assert(text.take(head.len() as int) =~= head);
        assert(text.skip(head.len() as int + 1) =~= joined(tail, sep));
        assert(pieces(text, seps) =~= parts);
    }
}

/// No piece holds a separator.
pub proof fn lemma_pieces_free(s: Seq<char>, seps: Seq<char>)
    ensures
        forall|i: int|
            0 <= i < pieces(s, seps).len() ==> free_of(#[trigger] pieces(s, seps)[i], seps),
    decreases s.len(),
{
    lemma_first_of_bounds(s, seps);
    let k = first_of(s, seps);
    let ps = pieces(s, seps);
    if k < s.len() {
        let rest = pieces(s.skip(k + 1), seps);
        lemma_pieces_free(s.skip(k + 1), seps);
        assert forall|i: int| 0 <= i < ps.len() implies free_of(#[trigger] ps[i], seps) by {
            if i == 0 {
                assert(ps[0] == s.take(k));
                assert forall|j: int| 0 <= j < s.take(k).len() implies !seps.contains(
                    #[trigger] s.take(k)[j],
                ) by {
                    assert(s.take(k)[j] == s[j]);
                }
            } else {
                assert(ps[i] == rest[i - 1]);
            }
        }
    } else {
        assert forall|i: int| 0 <= i < ps.len() implies free_of(#[trigger] ps[i], seps) by {
            assert(ps[i] == s);
        }
    }
}

/// `last_of` is below the length, a separator stands at it unless it is -1,
/// and none stands after it.
pub proof fn lemma_last_of_bounds(s: Seq<char>, seps: Seq<char>)
    ensures
        -1 <= last_of(s, seps) < s.len(),
        last_of(s, seps) >= 0 ==> seps.contains(s[last_of(s, seps)]),
        forall|j: int| last_of(s, seps) < j < s.len() ==> !seps.contains(s[j]),
    decreases s.len(),
{
    if s.len() > 0 && !seps.contains(s.last()) {
        let t = s.drop_last();
        lemma_last_of_bounds(t, seps);
        assert forall|j: int| last_of(s, seps) < j < s.len() implies !seps.contains(s[j]) by {
            if j < s.len() - 1 {
                assert(s[j] == t[j]);
            }
        }
    }
}

/// `last_of` is the position `k` at which a separator stands, or -1, where
/// none stands after it.
pub proof fn lemma_last_of(s: Seq<char>, seps: Seq<char>, k: int)
    requires
        -1 <= k < s.len(),
        k >= 0 ==> seps.contains(s[k]),
        forall|j: int| k < j < s.len() ==> !seps.contains(s[j]),
    ensures
        last_of(s, seps) == k,
    decreases s.len(),
{
    if s.len() > 0 && k < s.len() - 1 {
        let t = s.drop_last();
        assert forall|j: int| k < j < t.len() implies !seps.contains(t[j]) by {
            assert(t[j] == s[j]);
        }
        if k >= 0 {
            assert(t[k] == s[k]);
        }
        lemma_last_of(t, seps, k);
    }
}

/// What `last_occurrence_from` finds is an occurrence not above `from`, and
/// no occurrence lies between it and `from`.
pub proof fn lemma_last_occurrence_from(s: Seq<char>, p: Seq<char>, from: int)
    ensures
        match last_occurrence_from(s, p, from) {
            Some(r) => 0 <= r <= from && occurs_at(s, r, p) && forall|j: int|
                r < j <= from ==> !occurs_at(s, j, p),
            None => forall|j: int| 0 <= j <= from ==> !occurs_at(s, j, p),
        },
    decreases from + 1,
{
    if from >= 0 && !occurs_at(s, from, p) {
        lemma_last_occurrence_from(s, p, from - 1);
    }
}

/// Whether `c` is one of `seps`.
pub fn is_one_of(c: char, seps: &Vec<char>) -> (r: bool)
    ensures
        r == seps@.contains(c),
{
    let mut i: usize = 0;
    while i < seps.len()
        invariant
            i <= seps.len(),
            forall|j: int| 0 <= j < i ==> seps@[j] != c,
        decreases seps.len() - i,
    {
        if seps[i] == c {
            return true;
        }
        i += 1;
    }
    false
}

/// The pieces of `s` between the characters that are one of `seps`.
pub fn split(s: &Vec<char>, seps: &Vec<char>) -> (r: Vec<Vec<char>>)
    ensures
        views(r@) == pieces(s@, seps@),
{
    let mut out: Vec<Vec<char>> = Vec::new();
    let mut cur: Vec<char> = Vec::new();
    let mut start: usize = 0;
    let mut i: usize = 0;
    assert(s@.skip(0) =~= s@);
    assert(views(out@) + pieces(s@, seps@) =~= pieces(s@, seps@));
    while i < s.len()
        invariant
            start <= i <= s.len(),
            cur@ == s@.subrange(start as int, i as int),
            forall|j: int| start <= j < i ==> !seps@.contains(s@[j]),
            pieces(s@, seps@) == views(out@) + pieces(s@.skip(start as int), seps@),
        decreases s.len() - i,
    {
        let c = s[i];
        if is_one_of(c, seps) {
            proof {
                let rest = s@.skip(start as int);
                assert forall|j: int| 0 <= j < i - start implies !seps@.contains(rest[j]) by {
                    assert(rest[j] == s@[start + j]);
                }
                assert(rest[i - start] == s@[i as int]);
                lemma_first_of(rest, seps@, i - start);
                assert(rest.take(i - start) =~= cur@);
                assert(rest.skip(i - start + 1) =~= s@.skip(i + 1));
                assert(views(out@.push(cur)) =~= views(out@) + seq![cur@]);
            }
            out.push(cur);
            cur = Vec::new();
            start = i + 1;
        } else {
            cur.push(c);
            assert(s@.subrange(start as int, i + 1) == s@.subrange(start as int, i as int).push(c));
        }
        i += 1;
    }
    proof {
        let rest = s@.skip(start as int);
        assert forall|j: int| 0 <= j < rest.len() implies !seps@.contains(rest[j]) by {
            assert(rest[j] == s@[start + j]);
        }
        lemma_first_of(rest, seps@, rest.len() as int);
        assert(rest =~= cur@);
        assert(views(out@.push(cur)) =~= views(out@) + seq![cur@]);
    }
    out.push(cur);
    out
}

/// The parts, with `sep` between each two neighbours.
pub fn join(parts: &Vec<Vec<char>>, sep: char) -> (r: Vec<char>)
    ensures
        r@ == joined(views(parts@), sep),
{
    let mut out: Vec<char> = Vec::new();
    let mut i: usize = 0;
    assert(views(parts@).skip(0) =~= views(parts@));
    assert(out@ + joined(views(parts@), sep) =~= joined(views(parts@), sep));
    while i < parts.len()
        invariant
            i <= parts.len(),
            joined(views(parts@), sep) == out@ + joined(views(parts@).skip(i as int), sep),
        decreases parts.len() - i,
    {
        let ghost before = out@;
        let ghost rest = views(parts@).skip(i as int);
        assert(rest[0] == parts@[i as int]@);
        assert(rest.drop_first() =~= views(parts@).skip(i + 1));
        append_chars(&mut out, &parts[i]);
        if i + 1 < parts.len() {
            out.push(sep);
            assert(out@ =~= before + (rest[0] + seq![sep]));
            assert(before + (rest[0] + seq![sep] + joined(rest.drop_first(), sep)) =~= out@
                + joined(rest.drop_first(), sep));
        } else {
            assert(rest.len() == 1);
        }
        i += 1;
    }
    assert(out@ + Seq::<char>::empty() =~= out@);
    out
}

/// Whether `item` is one of `list`.
pub fn holds(list: &Vec<Vec<char>>, item: &Vec<char>) -> (r: bool)
    ensures
        r == views(list@).contains(item@),
{
    let mut i: usize = 0;
    while i < list.len()
        invariant
            i <= list.len(),
            forall|j: int| 0 <= j < i ==> views(list@)[j] != item@,
        decreases list.len() - i,
    {
        assert(views(list@)[i as int] == list@[i as int]@);
        if chars_eq(&list[i], item) {
            return true;
        }
        i += 1;
    }
    false
}

/// The position of the last character of `s` that is one of `seps`.
pub fn last_index_of(s: &Vec<char>, seps: &Vec<char>) -> (r: Option<usize>)
    ensures
        match r {
            Some(k) => last_of(s@, seps@) == k,
            None => last_of(s@, seps@) == -1,
        },
{
    let mut i: usize = s.len();
    while i > 0
        invariant
            i <= s.len(),
            forall|j: int| i <= j < s.len() ==> !seps@.contains(s@[j]),
        decreases i,
    {
        i -= 1;
        if is_one_of(s[i], seps) {
            proof {
                lemma_last_of(s@, seps@, i as int);
            }
            return Some(i);
        }
    }
    proof {
        lemma_last_of(s@, seps@, -1);
    }
    None
}

/// The greatest position at which `p` occurs in `s`.
pub fn find_last(s: &Vec<char>, p: &Vec<char>) -> (r: Option<usize>)
    ensures
        match r {
            Some(k) => last_occurrence(s@, p@) == Some(k as int),
            None => last_occurrence(s@, p@) is None,
        },
{
    if p.len() > s.len() {
        return None;
    }
    let top: usize = s.len() - p.len();
    let mut i: usize = top;
    loop
        invariant
            i <= top,
            top == s.len() - p.len(),
            last_occurrence(s@, p@) == last_occurrence_from(s@, p@, i as int),
        decreases i,
    {
        if matches_at(s, i, p) {
            return Some(i);
        }
        if i == 0 {
            assert(last_occurrence_from(s@, p@, -1) is None);
            return None;
        }
        i -= 1;
    }
}

} // verus!
