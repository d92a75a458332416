//! Text as sequences of scalar values: conversion from and to strings,
//! search, cutting and joining, and numbers written in base ten.

use vstd::prelude::*;

verus! {

/// The scalar values of `s`, in order.
pub fn to_chars(s: &str) -> (v: Vec<char>)
    ensures
        v@ == s@,
{
    let mut v: Vec<char> = Vec::new();
    for c in it: s.chars()
        invariant
            it.seq() == s@,
            v@ == it.seq().take(it.index()),
    {
        v.push(c);
    }
    v
}

/// `String::push` of std: the scalar value `c` is added at the end of `s`
/// and nothing else changes.
#[verifier::external_body]
pub(crate) fn push_char(s: &mut String, c: char)
    ensures
        final(s)@ == old(s)@.push(c),
{
    s.push(c);
}

/// The string that holds exactly the scalar values of `v`, in order.
pub fn from_chars(v: &Vec<char>) -> (s: String)
    ensures
        s@ == v@,
{
    let mut s = String::new();
    let mut i: usize = 0;
    while i < v.len()
        invariant
            i <= v.len(),
            s@ == v@.take(i as int),
        decreases v.len() - i,
    {
        push_char(&mut s, v[i]);
        i += 1;
        assert(v@.take(i as int) == v@.take(i - 1).push(v@[i - 1]));
    }
    s
}

/// The least index at or after `from` at which `c` stands in `s`; the
/// length of `s` where it stands at none.
pub open spec fn first_from(s: Seq<char>, c: char, from: int) -> int
    decreases s.len() - from,
{
    if from >= s.len() {
        s.len() as int
    } else if from >= 0 && s[from] == c {
        from
    } else {
        first_from(s, c, from + 1)
    }
}

/// The greatest index before `end` at which `c` stands in `s`; `-1` where
/// it stands at none.
pub open spec fn last_before(s: Seq<char>, c: char, end: int) -> int
    decreases end,
{
    if end <= 0 {
        -1
    } else if end <= s.len() && s[end - 1] == c {
        end - 1
    } else {
        last_before(s, c, end - 1)
    }
}

/// `first_from` is the first occurrence at or after `from`, or the length.
pub proof fn lemma_first_from(s: Seq<char>, c: char, from: int)
    requires
        0 <= from <= s.len(),
    ensures
        from <= first_from(s, c, from) <= s.len(),
        first_from(s, c, from) < s.len() ==> s[first_from(s, c, from)] == c,
        forall|k: int| from <= k < first_from(s, c, from) ==> s[k] != c,
    decreases s.len() - from,
{
    if from < s.len() && s[from] != c {
        lemma_first_from(s, c, from + 1);
    }
}

/// `last_before` is the last occurrence before `end`, or `-1`.
pub proof fn lemma_last_before(s: Seq<char>, c: char, end: int)
    requires
        0 <= end <= s.len(),
    ensures
        -1 <= last_before(s, c, end) < end,
        last_before(s, c, end) >= 0 ==> s[last_before(s, c, end)] == c,
        forall|k: int| last_before(s, c, end) < k < end ==> s[k] != c,
    decreases end,
{
    if end > 0 && s[end - 1] != c {
        lemma_last_before(s, c, end - 1);
    }
}

/// The first place at or after `from` where `c` stands in `v`, or the
/// length of `v`.
pub fn find_from(v: &Vec<char>, c: char, from: usize) -> (q: usize)
    ensures
        q == first_from(v@, c, from as int),
{
    let n = v.len();
    if from >= n {
        return n;
    }
    let mut i: usize = from;
    while i < n && v[i] != c
        invariant
            n == v@.len(),
            from <= i <= n,
            first_from(v@, c, from as int) == first_from(v@, c, i as int),
        decreases n - i,
    {
        i += 1;
    }
    i
}

/// The last place before `end` where `c` stands in `v`, if there is one.
pub fn rfind_before(v: &Vec<char>, c: char, end: usize) -> (r: Option<usize>)
    ensures
        match r {
            Some(q) => q < end && q == last_before(v@, c, end as int),
            None => last_before(v@, c, end as int) == -1,
        },
{
    let mut i: usize = end;
    while i > 0
        invariant
            i <= end,
            last_before(v@, c, end as int) == last_before(v@, c, i as int),
        decreases i,
    {
        if i <= v.len() && v[i - 1] == c {
            return Some(i - 1);
        }
        i -= 1;
    }
    None
}

/// `line` with `text` put in at index `at`.
pub open spec fn spliced(line: Seq<char>, at: int, text: Seq<char>) -> Seq<char>
    recommends
        0 <= at <= line.len(),
{
    line.subrange(0, at) + text + line.subrange(at, line.len() as int)
}

/// `line` without what stands from `lo` up to `hi`.
pub open spec fn without(line: Seq<char>, lo: int, hi: int) -> Seq<char>
    recommends
        0 <= lo <= hi <= line.len(),
{
    line.subrange(0, lo) + line.subrange(hi, line.len() as int)
}

/// Adds to `out` what stands in `v` from `lo` up to `hi`.
pub fn extend_from(out: &mut Vec<char>, v: &Vec<char>, lo: usize, hi: usize)
    requires
        lo <= hi <= v@.len(),
    ensures
        final(out)@ == old(out)@ + v@.subrange(lo as int, hi as int),
{
    let mut i: usize = lo;
    assert(out@ =~= old(out)@ + v@.subrange(lo as int, i as int));
    while i < hi
        invariant
            lo <= i <= hi <= v@.len(),
            out@ == old(out)@ + v@.subrange(lo as int, i as int),
        decreases hi - i,
    {
        out.push(v[i]);
        i += 1;
        assert(out@ =~= old(out)@ + v@.subrange(lo as int, i as int));
    }
}

/// What stands in `v` from `lo` up to `hi`.
pub fn copy_range(v: &Vec<char>, lo: usize, hi: usize) -> (r: Vec<char>)
    requires
        lo <= hi <= v@.len(),
    ensures
        r@ == v@.subrange(lo as int, hi as int),
{
    let mut r: Vec<char> = Vec::new();
    extend_from(&mut r, v, lo, hi);
    assert(r@ =~= v@.subrange(lo as int, hi as int));
    r
}

/// `line` with `text` put in at index `at`.
pub fn splice(line: &Vec<char>, at: usize, text: &Vec<char>) -> (r: Vec<char>)
    requires
        at <= line@.len(),
    ensures
        r@ == spliced(line@, at as int, text@),
{
    let mut r: Vec<char> = Vec::new();
    extend_from(&mut r, line, 0, at);
    extend_from(&mut r, text, 0, text.len());
    extend_from(&mut r, line, at, line.len());
    assert(text@.subrange(0, text@.len() as int) =~= text@);
    assert(r@ =~= spliced(line@, at as int, text@));
    r
}

/// `line` without what stands from `lo` up to `hi`.
pub fn remove_range(line: &Vec<char>, lo: usize, hi: usize) -> (r: Vec<char>)
    requires
        lo <= hi <= line@.len(),
    ensures
        r@ == without(line@, lo as int, hi as int),
{
    let mut r: Vec<char> = Vec::new();
    extend_from(&mut r, line, 0, lo);
    extend_from(&mut r, line, hi, line.len());
    assert(r@ =~= without(line@, lo as int, hi as int));
    r
}

/// The character that writes the digit `d`.
pub open spec fn digit_char(d: nat) -> char
    recommends
        d < 10,
{
    if d == 0 {
        '0'
    } else if d == 1 {
        '1'
    } else if d == 2 {
        '2'
    } else if d == 3 {
        '3'
    } else if d == 4 {
        '4'
    } else if d == 5 {
        '5'
    } else if d == 6 {
        '6'
    } else if d == 7 {
        '7'
    } else if d == 8 {
        '8'
    } else {
        '9'
    }
}

/// The digits that write `n` in base ten, without leading zeros.
pub open spec fn digits_of(n: nat) -> Seq<char>
    decreases n,
{
    if n < 10 {
        seq![digit_char(n)]
    } else {
        digits_of(n / 10).push(digit_char(n % 10))
    }
}

/// Adds to `s` the digits that write `n` in base ten.
pub fn push_decimal(s: &mut String, n: u32)
    ensures
        final(s)@ == old(s)@ + digits_of(n as nat),
    decreases n,
{
    if n >= 10 {
        push_decimal(s, n / 10);
    }
    let d = n % 10;
    let c = if d == 0 {
        '0'
    } else if d == 1 {
        '1'
    } else if d == 2 {
        '2'
    } else if d == 3 {
        '3'
    } else if d == 4 {
        '4'
    } else if d == 5 {
        '5'
    } else if d == 6 {
        '6'
    } else if d == 7 {
        '7'
    } else if d == 8 {
        '8'
    } else {
        '9'
    };
    push_char(s, c);
    assert(s@ =~= old(s)@ + digits_of(n as nat));
}

} // verus!
