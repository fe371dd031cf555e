//! Byte-level text primitives shared by the extraction engine: literal
//! search, digit runs, and overflow-checked decimal parsing.

use vstd::prelude::*;

verus! {

broadcast use vstd::slice::group_slice_axioms;

/// `'<'`
pub const LT: u8 = 60;

/// `'>'`
pub const GT: u8 = 62;

/// `'/'`
pub const SLASH: u8 = 47;

/// `':'`
pub const COLON: u8 = 58;

/// `'"'`
pub const QUOTE: u8 = 34;

pub open spec fn is_digit(b: u8) -> bool {
    48 <= b && b <= 57
}

pub open spec fn is_space(b: u8) -> bool {
    b == 32 || b == 9 || b == 10 || b == 13
}

/// The bytes of an ASCII string, character by character.
pub open spec fn lit_bytes(s: Seq<char>) -> Seq<u8> {
    Seq::new(s.len(), |i: int| s[i] as u8)
}

/// Turns an ASCII pattern literal into the byte sequence the scanner
/// works on.
pub fn str_bytes(s: &str) -> (v: Vec<u8>)
    requires
        s.is_ascii(),
    ensures
        v@ == lit_bytes(s@),
{
    proof {
        broadcast use vstd::string::is_ascii_spec_bytes;

    }
    let v = s.as_bytes_vec();
    proof {
        assert(v@ =~= lit_bytes(s@));
    }
    v
}

/// `pat` occurs in `s` starting exactly at `i`.
pub open spec fn match_at(s: Seq<u8>, i: int, pat: Seq<u8>) -> bool {
    0 <= i && i + pat.len() <= s.len() && s.subrange(i, i + pat.len() as int) == pat
}

/// Position of the first occurrence of `pat` in `s` at or after `from`.
pub open spec fn find_lit_spec(s: Seq<u8>, from: int, pat: Seq<u8>) -> Option<int>
    decreases s.len() - from + 1,
{
    if from < 0 || from + pat.len() > s.len() {
        None
    } else if s.subrange(from, from + pat.len() as int) == pat {
        Some(from)
    } else {
        find_lit_spec(s, from + 1, pat)
    }
}

pub open spec fn opt_usize(r: Option<usize>) -> Option<int> {
    match r {
        Some(a) => Some(a as int),
        None => None,
    }
}

pub fn matches_at(s: &[u8], i: usize, pat: &[u8]) -> (r: bool)
    requires
        i <= s.len(),
    ensures
        r == match_at(s@, i as int, pat@),
{
    if pat.len() > s.len() - i {
        return false;
    }
    let n = s.len();
    let mut k: usize = 0;
    while k < pat.len()
        invariant
            n == s@.len(),
            i + pat.len() <= s@.len(),
            k <= pat.len(),
            forall|m: int| 0 <= m < k ==> s@[i + m] == pat@[m],
        decreases pat.len() - k,
    {
        if s[i + k] != pat[k] {
            proof {
                assert(s@.subrange(i as int, i + pat@.len() as int)[k as int] == s@[i + k]);
            }
            return false;
        }
        k += 1;
    }
    proof {
        assert(s@.subrange(i as int, i + pat@.len() as int) =~= pat@);
    }
    true
}

pub fn find_lit(s: &[u8], from: usize, pat: &[u8]) -> (r: Option<usize>)
    requires
        from <= s.len(),
    ensures
        opt_usize(r) == find_lit_spec(s@, from as int, pat@),
        (match r {
            Some(a) => from <= a && a + pat@.len() <= s@.len(),
            None => true,
        }),
{
    if pat.len() == 0 {
        proof {
            assert(s@.subrange(from as int, from as int) =~= pat@);
        }
        return Some(from);
    }
    let mut a: usize = from;
    loop
        invariant
            from <= a <= s@.len(),
            pat@.len() >= 1,
            find_lit_spec(s@, from as int, pat@) == find_lit_spec(s@, a as int, pat@),
        decreases s@.len() - a,
    {
        if pat.len() > s.len() - a {
            return None;
        }
        if matches_at(s, a, pat) {
            return Some(a);
        }
        proof {
            assert(find_lit_spec(s@, a as int, pat@) == find_lit_spec(s@, a + 1, pat@));
        }
        a += 1;
    }
}

/// Position of the first occurrence of byte `b` in `s` at or after `from`.
pub open spec fn find_byte_spec(s: Seq<u8>, from: int, b: u8) -> Option<int>
    decreases s.len() - from,
{
    if from < 0 || from >= s.len() {
        None
    } else if s[from] == b {
        Some(from)
    } else {
        find_byte_spec(s, from + 1, b)
    }
}

pub fn find_byte(s: &[u8], from: usize, b: u8) -> (r: Option<usize>)
    requires
        from <= s.len(),
    ensures
        opt_usize(r) == find_byte_spec(s@, from as int, b),
        (match r {
            Some(t) => from <= t < s@.len() && s@[t as int] == b,
            None => true,
        }),
{
    let mut a: usize = from;
    loop
        invariant
            from <= a <= s@.len(),
            find_byte_spec(s@, from as int, b) == find_byte_spec(s@, a as int, b),
        decreases s@.len() - a,
    {
        if a == s.len() {
            return None;
        }
        if s[a] == b {
            return Some(a);
        }
        proof {
            assert(find_byte_spec(s@, a as int, b) == find_byte_spec(s@, a + 1, b));
        }
        a += 1;
    }
}

/// End of the run of decimal digits that starts at `from`.
pub open spec fn digits_end_spec(s: Seq<u8>, from: int) -> int
    decreases s.len() - from,
{
    if from < 0 || from >= s.len() {
        from
    } else if is_digit(s[from]) {
        digits_end_spec(s, from + 1)
    } else {
        from
    }
}

pub fn digits_end(s: &[u8], from: usize) -> (e: usize)
    requires
        from <= s.len(),
    ensures
        e as int == digits_end_spec(s@, from as int),
        from <= e <= s@.len(),
{
    let mut a: usize = from;
    loop
        invariant
            from <= a <= s@.len(),
            digits_end_spec(s@, from as int) == digits_end_spec(s@, a as int),
        decreases s@.len() - a,
    {
        if a == s.len() {
            return a;
        }
        if !(48 <= s[a] && s[a] <= 57) {
            return a;
        }
        proof {
            assert(digits_end_spec(s@, a as int) == digits_end_spec(s@, a + 1));
        }
        a += 1;
    }
}

pub fn bytes_eq(a: &[u8], b: &[u8]) -> (r: bool)
    ensures
        r == (a@ == b@),
{
    if a.len() != b.len() {
        return false;
    }
    let r = matches_at(a, 0, b);
    proof {
        assert(a@.subrange(0, a@.len() as int) =~= a@);
        if a@ == b@ {
            assert(a@.subrange(0, b@.len() as int) == b@);
        }
    }
    r
}

/// The digit run that starts at `from` ends at the first non-digit.
pub proof fn lemma_digits_end_stop(s: Seq<u8>, from: int, e: int)
    requires
        0 <= from,
        e == digits_end_spec(s, from),
    ensures
        from <= e,
        e < s.len() ==> !is_digit(s[e]),
    decreases s.len() - from + 1,
{
    if from < s.len() && is_digit(s[from]) {
        lemma_digits_end_stop(s, from + 1, e);
    }
}

/// Every byte of the run `s[from..digits_end_spec(s, from)]` is a digit.
pub proof fn lemma_digits_run(s: Seq<u8>, from: int, e: int)
    requires
        e == digits_end_spec(s, from),
    ensures
        forall|q: int| from <= q < e ==> is_digit(s[q]),
    decreases s.len() - from + 1,
{
    if 0 <= from < s.len() && is_digit(s[from]) {
        lemma_digits_run(s, from + 1, e);
    }
}

/// `find_byte_spec` answers with the position of the first occurrence.
pub proof fn lemma_find_byte_first(s: Seq<u8>, from: int, t: int, b: u8)
    requires
        0 <= from <= t < s.len(),
        s[t] == b,
        forall|q: int| from <= q < t ==> s[q] != b,
    ensures
        find_byte_spec(s, from, b) == Some(t),
    decreases t - from,
{
    if from < t {
        lemma_find_byte_first(s, from + 1, t, b);
    }
}

/// `find_lit_spec` answers with the position of the first occurrence.
pub proof fn lemma_find_lit_first(s: Seq<u8>, from: int, a: int, pat: Seq<u8>)
    requires
        0 <= from <= a,
        match_at(s, a, pat),
        forall|q: int| from <= q < a ==> !match_at(s, q, pat),
    ensures
        find_lit_spec(s, from, pat) == Some(a),
    decreases a - from,
{
    if from < a {
        assert(!match_at(s, from, pat));
        lemma_find_lit_first(s, from + 1, a, pat);
    }
}

/// `digits_end_spec` answers with the end of the maximal digit run.
pub proof fn lemma_digits_end_at(s: Seq<u8>, from: int, e: int)
    requires
        0 <= from <= e <= s.len(),
        forall|q: int| from <= q < e ==> is_digit(s[q]),
        e < s.len() ==> !is_digit(s[e]),
    ensures
        digits_end_spec(s, from) == e,
    decreases e - from,
{
    if from < e {
        assert(is_digit(s[from]));
        lemma_digits_end_at(s, from + 1, e);
    }
}

/// Value of the decimal digit string `s[from..to]`, most significant
/// digit first.
pub open spec fn digits_value(s: Seq<u8>, from: int, to: int) -> int
    decreases to - from,
{
    if to <= from {
        0
    } else {
        digits_value(s, from, to - 1) * 10 + (s[to - 1] as int - 48)
    }
}

pub proof fn lemma_digits_value_nonneg(s: Seq<u8>, from: int, to: int)
    requires
        forall|q: int| from <= q < to ==> is_digit(s[q]),
    ensures
        digits_value(s, from, to) >= 0,
    decreases to - from,
{
    if to > from {
        lemma_digits_value_nonneg(s, from, to - 1);
    }
}

/// Appending further digits can only keep the value or make it larger.
pub proof fn lemma_digits_value_grows(s: Seq<u8>, from: int, k: int, to: int)
    requires
        from <= k <= to,
        forall|q: int| from <= q < to ==> is_digit(s[q]),
    ensures
        digits_value(s, from, to) >= digits_value(s, from, k),
    decreases to - k,
{
    if k < to {
        lemma_digits_value_grows(s, from, k, to - 1);
        lemma_digits_value_nonneg(s, from, to - 1);
    }
}

/// `digits_value` only reads the bytes below `to`.
pub proof fn lemma_digits_value_congr(x: Seq<u8>, y: Seq<u8>, to: int)
    requires
        forall|i: int| 0 <= i < to ==> x[i] == y[i],
    ensures
        digits_value(x, 0, to) == digits_value(y, 0, to),
    decreases to,
{
    if to > 0 {
        lemma_digits_value_congr(x, y, to - 1);
    }
}

/// A digit string embedded in a larger sequence keeps its value.
pub proof fn lemma_digits_value_embed(s: Seq<u8>, a: int, p: Seq<u8>)
    requires
        0 <= a,
        a + p.len() <= s.len(),
        s.subrange(a, a + p.len() as int) == p,
    ensures
        digits_value(s, a, a + p.len() as int) == digits_value(p, 0, p.len() as int),
    decreases p.len(),
{
    if p.len() > 0 {
        let q = p.drop_last();
        assert(s.subrange(a, a + q.len() as int) =~= q);
        lemma_digits_value_embed(s, a, q);
        lemma_digits_value_congr(q, p, p.len() - 1);
        assert(s[a + p.len() - 1] == p[p.len() - 1]);
    }
}

/// Overflow-checked decimal parse of the digit string `s[from..to]`.
/// `None` exactly when the value does not fit in a `u32`.
pub fn parse_digits(s: &[u8], from: usize, to: usize) -> (r: Option<u32>)
    requires
        from <= to <= s.len(),
        forall|q: int| from <= q < to ==> is_digit(s@[q]),
    ensures
        (match r {
            Some(v) => v as int == digits_value(s@, from as int, to as int),
            None => digits_value(s@, from as int, to as int) > u32::MAX,
        }),
{
    let mut acc: u32 = 0;
    let mut k: usize = from;
    while k < to
        invariant
            from <= k <= to <= s@.len(),
            forall|q: int| from <= q < to ==> is_digit(s@[q]),
            acc as int == digits_value(s@, from as int, k as int),
        decreases to - k,
    {
        assert(is_digit(s@[k as int]));
        let d: u8 = s[k] - 48;
        if acc > 429496729u32 || (acc == 429496729u32 && d > 5) {
            proof {
                assert(digits_value(s@, from as int, k + 1) > u32::MAX);
                lemma_digits_value_grows(s@, from as int, k + 1, to as int);
            }
            return None;
        }
        acc = acc * 10 + (d as u32);
        k += 1;
    }
    Some(acc)
}

} // verus!
