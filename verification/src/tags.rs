//! The tag grammar of the status document.
//!
//! Firmware revisions disagree on namespace prefixes, so an element name
//! is recognised with an optional prefix: a run of bytes free of colons
//! and angle brackets, followed by at most one colon, directly before
//! the name.  An element
//! carrying an integer reading has the shape
//! `<` prefix name attributes `>` digits `</` prefix name `>`,
//! where the name must be followed by `>` or whitespace.

use vstd::prelude::*;

use crate::text::COLON;
use crate::text::GT;
use crate::text::LT;
use crate::text::QUOTE;
use crate::text::SLASH;
use crate::text::digits_end_spec;
use crate::text::digits_value;
use crate::text::find_byte;
use crate::text::find_byte_spec;
use crate::text::find_lit;
use crate::text::find_lit_spec;
use crate::text::is_space;
use crate::text::lit_bytes;
use crate::text::matches_at;
use crate::text::opt_usize;
use crate::text::parse_digits;
use crate::text::str_bytes;
use crate::text::digits_end;

verus! {

broadcast use vstd::slice::group_slice_axioms;

/// The byte that may follow an element name inside its tag.
pub open spec fn name_boundary(b: u8) -> bool {
    b == GT || is_space(b)
}

/// Least end position `j` of an optionally-prefixed occurrence of
/// `name` whose prefix starts at `from`; the scan has already reached
/// candidate start `m`.
pub open spec fn find_pname_rec(s: Seq<u8>, from: int, m: int, name: Seq<u8>) -> Option<int>
    decreases s.len() - m + 1,
{
    if m < from || m + name.len() > s.len() {
        None
    } else if s.subrange(m, m + name.len() as int) == name {
        Some(m + name.len() as int)
    } else if (m - 1 >= from && s[m - 1] == COLON) || s[m] == LT || s[m] == GT {
        None
    } else {
        find_pname_rec(s, from, m + 1, name)
    }
}

/// Least end position of an optionally-prefixed occurrence of `name`
/// that starts at `from`.
pub open spec fn find_pname_spec(s: Seq<u8>, from: int, name: Seq<u8>) -> Option<int> {
    find_pname_rec(s, from, from, name)
}

pub fn find_pname(s: &[u8], from: usize, name: &[u8]) -> (r: Option<usize>)
    requires
        from <= s.len(),
        name@.len() >= 1,
    ensures
        opt_usize(r) == find_pname_spec(s@, from as int, name@),
        (match r {
            Some(j) => from < j <= s.len(),
            None => true,
        }),
{
    let mut m: usize = from;
    loop
        invariant
            from <= m <= s@.len(),
            name@.len() >= 1,
            s@.len() <= usize::MAX,
            find_pname_spec(s@, from as int, name@) == find_pname_rec(
                s@,
                from as int,
                m as int,
                name@,
            ),
        decreases s@.len() - m,
    {
        if name.len() > s.len() - m {
            return None;
        }
        if matches_at(s, m, name) {
            return Some(m + name.len());
        }
        if (m > from && s[m - 1] == COLON) || s[m] == LT || s[m] == GT {
            return None;
        }
        proof {
            assert(find_pname_rec(s@, from as int, m as int, name@) == find_pname_rec(
                s@,
                from as int,
                m + 1,
                name@,
            ));
        }
        m += 1;
    }
}

/// `PEID="..."` occurs inside the tag body `s[j..t]`.
pub open spec fn peid_lit() -> Seq<u8> {
    lit_bytes("PEID=\""@)
}

pub open spec fn peid_between(s: Seq<u8>, j: int, t: int) -> bool {
    match find_lit_spec(s, j, peid_lit()) {
        Some(a) => a + peid_lit().len() <= t && (match find_byte_spec(
            s,
            a + peid_lit().len(),
            QUOTE,
        ) {
            Some(b) => b < t,
            None => false,
        }),
        None => false,
    }
}

fn peid_lit_vec() -> (v: Vec<u8>)
    ensures
        v@ == peid_lit(),
{
    proof {
        reveal_strlit("PEID=\"");
    }
    str_bytes("PEID=\"")
}

fn peid_check(s: &[u8], j: usize, t: usize) -> (r: bool)
    requires
        j <= s.len(),
    ensures
        r == peid_between(s@, j as int, t as int),
{
    let peid = peid_lit_vec();
    match find_lit(s, j, peid.as_slice()) {
        Some(a) => {
            if t < peid.len() || a > t - peid.len() {
                return false;
            }
            match find_byte(s, a + peid.len(), QUOTE) {
                Some(b) => b < t,
                None => false,
            }
        },
        None => false,
    }
}

/// A closing tag `</` prefix `name` `>` stands at `c`; the result is the
/// position directly after its `>`.
pub open spec fn close_tag_at(s: Seq<u8>, c: int, name: Seq<u8>) -> Option<int> {
    if !(0 <= c && c + 1 < s.len() && s[c] == LT && s[c + 1] == SLASH) {
        None
    } else {
        match find_pname_spec(s, c + 2, name) {
            None => None,
            Some(j) => if j < s.len() && s[j] == GT {
                Some(j + 1)
            } else {
                None
            },
        }
    }
}

pub fn close_tag_check(s: &[u8], c: usize, name: &[u8]) -> (r: Option<usize>)
    requires
        c <= s.len(),
        name@.len() >= 1,
    ensures
        opt_usize(r) == close_tag_at(s@, c as int, name@),
        (match r {
            Some(after) => c + 2 < after <= s.len(),
            None => true,
        }),
{
    if s.len() - c < 2 || s[c] != LT || s[c + 1] != SLASH {
        return None;
    }
    match find_pname(s, c + 2, name) {
        None => None,
        Some(j) => {
            if j < s.len() && s[j] == GT {
                Some(j + 1)
            } else {
                None
            }
        },
    }
}

/// An opening tag `<` prefix `name` ... `>` stands at `i`; the result is
/// the position of its `>`.
pub open spec fn open_tag_at(s: Seq<u8>, i: int, name: Seq<u8>) -> Option<int> {
    if !(0 <= i < s.len() && s[i] == LT) {
        None
    } else {
        match find_pname_spec(s, i + 1, name) {
            None => None,
            Some(j) => if j < s.len() && name_boundary(s[j]) {
                find_byte_spec(s, j, GT)
            } else {
                None
            },
        }
    }
}

pub fn open_tag_check(s: &[u8], i: usize, name: &[u8]) -> (r: Option<usize>)
    requires
        i <= s.len(),
        name@.len() >= 1,
    ensures
        opt_usize(r) == open_tag_at(s@, i as int, name@),
        (match r {
            Some(t) => i < t < s.len(),
            None => true,
        }),
{
    if i == s.len() || s[i] != LT {
        return None;
    }
    match find_pname(s, i + 1, name) {
        None => None,
        Some(j) => {
            if j < s.len() && (s[j] == GT || s[j] == 32 || s[j] == 9 || s[j] == 10 || s[j] == 13) {
                find_byte(s, j, GT)
            } else {
                None
            }
        },
    }
}

/// The integer reading carried by an element of the given name whose
/// opening `<` stands at `i`; `need_peid` additionally asks for a
/// `PEID` attribute inside the opening tag.
pub open spec fn elem_at(s: Seq<u8>, i: int, name: Seq<u8>, need_peid: bool) -> Option<int> {
    if !(0 <= i < s.len() && s[i] == LT) {
        None
    } else {
        match find_pname_spec(s, i + 1, name) {
            None => None,
            Some(j) => if !(j < s.len() && name_boundary(s[j])) {
                None
            } else {
                match find_byte_spec(s, j, GT) {
                    None => None,
                    Some(t) => if need_peid && !peid_between(s, j, t) {
                        None
                    } else {
                        let e = digits_end_spec(s, t + 1);
                        if e == t + 1 {
                            None
                        } else {
                            match close_tag_at(s, e, name) {
                                Some(_) => Some(digits_value(s, t + 1, e)),
                                None => None,
                            }
                        }
                    },
                }
            },
        }
    }
}

/// A recovered element reading is never negative: it is the value of a
/// digit run.
pub proof fn lemma_elem_at_nonneg(s: Seq<u8>, i: int, name: Seq<u8>, need_peid: bool)
    ensures
        (match elem_at(s, i, name, need_peid) {
            Some(v) => v >= 0,
            None => true,
        }),
{
    if 0 <= i < s.len() && s[i] == LT {
        match find_pname_spec(s, i + 1, name) {
            Some(j) => {
                if j < s.len() && name_boundary(s[j]) {
                    match find_byte_spec(s, j, GT) {
                        Some(t) => {
                            let e = digits_end_spec(s, t + 1);
                            crate::text::lemma_digits_run(s, t + 1, e);
                            crate::text::lemma_digits_value_nonneg(s, t + 1, e);
                        },
                        None => {},
                    }
                }
            },
            None => {},
        }
    }
}

pub proof fn lemma_find_elem_nonneg(s: Seq<u8>, from: int, name: Seq<u8>, need_peid: bool)
    ensures
        (match find_elem_spec(s, from, name, need_peid) {
            Some(v) => v >= 0,
            None => true,
        }),
    decreases s.len() - from + 1,
{
    if 0 <= from < s.len() {
        lemma_elem_at_nonneg(s, from, name, need_peid);
        lemma_find_elem_nonneg(s, from + 1, name, need_peid);
    }
}

/// Outcome of looking for one element at one position.
enum TagValue {
    Absent,
    Oversize,
    Count(u32),
}

fn elem_check(s: &[u8], i: usize, name: &[u8], need_peid: bool) -> (r: TagValue)
    requires
        i <= s.len(),
        name@.len() >= 1,
    ensures
        (match elem_at(s@, i as int, name@, need_peid) {
            None => r is Absent,
            Some(v) => if v <= u32::MAX {
                r == TagValue::Count(v as u32)
            } else {
                r is Oversize
            },
        }),
{
    if i == s.len() || s[i] != LT {
        return TagValue::Absent;
    }
    let j = match find_pname(s, i + 1, name) {
        None => {
            return TagValue::Absent;
        },
        Some(j) => j,
    };
    if !(j < s.len() && (s[j] == GT || s[j] == 32 || s[j] == 9 || s[j] == 10 || s[j] == 13)) {
        return TagValue::Absent;
    }
    let t = match find_byte(s, j, GT) {
        None => {
            return TagValue::Absent;
        },
        Some(t) => t,
    };
    if need_peid && !peid_check(s, j, t) {
        return TagValue::Absent;
    }
    let e = digits_end(s, t + 1);
    if e == t + 1 {
        return TagValue::Absent;
    }
    if close_tag_check(s, e, name).is_none() {
        return TagValue::Absent;
    }
    proof {
        crate::text::lemma_digits_run(s@, t + 1, e as int);
    }
    match parse_digits(s, t + 1, e) {
        Some(v) => TagValue::Count(v),
        None => TagValue::Oversize,
    }
}

/// The reading of the first recognised element of the given name whose
/// opening `<` stands at or after `from`.
pub open spec fn find_elem_spec(s: Seq<u8>, from: int, name: Seq<u8>, need_peid: bool) -> Option<
    int,
>
    decreases s.len() - from + 1,
{
    if from < 0 || from >= s.len() {
        None
    } else {
        match elem_at(s, from, name, need_peid) {
            Some(v) => Some(v),
            None => find_elem_spec(s, from + 1, name, need_peid),
        }
    }
}

/// Scan for the first recognised element of `name`; the reading is
/// reported only when it fits in a `u32`, as an oversize reading is
/// treated like a missing one by every caller.
pub fn find_elem(s: &[u8], from: usize, name: &[u8], need_peid: bool) -> (r: Option<u32>)
    requires
        from <= s.len(),
        name@.len() >= 1,
    ensures
        (match find_elem_spec(s@, from as int, name@, need_peid) {
            Some(v) => if v <= u32::MAX {
                r == Some(v as u32)
            } else {
                r is None
            },
            None => r is None,
        }),
{
    let mut i: usize = from;
    loop
        invariant
            from <= i <= s@.len(),
            name@.len() >= 1,
            s@.len() <= usize::MAX,
            find_elem_spec(s@, from as int, name@, need_peid) == find_elem_spec(
                s@,
                i as int,
                name@,
                need_peid,
            ),
        decreases s@.len() - i,
    {
        if i == s.len() {
            return None;
        }
        match elem_check(s, i, name, need_peid) {
            TagValue::Count(v) => {
                return Some(v);
            },
            TagValue::Oversize => {
                return None;
            },
            TagValue::Absent => {
                proof {
                    assert(find_elem_spec(s@, i as int, name@, need_peid) == find_elem_spec(
                        s@,
                        i + 1,
                        name@,
                        need_peid,
                    ));
                }
                i += 1;
            },
        }
    }
}

} // verus!
