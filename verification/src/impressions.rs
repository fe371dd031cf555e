//! Pattern-based extraction of the two impression counters.
//!
//! `TotalImpressions` and `SubscriptionImpressions` move between
//! namespace prefixes and nesting levels across firmware revisions, so
//! they are recovered by tolerant pattern search over the raw document
//! rather than through the structured consumable model.  A missing or
//! unusable counter degrades to `0`; it never fails the extraction.

use vstd::prelude::*;

use crate::tags::close_tag_at;
use crate::tags::elem_at;
use crate::tags::find_elem;
use crate::tags::find_elem_spec;
use crate::tags::find_pname_rec;
use crate::tags::peid_between;
use crate::tags::peid_lit;
use crate::text::GT;
use crate::text::LT;
use crate::text::QUOTE;
use crate::text::digits_value;
use crate::text::find_lit;
use crate::text::find_lit_spec;
use crate::text::is_digit;
use crate::text::lit_bytes;
use crate::text::match_at;
use crate::text::str_bytes;

verus! {

broadcast use vstd::slice::group_slice_axioms;

pub open spec fn total_name() -> Seq<u8> {
    lit_bytes("TotalImpressions"@)
}

pub open spec fn sub_name() -> Seq<u8> {
    lit_bytes("SubscriptionImpressions"@)
}

/// The nesting marker used by the fallback search for pages printed.
pub open spec fn subunit_marker() -> Seq<u8> {
    lit_bytes("<pudyn:PrinterSubunit>"@)
}

fn total_name_vec() -> (v: Vec<u8>)
    ensures
        v@ == total_name(),
        v@.len() >= 1,
{
    proof {
        reveal_strlit("TotalImpressions");
    }
    str_bytes("TotalImpressions")
}

fn sub_name_vec() -> (v: Vec<u8>)
    ensures
        v@ == sub_name(),
        v@.len() >= 1,
{
    proof {
        reveal_strlit("SubscriptionImpressions");
    }
    str_bytes("SubscriptionImpressions")
}

fn subunit_marker_vec() -> (v: Vec<u8>)
    ensures
        v@ == subunit_marker(),
        v@.len() >= 1,
{
    proof {
        reveal_strlit("<pudyn:PrinterSubunit>");
    }
    str_bytes("<pudyn:PrinterSubunit>")
}

/// Pages printed recovered by the fallback pattern: the first
/// `TotalImpressions` element, `PEID` attribute not required, standing
/// at or after a literal `<pudyn:PrinterSubunit>` opening tag.
pub open spec fn fallback_pages_spec(s: Seq<u8>) -> int {
    match find_lit_spec(s, 0, subunit_marker()) {
        None => 0,
        Some(p) => match find_elem_spec(s, p + subunit_marker().len(), total_name(), false) {
            Some(v) => if v <= u32::MAX {
                v
            } else {
                0
            },
            None => 0,
        },
    }
}

/// Pages printed: the first `TotalImpressions` element that carries a
/// `PEID` attribute; else the fallback pattern; else `0`.
pub open spec fn pages_spec(s: Seq<u8>) -> int {
    match find_elem_spec(s, 0, total_name(), true) {
        Some(v) => if v <= u32::MAX {
            v
        } else {
            fallback_pages_spec(s)
        },
        None => fallback_pages_spec(s),
    }
}

/// Subscription impressions: the first `SubscriptionImpressions`
/// element; a missing or unusable reading degrades to `0`.
pub open spec fn subscription_spec(s: Seq<u8>) -> int {
    match find_elem_spec(s, 0, sub_name(), false) {
        Some(v) => if v <= u32::MAX {
            v
        } else {
            0
        },
        None => 0,
    }
}

/// A canonical `TotalImpressions` element carrying a `PEID` attribute
/// and declaring the digit string `p`.
pub open spec fn pages_elem_doc(p: Seq<u8>) -> Seq<u8> {
    lit_bytes("<TotalImpressions PEID=\"1\">"@) + p + lit_bytes("</TotalImpressions>"@)
}

/// A document declaring total impressions `p` in the nominal shape
/// yields exactly the declared value: the primary pattern reads the
/// digit string back unchanged.
pub proof fn lemma_nominal_pages_exact(p: Seq<u8>)
    requires
        p.len() >= 1,
        forall|q: int| 0 <= q < p.len() ==> is_digit(p[q]),
        digits_value(p, 0, p.len() as int) <= u32::MAX,
    ensures
        pages_spec(pages_elem_doc(p)) == digits_value(p, 0, p.len() as int),
{
    reveal_strlit("<TotalImpressions PEID=\"1\">");
    reveal_strlit("</TotalImpressions>");
    reveal_strlit("TotalImpressions");
    reveal_strlit("PEID=\"");
    let a = lit_bytes("<TotalImpressions PEID=\"1\">"@);
    let z = lit_bytes("</TotalImpressions>"@);
    let s = pages_elem_doc(p);
    let n = p.len() as int;
    let e = 27 + n;
    assert(a.len() == 27);
    assert(z.len() == 19);
    assert(s.len() == e + 19);
    assert(s.subrange(1, 17) =~= total_name());
    assert(find_pname_rec(s, 1, 1, total_name()) == Some(17int));
    assert(forall|q: int| 17 <= q < 26 ==> s[q] != GT);
    crate::text::lemma_find_byte_first(s, 17, 26, GT);
    assert(s.subrange(18, 24) =~= peid_lit());
    assert(match_at(s, 18, peid_lit()));
    assert(!match_at(s, 17, peid_lit())) by {
        assert(s.subrange(17, 23)[0] == s[17]);
    }
    crate::text::lemma_find_lit_first(s, 17, 18, peid_lit());
    crate::text::lemma_find_byte_first(s, 24, 25, QUOTE);
    assert(peid_between(s, 17, 26));
    assert(forall|q: int| 27 <= q < e ==> is_digit(s[q]));
    assert(s[e] == LT);
    crate::text::lemma_digits_end_at(s, 27, e);
    assert(s.subrange(e + 2, e + 18) =~= total_name());
    assert(find_pname_rec(s, e + 2, e + 2, total_name()) == Some(e + 18));
    assert(s[e + 18] == GT);
    assert(close_tag_at(s, e, total_name()) is Some);
    assert(s.subrange(27, e) =~= p);
    crate::text::lemma_digits_value_embed(s, 27, p);
    assert(elem_at(s, 0, total_name(), true) == Some(digits_value(p, 0, n)));
    assert(find_elem_spec(s, 0, total_name(), true) == Some(digits_value(p, 0, n)));
}

/// A canonical `SubscriptionImpressions` element declaring the digit
/// string `p`.
pub open spec fn sub_elem_doc(p: Seq<u8>) -> Seq<u8> {
    lit_bytes("<SubscriptionImpressions>"@) + p + lit_bytes("</SubscriptionImpressions>"@)
}

/// A document declaring subscription impressions `p` in the nominal
/// shape yields exactly the declared value.
pub proof fn lemma_nominal_subscription_exact(p: Seq<u8>)
    requires
        p.len() >= 1,
        forall|q: int| 0 <= q < p.len() ==> is_digit(p[q]),
        digits_value(p, 0, p.len() as int) <= u32::MAX,
    ensures
        subscription_spec(sub_elem_doc(p)) == digits_value(p, 0, p.len() as int),
{
    reveal_strlit("<SubscriptionImpressions>");
    reveal_strlit("</SubscriptionImpressions>");
    reveal_strlit("SubscriptionImpressions");
    let a = lit_bytes("<SubscriptionImpressions>"@);
    let z = lit_bytes("</SubscriptionImpressions>"@);
    let s = sub_elem_doc(p);
    let n = p.len() as int;
    let e = 25 + n;
    assert(a.len() == 25);
    assert(z.len() == 26);
    assert(s.len() == e + 26);
    assert(s.subrange(1, 24) =~= sub_name());
    assert(find_pname_rec(s, 1, 1, sub_name()) == Some(24int));
    assert(s[24] == GT);
    crate::text::lemma_find_byte_first(s, 24, 24, GT);
    assert(forall|q: int| 25 <= q < e ==> is_digit(s[q]));
    assert(s[e] == LT);
    crate::text::lemma_digits_end_at(s, 25, e);
    assert(s.subrange(e + 2, e + 25) =~= sub_name());
    assert(find_pname_rec(s, e + 2, e + 2, sub_name()) == Some(e + 25));
    assert(s[e + 25] == GT);
    assert(close_tag_at(s, e, sub_name()) is Some);
    assert(s.subrange(25, e) =~= p);
    crate::text::lemma_digits_value_embed(s, 25, p);
    assert(elem_at(s, 0, sub_name(), false) == Some(digits_value(p, 0, n)));
    assert(find_elem_spec(s, 0, sub_name(), false) == Some(digits_value(p, 0, n)));
}

/// When no `TotalImpressions` element carries a `PEID` attribute but
/// one stands at or after a `pudyn`-prefixed `PrinterSubunit` opening
/// tag with a usable reading, the fallback pattern recovers exactly
/// that reading.
pub proof fn lemma_pages_fallback_recovers(s: Seq<u8>, v: int)
    requires
        find_elem_spec(s, 0, total_name(), true) is None,
        find_lit_spec(s, 0, subunit_marker()) is Some,
        find_elem_spec(
            s,
            find_lit_spec(s, 0, subunit_marker())->Some_0 + subunit_marker().len(),
            total_name(),
            false,
        ) == Some(v),
        v <= u32::MAX,
    ensures
        pages_spec(s) == v,
{
}

/// Total pages printed reported by the document, `0` when no pattern
/// recovers a usable reading.
pub fn extract_pages_from_xml(xml: &[u8]) -> (r: u32)
    ensures
        r as int == pages_spec(xml@),
{
    let n = xml.len();
    let total = total_name_vec();
    proof {
        assert(xml@.len() == n);
        crate::tags::lemma_find_elem_nonneg(xml@, 0, total_name(), true);
    }
    match find_elem(xml, 0, total.as_slice(), true) {
        Some(v) => v,
        None => {
            let marker = subunit_marker_vec();
            match find_lit(xml, 0, marker.as_slice()) {
                None => 0,
                Some(p) => {
                    proof {
                        crate::tags::lemma_find_elem_nonneg(
                            xml@,
                            p + subunit_marker().len(),
                            total_name(),
                            false,
                        );
                    }
                    match find_elem(xml, p + marker.len(), total.as_slice(), false) {
                        Some(v) => v,
                        None => 0,
                    }
                },
            }
        },
    }
}

/// Subscription-billed impressions reported by the document, `0` when
/// the element is missing or its reading is unusable.
pub fn extract_subscription_impressions(xml: &[u8]) -> (r: u32)
    ensures
        r as int == subscription_spec(xml@),
{
    let sub = sub_name_vec();
    proof {
        crate::tags::lemma_find_elem_nonneg(xml@, 0, sub_name(), false);
    }
    match find_elem(xml, 0, sub.as_slice(), false) {
        Some(v) => v,
        None => 0,
    }
}

} // verus!
