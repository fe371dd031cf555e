//! The structured extraction path for ink levels.
//!
//! Ink data has a stable shape across firmware revisions: a
//! `ConsumableSubunit` element holding one `Consumable` element per
//! ink unit, each with a mandatory `MarkerColor` tag and an optional
//! `ConsumableRawPercentageLevelRemaining` tag.  A document whose
//! consumable subtree is absent or malformed is rejected as a whole;
//! field-level problems (unknown colour tags, unparsable percentages)
//! degrade silently.

use vstd::prelude::*;

use crate::tags::close_tag_at;
use crate::tags::close_tag_check;
use crate::tags::open_tag_at;
use crate::tags::open_tag_check;
use crate::text::bytes_eq;
use crate::text::digits_end;
use crate::text::digits_end_spec;
use crate::text::digits_value;
use crate::text::is_digit;
use crate::text::lit_bytes;
use crate::text::parse_digits;
use crate::text::str_bytes;

verus! {

broadcast use vstd::slice::group_slice_axioms;

pub open spec fn subunit_name() -> Seq<u8> {
    lit_bytes("ConsumableSubunit"@)
}

pub open spec fn consumable_name() -> Seq<u8> {
    lit_bytes("Consumable"@)
}

pub open spec fn color_name() -> Seq<u8> {
    lit_bytes("MarkerColor"@)
}

pub open spec fn pct_name() -> Seq<u8> {
    lit_bytes("ConsumableRawPercentageLevelRemaining"@)
}

/// The colour tag of the cyan-magenta-yellow composite cartridge.
pub open spec fn cmy_tag() -> Seq<u8> {
    lit_bytes("CyanMagentaYellow"@)
}

/// The colour tag of the black cartridge.
pub open spec fn black_tag() -> Seq<u8> {
    lit_bytes("Black"@)
}

fn subunit_name_vec() -> (v: Vec<u8>)
    ensures
        v@ == subunit_name(),
        v@.len() >= 1,
{
    proof {
        reveal_strlit("ConsumableSubunit");
    }
    str_bytes("ConsumableSubunit")
}

fn consumable_name_vec() -> (v: Vec<u8>)
    ensures
        v@ == consumable_name(),
        v@.len() >= 1,
{
    proof {
        reveal_strlit("Consumable");
    }
    str_bytes("Consumable")
}

fn color_name_vec() -> (v: Vec<u8>)
    ensures
        v@ == color_name(),
        v@.len() >= 1,
{
    proof {
        reveal_strlit("MarkerColor");
    }
    str_bytes("MarkerColor")
}

fn pct_name_vec() -> (v: Vec<u8>)
    ensures
        v@ == pct_name(),
        v@.len() >= 1,
{
    proof {
        reveal_strlit("ConsumableRawPercentageLevelRemaining");
    }
    str_bytes("ConsumableRawPercentageLevelRemaining")
}

/// One ink or toner unit as reported by the document: a free-text
/// colour tag and an optional remaining-percentage string.
pub struct ConsumableRecord {
    pub marker_color: Vec<u8>,
    pub percentage_remaining: Option<Vec<u8>>,
}

impl View for ConsumableRecord {
    type V = (Seq<u8>, Option<Seq<u8>>);

    open spec fn view(&self) -> (Seq<u8>, Option<Seq<u8>>) {
        (
            self.marker_color@,
            match self.percentage_remaining {
                Some(p) => Some(p@),
                None => None,
            },
        )
    }
}

pub open spec fn records_view(v: Seq<ConsumableRecord>) -> Seq<(Seq<u8>, Option<Seq<u8>>)> {
    v.map_values(|r: ConsumableRecord| r@)
}

/// First opening tag of `name` standing at or after `from`: the
/// position of its `<` and of its `>`.
pub open spec fn find_open_tag_spec(s: Seq<u8>, from: int, name: Seq<u8>) -> Option<(int, int)>
    decreases s.len() - from + 1,
{
    if from < 0 || from >= s.len() {
        None
    } else {
        match open_tag_at(s, from, name) {
            Some(t) => Some((from, t)),
            None => find_open_tag_spec(s, from + 1, name),
        }
    }
}

fn find_open_tag(s: &[u8], from: usize, name: &[u8]) -> (r: Option<(usize, usize)>)
    requires
        from <= s.len(),
        name@.len() >= 1,
    ensures
        (match (r, find_open_tag_spec(s@, from as int, name@)) {
            (Some(p), Some(q)) => p.0 as int == q.0 && p.1 as int == q.1 && from <= p.0 < p.1
                < s@.len(),
            (None, None) => true,
            _ => false,
        }),
{
    let mut i: usize = from;
    loop
        invariant
            from <= i <= s@.len(),
            name@.len() >= 1,
            s@.len() <= usize::MAX,
            find_open_tag_spec(s@, from as int, name@) == find_open_tag_spec(
                s@,
                i as int,
                name@,
            ),
        decreases s@.len() - i,
    {
        if i == s.len() {
            return None;
        }
        match open_tag_check(s, i, name) {
            Some(t) => {
                return Some((i, t));
            },
            None => {
                proof {
                    assert(find_open_tag_spec(s@, i as int, name@) == find_open_tag_spec(
                        s@,
                        i + 1,
                        name@,
                    ));
                }
                i += 1;
            },
        }
    }
}

/// First closing tag of `name` standing at or after `from`: the
/// position of its `<` and the position directly after its `>`.
pub open spec fn find_close_tag_spec(s: Seq<u8>, from: int, name: Seq<u8>) -> Option<(int, int)>
    decreases s.len() - from + 1,
{
    if from < 0 || from >= s.len() {
        None
    } else {
        match close_tag_at(s, from, name) {
            Some(after) => Some((from, after)),
            None => find_close_tag_spec(s, from + 1, name),
        }
    }
}

fn find_close_tag(s: &[u8], from: usize, name: &[u8]) -> (r: Option<(usize, usize)>)
    requires
        from <= s.len(),
        name@.len() >= 1,
    ensures
        (match (r, find_close_tag_spec(s@, from as int, name@)) {
            (Some(p), Some(q)) => p.0 as int == q.0 && p.1 as int == q.1 && from <= p.0 && p.0 + 2
                < p.1 <= s@.len(),
            (None, None) => true,
            _ => false,
        }),
{
    let mut i: usize = from;
    loop
        invariant
            from <= i <= s@.len(),
            name@.len() >= 1,
            s@.len() <= usize::MAX,
            find_close_tag_spec(s@, from as int, name@) == find_close_tag_spec(
                s@,
                i as int,
                name@,
            ),
        decreases s@.len() - i,
    {
        if i == s.len() {
            return None;
        }
        match close_tag_check(s, i, name) {
            Some(after) => {
                return Some((i, after));
            },
            None => {
                proof {
                    assert(find_close_tag_spec(s@, i as int, name@) == find_close_tag_spec(
                        s@,
                        i + 1,
                        name@,
                    ));
                }
                i += 1;
            },
        }
    }
}

/// One `Consumable` element's content parsed into a record: the
/// mandatory `MarkerColor` text and the optional percentage text.
/// `None` when the content is malformed.
pub open spec fn parse_record_spec(content: Seq<u8>) -> Option<(Seq<u8>, Option<Seq<u8>>)> {
    match find_open_tag_spec(content, 0, color_name()) {
        None => None,
        Some((ci, ct)) => match find_close_tag_spec(content, ct + 1, color_name()) {
            None => None,
            Some((cc, _)) => {
                let color = content.subrange(ct + 1, cc);
                match find_open_tag_spec(content, 0, pct_name()) {
                    None => Some((color, None)),
                    Some((pi, pt)) => match find_close_tag_spec(content, pt + 1, pct_name()) {
                        None => None,
                        Some((pc, _)) => Some((color, Some(content.subrange(pt + 1, pc)))),
                    },
                }
            },
        },
    }
}

fn parse_record(content: &[u8]) -> (r: Option<ConsumableRecord>)
    ensures
        (match (r, parse_record_spec(content@)) {
            (Some(rec), Some(q)) => rec@ == q,
            (None, None) => true,
            _ => false,
        }),
{
    let n = content.len();
    proof {
        assert(content@.len() == n);
    }
    let color_name_b = color_name_vec();
    let (_ci, ct) = match find_open_tag(content, 0, color_name_b.as_slice()) {
        None => {
            return None;
        },
        Some(p) => p,
    };
    let (cc, _ca) = match find_close_tag(content, ct + 1, color_name_b.as_slice()) {
        None => {
            return None;
        },
        Some(p) => p,
    };
    let color = vstd::slice::slice_to_vec(&content[ct + 1..cc]);
    let pct_name_b = pct_name_vec();
    let (_pi, pt) = match find_open_tag(content, 0, pct_name_b.as_slice()) {
        None => {
            return Some(ConsumableRecord { marker_color: color, percentage_remaining: None });
        },
        Some(p) => p,
    };
    let (pc, _pa) = match find_close_tag(content, pt + 1, pct_name_b.as_slice()) {
        None => {
            return None;
        },
        Some(p) => p,
    };
    let pct = vstd::slice::slice_to_vec(&content[pt + 1..pc]);
    Some(ConsumableRecord { marker_color: color, percentage_remaining: Some(pct) })
}

/// The records of every `Consumable` element of the region, in
/// document order; `None` when one of them is malformed.
pub open spec fn parse_records_spec(region: Seq<u8>) -> Option<Seq<(Seq<u8>, Option<Seq<u8>>)>>
    decreases region.len(),
{
    match find_open_tag_spec(region, 0, consumable_name()) {
        None => Some(Seq::empty()),
        Some((i, t)) => match find_close_tag_spec(region, t + 1, consumable_name()) {
            None => None,
            Some((c, after)) => {
                if !(0 <= t + 1 <= c <= region.len() && 1 <= after <= region.len()) {
                    None
                } else {
                    match parse_record_spec(region.subrange(t + 1, c)) {
                        None => None,
                        Some(rec) => match parse_records_spec(
                            region.subrange(after, region.len() as int),
                        ) {
                            None => None,
                            Some(rest) => Some(seq![rec] + rest),
                        },
                    }
                }
            },
        },
    }
}

fn parse_records(region: &[u8]) -> (r: Option<Vec<ConsumableRecord>>)
    ensures
        (match (r, parse_records_spec(region@)) {
            (Some(v), Some(q)) => records_view(v@) == q,
            (None, None) => true,
            _ => false,
        }),
    decreases region@.len(),
{
    let n = region.len();
    proof {
        assert(region@.len() == n);
    }
    let consumable_b = consumable_name_vec();
    let (_i, t) = match find_open_tag(region, 0, consumable_b.as_slice()) {
        None => {
            let out: Vec<ConsumableRecord> = Vec::new();
            proof {
                assert(records_view(out@) =~= Seq::<(Seq<u8>, Option<Seq<u8>>)>::empty());
            }
            return Some(out);
        },
        Some(p) => p,
    };
    let (c, after) = match find_close_tag(region, t + 1, consumable_b.as_slice()) {
        None => {
            return None;
        },
        Some(p) => p,
    };
    let rec = match parse_record(&region[t + 1..c]) {
        None => {
            return None;
        },
        Some(rec) => rec,
    };
    let mut rest = match parse_records(&region[after..region.len()]) {
        None => {
            return None;
        },
        Some(v) => v,
    };
    let ghost rest_seq = rest@;
    let mut out: Vec<ConsumableRecord> = Vec::new();
    out.push(rec);
    out.append(&mut rest);
    proof {
        assert(records_view(out@) =~= seq![out@[0]@] + records_view(rest_seq));
    }
    Some(out)
}

/// The consumable records of the whole document: the content of the
/// first `ConsumableSubunit` element, parsed record by record.  `None`
/// when the subtree is absent or malformed.
pub open spec fn parse_consumables_spec(s: Seq<u8>) -> Option<Seq<(Seq<u8>, Option<Seq<u8>>)>> {
    match find_open_tag_spec(s, 0, subunit_name()) {
        None => None,
        Some((i, t)) => match find_close_tag_spec(s, t + 1, subunit_name()) {
            None => None,
            Some((c, _)) => if 0 <= t + 1 <= c <= s.len() {
                parse_records_spec(s.subrange(t + 1, c))
            } else {
                None
            },
        },
    }
}

/// Structured pass over the document: every consumable record of the
/// `ConsumableSubunit` subtree, or `None` when that subtree is absent
/// or malformed.
pub fn parse_consumables(xml: &[u8]) -> (r: Option<Vec<ConsumableRecord>>)
    ensures
        (match (r, parse_consumables_spec(xml@)) {
            (Some(v), Some(q)) => records_view(v@) == q,
            (None, None) => true,
            _ => false,
        }),
{
    let n = xml.len();
    proof {
        assert(xml@.len() == n);
    }
    let subunit_b = subunit_name_vec();
    let (_i, t) = match find_open_tag(xml, 0, subunit_b.as_slice()) {
        None => {
            return None;
        },
        Some(p) => p,
    };
    let (c, _a) = match find_close_tag(xml, t + 1, subunit_b.as_slice()) {
        None => {
            return None;
        },
        Some(p) => p,
    };
    parse_records(&xml[t + 1..c])
}

/// The percentage a record reports: the value of its digit string, or
/// `0` when the string is empty, not all digits, or too large.
pub open spec fn pct_value(p: Seq<u8>) -> int {
    if p.len() >= 1 && (forall|q: int| 0 <= q < p.len() ==> is_digit(p[q])) && digits_value(
        p,
        0,
        p.len() as int,
    ) <= u32::MAX {
        digits_value(p, 0, p.len() as int)
    } else {
        0
    }
}

/// The two ink levels after folding the records in document order: a
/// recognised colour tag with a present percentage sets its channel,
/// later records win, and every other record is ignored.
pub open spec fn ink_levels_spec(rs: Seq<(Seq<u8>, Option<Seq<u8>>)>) -> (int, int)
    decreases rs.len(),
{
    if rs.len() == 0 {
        (0, 0)
    } else {
        let prev = ink_levels_spec(rs.drop_last());
        let r = rs.last();
        match r.1 {
            Some(p) => if r.0 == cmy_tag() {
                (pct_value(p), prev.1)
            } else if r.0 == black_tag() {
                (prev.0, pct_value(p))
            } else {
                prev
            },
            None => prev,
        }
    }
}

/// A record list declaring the two recognised colour tags with valid
/// digit percentages yields exactly the declared levels.
pub proof fn lemma_nominal_ink_exact(cmy_p: Seq<u8>, blk_p: Seq<u8>)
    requires
        cmy_p.len() >= 1,
        forall|q: int| 0 <= q < cmy_p.len() ==> is_digit(cmy_p[q]),
        digits_value(cmy_p, 0, cmy_p.len() as int) <= u32::MAX,
        blk_p.len() >= 1,
        forall|q: int| 0 <= q < blk_p.len() ==> is_digit(blk_p[q]),
        digits_value(blk_p, 0, blk_p.len() as int) <= u32::MAX,
    ensures
        ink_levels_spec(seq![(cmy_tag(), Some(cmy_p)), (black_tag(), Some(blk_p))]) == (
            digits_value(cmy_p, 0, cmy_p.len() as int),
            digits_value(blk_p, 0, blk_p.len() as int),
        ),
{
    let rs = seq![(cmy_tag(), Some(cmy_p)), (black_tag(), Some(blk_p))];
    let first = seq![(cmy_tag(), Some(cmy_p))];
    assert(rs.drop_last() =~= first);
    assert(first.drop_last() =~= Seq::<(Seq<u8>, Option<Seq<u8>>)>::empty());
    assert(cmy_tag() != black_tag()) by {
        reveal_strlit("CyanMagentaYellow");
        reveal_strlit("Black");
        assert(cmy_tag().len() == 17);
        assert(black_tag().len() == 5);
    }
    assert(pct_value(cmy_p) == digits_value(cmy_p, 0, cmy_p.len() as int));
    assert(pct_value(blk_p) == digits_value(blk_p, 0, blk_p.len() as int));
    assert(first.last() == (cmy_tag(), Some(cmy_p)));
    assert(rs.last() == (black_tag(), Some(blk_p)));
    assert(ink_levels_spec(first.drop_last()) == (0int, 0int));
    assert(ink_levels_spec(first) == (pct_value(cmy_p), 0int));
    assert(ink_levels_spec(rs) == (pct_value(cmy_p), pct_value(blk_p)));
}

/// A record whose colour tag is neither recognised value contributes
/// to neither ink level, whatever percentage it carries.
pub proof fn lemma_unknown_tag_ignored(rs: Seq<(Seq<u8>, Option<Seq<u8>>)>, rec: (Seq<u8>, Option<Seq<u8>>))
    requires
        rec.0 != cmy_tag(),
        rec.0 != black_tag(),
    ensures
        ink_levels_spec(rs.push(rec)) == ink_levels_spec(rs),
{
    assert(rs.push(rec).drop_last() =~= rs);
}

/// A percentage string containing a non-digit makes its channel
/// default to `0`; the other channel is untouched, and no error
/// arises: the fold is total.
pub proof fn lemma_unparsable_percentage_defaults(rs: Seq<(Seq<u8>, Option<Seq<u8>>)>, p: Seq<u8>)
    requires
        exists|q: int| 0 <= q < p.len() && !is_digit(p[q]),
    ensures
        ink_levels_spec(rs.push((cmy_tag(), Some(p)))).0 == 0,
        ink_levels_spec(rs.push((cmy_tag(), Some(p)))).1 == ink_levels_spec(rs).1,
        ink_levels_spec(rs.push((black_tag(), Some(p)))).1 == 0,
        ink_levels_spec(rs.push((black_tag(), Some(p)))).0 == ink_levels_spec(rs).0,
{
    assert(pct_value(p) == 0);
    assert(rs.push((cmy_tag(), Some(p))).drop_last() =~= rs);
    assert(rs.push((black_tag(), Some(p))).drop_last() =~= rs);
    assert(cmy_tag() != black_tag()) by {
        reveal_strlit("CyanMagentaYellow");
        reveal_strlit("Black");
        assert(cmy_tag().len() == 17);
        assert(black_tag().len() == 5);
    }
}

fn record_pct(p: &Vec<u8>) -> (r: u32)
    ensures
        r as int == pct_value(p@),
{
    let e = digits_end(p.as_slice(), 0);
    proof {
        crate::text::lemma_digits_run(p@, 0, e as int);
        crate::text::lemma_digits_end_stop(p@, 0, e as int);
    }
    if p.len() == 0 || e != p.len() {
        return 0;
    }
    match parse_digits(p.as_slice(), 0, p.len()) {
        Some(v) => v,
        None => 0,
    }
}

/// Fold the records into the pair (colour ink level, black ink level).
pub fn ink_levels(records: &Vec<ConsumableRecord>) -> (r: (u32, u32))
    ensures
        (r.0 as int, r.1 as int) == ink_levels_spec(records_view(records@)),
{
    let cmy_b = {
        proof {
            reveal_strlit("CyanMagentaYellow");
        }
        str_bytes("CyanMagentaYellow")
    };
    let black_b = {
        proof {
            reveal_strlit("Black");
        }
        str_bytes("Black")
    };
    let mut colour: u32 = 0;
    let mut black: u32 = 0;
    let mut k: usize = 0;
    while k < records.len()
        invariant
            k <= records@.len(),
            cmy_b@ == cmy_tag(),
            black_b@ == black_tag(),
            (colour as int, black as int) == ink_levels_spec(
                records_view(records@.subrange(0, k as int)),
            ),
        decreases records@.len() - k,
    {
        let rec = &records[k];
        match &rec.percentage_remaining {
            Some(p) => {
                if bytes_eq(rec.marker_color.as_slice(), cmy_b.as_slice()) {
                    colour = record_pct(p);
                } else if bytes_eq(rec.marker_color.as_slice(), black_b.as_slice()) {
                    black = record_pct(p);
                }
            },
            None => {},
        }
        proof {
            let prefix = records_view(records@.subrange(0, k as int));
            let next = records_view(records@.subrange(0, k + 1));
            assert(next.drop_last() =~= prefix);
            assert(next.last() == records@[k as int]@);
        }
        k += 1;
    }
    proof {
        assert(records@.subrange(0, records@.len() as int) =~= records@);
    }
    (colour, black)
}

} // verus!
