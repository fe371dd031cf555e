//! The telemetry reading and its assembly from a status document.

use vstd::prelude::*;

use crate::consumables::ink_levels;
use crate::consumables::ink_levels_spec;
use crate::consumables::parse_consumables;
use crate::consumables::parse_consumables_spec;
use crate::impressions::extract_pages_from_xml;
use crate::impressions::extract_subscription_impressions;
use crate::impressions::pages_spec;
use crate::impressions::subscription_spec;

verus! {

/// The error kinds the caller can distinguish: connectivity trouble,
/// a document whose consumable subtree cannot be parsed, and a broken
/// persisted configuration.
#[derive(Clone, Copy, Debug, PartialEq, Eq, Structural)]
pub enum HPPrinterError {
    NetworkError,
    XmlParsingError,
    ConfigError,
}

/// One full telemetry reading.  Every field is always populated: a
/// counter or level the document does not usably report is `0`.
#[derive(Clone, Copy, Debug, PartialEq, Eq, Structural)]
pub struct PrinterData {
    /// Seconds since the Unix epoch at the moment of extraction.
    pub timestamp: i64,
    pub pages_printed: u32,
    pub subscription_impressions: u32,
    pub colour_ink_level: u32,
    pub black_ink_level: u32,
}

/// Relies on chrono::Utc::now: the current time as seconds since the
/// Unix epoch.  The result depends on the clock, so nothing is
/// promised of it.
#[verifier::external_body]
fn now_unix_seconds() -> i64 {
    chrono::Utc::now().timestamp()
}

impl PrinterData {
    /// A reading of the four counters, stamped with the current time.
    pub fn new(
        pages_printed: u32,
        subscription_impressions: u32,
        colour_ink_level: u32,
        black_ink_level: u32,
    ) -> (d: Self)
        ensures
            d.pages_printed == pages_printed,
            d.subscription_impressions == subscription_impressions,
            d.colour_ink_level == colour_ink_level,
            d.black_ink_level == black_ink_level,
    {
        Self {
            timestamp: now_unix_seconds(),
            pages_printed,
            subscription_impressions,
            colour_ink_level,
            black_ink_level,
        }
    }
}

/// The ink levels the structured path yields for a document whose
/// consumable subtree parses.
pub open spec fn ink_levels_of(s: Seq<u8>) -> (int, int) {
    ink_levels_spec(parse_consumables_spec(s)->Some_0)
}

/// Extract a full reading from the raw bytes of a status document.
///
/// The two impression counters come from the tolerant pattern path and
/// degrade to `0` on their own; the ink levels come from the
/// structured path, whose structural failure is the one hard error.
pub fn extract(xml: &[u8]) -> (r: Result<PrinterData, HPPrinterError>)
    ensures
        r is Ok <==> parse_consumables_spec(xml@) is Some,
        (match r {
            Ok(d) => d.pages_printed as int == pages_spec(xml@)
                && d.subscription_impressions as int == subscription_spec(xml@)
                && d.colour_ink_level as int == ink_levels_of(xml@).0
                && d.black_ink_level as int == ink_levels_of(xml@).1,
            Err(e) => e == HPPrinterError::XmlParsingError,
        }),
{
    let pages_printed = extract_pages_from_xml(xml);
    let subscription_impressions = extract_subscription_impressions(xml);
    let records = match parse_consumables(xml) {
        None => {
            return Err(HPPrinterError::XmlParsingError);
        },
        Some(v) => v,
    };
    let (colour_ink_level, black_ink_level) = ink_levels(&records);
    Ok(PrinterData::new(pages_printed, subscription_impressions, colour_ink_level, black_ink_level))
}

} // verus!
