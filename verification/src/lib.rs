//! Telemetry client library for HP printers that expose the
//! `/DevMgmt/ProductUsageDyn.xml` status document.
//!
//! The core of the crate is a resilient extraction engine: given the raw
//! bytes of the status document it recovers page counters and ink levels
//! even when the document's namespace prefixes or nesting drift between
//! firmware revisions.  Endpoint URL normalization and the extraction
//! engine are fully verified; network I/O and rendering live outside the
//! library.

pub mod client;
pub mod consumables;
pub mod impressions;
pub mod reading;
pub mod tags;
pub mod text;

pub use client::Config;
pub use client::HPPrinterClient;
pub use consumables::ConsumableRecord;
pub use consumables::ink_levels;
pub use consumables::parse_consumables;
pub use impressions::extract_pages_from_xml;
pub use impressions::extract_subscription_impressions;
pub use reading::HPPrinterError;
pub use reading::PrinterData;
pub use reading::extract;
