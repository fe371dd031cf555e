use hp_instant_ink_cli::extract;
use hp_instant_ink_cli::extract_pages_from_xml;
use hp_instant_ink_cli::extract_subscription_impressions;
use hp_instant_ink_cli::HPPrinterError;
use hp_instant_ink_cli::PrinterData;

const NOMINAL: &str = r#"<?xml version="1.0" encoding="UTF-8"?>
<pudyn:ProductUsageDyn xmlns:pudyn="http://www.hp.com/schemas/imaging/con/ledm/productusagedyn/2007/12/11" xmlns:dd="http://www.hp.com/schemas/imaging/con/dictionaries/1.0/">
  <pudyn:PrinterSubunit>
    <dd:TotalImpressions PEID="5082">12345</dd:TotalImpressions>
    <dd:SubscriptionImpressions>678</dd:SubscriptionImpressions>
  </pudyn:PrinterSubunit>
  <pudyn:ConsumableSubunit>
    <pudyn:Consumable>
      <dd:MarkerColor>CyanMagentaYellow</dd:MarkerColor>
      <dd:ConsumableRawPercentageLevelRemaining>42</dd:ConsumableRawPercentageLevelRemaining>
    </pudyn:Consumable>
    <pudyn:Consumable>
      <dd:MarkerColor>Black</dd:MarkerColor>
      <dd:ConsumableRawPercentageLevelRemaining>87</dd:ConsumableRawPercentageLevelRemaining>
    </pudyn:Consumable>
  </pudyn:ConsumableSubunit>
</pudyn:ProductUsageDyn>
"#;

#[test]
fn nominal_document_full_reading() {
    let data = extract(NOMINAL.as_bytes()).unwrap();
    assert_eq!(data.pages_printed, 12345);
    assert_eq!(data.subscription_impressions, 678);
    assert_eq!(data.colour_ink_level, 42);
    assert_eq!(data.black_ink_level, 87);
}

#[test]
fn unprefixed_document_full_reading() {
    let xml = r#"<ProductUsageDyn>
  <PrinterSubunit>
    <TotalImpressions PEID="1">901</TotalImpressions>
    <SubscriptionImpressions>45</SubscriptionImpressions>
  </PrinterSubunit>
  <ConsumableSubunit>
    <Consumable>
      <MarkerColor>CyanMagentaYellow</MarkerColor>
      <ConsumableRawPercentageLevelRemaining>3</ConsumableRawPercentageLevelRemaining>
    </Consumable>
    <Consumable>
      <MarkerColor>Black</MarkerColor>
      <ConsumableRawPercentageLevelRemaining>99</ConsumableRawPercentageLevelRemaining>
    </Consumable>
  </ConsumableSubunit>
</ProductUsageDyn>
"#;
    let data = extract(xml.as_bytes()).unwrap();
    assert_eq!(data.pages_printed, 901);
    assert_eq!(data.subscription_impressions, 45);
    assert_eq!(data.colour_ink_level, 3);
    assert_eq!(data.black_ink_level, 99);
}

#[test]
fn pages_fallback_without_peid_under_pudyn_subunit() {
    let xml = r#"<pudyn:ProductUsageDyn>
<pudyn:PrinterSubunit>
<dd:TotalImpressions>5150</dd:TotalImpressions>
</pudyn:PrinterSubunit>
</pudyn:ProductUsageDyn>
"#;
    assert_eq!(extract_pages_from_xml(xml.as_bytes()), 5150);
}

#[test]
fn pages_no_peid_and_no_pudyn_marker_gives_zero() {
    let xml = "<PrinterSubunit><TotalImpressions>5150</TotalImpressions></PrinterSubunit>";
    assert_eq!(extract_pages_from_xml(xml.as_bytes()), 0);
}

#[test]
fn pages_primary_overflow_falls_back_to_nested_pattern() {
    let xml = r#"<x>
<dd:TotalImpressions PEID="9">99999999999999</dd:TotalImpressions>
<pudyn:PrinterSubunit>
<dd:TotalImpressions>777</dd:TotalImpressions>
</pudyn:PrinterSubunit>
</x>
"#;
    assert_eq!(extract_pages_from_xml(xml.as_bytes()), 777);
}

#[test]
fn pages_missing_entirely_gives_zero() {
    assert_eq!(extract_pages_from_xml(b"<a>nothing here</a>"), 0);
}

#[test]
fn subscription_impressions_read_anywhere() {
    let xml = "<p:SubscriptionImpressions>31</p:SubscriptionImpressions>";
    assert_eq!(extract_subscription_impressions(xml.as_bytes()), 31);
}

#[test]
fn subscription_missing_gives_zero() {
    assert_eq!(extract_subscription_impressions(b"<a>5</a>"), 0);
}

#[test]
fn subscription_non_integer_gives_zero() {
    let xml = "<dd:SubscriptionImpressions>abc</dd:SubscriptionImpressions>";
    assert_eq!(extract_subscription_impressions(xml.as_bytes()), 0);
}

#[test]
fn unknown_colour_tag_contributes_to_neither_channel() {
    let xml = r#"<pudyn:ConsumableSubunit>
<pudyn:Consumable>
<dd:MarkerColor>Magenta</dd:MarkerColor>
<dd:ConsumableRawPercentageLevelRemaining>55</dd:ConsumableRawPercentageLevelRemaining>
</pudyn:Consumable>
<pudyn:Consumable>
<dd:MarkerColor>Black</dd:MarkerColor>
<dd:ConsumableRawPercentageLevelRemaining>12</dd:ConsumableRawPercentageLevelRemaining>
</pudyn:Consumable>
</pudyn:ConsumableSubunit>
"#;
    let data = extract(xml.as_bytes()).unwrap();
    assert_eq!(data.colour_ink_level, 0);
    assert_eq!(data.black_ink_level, 12);
}

#[test]
fn non_integer_percentage_defaults_to_zero_without_error() {
    let xml = r#"<pudyn:ConsumableSubunit>
<pudyn:Consumable>
<dd:MarkerColor>CyanMagentaYellow</dd:MarkerColor>
<dd:ConsumableRawPercentageLevelRemaining>n/a</dd:ConsumableRawPercentageLevelRemaining>
</pudyn:Consumable>
<pudyn:Consumable>
<dd:MarkerColor>Black</dd:MarkerColor>
<dd:ConsumableRawPercentageLevelRemaining>64</dd:ConsumableRawPercentageLevelRemaining>
</pudyn:Consumable>
</pudyn:ConsumableSubunit>
"#;
    let data = extract(xml.as_bytes()).unwrap();
    assert_eq!(data.colour_ink_level, 0);
    assert_eq!(data.black_ink_level, 64);
}

#[test]
fn oversize_percentage_defaults_to_zero() {
    let xml = r#"<ConsumableSubunit>
<Consumable>
<MarkerColor>Black</MarkerColor>
<ConsumableRawPercentageLevelRemaining>4294967296</ConsumableRawPercentageLevelRemaining>
</Consumable>
</ConsumableSubunit>
"#;
    let data = extract(xml.as_bytes()).unwrap();
    assert_eq!(data.black_ink_level, 0);
}

#[test]
fn largest_percentage_is_kept_exactly() {
    let xml = r#"<ConsumableSubunit>
<Consumable>
<MarkerColor>Black</MarkerColor>
<ConsumableRawPercentageLevelRemaining>4294967295</ConsumableRawPercentageLevelRemaining>
</Consumable>
</ConsumableSubunit>
"#;
    let data = extract(xml.as_bytes()).unwrap();
    assert_eq!(data.black_ink_level, 4294967295);
}

#[test]
fn absent_percentage_leaves_channel_at_zero() {
    let xml = r#"<ConsumableSubunit>
<Consumable>
<MarkerColor>CyanMagentaYellow</MarkerColor>
</Consumable>
</ConsumableSubunit>
"#;
    let data = extract(xml.as_bytes()).unwrap();
    assert_eq!(data.colour_ink_level, 0);
    assert_eq!(data.black_ink_level, 0);
}

#[test]
fn later_record_for_same_channel_wins() {
    let xml = r#"<ConsumableSubunit>
<Consumable>
<MarkerColor>Black</MarkerColor>
<ConsumableRawPercentageLevelRemaining>10</ConsumableRawPercentageLevelRemaining>
</Consumable>
<Consumable>
<MarkerColor>Black</MarkerColor>
<ConsumableRawPercentageLevelRemaining>20</ConsumableRawPercentageLevelRemaining>
</Consumable>
</ConsumableSubunit>
"#;
    let data = extract(xml.as_bytes()).unwrap();
    assert_eq!(data.black_ink_level, 20);
}

#[test]
fn missing_consumable_subtree_is_a_parsing_error() {
    let r = extract(b"<ProductUsageDyn><PrinterSubunit></PrinterSubunit></ProductUsageDyn>");
    assert_eq!(r.unwrap_err(), HPPrinterError::XmlParsingError);
}

#[test]
fn unterminated_consumable_subtree_is_a_parsing_error() {
    let xml = "<ConsumableSubunit><Consumable><MarkerColor>Black</MarkerColor>";
    let r = extract(xml.as_bytes());
    assert_eq!(r.unwrap_err(), HPPrinterError::XmlParsingError);
}

#[test]
fn consumable_without_marker_color_is_a_parsing_error() {
    let xml = r#"<ConsumableSubunit>
<Consumable>
<ConsumableRawPercentageLevelRemaining>50</ConsumableRawPercentageLevelRemaining>
</Consumable>
</ConsumableSubunit>
"#;
    let r = extract(xml.as_bytes());
    assert_eq!(r.unwrap_err(), HPPrinterError::XmlParsingError);
}

#[test]
fn empty_document_is_a_parsing_error() {
    assert!(extract(b"").is_err());
}

#[test]
fn empty_consumable_subtree_succeeds_with_zero_levels() {
    let xml = "<ConsumableSubunit></ConsumableSubunit>";
    let data = extract(xml.as_bytes()).unwrap();
    assert_eq!(data.colour_ink_level, 0);
    assert_eq!(data.black_ink_level, 0);
    assert_eq!(data.pages_printed, 0);
    assert_eq!(data.subscription_impressions, 0);
}

#[test]
fn printer_data_new_keeps_the_counters() {
    let d = PrinterData::new(1, 2, 3, 4);
    assert_eq!(d.pages_printed, 1);
    assert_eq!(d.subscription_impressions, 2);
    assert_eq!(d.colour_ink_level, 3);
    assert_eq!(d.black_ink_level, 4);
}
