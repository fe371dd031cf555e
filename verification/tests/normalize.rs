use hp_instant_ink_cli::Config;
use hp_instant_ink_cli::HPPrinterClient;

#[test]
fn bare_ip_gains_scheme_and_path() {
    assert_eq!(
        HPPrinterClient::normalize_printer_url("192.168.1.13"),
        "http://192.168.1.13/DevMgmt/ProductUsageDyn.xml"
    );
}

#[test]
fn https_host_keeps_scheme_and_loses_trailing_slash() {
    assert_eq!(
        HPPrinterClient::normalize_printer_url("https://printer.local/"),
        "https://printer.local/DevMgmt/ProductUsageDyn.xml"
    );
}

#[test]
fn full_status_url_is_unchanged() {
    assert_eq!(
        HPPrinterClient::normalize_printer_url("http://x/DevMgmt/ProductUsageDyn.xml"),
        "http://x/DevMgmt/ProductUsageDyn.xml"
    );
}

#[test]
fn http_host_without_slash_gains_path() {
    assert_eq!(
        HPPrinterClient::normalize_printer_url("http://10.0.0.7"),
        "http://10.0.0.7/DevMgmt/ProductUsageDyn.xml"
    );
}

#[test]
fn several_trailing_slashes_are_all_trimmed() {
    assert_eq!(
        HPPrinterClient::normalize_printer_url("http://host///"),
        "http://host/DevMgmt/ProductUsageDyn.xml"
    );
}

#[test]
fn normalize_is_idempotent_on_sample_inputs() {
    for input in ["192.168.1.13", "https://printer.local/", "hp-printer.local", ""] {
        let once = HPPrinterClient::normalize_printer_url(input);
        let twice = HPPrinterClient::normalize_printer_url(&once);
        assert_eq!(once, twice);
    }
}

#[test]
fn client_new_stores_endpoint_and_timeout() {
    let c = HPPrinterClient::new("http://h/DevMgmt/ProductUsageDyn.xml".to_string(), 17);
    assert_eq!(c.printer_url, "http://h/DevMgmt/ProductUsageDyn.xml");
    assert_eq!(c.timeout_seconds, 17);
}

#[test]
fn config_default_values() {
    let c = Config::default();
    assert_eq!(c.printer_url, "");
    assert_eq!(c.timeout_seconds, 30);
    assert!(c.last_updated.is_none());
}
