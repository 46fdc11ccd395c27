use escl_scan::scanner::Scanner;
use escl_scan::scannererror::ErrorCode;
use escl_scan::scannerfinder::{record_identity, ScannerFinder};
use escl_scan::structs::{
    CompressionFactorSupport, Platen, PlatenInputCaps, ScannerCapabilities, SettingProfiles,
    SharpenSupport, SupportedMediaTypes,
};

fn bare_caps() -> ScannerCapabilities {
    ScannerCapabilities {
        version: String::new(),
        make_and_model: String::new(),
        serial_number: String::new(),
        uuid: String::new(),
        admin_uri: String::new(),
        icon_uri: String::new(),
        platen: Platen {
            platen_input_caps: PlatenInputCaps {
                min_width: 0,
                max_width: 0,
                min_height: 0,
                max_height: 0,
                max_scan_regions: 0,
                setting_profiles: SettingProfiles::default(),
                max_optical_xresolution: 0,
                max_optical_yresolution: 0,
                risky_left_margin: 0,
                risky_right_margin: 0,
                risky_top_margin: 0,
                risky_bottom_margin: 0,
            },
        },
        compression_factor_support: CompressionFactorSupport::default(),
        supported_media_types: SupportedMediaTypes::default(),
        sharpen_support: SharpenSupport::default(),
    }
}

fn device(name: &str, host: &str) -> Scanner {
    Scanner::new(name, host, "eSCL", bare_caps())
}

#[test]
fn records_missing_identification_fields_are_dropped() {
    // A record missing the human-readable name is dropped silently.
    assert!(record_identity(Some("eSCL".to_string()), None).is_none());
    // A record missing the resource root is dropped silently.
    assert!(record_identity(None, Some("Office Mono".to_string())).is_none());
    assert!(record_identity(None, None).is_none());
    let (name, root) = record_identity(
        Some("eSCL".to_string()),
        Some("Office Color".to_string()),
    )
    .unwrap();
    assert_eq!(name, "Office Color");
    assert_eq!(root, "eSCL");
}

#[test]
fn discovery_accepts_well_formed_records_and_stops_on_a_match() {
    // Three concurrently delivered services: two match "Office", one has no
    // usable name record and never becomes a device.
    let mut finder = ScannerFinder::new();
    assert!(!finder.scanner_found("Office"));

    let first = record_identity(Some("eSCL".to_string()), Some("Office Color".to_string()));
    let (name, root) = first.unwrap();
    finder.add_scanner(Scanner::new(name.as_str(), "10.0.0.2", root.as_str(), bare_caps()));
    // The filter matches as soon as the first matching device arrives: the
    // browse loop may return here, before the rest are processed.
    assert!(finder.scanner_found("Office"));

    let broken = record_identity(Some("eSCL".to_string()), None);
    assert!(broken.is_none());

    finder.add_scanner(device("Office Mono", "10.0.0.3"));
    let list = finder.find_outcome(Some("Office")).unwrap();
    // Only the two well-formed devices are in the list, in arrival order.
    assert_eq!(list.len(), 2);
    assert_eq!(list[0].device_name, "Office Color");
    assert_eq!(list[1].device_name, "Office Mono");
}

#[test]
fn filter_matches_name_or_address_substring_case_sensitively() {
    let mut finder = ScannerFinder::new();
    finder.add_scanner(device("Attic MFC-L2710DW", "printer.lan"));
    assert!(finder.scanner_found("Attic"));
    assert!(finder.scanner_found("L2710"));
    // The base address also counts.
    assert!(finder.scanner_found("printer.lan"));
    // Substring matching is case-sensitive.
    assert!(!finder.scanner_found("attic"));
}

#[test]
fn exhausted_filtered_browse_is_an_error_but_unfiltered_is_not() {
    let mut finder = ScannerFinder::new();
    finder.add_scanner(device("Attic", "printer.lan"));
    let e = finder.find_outcome(Some("Cellar")).unwrap_err();
    assert!(matches!(e.code, ErrorCode::NoScannerFound));
    assert_eq!(e.message, "Cellar");

    let empty = ScannerFinder::new();
    let list = empty.find_outcome(None).unwrap();
    assert!(list.is_empty());
}
