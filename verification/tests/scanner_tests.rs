use escl_scan::scanner::{
    drive_page_loop, next_page_action, scan_job_url, PageAction, PageEvent, PageStep, Scanner,
};
use escl_scan::scannererror::ErrorCode;
use escl_scan::structs::{
    Platen, PlatenInputCaps, ScannerCapabilities, ScannerState, SettingProfiles,
    CompressionFactorSupport, SharpenSupport, SupportedMediaTypes,
};

fn bare_caps(max_width: u16, max_height: u16) -> ScannerCapabilities {
    ScannerCapabilities {
        version: "2.6".to_string(),
        make_and_model: String::new(),
        serial_number: String::new(),
        uuid: String::new(),
        admin_uri: String::new(),
        icon_uri: String::new(),
        platen: Platen {
            platen_input_caps: PlatenInputCaps {
                min_width: 16,
                max_width,
                min_height: 16,
                max_height,
                max_scan_regions: 1,
                setting_profiles: SettingProfiles::default(),
                max_optical_xresolution: 1200,
                max_optical_yresolution: 1200,
                risky_left_margin: 0,
                risky_right_margin: 0,
                risky_top_margin: 0,
                risky_bottom_margin: 0,
            },
        },
        compression_factor_support: CompressionFactorSupport::default(),
        supported_media_types: SupportedMediaTypes::default(),
        sharpen_support: SharpenSupport::default(),
    }
}

fn scanner() -> Scanner {
    Scanner::new("Office Printer", "192.168.0.9", "eSCL", bare_caps(2550, 3507))
}

#[test]
fn base_url_is_plain_http_on_the_default_port() {
    assert_eq!(Scanner::make_base_url("192.168.0.9", "eSCL"), "http://192.168.0.9:80/eSCL");
    assert_eq!(scanner().base_url, "http://192.168.0.9:80/eSCL");
}

#[test]
fn default_settings_cover_the_full_platen() {
    let s = scanner();
    let settings = s.make_settings();
    assert_eq!(settings.version, "2.6");
    assert_eq!(settings.scan_regions.x_offset, 0);
    assert_eq!(settings.scan_regions.y_offset, 0);
    assert_eq!(settings.scan_regions.width, 2550);
    assert_eq!(settings.scan_regions.height, 3507);
    assert_eq!(settings.content_type, "Auto");
    assert_eq!(settings.input_source, "Platen");
    assert_eq!(settings.color_mode, "RGB24");
    assert_eq!(settings.document_format, "image/jpeg");
    assert_eq!(settings.feed_direction, "ShortEdgeFeed");
    assert_eq!(settings.x_resolution, 300);
    assert_eq!(settings.y_resolution, 300);
}

#[test]
fn readiness_requires_idle_and_color_modes() {
    let s = scanner();
    // No color modes advertised: blocked even when idle.
    let blocked = s.check_ready(ScannerState::Idle);
    assert!(blocked.is_err());
    assert!(matches!(blocked.unwrap_err().code, ErrorCode::ScannerNotReady));
    let busy = s.check_ready(ScannerState::Processing);
    assert!(matches!(busy.unwrap_err().code, ErrorCode::ScannerNotReady));
}

#[test]
fn submission_error_status_is_a_network_failure() {
    let r = scan_job_url(true, "409 Conflict", "busy", Some("http://host/job/1"), "resp");
    let e = r.unwrap_err();
    assert!(matches!(e.code, ErrorCode::NetworkError));
    assert_eq!(e.message, "Status Code: 409 Conflict, Text: busy");
}

#[test]
fn submission_without_location_is_a_protocol_failure() {
    let r = scan_job_url(false, "201 Created", "", None, "response dump");
    let e = r.unwrap_err();
    assert!(matches!(e.code, ErrorCode::ProtocolError));
    assert_eq!(
        e.message,
        "Failed to get 'location' header from response:\nresponse dump"
    );
}

#[test]
fn submission_success_yields_the_page_fetch_address() {
    let r = scan_job_url(false, "201 Created", "", Some("http://host/eSCL/ScanJobs/1"), "");
    assert_eq!(r.unwrap(), "http://host/eSCL/ScanJobs/1/NextDocument");
}

#[test]
fn page_file_names_number_the_later_pages() {
    let s = scanner();
    // Page 1: the destination is free.
    let taken: Vec<String> = vec![];
    assert_eq!(s.make_jpg_file_name("scan.jpg", 1, &taken).unwrap(), "scan.jpg");
    // Page 2: the destination is taken, insert the page number.
    let taken = vec!["scan.jpg".to_string()];
    assert_eq!(s.make_jpg_file_name("scan.jpg", 2, &taken).unwrap(), "scan_2.jpg");
    // Page 3 of the same session.
    let taken = vec!["scan.jpg".to_string(), "scan_2.jpg".to_string()];
    assert_eq!(s.make_jpg_file_name("scan.jpg", 3, &taken).unwrap(), "scan_3.jpg");
}

#[test]
fn page_file_name_falls_back_when_the_numbered_name_exists() {
    let s = scanner();
    // scan_2.jpg existed before the session started.
    let taken = vec!["scan.jpg".to_string(), "scan_2.jpg".to_string()];
    assert_eq!(s.make_jpg_file_name("scan.jpg", 2, &taken).unwrap(), "scan_2_1.jpg");
    // And the first fallback may be taken too.
    let taken = vec![
        "scan.jpg".to_string(),
        "scan_2.jpg".to_string(),
        "scan_2_1.jpg".to_string(),
    ];
    assert_eq!(s.make_jpg_file_name("scan.jpg", 2, &taken).unwrap(), "scan_2_2.jpg");
}

#[test]
fn destination_without_extension_cannot_be_numbered() {
    let s = scanner();
    let taken = vec!["scan".to_string()];
    let e = s.make_jpg_file_name("scan", 2, &taken).unwrap_err();
    assert!(matches!(e.code, ErrorCode::NoFileExtension));
    assert_eq!(e.message, "scan");
}

#[test]
fn pdf_pages_merge_and_image_pages_get_numbered_names() {
    let s = scanner();
    let mut settings = s.make_settings();
    settings.document_format = "application/pdf".to_string();
    let taken: Vec<String> = vec![];
    assert!(matches!(
        s.process_scanned_page(&settings, false, "out.pdf", 1, &taken).unwrap(),
        PageAction::ReplaceOutput
    ));
    assert!(matches!(
        s.process_scanned_page(&settings, true, "out.pdf", 2, &taken).unwrap(),
        PageAction::MergeIntoOutput
    ));
    settings.document_format = "image/jpeg".to_string();
    match s.process_scanned_page(&settings, true, "scan.jpg", 2, &taken).unwrap() {
        PageAction::StoreAs(name) => assert_eq!(name, "scan.jpg"),
        other => panic!("expected StoreAs, got {other:?}"),
    }
}

#[test]
fn page_loop_steps_follow_the_termination_heuristic() {
    assert!(matches!(next_page_action(1, PageEvent::Assembled), PageStep::Continue));
    assert!(matches!(next_page_action(2, PageEvent::NoSuchPage), PageStep::Done));
    match next_page_action(1, PageEvent::NoSuchPage) {
        PageStep::Fail(e) => assert!(matches!(e.code, ErrorCode::NoMorePages)),
        other => panic!("expected Fail, got {other:?}"),
    }
}

#[test]
fn page_loop_assembles_each_served_page_then_stops_at_not_found() {
    // The device serves pages 1..=3 and answers "not found" on page 4.
    let events = vec![
        PageEvent::Assembled,
        PageEvent::Assembled,
        PageEvent::Assembled,
        PageEvent::NoSuchPage,
    ];
    assert_eq!(drive_page_loop(events).unwrap(), 3);
}

#[test]
fn page_loop_fails_when_the_very_first_page_is_missing() {
    let events = vec![PageEvent::NoSuchPage];
    let e = drive_page_loop(events).unwrap_err();
    assert!(matches!(e.code, ErrorCode::NoMorePages));
}

#[test]
fn page_loop_propagates_a_transfer_failure() {
    let events = vec![
        PageEvent::Assembled,
        PageEvent::Failed(escl_scan::scannererror::ScannerError {
            code: ErrorCode::NetworkError,
            message: "connection reset".to_string(),
        }),
    ];
    let e = drive_page_loop(events).unwrap_err();
    assert!(matches!(e.code, ErrorCode::NetworkError));
    assert_eq!(e.message, "connection reset");
}
