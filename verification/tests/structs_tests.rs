use escl_scan::structs::{
    ColorMode, ColorModes, Platen, PlatenInputCaps, ScanRegion, ScannerCapabilities,
    ScannerState, SettingProfile, SettingProfiles, SharpenSupport, SupportedMediaTypes,
    CompressionFactorSupport, FeedDirection,
};

fn caps_with_modes(modes: Vec<&str>) -> ScannerCapabilities {
    ScannerCapabilities {
        version: String::new(),
        make_and_model: String::new(),
        serial_number: String::new(),
        uuid: String::new(),
        admin_uri: String::new(),
        icon_uri: String::new(),
        platen: Platen {
            platen_input_caps: PlatenInputCaps {
                min_width: 0,
                max_width: 2550,
                min_height: 0,
                max_height: 3507,
                max_scan_regions: 1,
                setting_profiles: SettingProfiles {
                    entries: vec![SettingProfile {
                        color_modes: ColorModes {
                            entries: modes
                                .into_iter()
                                .map(|m| ColorMode { mode_name: m.to_string() })
                                .collect(),
                        },
                    }],
                },
                max_optical_xresolution: 1200,
                max_optical_yresolution: 1200,
                risky_left_margin: 0,
                risky_right_margin: 0,
                risky_top_margin: 0,
                risky_bottom_margin: 0,
            },
        },
        compression_factor_support: CompressionFactorSupport::default(),
        supported_media_types: SupportedMediaTypes::default(),
        sharpen_support: SharpenSupport::default(),
    }
}

#[test]
fn state_decodes_known_wire_values() {
    assert_eq!(ScannerState::from_wire("Idle"), ScannerState::Idle);
    assert_eq!(ScannerState::from_wire("Processing"), ScannerState::Processing);
    assert_eq!(ScannerState::from_wire("Testing"), ScannerState::Testing);
    assert_eq!(ScannerState::from_wire("Stopped"), ScannerState::Stopped);
}

#[test]
fn state_decodes_unrecognized_values_as_down() {
    assert_eq!(ScannerState::from_wire("Down"), ScannerState::Down);
    assert_eq!(ScannerState::from_wire(""), ScannerState::Down);
    assert_eq!(ScannerState::from_wire("idle"), ScannerState::Down);
    assert_eq!(ScannerState::from_wire("Sleeping"), ScannerState::Down);
}

#[test]
fn state_wire_names_round_trip() {
    for state in [
        ScannerState::Idle,
        ScannerState::Processing,
        ScannerState::Testing,
        ScannerState::Stopped,
        ScannerState::Down,
    ] {
        assert_eq!(ScannerState::from_wire(state.wire_name().as_str()), state);
    }
}

#[test]
fn state_default_is_down() {
    assert_eq!(ScannerState::default(), ScannerState::Down);
}

#[test]
fn default_capabilities_decode_to_zero_and_ordered_bounds() {
    let caps = PlatenInputCaps::default();
    assert_eq!(caps.min_width, 0);
    assert_eq!(caps.max_width, 0);
    assert_eq!(caps.min_height, 0);
    assert_eq!(caps.max_height, 0);
    assert_eq!(caps.setting_profiles.entries.len(), 0);
    assert!(caps.bounds_ok());
}

#[test]
fn bounds_ok_rejects_inverted_bounds() {
    let mut caps = PlatenInputCaps::default();
    caps.min_width = 100;
    caps.max_width = 50;
    assert!(!caps.bounds_ok());
    caps.max_width = 100;
    assert!(caps.bounds_ok());
}

#[test]
fn color_modes_decide_scannability() {
    assert!(caps_with_modes(vec!["BlackAndWhite1", "Grayscale8", "RGB24"]).has_color_modes());
    assert!(!caps_with_modes(vec![]).has_color_modes());
}

#[test]
fn region_from_a4_portrait_matches_fixed_point_conversion() {
    let region = ScanRegion::a4_portrait();
    assert_eq!(region.x_offset, 0);
    assert_eq!(region.y_offset, 0);
    // 210 mm and 297 mm at 11.811 units per millimetre, rounded down.
    assert_eq!(region.width, 2480);
    assert_eq!(region.height, 3507);
    assert_eq!(region.content_region_units, "escl:ThreeHundredthsOfInches");
    // Within one unit of the exact products 2480.31 and 3507.867.
    assert!((region.width as i64 * 1000 - 210 * 11811).abs() < 1000);
    assert!((region.height as i64 * 1000 - 297 * 11811).abs() < 1000);
}

#[test]
fn region_presets_cover_the_supported_paper_sizes() {
    let a5p = ScanRegion::a5_portrait();
    assert_eq!((a5p.width, a5p.height), (1748, 2480));
    let a5l = ScanRegion::a5_landscape();
    assert_eq!((a5l.width, a5l.height), (2480, 1748));
    let letter = ScanRegion::us_letter_portrait();
    assert_eq!((letter.width, letter.height), (2551, 3295));
}

#[test]
fn feed_direction_wire_names() {
    assert_eq!(FeedDirection::ShortEdgeFeed.wire_name(), "ShortEdgeFeed");
    assert_eq!(FeedDirection::LongEdgeFeed.wire_name(), "LongEdgeFeed");
    assert_eq!(FeedDirection::default(), FeedDirection::ShortEdgeFeed);
}
