use escl_scan::strutil::{rfind_dot, str_contains, str_eq, u32_to_string};

#[test]
fn string_equality_compares_characters() {
    assert!(str_eq("Idle", "Idle"));
    assert!(!str_eq("Idle", "idle"));
    assert!(!str_eq("Idle", "Idl"));
    assert!(str_eq("", ""));
}

#[test]
fn substring_search_finds_needles_anywhere() {
    assert!(str_contains("application/pdf", "pdf"));
    assert!(str_contains("pdf", "pdf"));
    assert!(str_contains("image/jpeg", ""));
    assert!(!str_contains("image/jpeg", "pdf"));
    assert!(!str_contains("pd", "pdf"));
}

#[test]
fn the_last_dot_marks_the_extension() {
    assert_eq!(rfind_dot("scan.jpg"), Some(4));
    assert_eq!(rfind_dot("archive.tar.gz"), Some(11));
    assert_eq!(rfind_dot("scan"), None);
    assert_eq!(rfind_dot(""), None);
}

#[test]
fn page_numbers_render_as_decimal_text() {
    assert_eq!(u32_to_string(0), "0");
    assert_eq!(u32_to_string(7), "7");
    assert_eq!(u32_to_string(12), "12");
    assert_eq!(u32_to_string(65535), "65535");
}
