use track2line::label::{clipped_trimmed, dec_string, derive_label, is_space, placeholder, trim};

#[test]
fn trim_removes_surrounding_white_space() {
    assert_eq!(trim("  a b \n"), "a b");
    assert_eq!(trim("a"), "a");
    assert_eq!(trim("   "), "");
    assert_eq!(trim(""), "");
    assert_eq!(trim("\u{3000}wide\u{3000}"), "wide");
}

#[test]
fn clipped_trimmed_keeps_twenty_characters() {
    assert_eq!(
        clipped_trimmed("This is a very long transcript line"),
        "This is a very long"
    );
    assert_eq!(clipped_trimmed("  short  "), "short");
    assert_eq!(clipped_trimmed("                      x"), "");
}

#[test]
fn placeholder_carries_the_counter() {
    assert_eq!(placeholder(0), "empty_0");
    assert_eq!(placeholder(9), "empty_9");
    assert_eq!(placeholder(123), "empty_123");
}

#[test]
fn dec_string_renders_decimal() {
    assert_eq!(dec_string(0), "0");
    assert_eq!(dec_string(907), "907");
    assert_eq!(dec_string(1000000), "1000000");
}

#[test]
fn derive_label_prefers_content() {
    assert_eq!(
        derive_label(&Some(" x ".to_string()), 0),
        ("x".to_string(), false)
    );
}

#[test]
fn derive_label_falls_back_to_placeholder() {
    assert_eq!(derive_label(&None, 5), ("empty_5".to_string(), true));
    assert_eq!(
        derive_label(&Some("  ".to_string()), 2),
        ("empty_2".to_string(), true)
    );
}

#[test]
fn is_space_covers_unicode_white_space() {
    assert!(is_space(' '));
    assert!(is_space('\t'));
    assert!(is_space('\n'));
    assert!(is_space('\u{3000}'));
    assert!(!is_space('a'));
    assert!(!is_space('_'));
}
