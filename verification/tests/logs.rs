use rustployd::logs::{log_text, published_text};

#[test]
fn log_chunks_lose_trailing_newlines() {
    assert_eq!(log_text(b"hello\n\n"), Some("hello".to_string()));
    assert_eq!(log_text(b"a\nb\n"), Some("a\nb".to_string()));
    assert_eq!(log_text(b"  x  "), Some("  x  ".to_string()));
    assert_eq!(log_text(b"\n"), None);
    assert_eq!(log_text(b""), None);
    assert_eq!(log_text(&[0xff, b'\n']), Some("\u{FFFD}".to_string()));
    assert_eq!(published_text("ok\n"), Some("ok".to_string()));
    assert_eq!(published_text("\n\n"), None);
}
