use may_minihttp::text::{contains_ignore_ascii_case, eq_ignore_ascii_case, lenient_text};

#[test]
fn case_of_ascii_letters_does_not_count() {
    assert!(eq_ignore_ascii_case(b"Sec-WebSocket-Key", b"sec-websocket-KEY"));
    assert!(eq_ignore_ascii_case(b"", b""));
    assert!(!eq_ignore_ascii_case(b"upgrade", b"upgrades"));
    assert!(!eq_ignore_ascii_case(b"upgrade", b"upgrad1"));
    assert!(!eq_ignore_ascii_case(b"[", b"{"));
    assert!(!eq_ignore_ascii_case(b"@", b"`"));
    assert!(!eq_ignore_ascii_case(&[0xC4], &[0xE4]));
}

#[test]
fn a_needle_is_found_anywhere() {
    assert!(contains_ignore_ascii_case(b"keep-alive, Upgrade", b"upgrade"));
    assert!(contains_ignore_ascii_case(b"UPGRADE, close", b"upgrade"));
    assert!(contains_ignore_ascii_case(b"xxupgradexx", b"upgrade"));
    assert!(!contains_ignore_ascii_case(b"upgrad", b"upgrade"));
    assert!(!contains_ignore_ascii_case(b"keep-alive", b"upgrade"));
    assert!(!contains_ignore_ascii_case(b"", b"upgrade"));
}

#[test]
fn bytes_that_are_not_utf8_read_as_no_text() {
    assert_eq!(lenient_text("gr\u{fc}\u{df}e".as_bytes()), "gr\u{fc}\u{df}e");
    assert_eq!(lenient_text(b""), "");
    assert_eq!(lenient_text(&[b'o', b'k', 0xFF]), "");
    assert_eq!(lenient_text(&[0xC3]), "");
    assert_eq!(lenient_text(&[0xED, 0xA0, 0x80]), "");
}
