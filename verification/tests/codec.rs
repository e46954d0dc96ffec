use power_rename_gui::codec::{can_decode, decode_text, export_bytes};

#[test]
fn export_begins_with_the_byte_order_mark() {
    assert_eq!(export_bytes(""), vec![0xEF, 0xBB, 0xBF]);
    assert_eq!(export_bytes("a中"), vec![0xEF, 0xBB, 0xBF, b'a', 0xE4, 0xB8, 0xAD]);
}

#[test]
fn export_is_read_back() {
    for s in ["", "old,new\r\n甲.txt,乙.txt\n", "\u{feff}x", "😀"] {
        assert_eq!(decode_text(&export_bytes(s)), s);
    }
}

#[test]
fn utf8_without_a_mark_is_read() {
    for s in ["", "plain", "中文,清单"] {
        assert_eq!(decode_text(s.as_bytes()), s);
    }
}

#[test]
fn a_leading_mark_character_is_taken_for_the_mark() {
    assert_eq!(decode_text("\u{feff}x".as_bytes()), "x");
}

#[test]
fn malformed_bytes_behind_a_mark_are_replaced() {
    assert_eq!(decode_text(&[0xEF, 0xBB, 0xBF, b'a', 0xFF, b'b']), "a\u{fffd}b");
}

#[test]
fn other_bytes_are_read_as_gbk() {
    assert_eq!(decode_text(&[0xD6, 0xD0, 0xCE, 0xC4, b'.', b't', b'x', b't']), "中文.txt");
    assert_eq!(decode_text(&[0xD6, 0xD0, 0xFF]), "中\u{fffd}");
}

#[test]
fn a_utf16_mark_is_no_reason_to_leave_gbk() {
    assert_eq!(decode_text(&[0xFF, 0xFE, 0x2D, 0x4E, b'a', 0]), "\u{fffd}\u{fffd}-Na\0");
    assert_eq!(decode_text(&[0xFE, 0xFF, 0xD6, 0xD0]), "\u{fffd}中");
}

#[test]
fn short_files_can_be_decoded() {
    for raw in [&b"plain"[..], &[0xEF, 0xBB, 0xBF, 0xFF], &[0xD6, 0xD0, 0xFF], &[]] {
        assert!(can_decode(raw));
    }
}
