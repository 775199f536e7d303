use hexyl::Byte;
use hexyl::ByteCategory;
use hexyl::ColorType;

#[test]
fn classification_is_total_and_deterministic() {
    for i in 0..=255u8 {
        let first = (Byte(i).category(), Byte(i).color(), Byte(i).as_char());
        let second = (Byte(i).category(), Byte(i).color(), Byte(i).as_char());
        assert_eq!(first, second);
    }
}

#[test]
fn classification_follows_priority_order() {
    assert_eq!(Byte(0x00).category(), ByteCategory::Null);
    assert_eq!(Byte(b'a').category(), ByteCategory::AsciiPrintable);
    assert_eq!(Byte(b'0').category(), ByteCategory::AsciiPrintable);
    assert_eq!(Byte(b'!').category(), ByteCategory::AsciiPrintable);
    assert_eq!(Byte(b'~').category(), ByteCategory::AsciiPrintable);
    assert_eq!(Byte(0x20).category(), ByteCategory::AsciiWhitespace);
    assert_eq!(Byte(0x09).category(), ByteCategory::AsciiWhitespace);
    assert_eq!(Byte(0x0a).category(), ByteCategory::AsciiWhitespace);
    assert_eq!(Byte(0x0c).category(), ByteCategory::AsciiWhitespace);
    assert_eq!(Byte(0x0d).category(), ByteCategory::AsciiWhitespace);
    assert_eq!(Byte(0x01).category(), ByteCategory::AsciiOther);
    assert_eq!(Byte(0x0b).category(), ByteCategory::AsciiOther);
    assert_eq!(Byte(0x7f).category(), ByteCategory::AsciiOther);
    assert_eq!(Byte(0x80).category(), ByteCategory::NonAscii);
    assert_eq!(Byte(0xff).category(), ByteCategory::NonAscii);
}

#[test]
fn display_characters() {
    assert_eq!(Byte(0x00).as_char(), '0');
    assert_eq!(Byte(b'Q').as_char(), 'Q');
    assert_eq!(Byte(0x20).as_char(), ' ');
    assert_eq!(Byte(0x0a).as_char(), '_');
    assert_eq!(Byte(0x07).as_char(), '\u{2022}');
    assert_eq!(Byte(0xc3).as_char(), '\u{00d7}');
}

#[test]
fn colors_per_category() {
    assert_eq!(Byte(0x00).color(), ColorType::Null);
    assert_eq!(Byte(b'a').color(), ColorType::AsciiPrintable);
    assert_eq!(Byte(0x20).color(), ColorType::AsciiWhitespace);
    assert_eq!(Byte(0x07).color(), ColorType::AsciiOther);
    assert_eq!(Byte(0xff).color(), ColorType::NonAscii);
}

#[test]
fn ansi_escape_bytes_are_the_fixed_palette() {
    assert_eq!(ColorType::Null.ansi_bytes(), b"\x1b[38;2;108;108;108m".to_vec());
    assert_eq!(ColorType::Offset.ansi_bytes(), b"\x1b[38;2;108;108;108m".to_vec());
    assert_eq!(ColorType::AsciiPrintable.ansi_bytes(), b"\x1b[36m".to_vec());
    assert_eq!(ColorType::AsciiWhitespace.ansi_bytes(), b"\x1b[32m".to_vec());
    assert_eq!(ColorType::AsciiOther.ansi_bytes(), b"\x1b[35m".to_vec());
    assert_eq!(ColorType::NonAscii.ansi_bytes(), b"\x1b[33m".to_vec());
    assert_eq!(ColorType::Reset.ansi_bytes(), b"\x1b[39m".to_vec());
}
