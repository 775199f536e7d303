//! Classification of a single byte: its category, its display color and the
//! character shown for it in the text column. All three are pure, total
//! functions over the whole `0..=255` domain.

use vstd::prelude::*;

use crate::colors::ColorType;

verus! {

/// The category of a byte, decided in priority order: the null byte, then
/// printable ASCII, then ASCII whitespace, then the remaining ASCII control
/// bytes, then everything with the high bit set.
#[derive(Debug, Clone, Copy, PartialEq, Eq, Structural)]
pub enum ByteCategory {
    Null,
    AsciiPrintable,
    AsciiWhitespace,
    AsciiOther,
    NonAscii,
}

/// A single input byte, carrying its classification methods.
#[derive(Debug, Clone, Copy, PartialEq, Eq, Structural)]
pub struct Byte(pub u8);

/// Graphic ASCII: the visible characters `'!'` through `'~'`.
pub open spec fn is_printable_spec(b: u8) -> bool {
    0x21 <= b <= 0x7e
}

/// ASCII whitespace: space, tab, line feed, form feed, carriage return.
pub open spec fn is_whitespace_spec(b: u8) -> bool {
    b == 0x20 || b == 0x09 || b == 0x0a || b == 0x0c || b == 0x0d
}

/// The category assigned to each byte.
pub open spec fn category_spec(b: u8) -> ByteCategory {
    if b == 0 {
        ByteCategory::Null
    } else if is_printable_spec(b) {
        ByteCategory::AsciiPrintable
    } else if is_whitespace_spec(b) {
        ByteCategory::AsciiWhitespace
    } else if b < 0x80 {
        ByteCategory::AsciiOther
    } else {
        ByteCategory::NonAscii
    }
}

/// The color class assigned to each byte: one fixed color per category.
pub open spec fn color_spec(b: u8) -> ColorType {
    match category_spec(b) {
        ByteCategory::Null => ColorType::Null,
        ByteCategory::AsciiPrintable => ColorType::AsciiPrintable,
        ByteCategory::AsciiWhitespace => ColorType::AsciiWhitespace,
        ByteCategory::AsciiOther => ColorType::AsciiOther,
        ByteCategory::NonAscii => ColorType::NonAscii,
    }
}

/// The character shown in the text column: `'0'` for the null byte, the
/// byte's own character when printable, a space only for a true space,
/// `'_'` for the other whitespace bytes, a bullet for the remaining ASCII
/// bytes and a multiplication sign for non-ASCII bytes.
pub open spec fn char_spec(b: u8) -> char {
    match category_spec(b) {
        ByteCategory::Null => '0',
        ByteCategory::AsciiPrintable => b as char,
        ByteCategory::AsciiWhitespace => if b == 0x20 {
            ' '
        } else {
            '_'
        },
        ByteCategory::AsciiOther => '\u{2022}',
        ByteCategory::NonAscii => '\u{00d7}',
    }
}

/// The UTF-8 bytes of `char_spec(b)`, as the text column writes them.
pub open spec fn char_bytes_spec(b: u8) -> Seq<u8> {
    match category_spec(b) {
        ByteCategory::Null => seq![0x30u8],
        ByteCategory::AsciiPrintable => seq![b],
        ByteCategory::AsciiWhitespace => if b == 0x20 {
            seq![0x20u8]
        } else {
            seq![0x5fu8]
        },
        ByteCategory::AsciiOther => seq![0xe2u8, 0x80, 0xa2],
        ByteCategory::NonAscii => seq![0xc3u8, 0x97],
    }
}

impl Byte {
    /// The category of this byte.
    pub fn category(self) -> (r: ByteCategory)
        ensures
            r == category_spec(self.0),
    {
        if self.0 == 0x00 {
            ByteCategory::Null
        } else if 0x21 <= self.0 && self.0 <= 0x7e {
            ByteCategory::AsciiPrintable
        } else if self.0 == 0x20 || self.0 == 0x09 || self.0 == 0x0a || self.0 == 0x0c
            || self.0 == 0x0d {
            ByteCategory::AsciiWhitespace
        } else if self.0 < 0x80 {
            ByteCategory::AsciiOther
        } else {
            ByteCategory::NonAscii
        }
    }

    /// The color class of this byte.
    pub fn color(self) -> (r: ColorType)
        ensures
            r == color_spec(self.0),
    {
        match self.category() {
            ByteCategory::Null => ColorType::Null,
            ByteCategory::AsciiPrintable => ColorType::AsciiPrintable,
            ByteCategory::AsciiWhitespace => ColorType::AsciiWhitespace,
            ByteCategory::AsciiOther => ColorType::AsciiOther,
            ByteCategory::NonAscii => ColorType::NonAscii,
        }
    }

    /// The character shown for this byte in the text column.
    pub fn as_char(self) -> (r: char)
        ensures
            r == char_spec(self.0),
    {
        match self.category() {
            ByteCategory::Null => '0',
            ByteCategory::AsciiPrintable => self.0 as char,
            ByteCategory::AsciiWhitespace => if self.0 == 0x20 {
                ' '
            } else {
                '_'
            },
            ByteCategory::AsciiOther => '\u{2022}',
            ByteCategory::NonAscii => '\u{00d7}',
        }
    }

    /// The UTF-8 bytes of `as_char`, appended to `out`.
    pub fn push_char_bytes(self, out: &mut Vec<u8>)
        ensures
            final(out)@ == old(out)@ + char_bytes_spec(self.0),
    {
        match self.category() {
            ByteCategory::Null => {
                out.push(0x30);
            },
            ByteCategory::AsciiPrintable => {
                out.push(self.0);
            },
            ByteCategory::AsciiWhitespace => {
                if self.0 == 0x20 {
                    out.push(0x20);
                } else {
                    out.push(0x5f);
                }
            },
            ByteCategory::AsciiOther => {
                out.push(0xe2);
                out.push(0x80);
                out.push(0xa2);
            },
            ByteCategory::NonAscii => {
                out.push(0xc3);
                out.push(0x97);
            },
        }
        assert(out@ =~= old(out)@ + char_bytes_spec(self.0));
    }
}

} // verus!
