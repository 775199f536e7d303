//! The frame around the display: a header line above the first row, a
//! footer line below the last, and the column separator glyphs used inside
//! every row. All glyphs are fixed per border style.

use vstd::prelude::*;

use crate::hexfmt::repeat_spec;

verus! {

/// The choice of frame glyphs: Unicode box drawing, plain ASCII, or no
/// frame at all.
#[derive(Debug, Clone, Copy, PartialEq, Eq, Structural)]
pub enum BorderStyle {
    Unicode,
    Ascii,
    NoBorder,
}

/// The four glyphs a frame line is built from, each as its UTF-8 bytes.
pub struct BorderElements {
    pub left_corner: Vec<u8>,
    pub horizontal_line: Vec<u8>,
    pub column_separator: Vec<u8>,
    pub right_corner: Vec<u8>,
}

/// A full frame line: corners and separators joined by horizontal rules of
/// 8, 25, 25, 8 and 8 glyphs, closed by a newline.
pub open spec fn frame_seq(left: Seq<u8>, h: Seq<u8>, col: Seq<u8>, right: Seq<u8>) -> Seq<u8> {
    left + repeat_spec(h, 8) + col + repeat_spec(h, 25) + col + repeat_spec(h, 25) + col
        + repeat_spec(h, 8) + col + repeat_spec(h, 8) + right + seq![0x0au8]
}

/// The glyphs of the header line, per style, as (left corner,
/// horizontal rule, column separator, right corner).
pub open spec fn header_glyphs_seq(s: BorderStyle) -> (Seq<u8>, Seq<u8>, Seq<u8>, Seq<u8>) {
    match s {
        BorderStyle::Unicode => (
            seq![0xe2u8, 0x94, 0x8c],
            seq![0xe2u8, 0x94, 0x80],
            seq![0xe2u8, 0x94, 0xac],
            seq![0xe2u8, 0x94, 0x90],
        ),
        BorderStyle::Ascii => (seq![0x2bu8], seq![0x2du8], seq![0x2bu8], seq![0x2bu8]),
        BorderStyle::NoBorder => (Seq::empty(), Seq::empty(), Seq::empty(), Seq::empty()),
    }
}

/// The glyphs of the footer line, per style, in the same order.
pub open spec fn footer_glyphs_seq(s: BorderStyle) -> (Seq<u8>, Seq<u8>, Seq<u8>, Seq<u8>) {
    match s {
        BorderStyle::Unicode => (
            seq![0xe2u8, 0x94, 0x94],
            seq![0xe2u8, 0x94, 0x80],
            seq![0xe2u8, 0x94, 0xb4],
            seq![0xe2u8, 0x94, 0x98],
        ),
        BorderStyle::Ascii => (seq![0x2bu8], seq![0x2du8], seq![0x2bu8], seq![0x2bu8]),
        BorderStyle::NoBorder => (Seq::empty(), Seq::empty(), Seq::empty(), Seq::empty()),
    }
}

/// The header line of each style; empty when there is no frame.
pub open spec fn header_frame_seq(s: BorderStyle) -> Seq<u8> {
    match s {
        BorderStyle::NoBorder => Seq::empty(),
        _ => frame_seq(
            header_glyphs_seq(s).0,
            header_glyphs_seq(s).1,
            header_glyphs_seq(s).2,
            header_glyphs_seq(s).3,
        ),
    }
}

/// The footer line of each style; empty when there is no frame.
pub open spec fn footer_frame_seq(s: BorderStyle) -> Seq<u8> {
    match s {
        BorderStyle::NoBorder => Seq::empty(),
        _ => frame_seq(
            footer_glyphs_seq(s).0,
            footer_glyphs_seq(s).1,
            footer_glyphs_seq(s).2,
            footer_glyphs_seq(s).3,
        ),
    }
}

/// The separator drawn at the outer edges of each row.
pub open spec fn outer_sep_seq(s: BorderStyle) -> Seq<u8> {
    match s {
        BorderStyle::Unicode => seq![0xe2u8, 0x94, 0x82],
        BorderStyle::Ascii => seq![0x7cu8],
        BorderStyle::NoBorder => seq![0x20u8],
    }
}

/// The separator drawn between the two 8-byte groups of each row.
pub open spec fn inner_sep_seq(s: BorderStyle) -> Seq<u8> {
    match s {
        BorderStyle::Unicode => seq![0xe2u8, 0x94, 0x8a],
        BorderStyle::Ascii => seq![0x7cu8],
        BorderStyle::NoBorder => seq![0x20u8],
    }
}

impl BorderStyle {
    /// The glyphs of the header line, or `None` when there is no frame.
    pub fn header_elems(&self) -> (r: Option<BorderElements>)
        ensures
            match r {
                Some(e) => {
                    &&& *self != BorderStyle::NoBorder
                    &&& e.left_corner@ == header_glyphs_seq(*self).0
                    &&& e.horizontal_line@ == header_glyphs_seq(*self).1
                    &&& e.column_separator@ == header_glyphs_seq(*self).2
                    &&& e.right_corner@ == header_glyphs_seq(*self).3
                },
                None => *self == BorderStyle::NoBorder,
            },
    {
        match self {
            BorderStyle::Unicode => {
                let e = BorderElements {
                    left_corner: vec![0xe2, 0x94, 0x8c],
                    horizontal_line: vec![0xe2, 0x94, 0x80],
                    column_separator: vec![0xe2, 0x94, 0xac],
                    right_corner: vec![0xe2, 0x94, 0x90],
                };
                proof {
                    assert(e.left_corner@ =~= seq![0xe2u8, 0x94, 0x8c]);
                    assert(e.horizontal_line@ =~= seq![0xe2u8, 0x94, 0x80]);
                    assert(e.column_separator@ =~= seq![0xe2u8, 0x94, 0xac]);
                    assert(e.right_corner@ =~= seq![0xe2u8, 0x94, 0x90]);
                }
                Some(e)
            },
            BorderStyle::Ascii => {
                let e = BorderElements {
                    left_corner: vec![0x2b],
                    horizontal_line: vec![0x2d],
                    column_separator: vec![0x2b],
                    right_corner: vec![0x2b],
                };
                proof {
                    assert(e.left_corner@ =~= seq![0x2bu8]);
                    assert(e.horizontal_line@ =~= seq![0x2du8]);
                    assert(e.column_separator@ =~= seq![0x2bu8]);
                    assert(e.right_corner@ =~= seq![0x2bu8]);
                }
                Some(e)
            },
            BorderStyle::NoBorder => None,
        }
    }


    /// The glyphs of the footer line, or `None` when there is no frame.
    pub fn footer_elems(&self) -> (r: Option<BorderElements>)
        ensures
            match r {
                Some(e) => {
                    &&& *self != BorderStyle::NoBorder
                    &&& e.left_corner@ == footer_glyphs_seq(*self).0
                    &&& e.horizontal_line@ == footer_glyphs_seq(*self).1
                    &&& e.column_separator@ == footer_glyphs_seq(*self).2
                    &&& e.right_corner@ == footer_glyphs_seq(*self).3
                },
                None => *self == BorderStyle::NoBorder,
            },
    {
        match self {
            BorderStyle::Unicode => {
                let e = BorderElements {
                    left_corner: vec![0xe2, 0x94, 0x94],
                    horizontal_line: vec![0xe2, 0x94, 0x80],
                    column_separator: vec![0xe2, 0x94, 0xb4],
                    right_corner: vec![0xe2, 0x94, 0x98],
                };
                proof {
                    assert(e.left_corner@ =~= seq![0xe2u8, 0x94, 0x94]);
                    assert(e.horizontal_line@ =~= seq![0xe2u8, 0x94, 0x80]);
                    assert(e.column_separator@ =~= seq![0xe2u8, 0x94, 0xb4]);
                    assert(e.right_corner@ =~= seq![0xe2u8, 0x94, 0x98]);
                }
                Some(e)
            },
            BorderStyle::Ascii => {
                let e = BorderElements {
                    left_corner: vec![0x2b],
                    horizontal_line: vec![0x2d],
                    column_separator: vec![0x2b],
                    right_corner: vec![0x2b],
                };
                proof {
                    assert(e.left_corner@ =~= seq![0x2bu8]);
                    assert(e.horizontal_line@ =~= seq![0x2du8]);
                    assert(e.column_separator@ =~= seq![0x2bu8]);
                    assert(e.right_corner@ =~= seq![0x2bu8]);
                }
                Some(e)
            },
            BorderStyle::NoBorder => None,
        }
    }


    /// The outer column separator of this style.
    pub fn outer_sep(&self) -> (r: Vec<u8>)
        ensures
            r@ == outer_sep_seq(*self),
    {
        match self {
            BorderStyle::Unicode => vec![0xe2, 0x94, 0x82],
            BorderStyle::Ascii => vec![0x7c],
            BorderStyle::NoBorder => vec![0x20],
        }
    }

    /// The inner column separator of this style.
    pub fn inner_sep(&self) -> (r: Vec<u8>)
        ensures
            r@ == inner_sep_seq(*self),
    {
        match self {
            BorderStyle::Unicode => vec![0xe2, 0x94, 0x8a],
            BorderStyle::Ascii => vec![0x7c],
            BorderStyle::NoBorder => vec![0x20],
        }
    }
}

} // verus!
