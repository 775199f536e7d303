//! The fixed palette used when output is colorized: one ANSI foreground
//! escape sequence per color class, taken from the `owo_colors` palette.

use vstd::prelude::*;

verus! {

/// A color class of the display: one per byte category, plus the offset
/// column and the reset code that closes every colored cell.
#[derive(Debug, Clone, Copy, PartialEq, Eq, Structural)]
pub enum ColorType {
    Null,
    Offset,
    AsciiPrintable,
    AsciiWhitespace,
    AsciiOther,
    NonAscii,
    Reset,
}

/// The escape bytes `"\x1b[38;2;108;108;108m"`: a grey foreground.
pub open spec fn grey_fg_seq() -> Seq<u8> {
    seq![27u8, 91, 51, 56, 59, 50, 59, 49, 48, 56, 59, 49, 48, 56, 59, 49, 48, 56, 109]
}

/// The escape bytes `"\x1b[36m"`: cyan foreground.
pub open spec fn cyan_fg_seq() -> Seq<u8> {
    seq![27u8, 91, 51, 54, 109]
}

/// The escape bytes `"\x1b[32m"`: green foreground.
pub open spec fn green_fg_seq() -> Seq<u8> {
    seq![27u8, 91, 51, 50, 109]
}

/// The escape bytes `"\x1b[35m"`: magenta foreground.
pub open spec fn magenta_fg_seq() -> Seq<u8> {
    seq![27u8, 91, 51, 53, 109]
}

/// The escape bytes `"\x1b[33m"`: yellow foreground.
pub open spec fn yellow_fg_seq() -> Seq<u8> {
    seq![27u8, 91, 51, 51, 109]
}

/// The escape bytes `"\x1b[39m"`: the default foreground, closing a colored cell.
pub open spec fn default_fg_seq() -> Seq<u8> {
    seq![27u8, 91, 51, 57, 109]
}

/// The escape bytes that `ansi_bytes` returns for each color class.
pub open spec fn ansi_code_spec(c: ColorType) -> Seq<u8> {
    match c {
        ColorType::Null => grey_fg_seq(),
        ColorType::Offset => grey_fg_seq(),
        ColorType::AsciiPrintable => cyan_fg_seq(),
        ColorType::AsciiWhitespace => green_fg_seq(),
        ColorType::AsciiOther => magenta_fg_seq(),
        ColorType::NonAscii => yellow_fg_seq(),
        ColorType::Reset => default_fg_seq(),
    }
}

/// Relies on `owo_colors::colors::CustomColor::<108, 108, 108>::ANSI_FG`, the
/// constant foreground escape string `"\x1b[38;2;108;108;108m"`.
#[verifier::external_body]
fn grey_fg() -> (r: Vec<u8>)
    ensures
        r@ == grey_fg_seq(),
{
    <owo_colors::colors::CustomColor<108, 108, 108> as owo_colors::Color>::ANSI_FG
        .as_bytes()
        .to_vec()
}

/// Relies on `owo_colors::colors::Cyan::ANSI_FG`, the constant foreground
/// escape string `"\x1b[36m"`.
#[verifier::external_body]
fn cyan_fg() -> (r: Vec<u8>)
    ensures
        r@ == cyan_fg_seq(),
{
    <owo_colors::colors::Cyan as owo_colors::Color>::ANSI_FG.as_bytes().to_vec()
}

/// Relies on `owo_colors::colors::Green::ANSI_FG`, the constant foreground
/// escape string `"\x1b[32m"`.
#[verifier::external_body]
fn green_fg() -> (r: Vec<u8>)
    ensures
        r@ == green_fg_seq(),
{
    <owo_colors::colors::Green as owo_colors::Color>::ANSI_FG.as_bytes().to_vec()
}

/// Relies on `owo_colors::colors::Magenta::ANSI_FG`, the constant foreground
/// escape string `"\x1b[35m"`.
#[verifier::external_body]
fn magenta_fg() -> (r: Vec<u8>)
    ensures
        r@ == magenta_fg_seq(),
{
    <owo_colors::colors::Magenta as owo_colors::Color>::ANSI_FG.as_bytes().to_vec()
}

/// Relies on `owo_colors::colors::Yellow::ANSI_FG`, the constant foreground
/// escape string `"\x1b[33m"`.
#[verifier::external_body]
fn yellow_fg() -> (r: Vec<u8>)
    ensures
        r@ == yellow_fg_seq(),
{
    <owo_colors::colors::Yellow as owo_colors::Color>::ANSI_FG.as_bytes().to_vec()
}

/// Relies on `owo_colors::colors::Default::ANSI_FG`, the constant foreground
/// escape string `"\x1b[39m"`.
#[verifier::external_body]
fn default_fg() -> (r: Vec<u8>)
    ensures
        r@ == default_fg_seq(),
{
    <owo_colors::colors::Default as owo_colors::Color>::ANSI_FG.as_bytes().to_vec()
}

impl ColorType {
    /// The ANSI foreground escape sequence of this color class.
    pub fn ansi_bytes(self) -> (r: Vec<u8>)
        ensures
            r@ == ansi_code_spec(self),
    {
        match self {
            ColorType::Null => grey_fg(),
            ColorType::Offset => grey_fg(),
            ColorType::AsciiPrintable => cyan_fg(),
            ColorType::AsciiWhitespace => green_fg(),
            ColorType::AsciiOther => magenta_fg(),
            ColorType::NonAscii => yellow_fg(),
            ColorType::Reset => default_fg(),
        }
    }
}

} // verus!
