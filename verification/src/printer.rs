//! The line renderer: it takes bytes one at a time, groups them into
//! 16-byte display lines, writes the offset column, the two hex groups and
//! the text column, asks the squeezer what to do with each completed line,
//! and frames the whole display with a header and footer.
//!
//! Every operation is specified as a transition on the abstract
//! `PrinterModel`; `pm_run` gives the bytes a whole session appends to the
//! output.

use vstd::prelude::*;

use crate::border::BorderElements;
use crate::border::BorderStyle;
use crate::border::footer_frame_seq;
use crate::border::frame_seq;
use crate::border::header_frame_seq;
use crate::border::inner_sep_seq;
use crate::border::outer_sep_seq;
use crate::classify::Byte;
use crate::classify::char_bytes_spec;
use crate::classify::color_spec;
use crate::colors::ColorType;
use crate::colors::ansi_code_spec;
use crate::hexfmt::hex_digit;
use crate::hexfmt::hex_digit_spec;
use crate::hexfmt::hex8_spec;
use crate::hexfmt::push_bytes;
use crate::hexfmt::push_hex8;
use crate::hexfmt::push_repeat;
use crate::hexfmt::push_spaces;
use crate::hexfmt::spaces_spec;
use crate::squeezer::SqueezeAction;
use crate::squeezer::Squeezer;
use crate::squeezer::SqueezerModel;
use crate::squeezer::sq_action_spec;
use crate::squeezer::sq_active_spec;
use crate::squeezer::sq_advance_spec;
use crate::squeezer::sq_init_spec;
use crate::squeezer::sq_process_spec;

verus! {

/// The two hex digits of a byte, low nibble last.
pub open spec fn hex2_spec(b: u8) -> Seq<u8> {
    seq![hex_digit_spec(b / 16), hex_digit_spec(b % 16)]
}

/// One hex column cell: two digits and a trailing space, wrapped in the
/// byte's color escape and the reset escape when color is on.
pub open spec fn hex_cell_seq(b: u8, color: bool) -> Seq<u8> {
    if color {
        ansi_code_spec(color_spec(b)) + hex2_spec(b) + seq![0x20u8] + ansi_code_spec(
            ColorType::Reset,
        )
    } else {
        hex2_spec(b) + seq![0x20u8]
    }
}

/// One text column cell: the display character of the byte, wrapped in
/// color escapes when color is on.
pub open spec fn char_cell_seq(b: u8, color: bool) -> Seq<u8> {
    if color {
        ansi_code_spec(color_spec(b)) + char_bytes_spec(b) + ansi_code_spec(ColorType::Reset)
    } else {
        char_bytes_spec(b)
    }
}

/// The offset text: eight zero-padded hex digits, wrapped in the offset
/// color when color is on.
pub open spec fn offset_text_seq(n: nat, color: bool) -> Seq<u8> {
    if color {
        ansi_code_spec(ColorType::Offset) + hex8_spec(n) + ansi_code_spec(ColorType::Reset)
    } else {
        hex8_spec(n)
    }
}

/// The position indicator opening a body line: separator, offset text,
/// separator, one space.
pub open spec fn indicator_seq(pos: nat, color: bool, border: BorderStyle) -> Seq<u8> {
    outer_sep_seq(border) + offset_text_seq(pos, color) + outer_sep_seq(border) + seq![0x20u8]
}

/// The rest of the all-blank body line written when the stream ends on a
/// squeeze boundary: blank hex and text columns after the indicator.
pub open spec fn blank_rest_seq(border: BorderStyle) -> Seq<u8> {
    spaces_spec(24) + inner_sep_seq(border) + spaces_spec(25) + outer_sep_seq(border) + spaces_spec(
        8,
    ) + inner_sep_seq(border) + spaces_spec(8) + outer_sep_seq(border) + seq![0x0au8]
}

/// The padding that closes the hex columns of a line of `len` bytes:
/// spaces up to full width, with the group separator where it is still
/// owed.
pub open spec fn pad_hex_seq(len: nat, border: BorderStyle) -> Seq<u8> {
    if len < 8 {
        spaces_spec((3 * (8 - len)) as nat) + inner_sep_seq(border) + spaces_spec(25)
            + outer_sep_seq(border)
    } else {
        spaces_spec((3 * (16 - len)) as nat) + outer_sep_seq(border)
    }
}

/// The text column of a line, one cell per byte, with the group separator
/// after the cell at position 7.
pub open spec fn chars_seg_seq(s: Seq<u8>, pos: nat, color: bool, border: BorderStyle) -> Seq<u8>
    decreases s.len(),
{
    if s.len() == 0 {
        Seq::empty()
    } else {
        char_cell_seq(s[0], color) + (if pos == 7 {
            inner_sep_seq(border)
        } else {
            Seq::empty()
        }) + chars_seg_seq(s.drop_first(), pos + 1, color, border)
    }
}

/// The padding that closes the text column of a line of `len` bytes and
/// ends the line.
pub open spec fn pad_char_seq(len: nat, border: BorderStyle) -> Seq<u8> {
    if len < 8 {
        spaces_spec((8 - len) as nat) + inner_sep_seq(border) + spaces_spec(8) + outer_sep_seq(
            border,
        ) + seq![0x0au8]
    } else {
        spaces_spec((16 - len) as nat) + outer_sep_seq(border) + seq![0x0au8]
    }
}

/// The squeeze marker line: an asterisk in the offset column, all other
/// columns blank.
pub open spec fn marker_line_seq(color: bool, border: BorderStyle) -> Seq<u8> {
    outer_sep_seq(border) + (if color {
        ansi_code_spec(ColorType::Offset) + seq![0x2au8] + ansi_code_spec(ColorType::Reset)
    } else {
        seq![0x2au8]
    }) + spaces_spec(7) + outer_sep_seq(border) + spaces_spec(25) + inner_sep_seq(border)
        + spaces_spec(25) + outer_sep_seq(border) + spaces_spec(8) + inner_sep_seq(border)
        + spaces_spec(8) + outer_sep_seq(border) + seq![0x0au8]
}

/// The abstract state of a `Printer`.
#[verifier::ext_equal]
pub ghost struct PrinterModel {
    /// 1-based index of the next byte of the stream.
    pub idx: nat,
    /// The raw bytes of the in-progress line.
    pub raw_line: Seq<u8>,
    /// The formatted text of the in-progress line.
    pub buffer_line: Seq<u8>,
    /// Everything written to the output so far.
    pub out: Seq<u8>,
    pub show_color: bool,
    pub border: BorderStyle,
    pub header_was_printed: bool,
    /// The additive bias shown in the offset column.
    pub display_offset: nat,
    pub sq: SqueezerModel,
}

/// The state of a fresh printer.
pub open spec fn pm_init(show_color: bool, border: BorderStyle, use_squeeze: bool) -> PrinterModel {
    PrinterModel {
        idx: 1,
        raw_line: Seq::empty(),
        buffer_line: Seq::empty(),
        out: Seq::empty(),
        show_color,
        border,
        header_was_printed: false,
        display_offset: 0,
        sq: sq_init_spec(use_squeeze),
    }
}

/// The offset shown for the line that starts at the current position.
pub open spec fn pm_offset_pos(v: PrinterModel) -> nat {
    (v.idx + v.display_offset - 1) as nat
}

/// Appending the header frame to the output, without touching the flag.
pub open spec fn pm_header(v: PrinterModel) -> PrinterModel {
    PrinterModel { out: v.out + header_frame_seq(v.border), ..v }
}

/// Appending the footer frame to the output.
pub open spec fn pm_footer(v: PrinterModel) -> PrinterModel {
    PrinterModel { out: v.out + footer_frame_seq(v.border), ..v }
}

/// Writing the position indicator into the line buffer, emitting the
/// header first if it was never emitted.
pub open spec fn pm_indicator(v: PrinterModel) -> PrinterModel {
    let v1 = if !v.header_was_printed {
        PrinterModel { out: v.out + header_frame_seq(v.border), header_was_printed: true, ..v }
    } else {
        v
    };
    PrinterModel {
        buffer_line: v1.buffer_line + indicator_seq(pm_offset_pos(v), v.show_color, v.border),
        ..v1
    }
}

/// Flushing the current line: nothing for an empty line unless a squeeze
/// run is under way (then the indicator and a blank line are emitted so
/// the footer aligns); otherwise the line is padded to full width and
/// emitted, replaced by the marker line, or suppressed, as the squeezer
/// decides, and the line state is cleared.
pub open spec fn pm_print_textline(v: PrinterModel) -> PrinterModel {
    let len = v.raw_line.len();
    if len == 0 {
        if sq_active_spec(v.sq) {
            let v1 = pm_indicator(v);
            let v2 = PrinterModel { buffer_line: v1.buffer_line + blank_rest_seq(v.border), ..v1 };
            PrinterModel { out: v2.out + v2.buffer_line, ..v2 }
        } else {
            v
        }
    } else {
        let act = sq_action_spec(v.sq);
        let formatted = v.buffer_line + pad_hex_seq(len, v.border) + chars_seg_seq(
            v.raw_line,
            0,
            v.show_color,
            v.border,
        ) + pad_char_seq(len, v.border);
        let emitted = match act {
            SqueezeAction::Ignore => formatted,
            SqueezeAction::Print => marker_line_seq(v.show_color, v.border),
            SqueezeAction::Delete => Seq::<u8>::empty(),
        };
        PrinterModel {
            out: v.out + emitted,
            raw_line: Seq::empty(),
            buffer_line: Seq::empty(),
            sq: sq_advance_spec(v.sq),
            ..v
        }
    }
}

/// Taking in one byte: the indicator on the first byte of a line, the hex
/// cell, the group separator after the eighth byte, a flush after the
/// sixteenth.
pub open spec fn pm_print_byte(v: PrinterModel, b: u8) -> PrinterModel {
    let v1 = if v.idx % 16 == 1 {
        pm_indicator(v)
    } else {
        v
    };
    let v2 = PrinterModel {
        buffer_line: v1.buffer_line + hex_cell_seq(b, v1.show_color),
        raw_line: v1.raw_line.push(b),
        sq: sq_process_spec(v1.sq, b),
        ..v1
    };
    let v3 = if v.idx % 16 == 8 {
        PrinterModel {
            buffer_line: v2.buffer_line + inner_sep_seq(v2.border) + seq![0x20u8],
            ..v2
        }
    } else if v.idx % 16 == 0 {
        pm_print_textline(v2)
    } else {
        v2
    };
    PrinterModel { idx: v3.idx + 1, ..v3 }
}

/// Taking in a whole byte sequence, front to back.
pub open spec fn pm_consume(v: PrinterModel, s: Seq<u8>) -> PrinterModel
    decreases s.len(),
{
    if s.len() == 0 {
        v
    } else {
        pm_consume(pm_print_byte(v, s[0]), s.drop_first())
    }
}

/// The end of a session: the last line is flushed, the header is emitted
/// if it never was, and the footer closes the display.
pub open spec fn pm_finish(v: PrinterModel) -> PrinterModel {
    let v1 = pm_print_textline(v);
    let v2 = if !v1.header_was_printed {
        PrinterModel { out: v1.out + header_frame_seq(v1.border), ..v1 }
    } else {
        v1
    };
    PrinterModel { out: v2.out + footer_frame_seq(v2.border), ..v2 }
}

/// A whole session over `s` from state `v`.
pub open spec fn pm_run(v: PrinterModel, s: Seq<u8>) -> PrinterModel {
    pm_finish(pm_consume(v, s))
}

/// The line buffer is aligned with the byte index: the in-progress line
/// holds exactly the bytes taken in since the last line boundary.
pub open spec fn pm_aligned(v: PrinterModel) -> bool {
    v.raw_line.len() == (v.idx - 1) as int % 16
}

/// The renderer. Formatted output accumulates in an internal buffer
/// until the caller drains it with `take_output` (or reads it in place
/// with `output`); a caller that drains after each chunk keeps the
/// retained state at one in-progress line plus one previous-line
/// snapshot.
pub struct Printer {
    idx: usize,
    raw_line: Vec<u8>,
    buffer_line: Vec<u8>,
    out: Vec<u8>,
    show_color: bool,
    border_style: BorderStyle,
    header_was_printed: bool,
    byte_hex_table: Vec<Vec<u8>>,
    byte_char_table: Vec<Vec<u8>>,
    squeezer: Squeezer,
    display_offset: usize,
}

impl View for Printer {
    type V = PrinterModel;

    closed spec fn view(&self) -> PrinterModel {
        PrinterModel {
            idx: self.idx as nat,
            raw_line: self.raw_line@,
            buffer_line: self.buffer_line@,
            out: self.out@,
            show_color: self.show_color,
            border: self.border_style,
            header_was_printed: self.header_was_printed,
            display_offset: self.display_offset as nat,
            sq: self.squeezer@,
        }
    }
}

/// Appends one frame line built from the given glyphs.
fn push_frame(out: &mut Vec<u8>, e: &BorderElements)
    ensures
        final(out)@ == old(out)@ + frame_seq(
            e.left_corner@,
            e.horizontal_line@,
            e.column_separator@,
            e.right_corner@,
        ),
{
    push_bytes(out, &e.left_corner);
    push_repeat(out, &e.horizontal_line, 8);
    push_bytes(out, &e.column_separator);
    push_repeat(out, &e.horizontal_line, 25);
    push_bytes(out, &e.column_separator);
    push_repeat(out, &e.horizontal_line, 25);
    push_bytes(out, &e.column_separator);
    push_repeat(out, &e.horizontal_line, 8);
    push_bytes(out, &e.column_separator);
    push_repeat(out, &e.horizontal_line, 8);
    push_bytes(out, &e.right_corner);
    out.push(0x0a);
    assert(out@ =~= old(out)@ + frame_seq(
        e.left_corner@,
        e.horizontal_line@,
        e.column_separator@,
        e.right_corner@,
    ));
}

/// Appends the blank hex and text columns that follow the indicator on
/// the boundary line emitted when the stream ends mid-squeeze.
fn push_blank_rest(buffer: &mut Vec<u8>, isep: &Vec<u8>, osep: &Vec<u8>)
    ensures
        final(buffer)@ == old(buffer)@ + (spaces_spec(24) + isep@ + spaces_spec(25) + osep@
            + spaces_spec(8) + isep@ + spaces_spec(8) + osep@ + seq![0x0au8]),
{
    push_spaces(buffer, 24);
    push_bytes(buffer, isep);
    push_spaces(buffer, 25);
    push_bytes(buffer, osep);
    push_spaces(buffer, 8);
    push_bytes(buffer, isep);
    push_spaces(buffer, 8);
    push_bytes(buffer, osep);
    buffer.push(0x0a);
    assert(buffer@ =~= old(buffer)@ + (spaces_spec(24) + isep@ + spaces_spec(25) + osep@
        + spaces_spec(8) + isep@ + spaces_spec(8) + osep@ + seq![0x0au8]));
}

/// Appends the squeeze marker line to an empty line buffer.
fn push_marker_line(buffer: &mut Vec<u8>, show_color: bool, border: BorderStyle)
    ensures
        final(buffer)@ == old(buffer)@ + marker_line_seq(show_color, border),
{
    let osep = border.outer_sep();
    let isep = border.inner_sep();
    push_bytes(buffer, &osep);
    if show_color {
        let mut pre = ColorType::Offset.ansi_bytes();
        buffer.append(&mut pre);
        buffer.push(0x2a);
        let mut rst = ColorType::Reset.ansi_bytes();
        buffer.append(&mut rst);
    } else {
        buffer.push(0x2a);
    }
    push_spaces(buffer, 7);
    push_bytes(buffer, &osep);
    push_spaces(buffer, 25);
    push_bytes(buffer, &isep);
    push_spaces(buffer, 25);
    push_bytes(buffer, &osep);
    push_spaces(buffer, 8);
    push_bytes(buffer, &isep);
    push_spaces(buffer, 8);
    push_bytes(buffer, &osep);
    buffer.push(0x0a);
    assert(buffer@ =~= old(buffer)@ + marker_line_seq(show_color, border));
}

/// Appends everything of a formatted line that follows the hex cells:
/// the padding of the hex columns, the text column and its padding.
#[verifier::rlimit(60)]
fn push_formatted_tail(
    buffer: &mut Vec<u8>,
    raw: &Vec<u8>,
    table: &Vec<Vec<u8>>,
    show_color: bool,
    border: BorderStyle,
)
    requires
        1 <= raw@.len() <= 16,
        table@.len() == 256,
        forall|j: int| 0 <= j < 256 ==> #[trigger] table@[j]@ == char_cell_seq(j as u8, show_color),
    ensures
        final(buffer)@ == old(buffer)@ + pad_hex_seq(raw@.len(), border) + chars_seg_seq(
            raw@,
            0,
            show_color,
            border,
        ) + pad_char_seq(raw@.len(), border),
{
    let len = raw.len();
    let isep = border.inner_sep();
    let osep = border.outer_sep();
    if len < 8 {
        push_spaces(buffer, 3 * (8 - len));
        push_bytes(buffer, &isep);
        push_spaces(buffer, 25);
        push_bytes(buffer, &osep);
    } else {
        push_spaces(buffer, 3 * (16 - len));
        push_bytes(buffer, &osep);
    }
    assert(buffer@ == old(buffer)@ + pad_hex_seq(raw@.len(), border));
    let ghost base = buffer@;
    let mut i: usize = 0;
    while i < len
        invariant
            i <= len,
            len == raw@.len(),
            table@.len() == 256,
            forall|j: int|
                0 <= j < 256 ==> #[trigger] table@[j]@ == char_cell_seq(j as u8, show_color),
            buffer@ == base + chars_seg_seq(raw@.take(i as int), 0, show_color, border),
        decreases len - i,
    {
        let bb = raw[i];
        let cell = vstd::std_specs::vec::vec_index(table, bb as usize);
        push_bytes(buffer, cell);
        if i == 7 {
            let isep2 = border.inner_sep();
            push_bytes(buffer, &isep2);
        }
        proof {
            lemma_chars_seg_snoc(raw@.take(i as int), bb, 0, show_color, border);
            assert(raw@.take(i + 1) =~= raw@.take(i as int).push(bb));
        }
        i = i + 1;
    }
    assert(raw@.take(len as int) =~= raw@);
    if len < 8 {
        push_spaces(buffer, 8 - len);
        push_bytes(buffer, &isep);
        push_spaces(buffer, 8);
        push_bytes(buffer, &osep);
        buffer.push(0x0a);
    } else {
        push_spaces(buffer, 16 - len);
        push_bytes(buffer, &osep);
        buffer.push(0x0a);
    }
    assert(buffer@ =~= old(buffer)@ + pad_hex_seq(raw@.len(), border) + chars_seg_seq(
        raw@,
        0,
        show_color,
        border,
    ) + pad_char_seq(raw@.len(), border));
}

impl Printer {
    /// The invariant every session keeps: the lookup tables hold the cell
    /// text of every byte, the byte index starts at one, the in-progress
    /// line never exceeds 16 bytes, and the squeezer has seen exactly the
    /// bytes of the in-progress line.
    pub closed spec fn inv(&self) -> bool {
        &&& self.byte_hex_table@.len() == 256
        &&& forall|j: int|
            0 <= j < 256 ==> #[trigger] self.byte_hex_table@[j]@ == hex_cell_seq(
                j as u8,
                self.show_color,
            )
        &&& self.byte_char_table@.len() == 256
        &&& forall|j: int|
            0 <= j < 256 ==> #[trigger] self.byte_char_table@[j]@ == char_cell_seq(
                j as u8,
                self.show_color,
            )
        &&& self.idx >= 1
        &&& self.raw_line@.len() <= 16
        &&& (self.squeezer@.enabled ==> self.squeezer@.cur == self.raw_line@)
    }

    /// A fresh session. The hex and character cell text of all 256 bytes
    /// is precomputed here, colored or not, so that per-byte rendering is
    /// a table lookup.
    pub fn new(show_color: bool, border_style: BorderStyle, use_squeeze: bool) -> (r: Printer)
        ensures
            r.inv(),
            pm_aligned(r@),
            r@ == pm_init(show_color, border_style, use_squeeze),
    {
        let mut byte_hex_table: Vec<Vec<u8>> = Vec::new();
        let mut i: usize = 0;
        while i < 256
            invariant
                i <= 256,
                byte_hex_table@.len() == i,
                forall|j: int|
                    0 <= j < i ==> #[trigger] byte_hex_table@[j]@ == hex_cell_seq(
                        j as u8,
                        show_color,
                    ),
            decreases 256 - i,
        {
            let b = i as u8;
            let mut cell: Vec<u8> = Vec::new();
            if show_color {
                let mut pre = Byte(b).color().ansi_bytes();
                cell.append(&mut pre);
            }
            let d1 = hex_digit(b / 16);
            let d2 = hex_digit(b % 16);
            cell.push(d1);
            cell.push(d2);
            cell.push(0x20);
            if show_color {
                let mut rst = ColorType::Reset.ansi_bytes();
                cell.append(&mut rst);
            }
            assert(cell@ =~= hex_cell_seq(b, show_color));
            byte_hex_table.push(cell);
            i = i + 1;
        }
        let mut byte_char_table: Vec<Vec<u8>> = Vec::new();
        let mut k: usize = 0;
        while k < 256
            invariant
                k <= 256,
                byte_char_table@.len() == k,
                forall|j: int|
                    0 <= j < k ==> #[trigger] byte_char_table@[j]@ == char_cell_seq(
                        j as u8,
                        show_color,
                    ),
            decreases 256 - k,
        {
            let b = k as u8;
            let mut cell: Vec<u8> = Vec::new();
            if show_color {
                let mut pre = Byte(b).color().ansi_bytes();
                cell.append(&mut pre);
            }
            Byte(b).push_char_bytes(&mut cell);
            if show_color {
                let mut rst = ColorType::Reset.ansi_bytes();
                cell.append(&mut rst);
            }
            assert(cell@ =~= char_cell_seq(b, show_color));
            byte_char_table.push(cell);
            k = k + 1;
        }
        let r = Printer {
            idx: 1,
            raw_line: Vec::new(),
            buffer_line: Vec::new(),
            out: Vec::new(),
            show_color,
            border_style,
            header_was_printed: false,
            byte_hex_table,
            byte_char_table,
            squeezer: Squeezer::new(use_squeeze),
            display_offset: 0,
        };
        assert(r@ =~= pm_init(show_color, border_style, use_squeeze));
        r
    }

    /// Sets the additive bias shown in the offset column. To take effect
    /// from the first line it must be set before any byte is taken in.
    pub fn display_offset(&mut self, display_offset: usize)
        requires
            old(self).inv(),
        ensures
            final(self).inv(),
            final(self)@ == (PrinterModel { display_offset: display_offset as nat, ..old(self)@ }),
    {
        self.display_offset = display_offset;
        assert(self@ =~= PrinterModel { display_offset: display_offset as nat, ..old(self)@ });
    }

    /// Writes the header frame to the output. Does not mark the header as
    /// printed; `print_byte` does that when it emits the header lazily.
    pub fn header(&mut self)
        requires
            old(self).inv(),
        ensures
            final(self).inv(),
            final(self)@ == pm_header(old(self)@),
    {
        match self.border_style.header_elems() {
            Some(e) => {
                push_frame(&mut self.out, &e);
            },
            None => {},
        }
        assert(self@ =~= pm_header(old(self)@));
    }

    /// Writes the footer frame to the output.
    pub fn footer(&mut self)
        requires
            old(self).inv(),
        ensures
            final(self).inv(),
            final(self)@ == pm_footer(old(self)@),
    {
        match self.border_style.footer_elems() {
            Some(e) => {
                push_frame(&mut self.out, &e);
            },
            None => {},
        }
        assert(self@ =~= pm_footer(old(self)@));
    }

    /// Writes the position indicator into the line buffer, emitting the
    /// header first if it was never emitted.
    #[verifier::rlimit(60)]
    fn print_position_indicator(&mut self)
        requires
            old(self).inv(),
            old(self)@.idx + old(self)@.display_offset <= usize::MAX as int + 1,
        ensures
            final(self).inv(),
            final(self)@ == pm_indicator(old(self)@),
    {
        let ghost v = old(self)@;
        let ghost v1 = (if !v.header_was_printed {
            PrinterModel { out: v.out + header_frame_seq(v.border), header_was_printed: true, ..v }
        } else {
            v
        });
        if !self.header_was_printed {
            self.header();
            self.header_was_printed = true;
        }
        assert(self@ =~= v1);
        let pos = (self.idx - 1) + self.display_offset;
        assert(pos as nat == pm_offset_pos(v));
        let sep = self.border_style.outer_sep();
        push_bytes(&mut self.buffer_line, &sep);
        if self.show_color {
            let mut pre = ColorType::Offset.ansi_bytes();
            self.buffer_line.append(&mut pre);
            push_hex8(pos, &mut self.buffer_line);
            let mut rst = ColorType::Reset.ansi_bytes();
            self.buffer_line.append(&mut rst);
        } else {
            push_hex8(pos, &mut self.buffer_line);
        }
        push_bytes(&mut self.buffer_line, &sep);
        self.buffer_line.push(0x20);
        assert(self.buffer_line@ =~= v1.buffer_line + indicator_seq(
            pm_offset_pos(v),
            v.show_color,
            v.border,
        ));
        assert(self@ =~= pm_indicator(v));
    }

    /// Flushes the current line, as `pm_print_textline` describes: pads
    /// short lines to full width, applies the squeezer's decision, emits
    /// the result and clears the line state. With an empty line it emits
    /// the offset indicator and a blank body line only while a squeeze
    /// run is under way.
    #[verifier::rlimit(100)]
    pub fn print_textline(&mut self)
        requires
            old(self).inv(),
            old(self)@.idx + old(self)@.display_offset <= usize::MAX as int + 1,
        ensures
            final(self).inv(),
            final(self)@ == pm_print_textline(old(self)@),
    {
        let ghost v = old(self)@;
        let len = self.raw_line.len();
        if len == 0 {
            if self.squeezer.active() {
                self.print_position_indicator();
                assert(self@ =~= pm_indicator(v));
                let ghost vi = pm_indicator(v);
                let isep = self.border_style.inner_sep();
                let osep = self.border_style.outer_sep();
                push_blank_rest(&mut self.buffer_line, &isep, &osep);
                assert(self.buffer_line@ =~= vi.buffer_line + blank_rest_seq(v.border));
                push_bytes(&mut self.out, &self.buffer_line);
                assert(self@ =~= pm_print_textline(v));
            }
            return ;
        }
        let act = self.squeezer.action();
        if !(act == SqueezeAction::Delete) {
            push_formatted_tail(
                &mut self.buffer_line,
                &self.raw_line,
                &self.byte_char_table,
                self.show_color,
                self.border_style,
            );
        }
        match act {
            SqueezeAction::Print => {
                self.buffer_line.clear();
                push_marker_line(&mut self.buffer_line, self.show_color, self.border_style);
                assert(self.buffer_line@ =~= marker_line_seq(v.show_color, v.border));
            },
            SqueezeAction::Delete => {
                self.buffer_line.clear();
            },
            SqueezeAction::Ignore => {},
        }
        proof {
            let act_s = sq_action_spec(v.sq);
            let formatted = v.buffer_line + pad_hex_seq(len as nat, v.border) + chars_seg_seq(
                v.raw_line,
                0,
                v.show_color,
                v.border,
            ) + pad_char_seq(len as nat, v.border);
            if act_s == SqueezeAction::Ignore {
                assert(self.buffer_line@ == formatted);
            } else if act_s == SqueezeAction::Print {
                assert(self.buffer_line@ == marker_line_seq(v.show_color, v.border));
            } else {
                assert(self.buffer_line@ =~= Seq::<u8>::empty());
            }
        }
        push_bytes(&mut self.out, &self.buffer_line);
        self.raw_line.clear();
        self.buffer_line.clear();
        self.squeezer.advance();
        proof {
            let target = pm_print_textline(v);
            assert(self.out@ =~= target.out);
            assert(self.squeezer@ =~= target.sq);
            assert(self@ =~= target);
        }
    }

    /// Takes in one byte, as `pm_print_byte` describes: the indicator on
    /// the first byte of each line, the hex cell for the byte, the group
    /// separator after the eighth, a flush after the sixteenth.
    #[verifier::rlimit(100)]
    pub fn print_byte(&mut self, b: u8)
        requires
            old(self).inv(),
            pm_aligned(old(self)@),
            old(self)@.idx + 1 <= usize::MAX,
            old(self)@.idx + old(self)@.display_offset <= usize::MAX as int + 1,
        ensures
            final(self).inv(),
            pm_aligned(final(self)@),
            final(self)@ == pm_print_byte(old(self)@, b),
            final(self)@.idx == old(self)@.idx + 1,
    {
        let ghost v = old(self)@;
        let ghost v1 = (if v.idx % 16 == 1 {
            pm_indicator(v)
        } else {
            v
        });
        if self.idx % 16 == 1 {
            self.print_position_indicator();
        }
        assert(self@ =~= v1);
        let cell = vstd::std_specs::vec::vec_index(&self.byte_hex_table, b as usize);
        assert(cell@ == hex_cell_seq(b, v1.show_color));
        push_bytes(&mut self.buffer_line, cell);
        self.raw_line.push(b);
        self.squeezer.process(b);
        let ghost v2 = (PrinterModel {
            buffer_line: v1.buffer_line + hex_cell_seq(b, v1.show_color),
            raw_line: v1.raw_line.push(b),
            sq: sq_process_spec(v1.sq, b),
            ..v1
        });
        assert(self@ =~= v2);
        if self.idx % 16 == 8 {
            let isep = self.border_style.inner_sep();
            push_bytes(&mut self.buffer_line, &isep);
            self.buffer_line.push(0x20);
            assert(self.buffer_line@ =~= v2.buffer_line + inner_sep_seq(v2.border) + seq![0x20u8]);
        } else if self.idx % 16 == 0 {
            self.print_textline();
            assert(self@ =~= pm_print_textline(v2));
        }
        self.idx = self.idx + 1;
        assert(self@ =~= pm_print_byte(v, b));
    }

    /// Whether the header frame was already emitted.
    pub fn header_was_printed(&self) -> (r: bool)
        ensures
            r == self@.header_was_printed,
    {
        self.header_was_printed
    }

    /// Everything the session has written so far.
    pub fn output(&self) -> (r: &Vec<u8>)
        ensures
            r@ == self@.out,
    {
        &self.out
    }

    /// Hands out everything written so far and clears the output buffer,
    /// so a caller can stream the display while the session goes on and
    /// the session retains no more than the current line.
    pub fn take_output(&mut self) -> (r: Vec<u8>)
        requires
            old(self).inv(),
        ensures
            final(self).inv(),
            r@ == old(self)@.out,
            final(self)@ == (PrinterModel { out: Seq::empty(), ..old(self)@ }),
    {
        let mut r: Vec<u8> = Vec::new();
        core::mem::swap(&mut r, &mut self.out);
        assert(self@ =~= (PrinterModel { out: Seq::empty(), ..old(self)@ }));
        r
    }

    /// Renders a whole input: every byte is taken in, the final short
    /// line is flushed, the header is emitted if it never was (so even an
    /// empty input gets its frame), and the footer closes the display.
    pub fn print_all(&mut self, input: &[u8])
        requires
            old(self).inv(),
            pm_aligned(old(self)@),
            old(self)@.idx + old(self)@.display_offset + input@.len() <= usize::MAX as int + 1,
            old(self)@.idx + input@.len() <= usize::MAX,
        ensures
            final(self).inv(),
            final(self)@ == pm_run(old(self)@, input@),
    {
        let n = input.len();
        proof {
            assert(input@.skip(0) =~= input@);
        }
        let mut i: usize = 0;
        while i < n
            invariant
                i <= n,
                n == input@.len(),
                self.inv(),
                pm_aligned(self@),
                self@.idx == old(self)@.idx + i,
                self@.display_offset == old(self)@.display_offset,
                old(self)@.idx + old(self)@.display_offset + n <= usize::MAX as int + 1,
                old(self)@.idx + n <= usize::MAX,
                pm_consume(old(self)@, input@) == pm_consume(self@, input@.skip(i as int)),
            decreases n - i,
        {
            let b = input[i];
            let ghost pre = self@;
            proof {
                assert(input@.skip(i as int).len() > 0);
                assert(input@.skip(i as int)[0] == input@[i as int]);
                assert(input@.skip(i as int).drop_first() =~= input@.skip(i + 1));
            }
            self.print_byte(b);
            proof {
                assert(pm_consume(pre, input@.skip(i as int)) == pm_consume(
                    pm_print_byte(pre, b),
                    input@.skip(i + 1),
                ));
            }
            i = i + 1;
        }
        proof {
            assert(input@.skip(n as int) =~= Seq::<u8>::empty());
            assert(pm_consume(self@, input@.skip(n as int)) == self@);
            assert(self@ == pm_consume(old(self)@, input@));
        }
        let ghost consumed = self@;
        self.print_textline();
        if !self.header_was_printed {
            self.header();
        }
        self.footer();
        assert(self@ =~= pm_finish(consumed));
    }
}

/// Adding one byte at the end of a line segment appends its cell, and the
/// group separator when the byte sits at position 7.
proof fn lemma_chars_seg_snoc(s: Seq<u8>, b: u8, pos: nat, color: bool, border: BorderStyle)
    ensures
        chars_seg_seq(s.push(b), pos, color, border) == chars_seg_seq(s, pos, color, border)
            + char_cell_seq(b, color) + (if pos + s.len() == 7 {
            inner_sep_seq(border)
        } else {
            Seq::<u8>::empty()
        }),
    decreases s.len(),
{
    if s.len() == 0 {
        assert(s.push(b)[0] == b);
        assert(s.push(b).drop_first() =~= Seq::<u8>::empty());
        assert(chars_seg_seq(Seq::<u8>::empty(), pos + 1, color, border) =~= Seq::<u8>::empty());
        assert(chars_seg_seq(s, pos, color, border) =~= Seq::<u8>::empty());
        assert(chars_seg_seq(s.push(b), pos, color, border) =~= chars_seg_seq(s, pos, color, border)
            + char_cell_seq(b, color) + (if pos + s.len() == 7 {
            inner_sep_seq(border)
        } else {
            Seq::<u8>::empty()
        }));
    } else {
        lemma_chars_seg_snoc(s.drop_first(), b, pos + 1, color, border);
        assert(s.push(b).drop_first() =~= s.drop_first().push(b));
        assert(s.push(b)[0] == s[0]);
        assert(chars_seg_seq(s.push(b), pos, color, border) =~= chars_seg_seq(s, pos, color, border)
            + char_cell_seq(b, color) + (if pos + s.len() == 7 {
            inner_sep_seq(border)
        } else {
            Seq::<u8>::empty()
        }));
    }
}

} // verus!
