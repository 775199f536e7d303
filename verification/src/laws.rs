//! Session-level laws of the renderer, proved over the abstract model:
//! what a whole run emits for an empty input, for a short input, for any
//! input with squeezing disabled, and for runs of identical lines with
//! squeezing enabled.

use vstd::prelude::*;

use crate::border::BorderStyle;
use crate::border::footer_frame_seq;
use crate::border::header_frame_seq;
use crate::border::inner_sep_seq;
use crate::border::outer_sep_seq;
use crate::hexfmt::spaces_spec;
use crate::printer::PrinterModel;
use crate::printer::blank_rest_seq;
use crate::printer::chars_seg_seq;
use crate::printer::hex_cell_seq;
use crate::printer::indicator_seq;
use crate::printer::marker_line_seq;
use crate::printer::pad_char_seq;
use crate::printer::pad_hex_seq;
use crate::printer::pm_aligned;
use crate::printer::pm_consume;
use crate::printer::pm_offset_pos;
use crate::printer::pm_finish;
use crate::printer::pm_indicator;
use crate::printer::pm_init;
use crate::printer::pm_print_byte;
use crate::printer::pm_print_textline;
use crate::printer::pm_run;
use crate::squeezer::SqueezeAction;
use crate::squeezer::SqueezeMode;
use crate::squeezer::SqueezerModel;
use crate::squeezer::sq_action_spec;
use crate::squeezer::sq_active_spec;
use crate::squeezer::sq_advance_spec;
use crate::squeezer::sq_is_dup_spec;
use crate::squeezer::sq_process_spec;

verus! {

/// A fresh session with a display offset already set: what `Printer::new`
/// followed by `display_offset` gives.
pub open spec fn pm_start(
    show_color: bool,
    border: BorderStyle,
    use_squeeze: bool,
    disp: nat,
) -> PrinterModel {
    PrinterModel { display_offset: disp, ..pm_init(show_color, border, use_squeeze) }
}

/// The hex column of a line, one cell per byte, with the group separator
/// and a space after the cell at position 7.
pub open spec fn hex_cells_seq(s: Seq<u8>, pos: nat, color: bool, border: BorderStyle) -> Seq<u8>
    decreases s.len(),
{
    if s.len() == 0 {
        Seq::empty()
    } else {
        hex_cell_seq(s[0], color) + (if pos == 7 {
            inner_sep_seq(border) + seq![0x20u8]
        } else {
            Seq::empty()
        }) + hex_cells_seq(s.drop_first(), pos + 1, color, border)
    }
}

/// The squeezer state after taking in a run of bytes.
pub open spec fn sq_feed(sq: SqueezerModel, s: Seq<u8>) -> SqueezerModel
    decreases s.len(),
{
    if s.len() == 0 {
        sq
    } else {
        sq_feed(sq_process_spec(sq, s[0]), s.drop_first())
    }
}

/// One fully formatted body line for a group of 1 to 16 bytes starting at
/// shown offset `off`: indicator, hex cells, hex padding, text cells,
/// text padding and the newline.
pub open spec fn line_text_seq(chunk: Seq<u8>, off: nat, color: bool, border: BorderStyle) -> Seq<
    u8,
> {
    indicator_seq(off, color, border) + hex_cells_seq(chunk, 0, color, border) + pad_hex_seq(
        chunk.len(),
        border,
    ) + chars_seg_seq(chunk, 0, color, border) + pad_char_seq(chunk.len(), border)
}

/// Consuming a concatenation is consuming its parts in order.
pub proof fn lemma_consume_append(v: PrinterModel, a: Seq<u8>, b: Seq<u8>)
    ensures
        pm_consume(v, a + b) == pm_consume(pm_consume(v, a), b),
    decreases a.len(),
{
    if a.len() == 0 {
        assert(a + b =~= b);
        assert(pm_consume(v, a) == v);
    } else {
        assert((a + b)[0] == a[0]);
        assert((a + b).drop_first() =~= a.drop_first() + b);
        lemma_consume_append(pm_print_byte(v, a[0]), a.drop_first(), b);
    }
}

/// Taking in bytes strictly inside a line (the first byte of the line is
/// already in, the sixteenth not yet reached) appends hex cells to the
/// buffer and the bytes to the raw line, and nothing else changes.
#[verifier::rlimit(100)]
proof fn lemma_consume_mid_line(v: PrinterModel, s: Seq<u8>)
    requires
        v.idx >= 1,
        pm_aligned(v),
        1 <= v.raw_line.len(),
        v.raw_line.len() + s.len() <= 15,
    ensures
        pm_consume(v, s) == (PrinterModel {
            idx: (v.idx + s.len()) as nat,
            raw_line: v.raw_line + s,
            buffer_line: v.buffer_line + hex_cells_seq(
                s,
                v.raw_line.len(),
                v.show_color,
                v.border,
            ),
            sq: sq_feed(v.sq, s),
            ..v
        }),
    decreases s.len(),
{
    let r = v.raw_line.len() as int;
    if s.len() == 0 {
        assert(v.raw_line + s =~= v.raw_line);
        assert(v.buffer_line + hex_cells_seq(s, v.raw_line.len(), v.show_color, v.border)
            =~= v.buffer_line);
        assert(pm_consume(v, s) =~= (PrinterModel {
            idx: (v.idx + s.len()) as nat,
            raw_line: v.raw_line + s,
            buffer_line: v.buffer_line + hex_cells_seq(
                s,
                v.raw_line.len(),
                v.show_color,
                v.border,
            ),
            sq: sq_feed(v.sq, s),
            ..v
        }));
    } else {
        let b = s[0];
        assert((v.idx - 1) % 16 == r);
        assert(v.idx % 16 == r + 1) by {
            assert(v.idx == ((v.idx - 1) / 16) * 16 + r + 1);
        };
        assert(v.idx % 16 != 1 && v.idx % 16 != 0);
        let v1 = pm_print_byte(v, b);
        assert(v1 == (PrinterModel {
            idx: (v.idx + 1) as nat,
            raw_line: v.raw_line.push(b),
            buffer_line: v.buffer_line + hex_cell_seq(b, v.show_color) + (if r == 7 {
                inner_sep_seq(v.border) + seq![0x20u8]
            } else {
                Seq::<u8>::empty()
            }),
            sq: sq_process_spec(v.sq, b),
            ..v
        })) by {
            if v.idx % 16 == 8 {
                assert(r == 7);
            } else {
                assert(r != 7);
                assert(v.buffer_line + hex_cell_seq(b, v.show_color) + Seq::<u8>::empty()
                    =~= v.buffer_line + hex_cell_seq(b, v.show_color));
            }
        };
        assert(pm_aligned(v1));
        lemma_consume_mid_line(v1, s.drop_first());
        assert(v.raw_line.push(b) + s.drop_first() =~= v.raw_line + s);
        assert(v1.buffer_line + hex_cells_seq(
            s.drop_first(),
            (r + 1) as nat,
            v.show_color,
            v.border,
        ) =~= v.buffer_line + hex_cells_seq(s, r as nat, v.show_color, v.border)) by {
            assert(hex_cells_seq(s, r as nat, v.show_color, v.border) == hex_cell_seq(
                b,
                v.show_color,
            ) + (if r == 7 {
                inner_sep_seq(v.border) + seq![0x20u8]
            } else {
                Seq::<u8>::empty()
            }) + hex_cells_seq(s.drop_first(), (r + 1) as nat, v.show_color, v.border));
        };
        assert(pm_consume(v, s) =~= (PrinterModel {
            idx: (v.idx + s.len()) as nat,
            raw_line: v.raw_line + s,
            buffer_line: v.buffer_line + hex_cells_seq(
                s,
                v.raw_line.len(),
                v.show_color,
                v.border,
            ),
            sq: sq_feed(v.sq, s),
            ..v
        }));
    }
}

/// Taking in 1 to 15 bytes from a line boundary emits the header if it
/// was never emitted, writes the indicator and the hex cells, and keeps
/// the bytes as the in-progress line.
proof fn lemma_consume_from_line_start(v: PrinterModel, s: Seq<u8>)
    requires
        v.idx >= 1,
        pm_aligned(v),
        v.raw_line.len() == 0,
        1 <= s.len() <= 15,
    ensures
        pm_consume(v, s) == (PrinterModel {
            idx: (v.idx + s.len()) as nat,
            raw_line: s,
            buffer_line: pm_indicator(v).buffer_line + hex_cells_seq(
                s,
                0,
                v.show_color,
                v.border,
            ),
            out: pm_indicator(v).out,
            header_was_printed: true,
            sq: sq_feed(v.sq, s),
            ..v
        }),
{
    let b = s[0];
    assert((v.idx - 1) % 16 == 0);
    assert(v.idx % 16 == 1) by {
        assert(v.idx == ((v.idx - 1) / 16) * 16 + 1);
    };
    let vi = pm_indicator(v);
    let v1 = pm_print_byte(v, b);
    assert(v1 == (PrinterModel {
        idx: (v.idx + 1) as nat,
        raw_line: Seq::<u8>::empty().push(b),
        buffer_line: vi.buffer_line + hex_cell_seq(b, v.show_color),
        out: vi.out,
        header_was_printed: true,
        sq: sq_process_spec(v.sq, b),
        ..v
    })) by {
        assert(vi.raw_line == v.raw_line);
        assert(vi.buffer_line + hex_cell_seq(b, v.show_color) + Seq::<u8>::empty() =~= vi.buffer_line
            + hex_cell_seq(b, v.show_color));
    };
    assert(pm_aligned(v1)) by {
        assert((v1.idx - 1) as int % 16 == v.idx as int % 16);
    };
    lemma_consume_mid_line(v1, s.drop_first());
    assert(Seq::<u8>::empty().push(b) + s.drop_first() =~= s);
    assert(v1.buffer_line + hex_cells_seq(s.drop_first(), 1, v.show_color, v.border)
        =~= vi.buffer_line + hex_cells_seq(s, 0, v.show_color, v.border)) by {
        assert(hex_cells_seq(s, 0, v.show_color, v.border) == hex_cell_seq(b, v.show_color)
            + Seq::<u8>::empty() + hex_cells_seq(s.drop_first(), 1, v.show_color, v.border));
        assert(hex_cell_seq(b, v.show_color) + Seq::<u8>::empty() =~= hex_cell_seq(
            b,
            v.show_color,
        ));
    };
    assert(pm_consume(v, s) =~= (PrinterModel {
        idx: (v.idx + s.len()) as nat,
        raw_line: s,
        buffer_line: pm_indicator(v).buffer_line + hex_cells_seq(s, 0, v.show_color, v.border),
        out: pm_indicator(v).out,
        header_was_printed: true,
        sq: sq_feed(v.sq, s),
        ..v
    }));
}

/// Rendering an empty input emits the header and footer frames and
/// nothing else, whatever the squeeze and color settings.
pub proof fn lemma_render_empty(
    show_color: bool,
    border: BorderStyle,
    use_squeeze: bool,
    disp: nat,
)
    ensures
        pm_run(pm_start(show_color, border, use_squeeze, disp), Seq::empty()).out
            == header_frame_seq(border) + footer_frame_seq(border),
{
    let v = pm_start(show_color, border, use_squeeze, disp);
    assert(pm_consume(v, Seq::empty()) == v);
    let v1 = pm_print_textline(v);
    assert(!sq_active_spec(v.sq));
    assert(v1 == v);
    assert(pm_run(v, Seq::empty()).out =~= header_frame_seq(border) + footer_frame_seq(border));
}

/// Rendering fewer than 16 bytes produces the header, exactly one body
/// line padded to full width with no squeeze marker, and the footer.
pub proof fn lemma_render_short(
    s: Seq<u8>,
    show_color: bool,
    border: BorderStyle,
    use_squeeze: bool,
    disp: nat,
)
    requires
        1 <= s.len() <= 15,
    ensures
        pm_run(pm_start(show_color, border, use_squeeze, disp), s).out == header_frame_seq(border)
            + line_text_seq(s, disp, show_color, border) + footer_frame_seq(border),
{
    let v = pm_start(show_color, border, use_squeeze, disp);
    lemma_consume_from_line_start(v, s);
    let c = pm_consume(v, s);
    assert(c.raw_line == s);
    assert(sq_action_spec(c.sq) == SqueezeAction::Ignore) by {
        if use_squeeze {
            assert(sq_feed(v.sq, s).have_prev == false) by {
                lemma_sq_feed_no_prev(v.sq, s);
            }
        } else {
            lemma_sq_feed_disabled(v.sq, s);
        }
    };
    let v1 = pm_print_textline(c);
    assert(v1.out =~= Seq::empty() + header_frame_seq(border) + (indicator_seq(
        disp,
        show_color,
        border,
    ) + hex_cells_seq(s, 0, show_color, border)) + pad_hex_seq(s.len(), border) + chars_seg_seq(
        s,
        0,
        show_color,
        border,
    ) + pad_char_seq(s.len(), border));
    assert(v1.header_was_printed);
    assert(pm_run(v, s).out =~= v1.out + footer_frame_seq(border));
    assert(pm_run(v, s).out =~= header_frame_seq(border) + line_text_seq(
        s,
        disp,
        show_color,
        border,
    ) + footer_frame_seq(border));
}

/// The tail of a body line after its indicator: hex cells, hex padding,
/// text cells, text padding and the newline.
pub open spec fn line_tail_seq(chunk: Seq<u8>, color: bool, border: BorderStyle) -> Seq<u8> {
    hex_cells_seq(chunk, 0, color, border) + pad_hex_seq(chunk.len(), border) + chars_seg_seq(
        chunk,
        0,
        color,
        border,
    ) + pad_char_seq(chunk.len(), border)
}

/// `s` concatenated with itself `n` times.
pub open spec fn rep_bytes(l: Seq<u8>, n: nat) -> Seq<u8>
    decreases n,
{
    if n == 0 {
        Seq::empty()
    } else {
        l + rep_bytes(l, (n - 1) as nat)
    }
}

/// Feeding a concatenation is feeding its parts in order.
proof fn lemma_sq_feed_append(sq: SqueezerModel, a: Seq<u8>, b: Seq<u8>)
    ensures
        sq_feed(sq, a + b) == sq_feed(sq_feed(sq, a), b),
    decreases a.len(),
{
    if a.len() == 0 {
        assert(a + b =~= b);
    } else {
        assert((a + b)[0] == a[0]);
        assert((a + b).drop_first() =~= a.drop_first() + b);
        lemma_sq_feed_append(sq_process_spec(sq, a[0]), a.drop_first(), b);
    }
}

/// Adding one byte at the end of a line's hex cells appends its cell, and
/// the group separator when the byte sits at position 7.
proof fn lemma_hex_cells_snoc(s: Seq<u8>, b: u8, pos: nat, color: bool, border: BorderStyle)
    ensures
        hex_cells_seq(s.push(b), pos, color, border) == hex_cells_seq(s, pos, color, border)
            + hex_cell_seq(b, color) + (if pos + s.len() == 7 {
            inner_sep_seq(border) + seq![0x20u8]
        } else {
            Seq::<u8>::empty()
        }),
    decreases s.len(),
{
    if s.len() == 0 {
        assert(s.push(b)[0] == b);
        assert(s.push(b).drop_first() =~= Seq::<u8>::empty());
        assert(hex_cells_seq(Seq::<u8>::empty(), pos + 1, color, border) =~= Seq::<u8>::empty());
        assert(hex_cells_seq(s, pos, color, border) =~= Seq::<u8>::empty());
        assert(hex_cells_seq(s.push(b), pos, color, border) =~= hex_cells_seq(s, pos, color, border)
            + hex_cell_seq(b, color) + (if pos + s.len() == 7 {
            inner_sep_seq(border) + seq![0x20u8]
        } else {
            Seq::<u8>::empty()
        }));
    } else {
        lemma_hex_cells_snoc(s.drop_first(), b, pos + 1, color, border);
        assert(s.push(b).drop_first() =~= s.drop_first().push(b));
        assert(s.push(b)[0] == s[0]);
        assert(hex_cells_seq(s.push(b), pos, color, border) =~= hex_cells_seq(s, pos, color, border)
            + hex_cell_seq(b, color) + (if pos + s.len() == 7 {
            inner_sep_seq(border) + seq![0x20u8]
        } else {
            Seq::<u8>::empty()
        }));
    }
}

/// What a full 16-byte line leaves in the output: the formatted line, the
/// marker line, or nothing, as the squeezer decides after taking it in.
pub open spec fn line_emitted_seq(v: PrinterModel, chunk: Seq<u8>) -> Seq<u8> {
    match sq_action_spec(sq_feed(v.sq, chunk)) {
        SqueezeAction::Ignore => line_text_seq(
            chunk,
            crate::printer::pm_offset_pos(v),
            v.show_color,
            v.border,
        ),
        SqueezeAction::Print => marker_line_seq(v.show_color, v.border),
        SqueezeAction::Delete => Seq::<u8>::empty(),
    }
}

/// Taking in a full 16-byte line from a line boundary emits what the
/// squeezer decides and returns to a line boundary.
#[verifier::rlimit(100)]
proof fn lemma_consume_full_line(v: PrinterModel, chunk: Seq<u8>)
    requires
        v.idx >= 1,
        pm_aligned(v),
        v.raw_line.len() == 0,
        v.buffer_line.len() == 0,
        chunk.len() == 16,
    ensures
        pm_consume(v, chunk) == (PrinterModel {
            idx: (v.idx + 16) as nat,
            raw_line: Seq::empty(),
            buffer_line: Seq::empty(),
            out: pm_indicator(v).out + line_emitted_seq(v, chunk),
            header_was_printed: true,
            sq: sq_advance_spec(sq_feed(v.sq, chunk)),
            ..v
        }),
{
    let a = chunk.take(15);
    let b = chunk[15];
    assert(chunk =~= a + seq![b]);
    lemma_consume_append(v, a, seq![b]);
    lemma_consume_from_line_start(v, a);
    let c = pm_consume(v, a);
    assert(seq![b].len() == 1);
    assert(seq![b][0] == b);
    assert(seq![b].drop_first() =~= Seq::<u8>::empty());
    assert(pm_consume(c, seq![b]) == pm_consume(pm_print_byte(c, b), Seq::<u8>::empty()));
    assert(pm_consume(c, seq![b]) == pm_print_byte(c, b));
    assert((v.idx - 1) % 16 == 0);
    assert(c.idx == v.idx + 15);
    assert(c.idx % 16 == 0) by {
        assert(v.idx == ((v.idx - 1) / 16) * 16 + 1);
    };
    assert(c.idx % 16 != 1 && c.idx % 16 != 8);
    let v2 = (PrinterModel {
        buffer_line: c.buffer_line + hex_cell_seq(b, c.show_color),
        raw_line: c.raw_line.push(b),
        sq: sq_process_spec(c.sq, b),
        ..c
    });
    assert(v2.raw_line =~= chunk);
    assert(v2.sq == sq_feed(v.sq, chunk)) by {
        lemma_sq_feed_append(v.sq, a, seq![b]);
        assert(seq![b][0] == b);
        assert(seq![b].drop_first() =~= Seq::<u8>::empty());
        assert(sq_feed(sq_feed(v.sq, a), seq![b]) == sq_feed(
            sq_process_spec(sq_feed(v.sq, a), b),
            Seq::<u8>::empty(),
        ));
        assert(c.sq == sq_feed(v.sq, a));
    };
    assert(v2.buffer_line =~= pm_indicator(v).buffer_line + hex_cells_seq(
        chunk,
        0,
        v.show_color,
        v.border,
    )) by {
        lemma_hex_cells_snoc(a, b, 0, v.show_color, v.border);
        assert(a.push(b) =~= chunk);
        assert(hex_cells_seq(chunk, 0, v.show_color, v.border) == hex_cells_seq(
            a,
            0,
            v.show_color,
            v.border,
        ) + hex_cell_seq(b, v.show_color) + Seq::<u8>::empty());
    };
    let v3 = pm_print_textline(v2);
    assert(pm_print_byte(c, b) == (PrinterModel { idx: (v3.idx + 1) as nat, ..v3 }));
    assert(v3.out =~= pm_indicator(v).out + line_emitted_seq(v, chunk)) by {
        let act = sq_action_spec(v2.sq);
        if act == SqueezeAction::Ignore {
            assert(v2.buffer_line + pad_hex_seq(16, v.border) + chars_seg_seq(
                chunk,
                0,
                v.show_color,
                v.border,
            ) + pad_char_seq(16, v.border) =~= pm_indicator(v).buffer_line + line_tail_seq(
                chunk,
                v.show_color,
                v.border,
            ));
            assert(pm_indicator(v).buffer_line =~= indicator_seq(
                crate::printer::pm_offset_pos(v),
                v.show_color,
                v.border,
            ));
        }
    };
    assert(pm_consume(v, chunk) =~= (PrinterModel {
        idx: (v.idx + 16) as nat,
        raw_line: Seq::empty(),
        buffer_line: Seq::empty(),
        out: pm_indicator(v).out + line_emitted_seq(v, chunk),
        header_was_printed: true,
        sq: sq_advance_spec(sq_feed(v.sq, chunk)),
        ..v
    }));
}

/// A disabled squeezer is a constant "emit every line as formatted"
/// mode: intake and bookkeeping keep no state, the decision is always
/// `Ignore`, and no run is ever under way.
pub proof fn lemma_squeeze_disabled_is_stateless(sq: SqueezerModel, b: u8)
    requires
        !sq.enabled,
    ensures
        sq_process_spec(sq, b) == sq,
        sq_advance_spec(sq) == sq,
        sq_action_spec(sq) == SqueezeAction::Ignore,
        !sq_active_spec(sq),
{
}

/// Feeding a disabled squeezer changes nothing.
proof fn lemma_sq_feed_disabled(sq: SqueezerModel, s: Seq<u8>)
    requires
        !sq.enabled,
    ensures
        sq_feed(sq, s) == sq,
    decreases s.len(),
{
    if s.len() > 0 {
        lemma_sq_feed_disabled(sq, s.drop_first());
    }
}

/// Feeding bytes never makes a previous line appear: `have_prev`, the
/// snapshot, the mode and the enabled flag are untouched by intake.
proof fn lemma_sq_feed_no_prev(sq: SqueezerModel, s: Seq<u8>)
    ensures
        sq_feed(sq, s).have_prev == sq.have_prev,
        sq_feed(sq, s).prev == sq.prev,
        sq_feed(sq, s).mode == sq.mode,
        sq_feed(sq, s).enabled == sq.enabled,
    decreases s.len(),
{
    if s.len() > 0 {
        lemma_sq_feed_no_prev(sq_process_spec(sq, s[0]), s.drop_first());
    }
}

/// When the squeezer is enabled, intake appends the bytes to the
/// in-progress line.
proof fn lemma_sq_feed_cur(sq: SqueezerModel, s: Seq<u8>)
    requires
        sq.enabled,
    ensures
        sq_feed(sq, s).cur == sq.cur + s,
    decreases s.len(),
{
    if s.len() == 0 {
        assert(sq.cur + s =~= sq.cur);
    } else {
        lemma_sq_feed_cur(sq_process_spec(sq, s[0]), s.drop_first());
        assert(sq.cur.push(s[0]) + s.drop_first() =~= sq.cur + s);
    }
}

/// A line that once mismatched stays no candidate.
proof fn lemma_sq_feed_candidate_false(sq: SqueezerModel, s: Seq<u8>)
    requires
        !sq.candidate,
    ensures
        !sq_feed(sq, s).candidate,
    decreases s.len(),
{
    if s.len() > 0 {
        lemma_sq_feed_candidate_false(sq_process_spec(sq, s[0]), s.drop_first());
    }
}

/// With no previous line, a nonempty intake is never a candidate.
proof fn lemma_sq_feed_first(sq: SqueezerModel, s: Seq<u8>)
    requires
        sq.enabled,
        !sq.have_prev,
        s.len() >= 1,
    ensures
        !sq_feed(sq, s).candidate,
{
    let s1 = sq_process_spec(sq, s[0]);
    assert(!s1.candidate);
    lemma_sq_feed_candidate_false(s1, s.drop_first());
    assert(sq_feed(sq, s) == sq_feed(s1, s.drop_first()));
}

/// Intake that matches the whole rest of the previous line keeps the
/// candidate flag and ends with the line equal to the previous one.
proof fn lemma_sq_feed_match(sq: SqueezerModel, s: Seq<u8>)
    requires
        sq.enabled,
        sq.candidate,
        sq.have_prev,
        sq.prev == sq.cur + s,
    ensures
        sq_feed(sq, s).candidate,
        sq_feed(sq, s).cur == sq.prev,
    decreases s.len(),
{
    if s.len() == 0 {
        assert(sq.cur + s =~= sq.cur);
    } else {
        let s1 = sq_process_spec(sq, s[0]);
        assert(sq.prev[sq.cur.len() as int] == s[0]);
        assert(sq.cur.len() < sq.prev.len());
        assert(s1.candidate);
        assert(s1.prev == s1.cur + s.drop_first()) by {
            assert(sq.cur.push(s[0]) + s.drop_first() =~= sq.cur + s);
        };
        lemma_sq_feed_match(s1, s.drop_first());
    }
}

/// The body of the display with squeezing disabled: one formatted line
/// per 16-byte group, the final group possibly short.
pub open spec fn body_lines_nosq(s: Seq<u8>, off: nat, color: bool, border: BorderStyle) -> Seq<u8>
    decreases s.len(),
{
    if s.len() == 0 {
        Seq::empty()
    } else if s.len() <= 16 {
        line_text_seq(s, off, color, border)
    } else {
        line_text_seq(s.take(16), off, color, border) + body_lines_nosq(
            s.skip(16),
            (off + 16) as nat,
            color,
            border,
        )
    }
}

/// A whole session with squeezing disabled, from any line boundary:
/// the header if it is still owed, one line per group, the footer.
#[verifier::rlimit(100)]
proof fn lemma_finish_lines_nosq(v: PrinterModel, s: Seq<u8>)
    requires
        v.idx >= 1,
        pm_aligned(v),
        v.raw_line.len() == 0,
        v.buffer_line.len() == 0,
        !v.sq.enabled,
    ensures
        pm_finish(pm_consume(v, s)).out == v.out + (if !v.header_was_printed {
            header_frame_seq(v.border)
        } else {
            Seq::<u8>::empty()
        }) + body_lines_nosq(s, pm_offset_pos(v), v.show_color, v.border) + footer_frame_seq(
            v.border,
        ),
    decreases s.len(),
{
    let hif = (if !v.header_was_printed {
        header_frame_seq(v.border)
    } else {
        Seq::<u8>::empty()
    });
    if s.len() == 0 {
        assert(pm_consume(v, s) == v);
        assert(!sq_active_spec(v.sq));
        assert(pm_print_textline(v) == v);
        assert(pm_finish(v).out =~= v.out + hif + body_lines_nosq(
            s,
            pm_offset_pos(v),
            v.show_color,
            v.border,
        ) + footer_frame_seq(v.border));
    } else if s.len() <= 15 {
        lemma_consume_from_line_start(v, s);
        let c = pm_consume(v, s);
        lemma_sq_feed_disabled(v.sq, s);
        assert(sq_action_spec(c.sq) == SqueezeAction::Ignore);
        let v1 = pm_print_textline(c);
        assert(v1.out =~= v.out + hif + line_text_seq(
            s,
            pm_offset_pos(v),
            v.show_color,
            v.border,
        ));
        assert(v1.header_was_printed);
        assert(pm_finish(c).out =~= v.out + hif + body_lines_nosq(
            s,
            pm_offset_pos(v),
            v.show_color,
            v.border,
        ) + footer_frame_seq(v.border));
    } else if s.len() == 16 {
        lemma_consume_full_line(v, s);
        let w = pm_consume(v, s);
        lemma_sq_feed_disabled(v.sq, s);
        assert(sq_action_spec(sq_feed(v.sq, s)) == SqueezeAction::Ignore);
        assert(w.out =~= v.out + hif + line_text_seq(s, pm_offset_pos(v), v.show_color, v.border));
        assert(w.sq == v.sq);
        assert(!sq_active_spec(w.sq));
        assert(pm_print_textline(w) == w);
        assert(pm_finish(w).out =~= v.out + hif + body_lines_nosq(
            s,
            pm_offset_pos(v),
            v.show_color,
            v.border,
        ) + footer_frame_seq(v.border));
    } else {
        let a = s.take(16);
        let rest = s.skip(16);
        assert(s =~= a + rest);
        lemma_consume_append(v, a, rest);
        lemma_consume_full_line(v, a);
        let w = pm_consume(v, a);
        lemma_sq_feed_disabled(v.sq, a);
        assert(sq_action_spec(sq_feed(v.sq, a)) == SqueezeAction::Ignore);
        assert(w.out =~= v.out + hif + line_text_seq(a, pm_offset_pos(v), v.show_color, v.border));
        assert(w.sq == v.sq);
        assert(w.idx == v.idx + 16);
        assert(pm_aligned(w)) by {
            assert((v.idx - 1) % 16 == 0);
            assert((w.idx - 1) as int == (v.idx - 1) as int + 16);
        };
        lemma_finish_lines_nosq(w, rest);
        assert(pm_offset_pos(w) == pm_offset_pos(v) + 16);
        assert(pm_finish(pm_consume(w, rest)).out =~= v.out + hif + (line_text_seq(
            a,
            pm_offset_pos(v),
            v.show_color,
            v.border,
        ) + body_lines_nosq(rest, (pm_offset_pos(v) + 16) as nat, v.show_color, v.border))
            + footer_frame_seq(v.border));
        assert(body_lines_nosq(s, pm_offset_pos(v), v.show_color, v.border) == line_text_seq(
            a,
            pm_offset_pos(v),
            v.show_color,
            v.border,
        ) + body_lines_nosq(rest, (pm_offset_pos(v) + 16) as nat, v.show_color, v.border));
        assert(pm_finish(pm_consume(v, s)).out =~= v.out + hif + body_lines_nosq(
            s,
            pm_offset_pos(v),
            v.show_color,
            v.border,
        ) + footer_frame_seq(v.border));
    }
}

/// With squeezing disabled the output is the header frame, one formatted
/// line for every 16-byte group of the input in order (the final group
/// possibly short), and the footer frame: no marker line ever appears,
/// and the body holds exactly as many lines as the input has groups.
pub proof fn lemma_render_no_squeeze(s: Seq<u8>, show_color: bool, border: BorderStyle, disp: nat)
    ensures
        pm_run(pm_start(show_color, border, false, disp), s).out == header_frame_seq(border)
            + body_lines_nosq(s, disp, show_color, border) + footer_frame_seq(border),
{
    let v = pm_start(show_color, border, false, disp);
    lemma_finish_lines_nosq(v, s);
    assert(pm_offset_pos(v) == disp);
    assert(v.out + header_frame_seq(border) + body_lines_nosq(s, disp, show_color, border)
        + footer_frame_seq(border) =~= header_frame_seq(border) + body_lines_nosq(
        s,
        disp,
        show_color,
        border,
    ) + footer_frame_seq(border));
}

/// The body lines of an input split at a group boundary are the lines of
/// the two parts, the second shifted by the bytes of the first.
#[verifier::rlimit(100)]
pub proof fn lemma_body_lines_split(
    s: Seq<u8>,
    off: nat,
    color: bool,
    border: BorderStyle,
    k: nat,
)
    requires
        16 * k <= s.len(),
    ensures
        body_lines_nosq(s, off, color, border) == body_lines_nosq(
            s.take(16 * k as int),
            off,
            color,
            border,
        ) + body_lines_nosq(s.skip(16 * k as int), (off + 16 * k) as nat, color, border),
    decreases k,
{
    if k == 0 {
        assert(s.take(0) =~= Seq::<u8>::empty());
        assert(s.skip(0) =~= s);
        assert(body_lines_nosq(s.take(0), off, color, border) =~= Seq::<u8>::empty());
        assert(Seq::<u8>::empty() + body_lines_nosq(s, off, color, border) =~= body_lines_nosq(
            s,
            off,
            color,
            border,
        ));
    } else if s.len() <= 16 {
        assert(k == 1 && s.len() == 16);
        assert(s.take(16) =~= s);
        assert(s.skip(16) =~= Seq::<u8>::empty());
        assert(body_lines_nosq(s.skip(16), (off + 16) as nat, color, border)
            =~= Seq::<u8>::empty());
        assert(body_lines_nosq(s.take(16), off, color, border) + body_lines_nosq(
            s.skip(16),
            (off + 16) as nat,
            color,
            border,
        ) =~= body_lines_nosq(s, off, color, border));
    } else {
        let s1 = s.skip(16);
        lemma_body_lines_split(s1, (off + 16) as nat, color, border, (k - 1) as nat);
        assert(s1.take(16 * (k - 1) as int) =~= s.take(16 * k as int).skip(16));
        assert(s1.skip(16 * (k - 1) as int) =~= s.skip(16 * k as int));
        let first = line_text_seq(s.take(16), off, color, border);
        assert(body_lines_nosq(s, off, color, border) == first + body_lines_nosq(
            s1,
            (off + 16) as nat,
            color,
            border,
        ));
        if k == 1 {
            assert(s.take(16 * k as int) =~= s.take(16));
            assert(body_lines_nosq(s.take(16 * k as int), off, color, border) == line_text_seq(
                s.take(16 * k as int),
                off,
                color,
                border,
            ));
            assert(body_lines_nosq(s1.take(0), (off + 16) as nat, color, border)
                =~= Seq::<u8>::empty());
            assert(body_lines_nosq(s, off, color, border) =~= body_lines_nosq(
                s.take(16 * k as int),
                off,
                color,
                border,
            ) + body_lines_nosq(s.skip(16 * k as int), (off + 16 * k) as nat, color, border));
        } else {
            let t = s.take(16 * k as int);
            assert(t.len() == 16 * k > 16);
            assert(t.take(16) =~= s.take(16));
            assert(t.skip(16) =~= s1.take(16 * (k - 1) as int));
            assert(body_lines_nosq(t, off, color, border) == line_text_seq(
                s.take(16),
                off,
                color,
                border,
            ) + body_lines_nosq(s1.take(16 * (k - 1) as int), (off + 16) as nat, color, border));
            assert(body_lines_nosq(s, off, color, border) =~= body_lines_nosq(
                t,
                off,
                color,
                border,
            ) + body_lines_nosq(s.skip(16 * k as int), (off + 16 * k) as nat, color, border));
        }
    }
}

/// The body line of the 16-byte group at index `k` (0-based) opens with
/// the offset column showing `displayOffset + 16 k`, as eight zero-padded
/// hex digits between the outer separators.
#[verifier::rlimit(100)]
pub proof fn lemma_offset_column(
    s: Seq<u8>,
    show_color: bool,
    border: BorderStyle,
    disp: nat,
    k: nat,
)
    requires
        16 * k < s.len(),
    ensures
        ({
            let rem = s.skip(16 * k as int);
            let chunk = if rem.len() <= 16 {
                rem
            } else {
                rem.take(16)
            };
            let after = if rem.len() <= 16 {
                Seq::<u8>::empty()
            } else {
                body_lines_nosq(rem.skip(16), (disp + 16 * k + 16) as nat, show_color, border)
            };
            pm_run(pm_start(show_color, border, false, disp), s).out == header_frame_seq(border)
                + body_lines_nosq(s.take(16 * k as int), disp, show_color, border) + indicator_seq(
                (disp + 16 * k) as nat,
                show_color,
                border,
            ) + line_tail_seq(chunk, show_color, border) + after + footer_frame_seq(border)
        }),
{
    lemma_render_no_squeeze(s, show_color, border, disp);
    lemma_body_lines_split(s, disp, show_color, border, k);
    let rem = s.skip(16 * k as int);
    let off2 = (disp + 16 * k) as nat;
    let chunk = if rem.len() <= 16 {
        rem
    } else {
        rem.take(16)
    };
    let after = if rem.len() <= 16 {
        Seq::<u8>::empty()
    } else {
        body_lines_nosq(rem.skip(16), (disp + 16 * k + 16) as nat, show_color, border)
    };
    let hd = header_frame_seq(border);
    let ft = footer_frame_seq(border);
    let pre = body_lines_nosq(s.take(16 * k as int), disp, show_color, border);
    let ind = indicator_seq(off2, show_color, border);
    let tail = line_tail_seq(chunk, show_color, border);
    assert(body_lines_nosq(rem, off2, show_color, border) == ind + tail + after) by {
        if rem.len() <= 16 {
            assert(body_lines_nosq(rem, off2, show_color, border) == line_text_seq(
                rem,
                off2,
                show_color,
                border,
            ));
            lemma_line_text_split(rem, off2, show_color, border);
            lemma_concat_empty(ind + tail);
        } else {
            assert(body_lines_nosq(rem, off2, show_color, border) == line_text_seq(
                rem.take(16),
                off2,
                show_color,
                border,
            ) + body_lines_nosq(rem.skip(16), (off2 + 16) as nat, show_color, border));
            lemma_line_text_split(rem.take(16), off2, show_color, border);
        }
    };
    assert(pm_run(pm_start(show_color, border, false, disp), s).out == hd + (pre + (ind + tail
        + after)) + ft);
    lemma_concat6(hd, pre, ind, tail, after, ft);
}

/// A body line is its indicator followed by its tail.
proof fn lemma_line_text_split(chunk: Seq<u8>, off: nat, color: bool, border: BorderStyle)
    ensures
        line_text_seq(chunk, off, color, border) == indicator_seq(off, color, border)
            + line_tail_seq(chunk, color, border),
{
    assert(line_text_seq(chunk, off, color, border) =~= indicator_seq(off, color, border)
        + line_tail_seq(chunk, color, border));
}

/// Concatenation with the empty sequence on the right changes nothing.
proof fn lemma_concat_empty(a: Seq<u8>)
    ensures
        a == a + Seq::<u8>::empty(),
{
    assert(a =~= a + Seq::<u8>::empty());
}

/// One grouping law for six concatenated segments.
proof fn lemma_concat6(a: Seq<u8>, b: Seq<u8>, c: Seq<u8>, d: Seq<u8>, e: Seq<u8>, f: Seq<u8>)
    ensures
        a + (b + (c + d + e)) + f == a + b + c + d + e + f,
{
    assert(a + (b + (c + d + e)) + f =~= a + b + c + d + e + f);
}

/// One more grouping law, for a nested middle pair.
proof fn lemma_concat_mid(a: Seq<u8>, b: Seq<u8>, c: Seq<u8>, d: Seq<u8>)
    ensures
        (a + (b + c)) + d == a + b + c + d,
{
    assert((a + (b + c)) + d =~= a + b + c + d);
}

/// The number of newline bytes in a piece of output: its line count.
pub open spec fn nl_count(s: Seq<u8>) -> nat {
    s.filter(|b: u8| b == 10).len()
}

/// A sequence without the newline byte holds no lines.
proof fn lemma_nl_free(s: Seq<u8>)
    requires
        forall|i: int| 0 <= i < s.len() ==> s[i] != 10,
    ensures
        nl_count(s) == 0,
    decreases s.len(),
{
    reveal(Seq::filter);
    if s.len() > 0 {
        lemma_nl_free(s.drop_last());
    }
}

/// Newlines add up over concatenation.
proof fn lemma_nl_add(a: Seq<u8>, b: Seq<u8>)
    ensures
        nl_count(a + b) == nl_count(a) + nl_count(b),
    decreases b.len(),
{
    reveal(Seq::filter);
    if b.len() == 0 {
        assert(a + b =~= a);
    } else {
        lemma_nl_add(a, b.drop_last());
        assert((a + b).drop_last() =~= a + b.drop_last());
        assert((a + b).last() == b.last());
    }
}

/// The newline byte alone is one line end.
proof fn lemma_nl_single()
    ensures
        nl_count(seq![0x0au8]) == 1,
{
    reveal(Seq::filter);
    assert(seq![0x0au8].drop_last() =~= Seq::<u8>::empty());
}

/// The column separators hold no newline.
proof fn lemma_nl_seps(border: BorderStyle)
    ensures
        nl_count(outer_sep_seq(border)) == 0,
        nl_count(inner_sep_seq(border)) == 0,
{
    lemma_nl_free(outer_sep_seq(border));
    lemma_nl_free(inner_sep_seq(border));
}

/// The color escapes hold no newline.
proof fn lemma_nl_ansi(c: crate::colors::ColorType)
    ensures
        nl_count(crate::colors::ansi_code_spec(c)) == 0,
{
    lemma_nl_free(crate::colors::ansi_code_spec(c));
}

/// Runs of spaces hold no newline.
proof fn lemma_nl_spaces(n: nat)
    ensures
        nl_count(spaces_spec(n)) == 0,
{
    assert(forall|i: int| 0 <= i < spaces_spec(n).len() ==> spaces_spec(n)[i] == 0x20);
    lemma_nl_free(spaces_spec(n));
}

/// Hex digit text never holds a newline.
proof fn lemma_nl_hex_rep(n: nat)
    ensures
        forall|i: int|
            0 <= i < crate::hexfmt::hex_rep_spec(n).len()
                ==> crate::hexfmt::hex_rep_spec(n)[i] != 10,
    decreases n,
{
    let r = crate::hexfmt::hex_rep_spec(n);
    if n < 16 {
        assert(r.len() == 1);
        assert(r[0] == crate::hexfmt::hex_digit_spec(n as u8));
    } else {
        lemma_nl_hex_rep(n / 16);
        let p = crate::hexfmt::hex_rep_spec(n / 16);
        assert forall|i: int| 0 <= i < r.len() implies r[i] != 10 by {
            if i < p.len() {
                assert(r[i] == p[i]);
            } else {
                assert(r[i] == crate::hexfmt::hex_digit_spec((n % 16) as u8));
            }
        }
    }
}

/// The offset text holds no newline.
proof fn lemma_nl_offset_text(n: nat, color: bool)
    ensures
        nl_count(crate::printer::offset_text_seq(n, color)) == 0,
{
    lemma_nl_hex_rep(n);
    lemma_nl_free(crate::hexfmt::hex8_spec(n));
    if color {
        lemma_nl_ansi(crate::colors::ColorType::Offset);
        lemma_nl_ansi(crate::colors::ColorType::Reset);
        lemma_nl_add(
            crate::colors::ansi_code_spec(crate::colors::ColorType::Offset),
            crate::hexfmt::hex8_spec(n),
        );
        lemma_nl_add(
            crate::colors::ansi_code_spec(crate::colors::ColorType::Offset)
                + crate::hexfmt::hex8_spec(n),
            crate::colors::ansi_code_spec(crate::colors::ColorType::Reset),
        );
    }
}

/// The position indicator holds no newline.
proof fn lemma_nl_indicator(pos: nat, color: bool, border: BorderStyle)
    ensures
        nl_count(indicator_seq(pos, color, border)) == 0,
{
    lemma_nl_seps(border);
    lemma_nl_offset_text(pos, color);
    let o = outer_sep_seq(border);
    let t = crate::printer::offset_text_seq(pos, color);
    lemma_nl_free(seq![0x20u8]);
    lemma_nl_add(o, t);
    lemma_nl_add(o + t, o);
    lemma_nl_add(o + t + o, seq![0x20u8]);
}

/// One hex cell holds no newline.
proof fn lemma_nl_hex_cell(b: u8, color: bool)
    ensures
        nl_count(hex_cell_seq(b, color)) == 0,
{
    let h = crate::printer::hex2_spec(b);
    lemma_nl_free(h);
    lemma_nl_free(seq![0x20u8]);
    lemma_nl_add(h, seq![0x20u8]);
    if color {
        let p = crate::colors::ansi_code_spec(crate::classify::color_spec(b));
        let r = crate::colors::ansi_code_spec(crate::colors::ColorType::Reset);
        lemma_nl_ansi(crate::classify::color_spec(b));
        lemma_nl_ansi(crate::colors::ColorType::Reset);
        lemma_nl_add(p, h);
        lemma_nl_add(p + h, seq![0x20u8]);
        lemma_nl_add(p + h + seq![0x20u8], r);
    }
}

/// The hex column of a line holds no newline.
proof fn lemma_nl_hex_cells(s: Seq<u8>, pos: nat, color: bool, border: BorderStyle)
    ensures
        nl_count(hex_cells_seq(s, pos, color, border)) == 0,
    decreases s.len(),
{
    if s.len() == 0 {
        lemma_nl_free(Seq::<u8>::empty());
    } else {
        lemma_nl_hex_cell(s[0], color);
        let mid = if pos == 7 {
            inner_sep_seq(border) + seq![0x20u8]
        } else {
            Seq::<u8>::empty()
        };
        assert(nl_count(mid) == 0) by {
            if pos == 7 {
                lemma_nl_seps(border);
                lemma_nl_free(seq![0x20u8]);
                lemma_nl_add(inner_sep_seq(border), seq![0x20u8]);
            } else {
                lemma_nl_free(Seq::<u8>::empty());
            }
        };
        lemma_nl_hex_cells(s.drop_first(), pos + 1, color, border);
        lemma_nl_add(hex_cell_seq(s[0], color), mid);
        lemma_nl_add(hex_cell_seq(s[0], color) + mid, hex_cells_seq(
            s.drop_first(),
            pos + 1,
            color,
            border,
        ));
    }
}

/// One text cell holds no newline: no display character is a newline.
proof fn lemma_nl_char_cell(b: u8, color: bool)
    ensures
        nl_count(crate::printer::char_cell_seq(b, color)) == 0,
{
    let t = crate::classify::char_bytes_spec(b);
    lemma_nl_free(t);
    if color {
        let p = crate::colors::ansi_code_spec(crate::classify::color_spec(b));
        let r = crate::colors::ansi_code_spec(crate::colors::ColorType::Reset);
        lemma_nl_ansi(crate::classify::color_spec(b));
        lemma_nl_ansi(crate::colors::ColorType::Reset);
        lemma_nl_add(p, t);
        lemma_nl_add(p + t, r);
    }
}

/// The text column of a line holds no newline.
proof fn lemma_nl_chars_seg(s: Seq<u8>, pos: nat, color: bool, border: BorderStyle)
    ensures
        nl_count(chars_seg_seq(s, pos, color, border)) == 0,
    decreases s.len(),
{
    if s.len() == 0 {
        lemma_nl_free(Seq::<u8>::empty());
    } else {
        lemma_nl_char_cell(s[0], color);
        let mid = if pos == 7 {
            inner_sep_seq(border)
        } else {
            Seq::<u8>::empty()
        };
        assert(nl_count(mid) == 0) by {
            if pos == 7 {
                lemma_nl_seps(border);
            } else {
                lemma_nl_free(Seq::<u8>::empty());
            }
        };
        lemma_nl_chars_seg(s.drop_first(), pos + 1, color, border);
        lemma_nl_add(crate::printer::char_cell_seq(s[0], color), mid);
        lemma_nl_add(crate::printer::char_cell_seq(s[0], color) + mid, chars_seg_seq(
            s.drop_first(),
            pos + 1,
            color,
            border,
        ));
    }
}

/// The hex-column padding holds no newline.
proof fn lemma_nl_pad_hex(len: nat, border: BorderStyle)
    ensures
        nl_count(pad_hex_seq(len, border)) == 0,
{
    lemma_nl_seps(border);
    if len < 8 {
        let a = spaces_spec((3 * (8 - len)) as nat);
        lemma_nl_spaces((3 * (8 - len)) as nat);
        lemma_nl_spaces(25);
        lemma_nl_add(a, inner_sep_seq(border));
        lemma_nl_add(a + inner_sep_seq(border), spaces_spec(25));
        lemma_nl_add(a + inner_sep_seq(border) + spaces_spec(25), outer_sep_seq(border));
    } else {
        lemma_nl_spaces((3 * (16 - len)) as nat);
        lemma_nl_add(spaces_spec((3 * (16 - len)) as nat), outer_sep_seq(border));
    }
}

/// The text-column padding ends the line: exactly one newline.
proof fn lemma_nl_pad_char(len: nat, border: BorderStyle)
    ensures
        nl_count(pad_char_seq(len, border)) == 1,
{
    lemma_nl_seps(border);
    lemma_nl_single();
    if len < 8 {
        let a = spaces_spec((8 - len) as nat);
        lemma_nl_spaces((8 - len) as nat);
        lemma_nl_spaces(8);
        lemma_nl_add(a, inner_sep_seq(border));
        lemma_nl_add(a + inner_sep_seq(border), spaces_spec(8));
        lemma_nl_add(a + inner_sep_seq(border) + spaces_spec(8), outer_sep_seq(border));
        lemma_nl_add(a + inner_sep_seq(border) + spaces_spec(8) + outer_sep_seq(border), seq![
            0x0au8,
        ]);
    } else {
        lemma_nl_spaces((16 - len) as nat);
        lemma_nl_add(spaces_spec((16 - len) as nat), outer_sep_seq(border));
        lemma_nl_add(spaces_spec((16 - len) as nat) + outer_sep_seq(border), seq![0x0au8]);
    }
}

/// Every formatted body line is exactly one output line.
proof fn lemma_nl_line_text(chunk: Seq<u8>, off: nat, color: bool, border: BorderStyle)
    ensures
        nl_count(line_text_seq(chunk, off, color, border)) == 1,
{
    let a = indicator_seq(off, color, border);
    let b = hex_cells_seq(chunk, 0, color, border);
    let c = pad_hex_seq(chunk.len(), border);
    let d = chars_seg_seq(chunk, 0, color, border);
    let e = pad_char_seq(chunk.len(), border);
    lemma_nl_indicator(off, color, border);
    lemma_nl_hex_cells(chunk, 0, color, border);
    lemma_nl_pad_hex(chunk.len(), border);
    lemma_nl_chars_seg(chunk, 0, color, border);
    lemma_nl_pad_char(chunk.len(), border);
    lemma_nl_add(a, b);
    lemma_nl_add(a + b, c);
    lemma_nl_add(a + b + c, d);
    lemma_nl_add(a + b + c + d, e);
}

/// Each frame line is one output line; without a border there is none.
proof fn lemma_nl_frames(border: BorderStyle)
    ensures
        nl_count(header_frame_seq(border)) == (if border == BorderStyle::NoBorder {
            0nat
        } else {
            1nat
        }),
        nl_count(footer_frame_seq(border)) == (if border == BorderStyle::NoBorder {
            0nat
        } else {
            1nat
        }),
{
    match border {
        BorderStyle::NoBorder => {
            lemma_nl_free(Seq::<u8>::empty());
        },
        BorderStyle::Unicode => {
            lemma_nl_frame_line(
                seq![0xe2u8, 0x94, 0x8c],
                seq![0xe2u8, 0x94, 0x80],
                seq![0xe2u8, 0x94, 0xac],
                seq![0xe2u8, 0x94, 0x90],
            );
            lemma_nl_frame_line(
                seq![0xe2u8, 0x94, 0x94],
                seq![0xe2u8, 0x94, 0x80],
                seq![0xe2u8, 0x94, 0xb4],
                seq![0xe2u8, 0x94, 0x98],
            );
        },
        BorderStyle::Ascii => {
            lemma_nl_frame_line(seq![0x2bu8], seq![0x2du8], seq![0x2bu8], seq![0x2bu8]);
        },
    }
}

/// A repeated glyph without newlines holds none.
proof fn lemma_nl_repeat(g: Seq<u8>, n: nat)
    requires
        forall|i: int| 0 <= i < g.len() ==> g[i] != 10,
    ensures
        nl_count(crate::hexfmt::repeat_spec(g, n)) == 0,
    decreases n,
{
    if n == 0 {
        lemma_nl_free(Seq::<u8>::empty());
    } else {
        lemma_nl_repeat(g, (n - 1) as nat);
        lemma_nl_free(g);
        lemma_nl_add(crate::hexfmt::repeat_spec(g, (n - 1) as nat), g);
    }
}

/// A frame line built from newline-free glyphs is one output line.
proof fn lemma_nl_frame_line(left: Seq<u8>, h: Seq<u8>, col: Seq<u8>, right: Seq<u8>)
    requires
        forall|i: int| 0 <= i < left.len() ==> left[i] != 10,
        forall|i: int| 0 <= i < h.len() ==> h[i] != 10,
        forall|i: int| 0 <= i < col.len() ==> col[i] != 10,
        forall|i: int| 0 <= i < right.len() ==> right[i] != 10,
    ensures
        nl_count(crate::border::frame_seq(left, h, col, right)) == 1,
{
    let r8 = crate::hexfmt::repeat_spec(h, 8);
    let r25 = crate::hexfmt::repeat_spec(h, 25);
    lemma_nl_free(left);
    lemma_nl_free(col);
    lemma_nl_free(right);
    lemma_nl_repeat(h, 8);
    lemma_nl_repeat(h, 25);
    lemma_nl_single();
    lemma_nl_add(left, r8);
    lemma_nl_add(left + r8, col);
    lemma_nl_add(left + r8 + col, r25);
    lemma_nl_add(left + r8 + col + r25, col);
    lemma_nl_add(left + r8 + col + r25 + col, r25);
    lemma_nl_add(left + r8 + col + r25 + col + r25, col);
    lemma_nl_add(left + r8 + col + r25 + col + r25 + col, r8);
    lemma_nl_add(left + r8 + col + r25 + col + r25 + col + r8, col);
    lemma_nl_add(left + r8 + col + r25 + col + r25 + col + r8 + col, r8);
    lemma_nl_add(left + r8 + col + r25 + col + r25 + col + r8 + col + r8, right);
    lemma_nl_add(left + r8 + col + r25 + col + r25 + col + r8 + col + r8 + right, seq![0x0au8]);
}

/// The body has one line per 16-byte group of the input.
proof fn lemma_nl_body_lines(s: Seq<u8>, off: nat, color: bool, border: BorderStyle)
    ensures
        nl_count(body_lines_nosq(s, off, color, border)) == (s.len() + 15) / 16,
    decreases s.len(),
{
    if s.len() == 0 {
        lemma_nl_free(Seq::<u8>::empty());
    } else if s.len() <= 16 {
        lemma_nl_line_text(s, off, color, border);
    } else {
        lemma_nl_line_text(s.take(16), off, color, border);
        lemma_nl_body_lines(s.skip(16), (off + 16) as nat, color, border);
        lemma_nl_add(line_text_seq(s.take(16), off, color, border), body_lines_nosq(
            s.skip(16),
            (off + 16) as nat,
            color,
            border,
        ));
        assert((s.len() + 15) / 16 == 1 + (s.len() - 16 + 15) / 16);
    }
}

/// With squeezing disabled the display holds exactly one line per
/// 16-byte group of the input, plus the frame lines of the chosen
/// border, and no marker line is ever emitted.
pub proof fn lemma_no_squeeze_line_count(
    s: Seq<u8>,
    show_color: bool,
    border: BorderStyle,
    disp: nat,
)
    ensures
        nl_count(pm_run(pm_start(show_color, border, false, disp), s).out) == (s.len() + 15) / 16
            + (if border == BorderStyle::NoBorder {
            0nat
        } else {
            2nat
        }),
{
    lemma_render_no_squeeze(s, show_color, border, disp);
    lemma_nl_frames(border);
    lemma_nl_body_lines(s, disp, show_color, border);
    lemma_nl_add(header_frame_seq(border), body_lines_nosq(s, disp, show_color, border));
    lemma_nl_add(
        header_frame_seq(border) + body_lines_nosq(s, disp, show_color, border),
        footer_frame_seq(border),
    );
}

/// Taking in further copies of the line being squeezed emits nothing and
/// leaves everything but the byte index unchanged.
#[verifier::rlimit(100)]
proof fn lemma_consume_rep_squeezing(v: PrinterModel, l: Seq<u8>, n: nat)
    requires
        v.idx >= 1,
        pm_aligned(v),
        v.raw_line.len() == 0,
        v.buffer_line.len() == 0,
        v.header_was_printed,
        l.len() == 16,
        v.sq == (SqueezerModel {
            enabled: true,
            prev: l,
            have_prev: true,
            cur: Seq::empty(),
            candidate: true,
            mode: SqueezeMode::Squeezing,
        }),
    ensures
        pm_consume(v, rep_bytes(l, n)) == (PrinterModel { idx: (v.idx + 16 * n) as nat, ..v }),
    decreases n,
{
    if n == 0 {
        assert(pm_consume(v, rep_bytes(l, 0)) == v);
        assert(v =~= (PrinterModel { idx: (v.idx + 16 * 0) as nat, ..v }));
    } else {
        let r1 = rep_bytes(l, (n - 1) as nat);
        assert(rep_bytes(l, n) == l + r1);
        lemma_consume_append(v, l, r1);
        lemma_consume_full_line(v, l);
        let f = sq_feed(v.sq, l);
        lemma_sq_feed_match(v.sq, l);
        assert(v.sq.prev == v.sq.cur + l) by {
            assert(Seq::<u8>::empty() + l =~= l);
        };
        lemma_sq_feed_no_prev(v.sq, l);
        assert(f.candidate && f.cur == l && f.mode == SqueezeMode::Squeezing && f.have_prev
            && f.enabled);
        assert(sq_is_dup_spec(f));
        assert(sq_action_spec(f) == SqueezeAction::Delete);
        assert(line_emitted_seq(v, l) == Seq::<u8>::empty());
        let w = pm_consume(v, l);
        assert(w.out =~= v.out) by {
            assert(pm_indicator(v).out == v.out);
        };
        assert(w.sq =~= v.sq) by {
            assert(sq_advance_spec(f).prev == f.cur);
        };
        assert(w =~= (PrinterModel { idx: (v.idx + 16) as nat, ..v }));
        assert(pm_aligned(w)) by {
            assert((v.idx - 1) % 16 == 0);
            assert((w.idx - 1) as int == (v.idx - 1) as int + 16);
        };
        lemma_consume_rep_squeezing(w, l, (n - 1) as nat);
        assert(pm_consume(w, r1) == (PrinterModel { idx: (w.idx + 16 * (n - 1)) as nat, ..w }));
        assert(pm_consume(v, rep_bytes(l, n)) =~= (PrinterModel {
            idx: (v.idx + 16 * n) as nat,
            ..v
        }));
    }
}

/// Two different sequences of equal length differ at some position.
proof fn lemma_neq_index(a: Seq<u8>, b: Seq<u8>) -> (i: int)
    requires
        a.len() == b.len(),
        a != b,
    ensures
        0 <= i < a.len(),
        a[i] != b[i],
{
    assert(exists|j: int| 0 <= j < a.len() && a[j] != b[j]) by {
        if forall|j: int| 0 <= j < a.len() ==> a[j] == b[j] {
            assert(a =~= b);
            assert(false);
        }
    };
    choose|j: int| 0 <= j < a.len() && a[j] != b[j]
}

/// A byte that does not match the previous line at its position ends the
/// line's candidacy for good.
proof fn lemma_sq_feed_mismatch(sq: SqueezerModel, s: Seq<u8>, i: int)
    requires
        sq.enabled,
        0 <= i < s.len(),
        sq.cur.len() + i >= sq.prev.len() || sq.prev[sq.cur.len() + i] != s[i],
    ensures
        !sq_feed(sq, s).candidate,
    decreases s.len(),
{
    let s1 = sq_process_spec(sq, s[0]);
    if i == 0 {
        assert(!s1.candidate);
        lemma_sq_feed_candidate_false(s1, s.drop_first());
    } else {
        assert(s.drop_first()[i - 1] == s[i]);
        lemma_sq_feed_mismatch(s1, s.drop_first(), i - 1);
    }
}

/// The state after one full line taken in from a line boundary, named for
/// the squeeze-run proofs.
proof fn lemma_one_line_step(v: PrinterModel, l: Seq<u8>) -> (w: PrinterModel)
    requires
        v.idx >= 1,
        pm_aligned(v),
        v.raw_line.len() == 0,
        v.buffer_line.len() == 0,
        l.len() == 16,
    ensures
        w == pm_consume(v, l),
        w == (PrinterModel {
            idx: (v.idx + 16) as nat,
            raw_line: Seq::empty(),
            buffer_line: Seq::empty(),
            out: pm_indicator(v).out + line_emitted_seq(v, l),
            header_was_printed: true,
            sq: sq_advance_spec(sq_feed(v.sq, l)),
            ..v
        }),
        pm_aligned(w),
{
    lemma_consume_full_line(v, l);
    let w = pm_consume(v, l);
    assert(pm_aligned(w)) by {
        assert((v.idx - 1) % 16 == 0);
        assert((w.idx - 1) as int == (v.idx - 1) as int + 16);
    };
    w
}

/// The state after a session start takes in a run of n >= 3 identical
/// full lines: the header, two verbatim lines and one marker stand in the
/// output, and the squeezer is deep in its run.
#[verifier::rlimit(100)]
proof fn lemma_consume_squeeze_run(
    l: Seq<u8>,
    n: nat,
    show_color: bool,
    border: BorderStyle,
    disp: nat,
) -> (w: PrinterModel)
    requires
        l.len() == 16,
        n >= 3,
    ensures
        w == pm_consume(pm_start(show_color, border, true, disp), rep_bytes(l, n)),
        w == (PrinterModel {
            idx: (1 + 16 * n) as nat,
            raw_line: Seq::empty(),
            buffer_line: Seq::empty(),
            out: header_frame_seq(border) + line_text_seq(l, disp, show_color, border)
                + line_text_seq(l, (disp + 16) as nat, show_color, border) + marker_line_seq(
                show_color,
                border,
            ),
            show_color: show_color,
            border: border,
            header_was_printed: true,
            display_offset: disp,
            sq: (SqueezerModel {
                enabled: true,
                prev: l,
                have_prev: true,
                cur: Seq::empty(),
                candidate: true,
                mode: SqueezeMode::Squeezing,
            }),
        }),
{
    let v0 = pm_start(show_color, border, true, disp);
    let r1 = rep_bytes(l, (n - 1) as nat);
    let r2 = rep_bytes(l, (n - 2) as nat);
    let r3 = rep_bytes(l, (n - 3) as nat);
    assert(rep_bytes(l, n) == l + r1);
    assert(r1 == l + r2);
    assert(r2 == l + r3);
    let hd = header_frame_seq(border);
    let line1 = line_text_seq(l, disp, show_color, border);
    let line2 = line_text_seq(l, (disp + 16) as nat, show_color, border);
    let mk = marker_line_seq(show_color, border);
    // first line: no previous line, shown verbatim
    lemma_consume_append(v0, l, r1);
    let f0 = sq_feed(v0.sq, l);
    lemma_sq_feed_first(v0.sq, l);
    lemma_sq_feed_no_prev(v0.sq, l);
    lemma_sq_feed_cur(v0.sq, l);
    assert(f0.cur =~= l);
    assert(!sq_is_dup_spec(f0));
    assert(sq_action_spec(f0) == SqueezeAction::Ignore);
    assert(pm_offset_pos(v0) == disp);
    let v1 = lemma_one_line_step(v0, l);
    assert(v1.out =~= hd + line1);
    let sq1 = (SqueezerModel {
        enabled: true,
        prev: l,
        have_prev: true,
        cur: Seq::empty(),
        candidate: true,
        mode: SqueezeMode::Idle,
    });
    assert(v1.sq =~= sq1) by {
        assert(sq_advance_spec(f0).prev == f0.cur);
    };
    // second line: first repeat, still shown verbatim
    lemma_consume_append(v1, l, r2);
    let f1 = sq_feed(v1.sq, l);
    lemma_sq_feed_match(v1.sq, l);
    assert(v1.sq.prev == v1.sq.cur + l) by {
        assert(Seq::<u8>::empty() + l =~= l);
    };
    lemma_sq_feed_no_prev(v1.sq, l);
    assert(sq_is_dup_spec(f1));
    assert(sq_action_spec(f1) == SqueezeAction::Ignore);
    assert(pm_offset_pos(v1) == disp + 16);
    let v2 = lemma_one_line_step(v1, l);
    assert(v2.out =~= hd + line1 + line2) by {
        assert(pm_indicator(v1).out == v1.out);
    };
    let sq2 = (SqueezerModel { mode: SqueezeMode::FirstRepeat, ..sq1 });
    assert(v2.sq =~= sq2) by {
        assert(sq_advance_spec(f1).prev == f1.cur);
        assert(f1.cur == l);
    };
    // third line: the marker is emitted once
    lemma_consume_append(v2, l, r3);
    let f2 = sq_feed(v2.sq, l);
    lemma_sq_feed_match(v2.sq, l);
    assert(v2.sq.prev == v2.sq.cur + l) by {
        assert(Seq::<u8>::empty() + l =~= l);
    };
    lemma_sq_feed_no_prev(v2.sq, l);
    assert(sq_is_dup_spec(f2));
    assert(sq_action_spec(f2) == SqueezeAction::Print);
    let v3 = lemma_one_line_step(v2, l);
    assert(v3.out =~= hd + line1 + line2 + mk) by {
        assert(pm_indicator(v2).out == v2.out);
    };
    let sq3 = (SqueezerModel { mode: SqueezeMode::Squeezing, ..sq1 });
    assert(v3.sq =~= sq3) by {
        assert(sq_advance_spec(f2).prev == f2.cur);
        assert(f2.cur == l);
    };
    // every further line is suppressed
    lemma_consume_rep_squeezing(v3, l, (n - 3) as nat);
    let vf = pm_consume(v3, r3);
    assert(vf == (PrinterModel { idx: (v3.idx + 16 * (n - 3)) as nat, ..v3 }));
    assert(vf.idx == 1 + 16 * n);
    assert(vf =~= (PrinterModel {
        idx: (1 + 16 * n) as nat,
        raw_line: Seq::empty(),
        buffer_line: Seq::empty(),
        out: hd + line1 + line2 + mk,
        show_color: show_color,
        border: border,
        header_was_printed: true,
        display_offset: disp,
        sq: sq3,
    }));
    vf
}

/// Three or more consecutive identical 16-byte lines render as the first
/// two shown verbatim, then exactly one marker line, then nothing further
/// up to the closing boundary line and the footer.
#[verifier::rlimit(100)]
pub proof fn lemma_render_squeeze_run(
    l: Seq<u8>,
    n: nat,
    show_color: bool,
    border: BorderStyle,
    disp: nat,
)
    requires
        l.len() == 16,
        n >= 3,
    ensures
        pm_run(pm_start(show_color, border, true, disp), rep_bytes(l, n)).out
            == header_frame_seq(border) + line_text_seq(l, disp, show_color, border)
            + line_text_seq(l, (disp + 16) as nat, show_color, border) + marker_line_seq(
            show_color,
            border,
        ) + indicator_seq((disp + 16 * n) as nat, show_color, border) + blank_rest_seq(border)
            + footer_frame_seq(border),
{
    let v0 = pm_start(show_color, border, true, disp);
    let hd = header_frame_seq(border);
    let line1 = line_text_seq(l, disp, show_color, border);
    let line2 = line_text_seq(l, (disp + 16) as nat, show_color, border);
    let mk = marker_line_seq(show_color, border);
    let vf = lemma_consume_squeeze_run(l, n, show_color, border, disp);
    // the closing boundary line and the footer
    assert(sq_active_spec(vf.sq));
    assert(pm_offset_pos(vf) == disp + 16 * n);
    let ind = indicator_seq((disp + 16 * n) as nat, show_color, border);
    let blank = blank_rest_seq(border);
    let v4 = pm_print_textline(vf);
    assert(v4.out =~= vf.out + (ind + blank)) by {
        assert(pm_indicator(vf).out == vf.out);
        assert(pm_indicator(vf).buffer_line =~= ind);
        assert(pm_indicator(vf).buffer_line + blank =~= ind + blank);
    };
    assert(v4.header_was_printed);
    let out_final = pm_run(v0, rep_bytes(l, n)).out;
    assert(out_final == (hd + line1 + line2 + mk + (ind + blank)) + footer_frame_seq(border));
    assert(out_final == hd + line1 + line2 + mk + ind + blank + footer_frame_seq(border)) by {
        lemma_concat_mid(hd + line1 + line2 + mk, ind, blank, footer_frame_seq(border));
        assert((hd + line1 + line2 + mk) + ind + blank + footer_frame_seq(border) =~= hd + line1
            + line2 + mk + ind + blank + footer_frame_seq(border));
    };
}

/// A run of three or more identical full lines followed by a differing
/// full line: the run shows its first two lines verbatim and one marker,
/// everything after the third line of the run is suppressed until the
/// differing line, which prints normally with its own offset, and the
/// squeeze mode has reset, so no boundary line follows at end of stream.
#[verifier::rlimit(100)]
pub proof fn lemma_render_squeeze_run_then_differs(
    l: Seq<u8>,
    n: nat,
    m: Seq<u8>,
    show_color: bool,
    border: BorderStyle,
    disp: nat,
)
    requires
        l.len() == 16,
        n >= 3,
        m.len() == 16,
        m != l,
    ensures
        pm_run(pm_start(show_color, border, true, disp), rep_bytes(l, n) + m).out
            == header_frame_seq(border) + line_text_seq(l, disp, show_color, border)
            + line_text_seq(l, (disp + 16) as nat, show_color, border) + marker_line_seq(
            show_color,
            border,
        ) + line_text_seq(m, (disp + 16 * n) as nat, show_color, border) + footer_frame_seq(
            border,
        ),
{
    let v0 = pm_start(show_color, border, true, disp);
    let hd = header_frame_seq(border);
    let line1 = line_text_seq(l, disp, show_color, border);
    let line2 = line_text_seq(l, (disp + 16) as nat, show_color, border);
    let mk = marker_line_seq(show_color, border);
    let lm = line_text_seq(m, (disp + 16 * n) as nat, show_color, border);
    lemma_consume_append(v0, rep_bytes(l, n), m);
    let vf = lemma_consume_squeeze_run(l, n, show_color, border, disp);
    // the differing line is no duplicate: one mismatching position ends
    // its candidacy
    let i = lemma_neq_index(m, l);
    let f = sq_feed(vf.sq, m);
    lemma_sq_feed_mismatch(vf.sq, m, i);
    lemma_sq_feed_no_prev(vf.sq, m);
    assert(f.enabled);
    assert(!sq_is_dup_spec(f));
    assert(sq_action_spec(f) == SqueezeAction::Ignore);
    assert(pm_aligned(vf)) by {
        assert((16 * n) as int % 16 == 0) by (nonlinear_arith);
    };
    assert(pm_offset_pos(vf) == disp + 16 * n);
    let v5 = lemma_one_line_step(vf, m);
    assert(v5.out =~= vf.out + lm) by {
        assert(pm_indicator(vf).out == vf.out);
    };
    // the run is over: the mode resets, so the final empty flush is quiet
    assert(v5.sq.mode == SqueezeMode::Idle);
    assert(!sq_active_spec(v5.sq));
    let v6 = pm_print_textline(v5);
    assert(v6 == v5);
    assert(v5.header_was_printed);
    let out_final = pm_run(v0, rep_bytes(l, n) + m).out;
    assert(out_final == (hd + line1 + line2 + mk + lm) + footer_frame_seq(border));
}

/// The state after a session start takes in exactly two identical full
/// lines: both stand verbatim in the output and the squeezer has seen
/// its first repeat.
#[verifier::rlimit(100)]
proof fn lemma_consume_two_identical(
    l: Seq<u8>,
    show_color: bool,
    border: BorderStyle,
    disp: nat,
) -> (w: PrinterModel)
    requires
        l.len() == 16,
    ensures
        w == pm_consume(pm_start(show_color, border, true, disp), rep_bytes(l, 2)),
        w == (PrinterModel {
            idx: 33,
            raw_line: Seq::empty(),
            buffer_line: Seq::empty(),
            out: header_frame_seq(border) + line_text_seq(l, disp, show_color, border)
                + line_text_seq(l, (disp + 16) as nat, show_color, border),
            show_color: show_color,
            border: border,
            header_was_printed: true,
            display_offset: disp,
            sq: (SqueezerModel {
                enabled: true,
                prev: l,
                have_prev: true,
                cur: Seq::empty(),
                candidate: true,
                mode: SqueezeMode::FirstRepeat,
            }),
        }),
{
    let v0 = pm_start(show_color, border, true, disp);
    assert(rep_bytes(l, 2) == l + rep_bytes(l, 1));
    assert(rep_bytes(l, 1) == l + rep_bytes(l, 0));
    assert(rep_bytes(l, 1) =~= l) by {
        assert(l + Seq::<u8>::empty() =~= l);
    };
    let hd = header_frame_seq(border);
    let line1 = line_text_seq(l, disp, show_color, border);
    let line2 = line_text_seq(l, (disp + 16) as nat, show_color, border);
    lemma_consume_append(v0, l, l);
    assert(rep_bytes(l, 2) =~= l + l);
    let f0 = sq_feed(v0.sq, l);
    lemma_sq_feed_first(v0.sq, l);
    lemma_sq_feed_no_prev(v0.sq, l);
    lemma_sq_feed_cur(v0.sq, l);
    assert(f0.cur =~= l);
    assert(!sq_is_dup_spec(f0));
    assert(sq_action_spec(f0) == SqueezeAction::Ignore);
    assert(pm_offset_pos(v0) == disp);
    let v1 = lemma_one_line_step(v0, l);
    assert(v1.out =~= hd + line1);
    let sq1 = (SqueezerModel {
        enabled: true,
        prev: l,
        have_prev: true,
        cur: Seq::empty(),
        candidate: true,
        mode: SqueezeMode::Idle,
    });
    assert(v1.sq =~= sq1) by {
        assert(sq_advance_spec(f0).prev == f0.cur);
    };
    let f1 = sq_feed(v1.sq, l);
    lemma_sq_feed_match(v1.sq, l);
    assert(v1.sq.prev == v1.sq.cur + l) by {
        assert(Seq::<u8>::empty() + l =~= l);
    };
    lemma_sq_feed_no_prev(v1.sq, l);
    assert(sq_is_dup_spec(f1));
    assert(sq_action_spec(f1) == SqueezeAction::Ignore);
    assert(pm_offset_pos(v1) == disp + 16);
    let v2 = lemma_one_line_step(v1, l);
    assert(v2.out =~= hd + line1 + line2) by {
        assert(pm_indicator(v1).out == v1.out);
    };
    let sq2 = (SqueezerModel { mode: SqueezeMode::FirstRepeat, ..sq1 });
    assert(v2.sq =~= sq2) by {
        assert(sq_advance_spec(f1).prev == f1.cur);
        assert(f1.cur == l);
    };
    assert(v2.idx == 33);
    assert(v2 =~= (PrinterModel {
        idx: 33,
        raw_line: Seq::empty(),
        buffer_line: Seq::empty(),
        out: hd + line1 + line2,
        show_color: show_color,
        border: border,
        header_was_printed: true,
        display_offset: disp,
        sq: sq2,
    }));
    v2
}

/// Exactly two consecutive identical 16-byte lines are both shown
/// verbatim and no marker line appears; the run still ends with the
/// closing boundary line and the footer.
#[verifier::rlimit(100)]
pub proof fn lemma_render_two_identical(
    l: Seq<u8>,
    show_color: bool,
    border: BorderStyle,
    disp: nat,
)
    requires
        l.len() == 16,
    ensures
        pm_run(pm_start(show_color, border, true, disp), rep_bytes(l, 2)).out
            == header_frame_seq(border) + line_text_seq(l, disp, show_color, border)
            + line_text_seq(l, (disp + 16) as nat, show_color, border) + indicator_seq(
            (disp + 32) as nat,
            show_color,
            border,
        ) + blank_rest_seq(border) + footer_frame_seq(border),
{
    let v0 = pm_start(show_color, border, true, disp);
    let hd = header_frame_seq(border);
    let line1 = line_text_seq(l, disp, show_color, border);
    let line2 = line_text_seq(l, (disp + 16) as nat, show_color, border);
    let v2 = lemma_consume_two_identical(l, show_color, border, disp);
    assert(sq_active_spec(v2.sq));
    assert(pm_offset_pos(v2) == disp + 32);
    let ind = indicator_seq((disp + 32) as nat, show_color, border);
    let blank = blank_rest_seq(border);
    let v4 = pm_print_textline(v2);
    assert(v4.out =~= v2.out + (ind + blank)) by {
        assert(pm_indicator(v2).out == v2.out);
        assert(pm_indicator(v2).buffer_line =~= ind);
        assert(pm_indicator(v2).buffer_line + blank =~= ind + blank);
    };
    assert(v4.header_was_printed);
    let out_final = pm_run(v0, rep_bytes(l, 2)).out;
    assert(out_final == (hd + line1 + line2 + (ind + blank)) + footer_frame_seq(border));
    assert(out_final == hd + line1 + line2 + ind + blank + footer_frame_seq(border)) by {
        lemma_concat_mid(hd + line1 + line2, ind, blank, footer_frame_seq(border));
        assert((hd + line1 + line2) + ind + blank + footer_frame_seq(border) =~= hd + line1 + line2
            + ind + blank + footer_frame_seq(border));
    };
}

/// Exactly two identical full lines followed by a differing full line:
/// both lines of the pair print verbatim, no marker line is ever
/// emitted for the pair, and the differing line prints normally with
/// the squeeze mode reset.
#[verifier::rlimit(100)]
pub proof fn lemma_render_two_identical_then_differs(
    l: Seq<u8>,
    m: Seq<u8>,
    show_color: bool,
    border: BorderStyle,
    disp: nat,
)
    requires
        l.len() == 16,
        m.len() == 16,
        m != l,
    ensures
        pm_run(pm_start(show_color, border, true, disp), rep_bytes(l, 2) + m).out
            == header_frame_seq(border) + line_text_seq(l, disp, show_color, border)
            + line_text_seq(l, (disp + 16) as nat, show_color, border) + line_text_seq(
            m,
            (disp + 32) as nat,
            show_color,
            border,
        ) + footer_frame_seq(border),
{
    let v0 = pm_start(show_color, border, true, disp);
    let hd = header_frame_seq(border);
    let line1 = line_text_seq(l, disp, show_color, border);
    let line2 = line_text_seq(l, (disp + 16) as nat, show_color, border);
    let lm = line_text_seq(m, (disp + 32) as nat, show_color, border);
    lemma_consume_append(v0, rep_bytes(l, 2), m);
    let v2 = lemma_consume_two_identical(l, show_color, border, disp);
    let i = lemma_neq_index(m, l);
    let f = sq_feed(v2.sq, m);
    lemma_sq_feed_mismatch(v2.sq, m, i);
    lemma_sq_feed_no_prev(v2.sq, m);
    assert(f.enabled);
    assert(!sq_is_dup_spec(f));
    assert(sq_action_spec(f) == SqueezeAction::Ignore);
    assert(pm_aligned(v2));
    assert(pm_offset_pos(v2) == disp + 32);
    let v5 = lemma_one_line_step(v2, m);
    assert(v5.out =~= v2.out + lm) by {
        assert(pm_indicator(v2).out == v2.out);
    };
    assert(v5.sq.mode == SqueezeMode::Idle);
    assert(!sq_active_spec(v5.sq));
    let v6 = pm_print_textline(v5);
    assert(v6 == v5);
    assert(v5.header_was_printed);
    let out_final = pm_run(v0, rep_bytes(l, 2) + m).out;
    assert(out_final == (hd + line1 + line2 + lm) + footer_frame_seq(border));
}

} // verus!
