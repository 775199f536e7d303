//! Small byte-sequence building blocks of the renderer: lowercase hex
//! digits, the eight-digit offset column, runs of spaces and repeated
//! border glyphs.

use vstd::prelude::*;

verus! {

/// The lowercase hex digit byte for a value below 16.
pub open spec fn hex_digit_spec(d: u8) -> u8 {
    if d < 10 {
        (0x30 + d) as u8
    } else {
        (0x57 + d) as u8
    }
}

/// The hex digits of `n`, most significant first, with no padding;
/// a single `'0'` for zero.
pub open spec fn hex_rep_spec(n: nat) -> Seq<u8>
    decreases n,
{
    if n < 16 {
        seq![hex_digit_spec(n as u8)]
    } else {
        hex_rep_spec(n / 16).push(hex_digit_spec((n % 16) as u8))
    }
}

/// `n` runs of a single space byte.
pub open spec fn spaces_spec(n: nat) -> Seq<u8> {
    Seq::new(n, |i: int| 0x20u8)
}

/// The hex digits of `n` left-padded with `'0'` to at least eight digits,
/// as the offset column shows them.
pub open spec fn hex8_spec(n: nat) -> Seq<u8> {
    if hex_rep_spec(n).len() >= 8 {
        hex_rep_spec(n)
    } else {
        Seq::new((8 - hex_rep_spec(n).len()) as nat, |i: int| 0x30u8) + hex_rep_spec(n)
    }
}

/// `s` concatenated `n` times.
pub open spec fn repeat_spec(s: Seq<u8>, n: nat) -> Seq<u8>
    decreases n,
{
    if n == 0 {
        Seq::empty()
    } else {
        repeat_spec(s, (n - 1) as nat) + s
    }
}

/// Appends every byte of `src` to `dst`.
pub fn push_bytes(dst: &mut Vec<u8>, src: &Vec<u8>)
    ensures
        final(dst)@ == old(dst)@ + src@,
{
    let n = src.len();
    let mut i: usize = 0;
    while i < n
        invariant
            i <= n,
            n == src@.len(),
            dst@ == old(dst)@ + src@.take(i as int),
        decreases n - i,
    {
        let b = src[i];
        dst.push(b);
        assert(src@.take(i + 1) =~= src@.take(i as int).push(b));
        i = i + 1;
    }
    assert(src@.take(n as int) =~= src@);
}

/// Appends `n` space bytes to `out`.
pub fn push_spaces(out: &mut Vec<u8>, n: usize)
    ensures
        final(out)@ == old(out)@ + spaces_spec(n as nat),
{
    let mut i: usize = 0;
    while i < n
        invariant
            i <= n,
            out@ == old(out)@ + spaces_spec(i as nat),
        decreases n - i,
    {
        out.push(0x20);
        assert(spaces_spec((i + 1) as nat) =~= spaces_spec(i as nat).push(0x20u8));
        i = i + 1;
    }
}

/// Appends `glyph` to `out`, `n` times over.
pub fn push_repeat(out: &mut Vec<u8>, glyph: &Vec<u8>, n: usize)
    ensures
        final(out)@ == old(out)@ + repeat_spec(glyph@, n as nat),
{
    let mut i: usize = 0;
    while i < n
        invariant
            i <= n,
            out@ == old(out)@ + repeat_spec(glyph@, i as nat),
        decreases n - i,
    {
        push_bytes(out, glyph);
        i = i + 1;
    }
}

/// The lowercase hex digit for `d`.
pub fn hex_digit(d: u8) -> (r: u8)
    requires
        d < 16,
    ensures
        r == hex_digit_spec(d),
{
    if d < 10 {
        0x30 + d
    } else {
        0x57 + d
    }
}

/// Appends the unpadded hex digits of `n` to `out`.
pub fn push_hex_rep(n: usize, out: &mut Vec<u8>)
    ensures
        final(out)@ == old(out)@ + hex_rep_spec(n as nat),
    decreases n,
{
    if n < 16 {
        let d = hex_digit(n as u8);
        out.push(d);
        assert(old(out)@.push(d) =~= old(out)@ + hex_rep_spec(n as nat));
    } else {
        push_hex_rep(n / 16, out);
        let d = hex_digit((n % 16) as u8);
        out.push(d);
        assert(out@ =~= old(out)@ + hex_rep_spec(n as nat));
    }
}

/// Appends the offset text for `n` to `out`: hex digits zero-padded to
/// at least eight places.
pub fn push_hex8(n: usize, out: &mut Vec<u8>)
    ensures
        final(out)@ == old(out)@ + hex8_spec(n as nat),
{
    let mut digits: Vec<u8> = Vec::new();
    push_hex_rep(n, &mut digits);
    let pad: usize = if digits.len() < 8 {
        8 - digits.len()
    } else {
        0
    };
    let mut i: usize = 0;
    while i < pad
        invariant
            i <= pad,
            digits@ == hex_rep_spec(n as nat),
            out@ == old(out)@ + Seq::new(i as nat, |j: int| 0x30u8),
        decreases pad - i,
    {
        out.push(0x30);
        assert(Seq::new((i + 1) as nat, |j: int| 0x30u8) =~= Seq::new(i as nat, |j: int| 0x30u8).push(
            0x30u8));
        i = i + 1;
    }
    push_bytes(out, &digits);
    assert(out@ =~= old(out)@ + hex8_spec(n as nat));
}

} // verus!
