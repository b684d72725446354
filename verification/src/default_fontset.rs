//! The built-in font: sixteen 8x5-pixel glyphs for the hex digits `0..=F`,
//! five packed rows each, loaded at memory `0x000..0x050` on construction and
//! reset and write-protected afterwards.

use vstd::prelude::*;

verus! {

/// The five packed pixel rows of glyph `g` (a hex digit `0..=0xF`).
pub open spec fn glyph_rows(g: int) -> Seq<u8> {
    if g == 0x0 {
        seq![0xF0u8, 0x90, 0x90, 0x90, 0xF0]
    } else if g == 0x1 {
        seq![0x20u8, 0x60, 0x20, 0x20, 0x70]
    } else if g == 0x2 {
        seq![0xF0u8, 0x10, 0xF0, 0x80, 0xF0]
    } else if g == 0x3 {
        seq![0xF0u8, 0x10, 0xF0, 0x10, 0xF0]
    } else if g == 0x4 {
        seq![0x90u8, 0x90, 0xF0, 0x10, 0x10]
    } else if g == 0x5 {
        seq![0xF0u8, 0x80, 0xF0, 0x10, 0xF0]
    } else if g == 0x6 {
        seq![0xF0u8, 0x80, 0xF0, 0x90, 0xF0]
    } else if g == 0x7 {
        seq![0x90u8, 0x20, 0x40, 0x80, 0x80]
    } else if g == 0x8 {
        seq![0xF0u8, 0x90, 0xF0, 0x90, 0xF0]
    } else if g == 0x9 {
        seq![0xF0u8, 0x90, 0xF0, 0x10, 0xF0]
    } else if g == 0xA {
        seq![0xF0u8, 0x90, 0xF0, 0x90, 0x90]
    } else if g == 0xB {
        seq![0xE0u8, 0x90, 0xE0, 0x90, 0xE0]
    } else if g == 0xC {
        seq![0xF0u8, 0x80, 0x80, 0x80, 0xF0]
    } else if g == 0xD {
        seq![0xE0u8, 0x90, 0x90, 0x90, 0xE0]
    } else if g == 0xE {
        seq![0xF0u8, 0x80, 0xF0, 0x80, 0xF0]
    } else {
        seq![0xF0u8, 0x80, 0xF0, 0x80, 0x80]
    }
}

/// Byte `j` of freshly initialized memory: the font table below `0x050`,
/// zeroes everywhere above it.
pub open spec fn font_mem_byte(j: int) -> u8 {
    if 0 <= j < 80 {
        glyph_rows(j / 5)[j % 5]
    } else {
        0
    }
}

/// The 4096 bytes of memory right after construction or reset.
pub open spec fn initial_memory() -> Seq<u8> {
    Seq::new(4096, |j: int| font_mem_byte(j))
}

/// Splitting an index into a five-byte glyph and a row within it.
pub proof fn lemma_div5(b: int, a: int)
    requires
        0 <= a < 5,
        0 <= b,
    ensures
        (b * 5 + a) / 5 == b,
        (b * 5 + a) % 5 == a,
{
    assert((b * 5 + a) / 5 == b && (b * 5 + a) % 5 == a) by (nonlinear_arith)
        requires
            0 <= a < 5 && 0 <= b,
    ;
}

/// Builds a five-byte vector.
fn five(a: u8, b: u8, c: u8, d: u8, e: u8) -> (v: Vec<u8>)
    ensures
        v@ == seq![a, b, c, d, e],
{
    let mut v: Vec<u8> = Vec::new();
    v.push(a);
    v.push(b);
    v.push(c);
    v.push(d);
    v.push(e);
    assert(v@ =~= seq![a, b, c, d, e]);
    v
}

/// The five packed pixel rows of font glyph `letter`.
pub fn get_raw_char(letter: u8) -> (rows: Vec<u8>)
    requires
        letter < 16,
    ensures
        rows@ == glyph_rows(letter as int),
{
    let rows = match letter {
        0x0 => five(0xF0, 0x90, 0x90, 0x90, 0xF0),
        0x1 => five(0x20, 0x60, 0x20, 0x20, 0x70),
        0x2 => five(0xF0, 0x10, 0xF0, 0x80, 0xF0),
        0x3 => five(0xF0, 0x10, 0xF0, 0x10, 0xF0),
        0x4 => five(0x90, 0x90, 0xF0, 0x10, 0x10),
        0x5 => five(0xF0, 0x80, 0xF0, 0x10, 0xF0),
        0x6 => five(0xF0, 0x80, 0xF0, 0x90, 0xF0),
        0x7 => five(0x90, 0x20, 0x40, 0x80, 0x80),
        0x8 => five(0xF0, 0x90, 0xF0, 0x90, 0xF0),
        0x9 => five(0xF0, 0x90, 0xF0, 0x10, 0xF0),
        0xA => five(0xF0, 0x90, 0xF0, 0x90, 0x90),
        0xB => five(0xE0, 0x90, 0xE0, 0x90, 0xE0),
        0xC => five(0xF0, 0x80, 0x80, 0x80, 0xF0),
        0xD => five(0xE0, 0x90, 0x90, 0x90, 0xE0),
        0xE => five(0xF0, 0x80, 0xF0, 0x80, 0xF0),
        _ => five(0xF0, 0x80, 0xF0, 0x80, 0x80),
    };
    assert(rows@ =~= glyph_rows(letter as int));
    rows
}

} // verus!
