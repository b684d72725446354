//! The monochrome framebuffer: 64x32 pixels packed one bit per pixel, eight
//! bytes per row, most significant bit leftmost. Sprites are composited by
//! XOR, eight pixels wide, one byte per sprite row; compositing reports a
//! collision when it turns some lit pixel off.

use vstd::prelude::*;

verus! {

/// Screen width in pixels.
pub const SCREEN_WIDTH: usize = 64;

/// Screen height in pixels.
pub const SCREEN_HEIGHT: usize = 32;

/// The host display backend. It is handed the packed buffer whenever the
/// picture changes; nothing is promised about what it does with it.
pub trait DisplayOutput {
    /// Presents the 256-byte packed buffer.
    fn display_buffer(&mut self, buffer: &Vec<u8>);
}

/// The packed pixel buffer together with the display backend it redraws to.
pub struct ScreenBuffer<D: DisplayOutput> {
    /// One bit per pixel, row-major, 8 bytes per row, MSB leftmost.
    pub packed_pixels: Vec<u8>,
    /// The host backend signalled after every visible change.
    pub display_output: D,
}

/// Whether pixel (`row`, `col`) is lit in a packed buffer.
pub open spec fn pixel_on(buf: Seq<u8>, row: int, col: int) -> bool {
    ((buf[row * 8 + col / 8] >> ((7 - col % 8) as u8)) & 1) == 1
}

/// Whether column `c` (0 = leftmost) of the sprite row byte `b` is lit.
pub open spec fn sprite_px(b: u8, c: int) -> bool {
    ((b >> ((7 - c) as u8)) & 1) == 1
}

/// The all-dark buffer.
pub open spec fn blank() -> Seq<u8> {
    Seq::new(256, |i: int| 0u8)
}

/// What compositing `sprite` at (`x`, `y`) does to a buffer: every pixel in
/// the sprite rectangle is XORed with the matching sprite bit, every pixel
/// outside it is untouched.
pub open spec fn blit_ok(
    old_buf: Seq<u8>,
    new_buf: Seq<u8>,
    x: int,
    y: int,
    sprite: Seq<u8>,
) -> bool {
    &&& new_buf.len() == 256
    &&& forall|row: int, col: int|
        y <= row < y + sprite.len() && x <= col < x + 8 ==> #[trigger] pixel_on(new_buf, row, col)
            == (pixel_on(old_buf, row, col) != sprite_px(sprite[row - y], col - x))
    &&& forall|row: int, col: int|
        0 <= row < 32 && 0 <= col < 64 && !(y <= row < y + sprite.len() && x <= col < x + 8)
            ==> #[trigger] pixel_on(new_buf, row, col) == pixel_on(old_buf, row, col)
}

/// Whether compositing `sprite` at (`x`, `y`) turns some lit pixel off: a lit
/// sprite bit lands on a lit buffer pixel.
pub open spec fn blit_collides(buf: Seq<u8>, x: int, y: int, sprite: Seq<u8>) -> bool {
    exists|row: int, col: int|
        y <= row < y + sprite.len() && x <= col < x + 8 && #[trigger] pixel_on(buf, row, col)
            && sprite_px(sprite[row - y], col - x)
}

/// The mask of the high `off` bits of a byte: the bits of the right target
/// byte covered by a sprite row whose left edge sits `off` pixels into the
/// left target byte.
pub open spec fn himask(off: u8) -> u8 {
    0xFFu8 << ((8 - off) as u8)
}

/// The 8-pixel window starting `off` pixels into byte `l` and running into
/// byte `r`: the low `8 - off` bits of `l` shifted to the top, the high `off`
/// bits of `r` shifted to the bottom.
pub open spec fn window(l: u8, r: u8, off: u8) -> u8 {
    (((l & !himask(off)) << off) | ((r & himask(off)) >> ((8 - off) as u8)))
}

/// The left target byte after XORing sprite row `s` into the window: the
/// window result re-shifted down, the untouched high `off` bits of `l` kept.
pub open spec fn wleft(l: u8, r: u8, s: u8, off: u8) -> u8 {
    (((window(l, r, off) ^ s) >> off) | (l & himask(off)))
}

/// The right target byte after XORing sprite row `s` into the window: the
/// window result re-shifted up, the untouched low `8 - off` bits of `r` kept.
pub open spec fn wright(l: u8, r: u8, s: u8, off: u8) -> u8 {
    (((window(l, r, off) ^ s) << ((8 - off) as u8)) | (r & !himask(off)))
}

/// Where every bit of the window, and of the two written-back target bytes,
/// comes from: the split of a sprite row across two target bytes, bit by bit.
proof fn lemma_unaligned_bits(l: u8, r: u8, s: u8, off: u8)
    requires
        1 <= off < 8,
    ensures
        forall|p: u8|
            p < 8 ==> ((#[trigger] (wleft(l, r, s, off) >> p) & 1) == 1) == (if p >= 8 - off {
                ((l >> p) & 1) == 1
            } else {
                (((l >> p) & 1) == 1) != (((s >> ((p + off) as u8)) & 1) == 1)
            }),
        forall|q: u8|
            q < 8 ==> ((#[trigger] (wright(l, r, s, off) >> q) & 1) == 1) == (if q < 8 - off {
                ((r >> q) & 1) == 1
            } else {
                (((r >> q) & 1) == 1) != (((s >> ((q + off - 8) as u8)) & 1) == 1)
            }),
        forall|w: u8|
            w < 8 ==> ((#[trigger] (window(l, r, off) >> w) & 1) == 1) == (if w >= off {
                ((l >> ((w - off) as u8)) & 1) == 1
            } else {
                ((r >> ((w + 8 - off) as u8)) & 1) == 1
            }),
{
    assert(forall|p: u8|
        p < 8 ==> ((#[trigger] (wleft(l, r, s, off) >> p) & 1) == 1) == (if p >= 8 - off {
            ((l >> p) & 1) == 1
        } else {
            (((l >> p) & 1) == 1) != (((s >> ((p + off) as u8)) & 1) == 1)
        })) by (bit_vector)
        requires
            1 <= off < 8,
    ;
    assert(forall|q: u8|
        q < 8 ==> ((#[trigger] (wright(l, r, s, off) >> q) & 1) == 1) == (if q < 8 - off {
            ((r >> q) & 1) == 1
        } else {
            (((r >> q) & 1) == 1) != (((s >> ((q + off - 8) as u8)) & 1) == 1)
        })) by (bit_vector)
        requires
            1 <= off < 8,
    ;
    assert(forall|w: u8|
        w < 8 ==> ((#[trigger] (window(l, r, off) >> w) & 1) == 1) == (if w >= off {
            ((l >> ((w - off) as u8)) & 1) == 1
        } else {
            ((r >> ((w + 8 - off) as u8)) & 1) == 1
        })) by (bit_vector)
        requires
            1 <= off < 8,
    ;
}

/// XOR flips exactly the bits that are set in the operand.
proof fn lemma_xor_bit(a: u8, b: u8, k: u8)
    requires
        k < 8,
    ensures
        ((((a ^ b) >> k) & 1) == 1) == ((((a >> k) & 1) == 1) != (((b >> k) & 1) == 1)),
{
    assert(((((a ^ b) >> k) & 1) == 1) == ((((a >> k) & 1) == 1) != (((b >> k) & 1) == 1)))
        by (bit_vector)
        requires
            k < 8,
    ;
}

/// A non-zero byte has some lit bit.
proof fn lemma_byte_has_bit(c: u8)
    requires
        c != 0,
    ensures
        exists|k: u8| k < 8 && #[trigger] ((c >> k) & 1) == 1,
{
    assert(((c >> 0) & 1) == 1 || ((c >> 1) & 1) == 1 || ((c >> 2) & 1) == 1 || ((c >> 3) & 1) == 1
        || ((c >> 4) & 1) == 1 || ((c >> 5) & 1) == 1 || ((c >> 6) & 1) == 1 || ((c >> 7) & 1)
        == 1) by (bit_vector)
        requires
            c != 0,
    ;
    if ((c >> 0) & 1) == 1 {
        assert(0u8 < 8 && ((c >> 0u8) & 1) == 1);
    } else if ((c >> 1) & 1) == 1 {
        assert(1u8 < 8 && ((c >> 1u8) & 1) == 1);
    } else if ((c >> 2) & 1) == 1 {
        assert(2u8 < 8 && ((c >> 2u8) & 1) == 1);
    } else if ((c >> 3) & 1) == 1 {
        assert(3u8 < 8 && ((c >> 3u8) & 1) == 1);
    } else if ((c >> 4) & 1) == 1 {
        assert(4u8 < 8 && ((c >> 4u8) & 1) == 1);
    } else if ((c >> 5) & 1) == 1 {
        assert(5u8 < 8 && ((c >> 5u8) & 1) == 1);
    } else if ((c >> 6) & 1) == 1 {
        assert(6u8 < 8 && ((c >> 6u8) & 1) == 1);
    } else {
        assert(7u8 < 8 && ((c >> 7u8) & 1) == 1);
    }
}

/// A byte AND is non-zero exactly when the two bytes share a lit bit.
proof fn lemma_and_nonzero(a: u8, b: u8)
    ensures
        (a & b != 0) <==> exists|k: u8| k < 8 && #[trigger] ((a >> k) & 1) == 1 && ((b >> k) & 1)
            == 1,
{
    assert(forall|k: u8|
        ((((a & b) >> k) & 1) == 1) == (#[trigger] ((a >> k) & 1) == 1 && ((b >> k) & 1) == 1))
        by (bit_vector);
    if a & b != 0 {
        lemma_byte_has_bit(a & b);
        let k = choose|k: u8| k < 8 && #[trigger] (((a & b) >> k) & 1) == 1;
        assert(k < 8 && ((a >> k) & 1) == 1 && ((b >> k) & 1) == 1);
    }
    if exists|k: u8| k < 8 && #[trigger] ((a >> k) & 1) == 1 && ((b >> k) & 1) == 1 {
        let k = choose|k: u8| k < 8 && #[trigger] ((a >> k) & 1) == 1 && ((b >> k) & 1) == 1;
        assert((((a & b) >> k) & 1) == 1);
        assert(a & b != 0) by (bit_vector)
            requires
                (((a & b) >> k) & 1) == 1,
        ;
    }
}

/// The XOR self-inverse and identity facts the compositing loop leans on.
proof fn lemma_xor_basics(a: u8, b: u8)
    ensures
        a ^ 0 == a,
        a & 0 == 0,
        ((a ^ b) == a) <==> (b == 0),
        (a & !(a ^ b)) == (a & b),
{
    assert(a ^ 0 == a && a & 0 == 0 && (((a ^ b) == a) <==> (b == 0)) && (a & !(a ^ b)) == (a & b))
        by (bit_vector);
}

/// A bit extraction yields 0 or 1.
proof fn lemma_bit01(a: u8, k: u8)
    ensures
        ((a >> k) & 1) == 0 || ((a >> k) & 1) == 1,
{
    assert(((a >> k) & 1) == 0 || ((a >> k) & 1) == 1) by (bit_vector);
}

/// Two bytes whose eight bits agree are equal.
proof fn lemma_bits_determine_byte(a: u8, b: u8)
    requires
        forall|k: u8| k < 8 ==> #[trigger] ((a >> k) & 1) == ((b >> k) & 1),
    ensures
        a == b,
{
    assert(((a >> 0) & 1) == ((b >> 0) & 1));
    assert(((a >> 1) & 1) == ((b >> 1) & 1));
    assert(((a >> 2) & 1) == ((b >> 2) & 1));
    assert(((a >> 3) & 1) == ((b >> 3) & 1));
    assert(((a >> 4) & 1) == ((b >> 4) & 1));
    assert(((a >> 5) & 1) == ((b >> 5) & 1));
    assert(((a >> 6) & 1) == ((b >> 6) & 1));
    assert(((a >> 7) & 1) == ((b >> 7) & 1));
    assert(a == b) by (bit_vector)
        requires
            ((a >> 0) & 1) == ((b >> 0) & 1),
            ((a >> 1) & 1) == ((b >> 1) & 1),
            ((a >> 2) & 1) == ((b >> 2) & 1),
            ((a >> 3) & 1) == ((b >> 3) & 1),
            ((a >> 4) & 1) == ((b >> 4) & 1),
            ((a >> 5) & 1) == ((b >> 5) & 1),
            ((a >> 6) & 1) == ((b >> 6) & 1),
            ((a >> 7) & 1) == ((b >> 7) & 1),
    ;
}

/// Compositing the same sprite twice at the same spot undoes itself: the
/// buffer returns byte-for-byte to what it was. The first composite collides
/// exactly where the sprite is lit over an already-lit pixel; the second
/// collides exactly where the sprite is lit over an originally dark pixel —
/// on a cleared screen, the first never collides and the second always does
/// as soon as the sprite has any lit pixel.
pub proof fn lemma_double_blit(
    b0: Seq<u8>,
    b1: Seq<u8>,
    b2: Seq<u8>,
    x: int,
    y: int,
    sprite: Seq<u8>,
)
    requires
        b0.len() == 256,
        0 <= x,
        x + 8 <= 64,
        0 <= y,
        y + sprite.len() <= 32,
        blit_ok(b0, b1, x, y, sprite),
        blit_ok(b1, b2, x, y, sprite),
    ensures
        b2 =~= b0,
        blit_collides(b1, x, y, sprite) <==> (exists|row: int, col: int|
            y <= row < y + sprite.len() && x <= col < x + 8 && !#[trigger] pixel_on(b0, row, col)
                && sprite_px(sprite[row - y], col - x)),
{
    // Every pixel of the doubly-composited buffer equals the original.
    assert forall|row: int, col: int| 0 <= row < 32 && 0 <= col < 64 implies #[trigger] pixel_on(
        b2,
        row,
        col,
    ) == pixel_on(b0, row, col) by {
        if y <= row < y + sprite.len() && x <= col < x + 8 {
            assert(pixel_on(b1, row, col) == (pixel_on(b0, row, col) != sprite_px(
                sprite[row - y],
                col - x,
            )));
            assert(pixel_on(b2, row, col) == (pixel_on(b1, row, col) != sprite_px(
                sprite[row - y],
                col - x,
            )));
        }
    }
    // Pixel equality everywhere makes the bytes equal.
    assert forall|i: int| 0 <= i < 256 implies b2[i] == b0[i] by {
        let row = i / 8;
        let bc = i % 8;
        assert(i == 8 * (i / 8) + i % 8);
        assert forall|k: u8| k < 8 implies #[trigger] ((b2[i] >> k) & 1) == ((b0[i] >> k) & 1) by {
            let col = bc * 8 + 7 - k;
            lemma_div8(bc, 7 - k);
            assert(col / 8 == bc && col % 8 == 7 - k);
            assert(0 <= row < 32 && 0 <= col < 64);
            assert(pixel_on(b2, row, col) == pixel_on(b0, row, col));
            assert(row * 8 + col / 8 == i);
            lemma_bit01(b2[i], (7 - col % 8) as u8);
            lemma_bit01(b0[i], (7 - col % 8) as u8);
        }
        lemma_bits_determine_byte(b2[i], b0[i]);
    }
    // The second collision happens exactly on sprite bits over dark pixels.
    if blit_collides(b1, x, y, sprite) {
        let (row, col) = choose|row: int, col: int|
            y <= row < y + sprite.len() && x <= col < x + 8 && #[trigger] pixel_on(b1, row, col)
                && sprite_px(sprite[row - y], col - x);
        assert(pixel_on(b1, row, col) == (pixel_on(b0, row, col) != sprite_px(
            sprite[row - y],
            col - x,
        )));
        assert(!pixel_on(b0, row, col) && sprite_px(sprite[row - y], col - x));
    }
    if exists|row: int, col: int|
        y <= row < y + sprite.len() && x <= col < x + 8 && !#[trigger] pixel_on(b0, row, col)
            && sprite_px(sprite[row - y], col - x) {
        let (row, col) = choose|row: int, col: int|
            y <= row < y + sprite.len() && x <= col < x + 8 && !#[trigger] pixel_on(b0, row, col)
                && sprite_px(sprite[row - y], col - x);
        assert(pixel_on(b1, row, col) == (pixel_on(b0, row, col) != sprite_px(
            sprite[row - y],
            col - x,
        )));
        assert(pixel_on(b1, row, col) && sprite_px(sprite[row - y], col - x));
        assert(blit_collides(b1, x, y, sprite));
    }
}

/// Splitting a non-negative index into an 8-byte row and a byte within it.
proof fn lemma_div8(b: int, a: int)
    requires
        0 <= a < 8,
        0 <= b,
    ensures
        (b * 8 + a) / 8 == b,
        (b * 8 + a) % 8 == a,
{
    assert((b * 8 + a) / 8 == b && (b * 8 + a) % 8 == a) by (nonlinear_arith)
        requires
            0 <= a < 8 && 0 <= b,
    ;
}

/// Builds the 256 zero bytes of a dark screen.
fn zeroed_buffer() -> (v: Vec<u8>)
    ensures
        v@ == blank(),
{
    let mut v: Vec<u8> = Vec::new();
    let mut i: usize = 0;
    while i < 256
        invariant
            i <= 256,
            v@.len() == i,
            forall|j: int| 0 <= j < i ==> v@[j] == 0u8,
        decreases 256 - i,
    {
        v.push(0u8);
        i += 1;
    }
    assert(v@ =~= blank());
    v
}

impl<D: DisplayOutput> ScreenBuffer<D> {
    /// The buffer holds exactly its 256 bytes.
    pub open spec fn wf(self) -> bool {
        self.packed_pixels@.len() == 256
    }

    /// Builds a dark screen around the given display backend.
    pub fn new(disp: D) -> (s: ScreenBuffer<D>)
        ensures
            s.wf(),
            s.packed_pixels@ == blank(),
    {
        ScreenBuffer { packed_pixels: zeroed_buffer(), display_output: disp }
    }

    /// Darkens every pixel and has the backend redraw.
    pub fn clear_screen(&mut self)
        requires
            old(self).wf(),
        ensures
            final(self).wf(),
            final(self).packed_pixels@ == blank(),
    {
        self.packed_pixels = zeroed_buffer();
        self.display_output.display_buffer(&self.packed_pixels);
    }

    /// Composites an 8-pixel-wide sprite at (`x`, `y`): XORs each sprite row
    /// into the buffer and reports whether some lit pixel was turned off. The
    /// sprite must lie wholly on the 64x32 screen; no wrapping is done. When
    /// the picture changed, the display backend is handed the new buffer.
    pub fn put_sprite(&mut self, x: u8, y: u8, sprite: &[u8]) -> (collided: bool)
        requires
            old(self).wf(),
            x < 64,
            y < 32,
            y + sprite@.len() <= 32,
            x % 8 != 0 ==> x + 8 <= 64,
        ensures
            final(self).wf(),
            blit_ok(
                old(self).packed_pixels@,
                final(self).packed_pixels@,
                x as int,
                y as int,
                sprite@,
            ),
            collided == blit_collides(old(self).packed_pixels@, x as int, y as int, sprite@),
    {
        if x % 8 == 0 {
            return self.put_sprite_simple(x, y, sprite);
        }
        let ghost buf0 = self.packed_pixels@;
        let ghost len = sprite@.len() as int;
        let mut collided = false;
        let mut needs_draw = false;

        let offset = x % 8;
        let high_mask: u8 = 0xFF << (8 - offset);
        let low_mask = !high_mask;
        let xb = (x as usize) / 8;
        proof {
            assert(high_mask == himask(offset));
            assert(x as int == 8 * (x as int / 8) + x as int % 8);
            assert(xb <= 6);
        }
        let mut row: usize = 0;
        while row < sprite.len()
            invariant
                self.wf(),
                buf0 == old(self).packed_pixels@,
                buf0.len() == 256,
                len == sprite@.len(),
                x < 64,
                y < 32,
                y + len <= 32,
                1 <= offset < 8,
                offset == x % 8,
                high_mask == himask(offset),
                low_mask == !high_mask,
                xb == x as int / 8,
                xb <= 6,
                row <= len,
                forall|i: int|
                    0 <= i < 256 ==> #[trigger] self.packed_pixels@[i] == (if i % 8 == xb && y
                        <= i / 8 < y + row {
                        wleft(buf0[i], buf0[i + 1], sprite@[i / 8 - y], offset)
                    } else if i % 8 == xb + 1 && y <= i / 8 < y + row {
                        wright(buf0[i - 1], buf0[i], sprite@[i / 8 - y], offset)
                    } else {
                        buf0[i]
                    }),
                collided <==> exists|r: int|
                    0 <= r < row && (window(buf0[(y + r) * 8 + xb], buf0[(y + r) * 8 + xb + 1],
                        offset) & #[trigger] sprite@[r]) != 0,
            decreases len - row,
        {
            let ghost prev = self.packed_pixels@;
            let ghost was = collided;
            let cur_pos = (x as usize) / 8 + (y as usize + row) * 8;
            proof {
                lemma_div8(y + row, xb as int);
                lemma_div8(y + row, xb as int + 1);
            }
            let left_packet = self.packed_pixels[cur_pos];
            let right_packet = self.packed_pixels[cur_pos + 1];

            let top_bits = (left_packet & low_mask) << offset;
            let bottom_bits = (right_packet & high_mask) >> (8 - offset);
            proof {
                assert(top_bits == (left_packet & !himask(offset)) << offset);
                assert(bottom_bits == (right_packet & himask(offset)) >> ((8 - offset) as u8));
                assert(top_bits + bottom_bits < 256 && top_bits + bottom_bits == window(
                    left_packet,
                    right_packet,
                    offset,
                )) by (bit_vector)
                    requires
                        1 <= offset < 8,
                        top_bits == (left_packet & !himask(offset)) << offset,
                        bottom_bits == (right_packet & himask(offset)) >> ((8 - offset) as u8),
                ;
            }
            let cur_pixels = top_bits + bottom_bits;
            let next_pixels = cur_pixels ^ sprite[row];
            proof {
                lemma_xor_basics(cur_pixels, sprite@[row as int]);
            }
            if cur_pixels != next_pixels {
                self.packed_pixels[cur_pos] = (next_pixels >> offset) | (left_packet & high_mask);
                self.packed_pixels[cur_pos + 1] = (next_pixels << (8 - offset)) | (right_packet
                    & low_mask);
                collided = collided || (0 != (cur_pixels & !next_pixels));
                needs_draw = true;
            }
            proof {
                let pos = cur_pos as int;
                let s = sprite@[row as int];
                assert(prev[pos] == buf0[pos] && prev[pos + 1] == buf0[pos + 1]);
                assert((buf0[pos] == left_packet) && (buf0[pos + 1] == right_packet));
                assert((window(left_packet, right_packet, offset) & s) == (cur_pixels
                    & !next_pixels));
                if cur_pixels == next_pixels {
                    assert(s == 0);
                    assert(wleft(left_packet, right_packet, 0, offset) == left_packet && wright(
                        left_packet,
                        right_packet,
                        0,
                        offset,
                    ) == right_packet) by (bit_vector)
                        requires
                            1 <= offset < 8,
                    ;
                } else {
                    assert(self.packed_pixels@[pos] == ((window(left_packet, right_packet, offset)
                        ^ s) >> offset) | (left_packet & himask(offset)));
                    assert(self.packed_pixels@[pos + 1] == ((window(
                        left_packet,
                        right_packet,
                        offset,
                    ) ^ s) << ((8 - offset) as u8)) | (right_packet & !himask(offset)));
                }
                assert(self.packed_pixels@[pos] == wleft(buf0[pos], buf0[pos + 1], s, offset));
                assert(self.packed_pixels@[pos + 1] == wright(buf0[pos], buf0[pos + 1], s, offset));
                assert forall|i: int| 0 <= i < 256 implies #[trigger] self.packed_pixels@[i] == (
                if i % 8 == xb && y <= i / 8 < y + row + 1 {
                    wleft(buf0[i], buf0[i + 1], sprite@[i / 8 - y], offset)
                } else if i % 8 == xb + 1 && y <= i / 8 < y + row + 1 {
                    wright(buf0[i - 1], buf0[i], sprite@[i / 8 - y], offset)
                } else {
                    buf0[i]
                }) by {
                    assert(i == 8 * (i / 8) + i % 8);
                    if i != pos && i != pos + 1 {
                        assert(self.packed_pixels@[i] == prev[i]);
                    }
                }
                if collided {
                    if was {
                        let r = choose|r: int|
                            0 <= r < row && (window(buf0[(y + r) * 8 + xb], buf0[(y + r) * 8 + xb
                                + 1], offset) & #[trigger] sprite@[r]) != 0;
                        assert(0 <= r < row + 1 && (window(buf0[(y + r) * 8 + xb], buf0[(y + r) * 8
                            + xb + 1], offset) & sprite@[r]) != 0);
                    } else {
                        assert((window(buf0[(y + row as int) * 8 + xb], buf0[(y + row as int) * 8
                            + xb + 1], offset) & sprite@[row as int]) != 0);
                        assert(exists|r: int|
                            0 <= r < row + 1 && (window(buf0[(y + r) * 8 + xb], buf0[(y + r) * 8
                                + xb + 1], offset) & #[trigger] sprite@[r]) != 0);
                    }
                } else {
                    assert forall|r: int| 0 <= r < row + 1 implies (window(
                        buf0[(y + r) * 8 + xb],
                        buf0[(y + r) * 8 + xb + 1],
                        offset,
                    ) & #[trigger] sprite@[r]) == 0 by {
                        if r == row as int {
                            assert((window(buf0[(y + r) * 8 + xb], buf0[(y + r) * 8 + xb + 1],
                                offset) & sprite@[r]) == (cur_pixels & !next_pixels));
                        }
                    }
                }
            }
            row += 1;
        }
        proof {
            self.lemma_unaligned_blit(buf0, x as int, y as int, sprite@, collided);
        }
        if needs_draw {
            self.display_output.display_buffer(&self.packed_pixels);
        }
        collided
    }

    /// Lifts the byte-level result of the unaligned compositing loop to the
    /// pixel-level statement of `blit_ok` and `blit_collides`.
    proof fn lemma_unaligned_blit(&self, buf0: Seq<u8>, x: int, y: int, sprite: Seq<u8>, col: bool)
        requires
            self.wf(),
            buf0.len() == 256,
            0 <= x < 64,
            0 <= y < 32,
            x % 8 != 0,
            x + 8 <= 64,
            y + sprite.len() <= 32,
            forall|i: int|
                0 <= i < 256 ==> #[trigger] self.packed_pixels@[i] == (if i % 8 == x / 8 && y <= i
                    / 8 < y + sprite.len() {
                    wleft(buf0[i], buf0[i + 1], sprite[i / 8 - y], (x % 8) as u8)
                } else if i % 8 == x / 8 + 1 && y <= i / 8 < y + sprite.len() {
                    wright(buf0[i - 1], buf0[i], sprite[i / 8 - y], (x % 8) as u8)
                } else {
                    buf0[i]
                }),
            col <==> exists|r: int|
                0 <= r < sprite.len() && (window(buf0[(y + r) * 8 + x / 8], buf0[(y + r) * 8 + x
                    / 8 + 1], (x % 8) as u8) & #[trigger] sprite[r]) != 0,
        ensures
            blit_ok(buf0, self.packed_pixels@, x, y, sprite),
            col == blit_collides(buf0, x, y, sprite),
    {
        let new_buf = self.packed_pixels@;
        let off = (x % 8) as u8;
        let xb = x / 8;
        assert(x == 8 * xb + off);
        assert(xb <= 6);
        // Pixels under the sprite rectangle are XORed with the sprite bits.
        assert forall|row: int, c: int|
            y <= row < y + sprite.len() && x <= c < x + 8 implies #[trigger] pixel_on(
            new_buf,
            row,
            c,
        ) == (pixel_on(buf0, row, c) != sprite_px(sprite[row - y], c - x)) by {
            let s = sprite[row - y];
            let il = row * 8 + xb;
            lemma_div8(row, xb);
            lemma_div8(row, xb + 1);
            let l = buf0[il];
            let r = buf0[il + 1];
            lemma_unaligned_bits(l, r, s, off);
            if c - x < 8 - off {
                // The column lands in the left target byte.
                lemma_div8(xb, off + c - x);
                assert(c / 8 == xb && c % 8 == off + c - x);
                assert(new_buf[il] == wleft(l, r, s, off));
                let p = (7 - c % 8) as u8;
                assert(p < 8 - off && p + off == 7 - (c - x));
            } else {
                // The column lands in the right target byte.
                lemma_div8(xb + 1, off + c - x - 8);
                assert(c / 8 == xb + 1 && c % 8 == off + c - x - 8);
                assert(new_buf[il + 1] == wright(l, r, s, off));
                let q = (7 - c % 8) as u8;
                assert(q >= 8 - off && q + off - 8 == 7 - (c - x));
            }
        }
        // Pixels outside it are untouched.
        assert forall|row: int, c: int|
            0 <= row < 32 && 0 <= c < 64 && !(y <= row < y + sprite.len() && x <= c < x + 8)
            implies #[trigger] pixel_on(new_buf, row, c) == pixel_on(buf0, row, c) by {
            let i = row * 8 + c / 8;
            lemma_div8(row, c / 8);
            assert(i % 8 == c / 8 && i / 8 == row);
            assert(c == 8 * (c / 8) + c % 8);
            if y <= row < y + sprite.len() {
                let s = sprite[row - y];
                if c / 8 == xb {
                    // Off the sprite but in the left target byte: above the window.
                    assert(c < x && c % 8 < off);
                    lemma_unaligned_bits(buf0[i], buf0[i + 1], s, off);
                    assert(new_buf[i] == wleft(buf0[i], buf0[i + 1], s, off));
                    assert(((7 - c % 8) as u8) >= 8 - off);
                } else if c / 8 == xb + 1 {
                    // Off the sprite but in the right target byte: below the window.
                    assert(c >= x + 8 && c % 8 >= off);
                    lemma_unaligned_bits(buf0[i - 1], buf0[i], s, off);
                    assert(new_buf[i] == wright(buf0[i - 1], buf0[i], s, off));
                    assert(((7 - c % 8) as u8) < 8 - off);
                } else {
                    assert(new_buf[i] == buf0[i]);
                }
            } else {
                assert(new_buf[i] == buf0[i]);
            }
        }
        // The collision flag matches the pixel-level statement.
        if col {
            let r = choose|r: int|
                0 <= r < sprite.len() && (window(buf0[(y + r) * 8 + xb], buf0[(y + r) * 8 + xb + 1],
                    off) & #[trigger] sprite[r]) != 0;
            let il = (y + r) * 8 + xb;
            let l = buf0[il];
            let rt = buf0[il + 1];
            lemma_and_nonzero(window(l, rt, off), sprite[r]);
            let k = choose|k: u8|
                k < 8 && #[trigger] ((window(l, rt, off) >> k) & 1) == 1 && ((sprite[r] >> k) & 1)
                    == 1;
            lemma_unaligned_bits(l, rt, sprite[r], off);
            let c = x + 7 - k;
            lemma_div8(y + r, xb);
            lemma_div8(y + r, xb + 1);
            if k >= off {
                lemma_div8(xb, 7 - k + off);
                assert(c / 8 == xb && c % 8 == 7 - k + off);
                assert(pixel_on(buf0, y + r, c));
            } else {
                lemma_div8(xb + 1, off - k - 1);
                assert(c / 8 == xb + 1 && c % 8 == off - k - 1);
                assert(pixel_on(buf0, y + r, c));
            }
            assert(sprite_px(sprite[r], c - x));
            assert(blit_collides(buf0, x, y, sprite));
        }
        if blit_collides(buf0, x, y, sprite) {
            let (row, c) = choose|row: int, c: int|
                y <= row < y + sprite.len() && x <= c < x + 8 && #[trigger] pixel_on(
                    buf0,
                    row,
                    c,
                ) && sprite_px(sprite[row - y], c - x);
            let s = sprite[row - y];
            let il = row * 8 + xb;
            let l = buf0[il];
            let rt = buf0[il + 1];
            lemma_div8(row, xb);
            lemma_div8(row, xb + 1);
            lemma_unaligned_bits(l, rt, s, off);
            let k = (7 - (c - x)) as u8;
            if c - x < 8 - off {
                lemma_div8(xb, off + c - x);
                assert(c / 8 == xb && c % 8 == off + c - x);
                assert(k >= off && k - off == 7 - c % 8);
                assert(((window(l, rt, off) >> k) & 1) == 1);
            } else {
                lemma_div8(xb + 1, off + c - x - 8);
                assert(c / 8 == xb + 1 && c % 8 == off + c - x - 8);
                assert(k < off && k + 8 - off == 7 - c % 8);
                assert(((window(l, rt, off) >> k) & 1) == 1);
            }
            assert(((s >> k) & 1) == 1);
            lemma_and_nonzero(window(l, rt, off), s);
            assert((window(buf0[(y + (row - y)) * 8 + xb], buf0[(y + (row - y)) * 8 + xb + 1], off)
                & sprite[row - y]) != 0);
            assert(col);
        }
    }

    /// Composites a sprite whose left edge is byte-aligned: each sprite row is
    /// XORed into the single buffer byte it covers.
    pub fn put_sprite_simple(&mut self, x: u8, y: u8, sprite: &[u8]) -> (collided: bool)
        requires
            old(self).wf(),
            x < 64,
            y < 32,
            x % 8 == 0,
            y + sprite@.len() <= 32,
        ensures
            final(self).wf(),
            blit_ok(
                old(self).packed_pixels@,
                final(self).packed_pixels@,
                x as int,
                y as int,
                sprite@,
            ),
            collided == blit_collides(old(self).packed_pixels@, x as int, y as int, sprite@),
    {
        let ghost buf0 = self.packed_pixels@;
        let ghost len = sprite@.len() as int;
        let xb = (x as usize) / 8;
        let mut collided = false;
        let mut needs_draw = false;
        let mut row: usize = 0;
        while row < sprite.len()
            invariant
                self.wf(),
                buf0 == old(self).packed_pixels@,
                buf0.len() == 256,
                len == sprite@.len(),
                x < 64,
                y < 32,
                x % 8 == 0,
                y + len <= 32,
                xb == x as int / 8,
                row <= len,
                forall|i: int|
                    0 <= i < 256 ==> #[trigger] self.packed_pixels@[i] == (if i % 8 == xb && y
                        <= i / 8 < y + row {
                        buf0[i] ^ sprite@[i / 8 - y]
                    } else {
                        buf0[i]
                    }),
                collided <==> exists|r: int|
                    0 <= r < row && (buf0[(y + r) * 8 + xb] & #[trigger] sprite@[r]) != 0,
            decreases len - row,
        {
            let ghost prev = self.packed_pixels@;
            let ghost was = collided;
            let x_bonus = (x as usize) / 8;
            let y_bonus = (row + y as usize) * 8;
            let cur_pos = x_bonus + y_bonus;
            proof {
                lemma_div8(y + row, xb as int);
            }
            let cur_pixels = self.packed_pixels[cur_pos];
            let next_pixels = cur_pixels ^ sprite[row];
            proof {
                lemma_xor_basics(cur_pixels, sprite@[row as int]);
            }
            if cur_pixels != next_pixels {
                self.packed_pixels[cur_pos] = next_pixels;
                collided = collided || (0 != (cur_pixels & !next_pixels));
                needs_draw = true;
            }
            proof {
                let pos = cur_pos as int;
                assert(prev[pos] == buf0[pos]);
                assert((buf0[pos] & sprite@[row as int]) == (cur_pixels & !next_pixels));
                assert(self.packed_pixels@[pos] == buf0[pos] ^ sprite@[row as int]);
                assert forall|i: int| 0 <= i < 256 implies #[trigger] self.packed_pixels@[i] == (
                if i % 8 == xb && y <= i / 8 < y + row + 1 {
                    buf0[i] ^ sprite@[i / 8 - y]
                } else {
                    buf0[i]
                }) by {
                    if i != pos {
                        assert(self.packed_pixels@[i] == prev[i]);
                        if i % 8 == xb && i / 8 == y + row {
                            assert(i == 8 * (i / 8) + i % 8);
                            assert(i == pos);
                        }
                    }
                }
                if collided {
                    if was {
                        let r = choose|r: int|
                            0 <= r < row && (buf0[(y + r) * 8 + xb] & #[trigger] sprite@[r]) != 0;
                        assert(0 <= r < row + 1 && (buf0[(y + r) * 8 + xb] & sprite@[r]) != 0);
                    } else {
                        assert((buf0[(y + row as int) * 8 + xb] & sprite@[row as int]) != 0);
                        assert(exists|r: int|
                            0 <= r < row + 1 && (buf0[(y + r) * 8 + xb] & #[trigger] sprite@[r])
                                != 0);
                    }
                } else {
                    assert forall|r: int| 0 <= r < row + 1 implies (buf0[(y + r) * 8 + xb]
                        & #[trigger] sprite@[r]) == 0 by {
                        if r == row as int {
                            assert((buf0[(y + r) * 8 + xb] & sprite@[r]) == (cur_pixels
                                & !next_pixels));
                        }
                    }
                }
            }
            row += 1;
        }
        proof {
            self.lemma_aligned_blit(buf0, x as int, y as int, sprite@, collided);
        }
        if needs_draw {
            self.display_output.display_buffer(&self.packed_pixels);
        }
        collided
    }

    /// Lifts the byte-level result of the aligned compositing loop to the
    /// pixel-level statement of `blit_ok` and `blit_collides`.
    proof fn lemma_aligned_blit(&self, buf0: Seq<u8>, x: int, y: int, sprite: Seq<u8>, col: bool)
        requires
            self.wf(),
            buf0.len() == 256,
            0 <= x < 64,
            0 <= y < 32,
            x % 8 == 0,
            y + sprite.len() <= 32,
            forall|i: int|
                0 <= i < 256 ==> #[trigger] self.packed_pixels@[i] == (if i % 8 == x / 8 && y <= i
                    / 8 < y + sprite.len() {
                    buf0[i] ^ sprite[i / 8 - y]
                } else {
                    buf0[i]
                }),
            col <==> exists|r: int|
                0 <= r < sprite.len() && (buf0[(y + r) * 8 + x / 8] & #[trigger] sprite[r]) != 0,
        ensures
            blit_ok(buf0, self.packed_pixels@, x, y, sprite),
            col == blit_collides(buf0, x, y, sprite),
    {
        let new_buf = self.packed_pixels@;
        assert(x == 8 * (x / 8));
        // Pixels under the sprite rectangle are XORed with the sprite bits.
        assert forall|row: int, c: int|
            y <= row < y + sprite.len() && x <= c < x + 8 implies #[trigger] pixel_on(
            new_buf,
            row,
            c,
        ) == (pixel_on(buf0, row, c) != sprite_px(sprite[row - y], c - x)) by {
            lemma_div8(x / 8, c - x);
            assert(c / 8 == x / 8 && c % 8 == c - x);
            let i = row * 8 + c / 8;
            lemma_div8(row, x / 8);
            assert(i % 8 == x / 8 && i / 8 == row);
            assert(new_buf[i] == buf0[i] ^ sprite[row - y]);
            lemma_xor_bit(buf0[i], sprite[row - y], (7 - c % 8) as u8);
        }
        // Pixels outside it are untouched.
        assert forall|row: int, c: int|
            0 <= row < 32 && 0 <= c < 64 && !(y <= row < y + sprite.len() && x <= c < x + 8)
            implies #[trigger] pixel_on(new_buf, row, c) == pixel_on(buf0, row, c) by {
            let i = row * 8 + c / 8;
            lemma_div8(row, c / 8);
            assert(i % 8 == c / 8 && i / 8 == row);
            if y <= row < y + sprite.len() {
                // The column is off the sprite, so the byte is a different one.
                assert(c == 8 * (c / 8) + c % 8);
                if c / 8 == x / 8 {
                    assert(x <= c < x + 8);
                }
                assert(new_buf[i] == buf0[i]);
            } else {
                assert(new_buf[i] == buf0[i]);
            }
        }
        // The collision flag matches the pixel-level statement.
        if col {
            let r = choose|r: int|
                0 <= r < sprite.len() && (buf0[(y + r) * 8 + x / 8] & #[trigger] sprite[r]) != 0;
            lemma_and_nonzero(buf0[(y + r) * 8 + x / 8], sprite[r]);
            let k = choose|k: u8|
                k < 8 && #[trigger] ((buf0[(y + r) * 8 + x / 8] >> k) & 1) == 1 && ((sprite[r]
                    >> k) & 1) == 1;
            let c = x + 7 - k;
            lemma_div8(x / 8, 7 - k);
            assert(c / 8 == x / 8 && c % 8 == 7 - k);
            lemma_div8(y + r, x / 8);
            assert(pixel_on(buf0, y + r, c) && sprite_px(sprite[r], c - x));
            assert(blit_collides(buf0, x, y, sprite));
        }
        if blit_collides(buf0, x, y, sprite) {
            let (row, c) = choose|row: int, c: int|
                y <= row < y + sprite.len() && x <= c < x + 8 && #[trigger] pixel_on(
                    buf0,
                    row,
                    c,
                ) && sprite_px(sprite[row - y], c - x);
            lemma_div8(x / 8, c - x);
            assert(c / 8 == x / 8 && c % 8 == c - x);
            let i = row * 8 + x / 8;
            lemma_div8(row, x / 8);
            lemma_and_nonzero(buf0[i], sprite[row - y]);
            assert(((buf0[i] >> ((7 - c % 8) as u8)) & 1) == 1 && ((sprite[row - y] >> ((7 - c
                % 8) as u8)) & 1) == 1);
            assert(buf0[(y + (row - y)) * 8 + x / 8] & sprite[row - y] != 0);
            assert(col);
        }
    }
}

} // verus!
