//! The monochrome framebuffer and the built-in character font.
//!
//! The framebuffer is a fixed 64x32 grid of boolean pixels kept in a compact
//! bit array; its contents are modelled by the uninterpreted sequence
//! `fb_bits`, and every access goes through a small trusted wrapper. Sprite
//! drawing is specified pixel-wise: each sprite bit is XORed onto the grid,
//! clipped at the screen edge, and a collision is any pixel that goes from
//! set to unset.

use vstd::prelude::*;

use crate::state::{DISPLAY_HEIGHT, DISPLAY_WIDTH};

verus! {

/// The compact bit grid that backs the 64x32 display: 64 32-bit words
/// giving exactly 64 * 32 = 2048 bits on every platform, in row-major
/// order.
#[verifier::external_body]
pub struct Framebuffer {
    bits: bitvec::array::BitArray<[u32; 64], bitvec::order::Lsb0>,
}

/// The pixels held by a framebuffer, in row-major order: bit `y * 64 + x`
/// is the pixel at column `x` of row `y`.
pub uninterp spec fn fb_bits(fb: Framebuffer) -> Seq<bool>;

impl Framebuffer {
    /// Relies on bitvec's `BitArray::ZERO`: an all-zero bit array, whose 64
    /// `u32` elements give exactly 2048 bits.
    #[verifier::external_body]
    pub(crate) fn new() -> (fb: Framebuffer)
        ensures
            fb_bits(fb) == Seq::new((DISPLAY_WIDTH * DISPLAY_HEIGHT) as nat, |i: int| false),
    {
        Framebuffer { bits: bitvec::array::BitArray::ZERO }
    }

    /// Relies on bitvec's `Index<usize> for BitSlice`: reads the bit at a
    /// semantic index below the 2048-bit length.
    #[verifier::external_body]
    pub(crate) fn get(&self, i: usize) -> (b: bool)
        requires
            i < fb_bits(*self).len(),
        ensures
            b == fb_bits(*self)[i as int],
    {
        self.bits[i]
    }

    /// Relies on bitvec's `BitSlice::set`: writes one bit at a semantic
    /// index below the 2048-bit length and leaves every other bit unchanged.
    #[verifier::external_body]
    pub(crate) fn set(&mut self, i: usize, v: bool)
        requires
            i < fb_bits(*old(self)).len(),
        ensures
            fb_bits(*final(self)) == fb_bits(*old(self)).update(i as int, v),
    {
        self.bits.set(i, v);
    }

    /// Relies on bitvec's `BitSlice::fill`: writes the given bit value into
    /// every bit of the array.
    #[verifier::external_body]
    pub(crate) fn fill(&mut self, v: bool)
        ensures
            fb_bits(*final(self)) == Seq::new(fb_bits(*old(self)).len(), |i: int| v),
    {
        self.bits.fill(v);
    }
}

/// The 5-byte rows of the built-in glyph for hexadecimal digit `d`
/// (meaningful for `0 <= d < 16`).
pub open spec fn font_glyph(d: int) -> Seq<u8> {
    if d == 0x0 {
        seq![0xF0u8, 0x90u8, 0x90u8, 0x90u8, 0xF0u8]
    } else if d == 0x1 {
        seq![0x20u8, 0x60u8, 0x20u8, 0x20u8, 0x70u8]
    } else if d == 0x2 {
        seq![0xF0u8, 0x10u8, 0xF0u8, 0x80u8, 0xF0u8]
    } else if d == 0x3 {
        seq![0xF0u8, 0x10u8, 0xF0u8, 0x10u8, 0xF0u8]
    } else if d == 0x4 {
        seq![0x90u8, 0x90u8, 0xF0u8, 0x10u8, 0x10u8]
    } else if d == 0x5 {
        seq![0xF0u8, 0x80u8, 0xF0u8, 0x10u8, 0xF0u8]
    } else if d == 0x6 {
        seq![0xF0u8, 0x80u8, 0xF0u8, 0x90u8, 0xF0u8]
    } else if d == 0x7 {
        seq![0xF0u8, 0x10u8, 0x20u8, 0x40u8, 0x40u8]
    } else if d == 0x8 {
        seq![0xF0u8, 0x90u8, 0xF0u8, 0x90u8, 0xF0u8]
    } else if d == 0x9 {
        seq![0xF0u8, 0x90u8, 0xF0u8, 0x10u8, 0xF0u8]
    } else if d == 0xA {
        seq![0xF0u8, 0x90u8, 0xF0u8, 0x90u8, 0x90u8]
    } else if d == 0xB {
        seq![0xE0u8, 0x90u8, 0xE0u8, 0x90u8, 0xE0u8]
    } else if d == 0xC {
        seq![0xF0u8, 0x80u8, 0x80u8, 0x80u8, 0xF0u8]
    } else if d == 0xD {
        seq![0xE0u8, 0x90u8, 0x90u8, 0x90u8, 0xE0u8]
    } else if d == 0xE {
        seq![0xF0u8, 0x80u8, 0xF0u8, 0x80u8, 0xF0u8]
    } else {
        seq![0xF0u8, 0x80u8, 0xF0u8, 0x80u8, 0x80u8]
    }
}

/// The 80-byte font table: sixteen 5-byte glyphs, digit 0 first.
pub open spec fn font_table() -> Seq<u8> {
    Seq::new(80, |i: int| font_glyph(i / 5)[i % 5])
}

/// One 5-row glyph sprite of the built-in hexadecimal font.
#[derive(Clone, Copy)]
pub struct FontSprite(pub [u8; 5]);

impl FontSprite {
    /// Returns the glyph sprite for a hexadecimal digit, or `None` when the
    /// value is not a single digit (above 0xF).
    pub fn get_font_sprite(digit: u8) -> (r: Option<FontSprite>)
        ensures
            digit < 16 ==> (r matches Some(s) && s.0@ == font_glyph(digit as int)),
            digit >= 16 ==> r is None,
    {
        let r = match digit {
            0x0 => Some(FontSprite([0xF0, 0x90, 0x90, 0x90, 0xF0])),
            0x1 => Some(FontSprite([0x20, 0x60, 0x20, 0x20, 0x70])),
            0x2 => Some(FontSprite([0xF0, 0x10, 0xF0, 0x80, 0xF0])),
            0x3 => Some(FontSprite([0xF0, 0x10, 0xF0, 0x10, 0xF0])),
            0x4 => Some(FontSprite([0x90, 0x90, 0xF0, 0x10, 0x10])),
            0x5 => Some(FontSprite([0xF0, 0x80, 0xF0, 0x10, 0xF0])),
            0x6 => Some(FontSprite([0xF0, 0x80, 0xF0, 0x90, 0xF0])),
            0x7 => Some(FontSprite([0xF0, 0x10, 0x20, 0x40, 0x40])),
            0x8 => Some(FontSprite([0xF0, 0x90, 0xF0, 0x90, 0xF0])),
            0x9 => Some(FontSprite([0xF0, 0x90, 0xF0, 0x10, 0xF0])),
            0xA => Some(FontSprite([0xF0, 0x90, 0xF0, 0x90, 0x90])),
            0xB => Some(FontSprite([0xE0, 0x90, 0xE0, 0x90, 0xE0])),
            0xC => Some(FontSprite([0xF0, 0x80, 0x80, 0x80, 0xF0])),
            0xD => Some(FontSprite([0xE0, 0x90, 0x90, 0x90, 0xE0])),
            0xE => Some(FontSprite([0xF0, 0x80, 0xF0, 0x80, 0xF0])),
            0xF => Some(FontSprite([0xF0, 0x80, 0xF0, 0x80, 0x80])),
            _ => None,
        };
        proof {
            if digit < 16 {
                assert(r matches Some(s) && s.0@ =~= font_glyph(digit as int));
            }
        }
        r
    }

    /// The five row bytes of this glyph.
    pub fn as_bytes(&self) -> (r: &[u8; 5])
        ensures
            r@ == self.0@,
    {
        &self.0
    }
}

/// Whether bit `col` (0 = leftmost pixel) of a sprite row byte is set.
pub open spec fn sprite_row_bit(row_byte: u8, col: int) -> bool {
    (row_byte >> (7 - col)) & 1 == 1
}

/// Whether the sprite drawn at origin `(x, y)` with `rows` rows covers the
/// screen position `(px, py)`.
pub open spec fn sprite_covers(x: int, y: int, rows: int, px: int, py: int) -> bool {
    &&& x <= px < x + 8
    &&& y <= py < y + rows
}

/// Whether XOR-drawing `sprite` at origin `(x, y)` toggles the screen
/// position with row-major index `i`: the position must lie under the sprite
/// body and the corresponding sprite bit must be set.
pub open spec fn pixel_toggled(sprite: Seq<u8>, x: int, y: int, i: int) -> bool {
    let px = i % (DISPLAY_WIDTH as int);
    let py = i / (DISPLAY_WIDTH as int);
    &&& sprite_covers(x, y, sprite.len() as int, px, py)
    &&& sprite_row_bit(sprite[py - y], px - x)
}

/// The display after XOR-drawing `sprite` at origin `(x, y)`: every covered
/// on-screen pixel is toggled where the sprite bit is set, and every other
/// pixel keeps its value. Positions of the sprite body that fall off screen
/// correspond to no index and are thereby clipped.
pub open spec fn spec_draw_display(d: Seq<bool>, sprite: Seq<u8>, x: int, y: int) -> Seq<bool> {
    Seq::new(
        d.len(),
        |i: int|
            if pixel_toggled(sprite, x, y, i) {
                !d[i]
            } else {
                d[i]
            },
    )
}

/// Whether XOR-drawing `sprite` at `(x, y)` turns any set pixel off, that is,
/// whether some toggled pixel is already set.
pub open spec fn spec_draw_collision(d: Seq<bool>, sprite: Seq<u8>, x: int, y: int) -> bool {
    exists|i: int| 0 <= i < d.len() && pixel_toggled(sprite, x, y, i) && d[i]
}

/// Sprite cells are counted row-major: cell `c` is bit `c % 8` of sprite row
/// `c / 8`. Whether cell `c` of a sprite drawn at `(x, y)` lands on screen.
pub open spec fn cell_visible(x: int, y: int, c: int) -> bool {
    &&& x + c % 8 < DISPLAY_WIDTH
    &&& y + c / 8 < DISPLAY_HEIGHT
}

/// The row-major display index that cell `c` of a sprite drawn at `(x, y)`
/// lands on (meaningful when the cell is visible).
pub open spec fn cell_pixel(x: int, y: int, c: int) -> int {
    (y + c / 8) * (DISPLAY_WIDTH as int) + (x + c % 8)
}

/// Whether the sprite bit of cell `c` is set.
pub open spec fn cell_set(sprite: Seq<u8>, c: int) -> bool {
    sprite_row_bit(sprite[c / 8], c % 8)
}

/// The display after the first `k` cells of the sprite have been XORed on,
/// one cell at a time, in row-major order.
pub open spec fn draw_cells(d: Seq<bool>, sprite: Seq<u8>, x: int, y: int, k: nat) -> Seq<bool>
    decreases k,
{
    if k == 0 {
        d
    } else {
        let c = k - 1;
        let prev = draw_cells(d, sprite, x, y, (k - 1) as nat);
        if cell_visible(x, y, c) && cell_set(sprite, c) {
            prev.update(cell_pixel(x, y, c), !prev[cell_pixel(x, y, c)])
        } else {
            prev
        }
    }
}

/// Whether any of the first `k` cells lands on a pixel that was set in `d`
/// while its sprite bit is set.
pub open spec fn collided_cells(d: Seq<bool>, sprite: Seq<u8>, x: int, y: int, k: nat) -> bool
    decreases k,
{
    if k == 0 {
        false
    } else {
        let c = k - 1;
        collided_cells(d, sprite, x, y, (k - 1) as nat) || (cell_visible(x, y, c) && cell_set(
            sprite,
            c,
        ) && d[cell_pixel(x, y, c)])
    }
}

/// The cell that the screen position `i` lies under when a sprite is drawn
/// at `(x, y)` (meaningful when that position is covered).
pub open spec fn cell_of_pixel(x: int, y: int, i: int) -> int {
    8 * (i / (DISPLAY_WIDTH as int) - y) + (i % (DISPLAY_WIDTH as int) - x)
}

/// Distinct visible cells land on distinct display indices.
proof fn lemma_cell_pixel_injective(x: int, y: int, c1: int, c2: int)
    requires
        0 <= x,
        0 <= y,
        0 <= c1,
        0 <= c2,
        cell_visible(x, y, c1),
        cell_visible(x, y, c2),
        cell_pixel(x, y, c1) == cell_pixel(x, y, c2),
    ensures
        c1 == c2,
{
    let w = DISPLAY_WIDTH as int;
    let px1 = x + c1 % 8;
    let py1 = y + c1 / 8;
    let px2 = x + c2 % 8;
    let py2 = y + c2 / 8;
    assert(0 <= px1 < w && 0 <= px2 < w);
    assert(py1 * w + px1 == py2 * w + px2);
    assert(py1 == py2 && px1 == px2) by {
        if py1 < py2 {
            assert(py1 * w + px1 < (py1 + 1) * w + px2 <= py2 * w + px2) by (nonlinear_arith)
                requires
                    py1 + 1 <= py2,
                    0 <= px1 < w,
                    0 <= px2,
                    w == 64,
            ;
        }
        if py2 < py1 {
            assert(py2 * w + px2 < (py2 + 1) * w + px1 <= py1 * w + px1) by (nonlinear_arith)
                requires
                    py2 + 1 <= py1,
                    0 <= px2 < w,
                    0 <= px1,
                    w == 64,
            ;
        }
    }
    assert(c1 % 8 == c2 % 8 && c1 / 8 == c2 / 8);
    assert(c1 == 8 * (c1 / 8) + c1 % 8);
    assert(c2 == 8 * (c2 / 8) + c2 % 8);
}

/// A pixel whose cell has not yet been processed still holds its original
/// value after the first `k` cells were drawn.
pub(crate) proof fn lemma_draw_cells_untouched(
    d: Seq<bool>,
    sprite: Seq<u8>,
    x: int,
    y: int,
    k: nat,
    c: int,
)
    requires
        d.len() == DISPLAY_WIDTH * DISPLAY_HEIGHT,
        0 <= x < DISPLAY_WIDTH,
        0 <= y < DISPLAY_HEIGHT,
        k <= c,
        cell_visible(x, y, c),
    ensures
        draw_cells(d, sprite, x, y, k)[cell_pixel(x, y, c)] == d[cell_pixel(x, y, c)],
    decreases k,
{
    lemma_cell_pixel_decompose(x, y, c);
    if k > 0 {
        lemma_draw_cells_untouched(d, sprite, x, y, (k - 1) as nat, c);
        let cp = k - 1;
        if cell_visible(x, y, cp) && cell_set(sprite, cp) {
            lemma_cell_pixel_decompose(x, y, cp);
            lemma_draw_cells_preserves_len(d, sprite, x, y, (k - 1) as nat);
            if cell_pixel(x, y, cp) == cell_pixel(x, y, c) {
                lemma_cell_pixel_injective(x, y, cp, c);
                assert(false);
            }
        }
    }
}

/// Drawing cells never changes the length of the display sequence.
pub(crate) proof fn lemma_draw_cells_preserves_len(
    d: Seq<bool>,
    sprite: Seq<u8>,
    x: int,
    y: int,
    k: nat,
)
    requires
        d.len() == DISPLAY_WIDTH * DISPLAY_HEIGHT,
        0 <= x < DISPLAY_WIDTH,
        0 <= y < DISPLAY_HEIGHT,
    ensures
        draw_cells(d, sprite, x, y, k).len() == d.len(),
    decreases k,
{
    if k > 0 {
        lemma_draw_cells_preserves_len(d, sprite, x, y, (k - 1) as nat);
        let c = k - 1;
        if cell_visible(x, y, c) && cell_set(sprite, c) {
            lemma_cell_pixel_decompose(x, y, c);
        }
    }
}

/// The display after the first `k` cells, in closed form: position `i` is
/// toggled exactly when it is covered with a set sprite bit and its cell is
/// among the first `k`.
pub(crate) open spec fn spec_draw_display_upto(
    d: Seq<bool>,
    sprite: Seq<u8>,
    x: int,
    y: int,
    k: int,
) -> Seq<bool> {
    Seq::new(
        d.len(),
        |i: int|
            if pixel_toggled(sprite, x, y, i) && cell_of_pixel(x, y, i) < k {
                !d[i]
            } else {
                d[i]
            },
    )
}

/// Whether any covered set pixel among the first `k` cells was already set.
pub(crate) open spec fn spec_draw_collision_upto(
    d: Seq<bool>,
    sprite: Seq<u8>,
    x: int,
    y: int,
    k: int,
) -> bool {
    exists|i: int|
        0 <= i < d.len() && pixel_toggled(sprite, x, y, i) && cell_of_pixel(x, y, i) < k && d[i]
}

/// Facts tying a visible cell to its display index: the index is in range
/// and decomposes back into the cell's row and column.
pub(crate) proof fn lemma_cell_pixel_decompose(x: int, y: int, c: int)
    requires
        0 <= x < DISPLAY_WIDTH,
        0 <= y < DISPLAY_HEIGHT,
        0 <= c,
        cell_visible(x, y, c),
    ensures
        0 <= cell_pixel(x, y, c) < DISPLAY_WIDTH * DISPLAY_HEIGHT,
        cell_pixel(x, y, c) % (DISPLAY_WIDTH as int) == x + c % 8,
        cell_pixel(x, y, c) / (DISPLAY_WIDTH as int) == y + c / 8,
        cell_of_pixel(x, y, cell_pixel(x, y, c)) == c,
{
    let w = DISPLAY_WIDTH as int;
    let px = x + c % 8;
    let py = y + c / 8;
    assert(0 <= px < w);
    assert(0 <= py < DISPLAY_HEIGHT);
    assert((py * w + px) % w == px && (py * w + px) / w == py) by (nonlinear_arith)
        requires
            0 <= px < w,
            0 <= py,
            w == 64,
    ;
    assert(cell_pixel(x, y, c) < DISPLAY_WIDTH * DISPLAY_HEIGHT) by (nonlinear_arith)
        requires
            cell_pixel(x, y, c) == py * w + px,
            0 <= px < w,
            0 <= py < DISPLAY_HEIGHT,
            w == 64,
    ;
    assert(c == 8 * (c / 8) + c % 8);
}

/// A covered display index decomposes into a cell below `8 * sprite.len()`
/// whose pixel is that index.
proof fn lemma_pixel_cell_decompose(sprite: Seq<u8>, x: int, y: int, i: int)
    requires
        0 <= x < DISPLAY_WIDTH,
        0 <= y < DISPLAY_HEIGHT,
        0 <= i < DISPLAY_WIDTH * DISPLAY_HEIGHT,
        pixel_toggled(sprite, x, y, i) || sprite_covers(
            x,
            y,
            sprite.len() as int,
            i % (DISPLAY_WIDTH as int),
            i / (DISPLAY_WIDTH as int),
        ),
    ensures
        0 <= cell_of_pixel(x, y, i) < 8 * sprite.len(),
        cell_visible(x, y, cell_of_pixel(x, y, i)),
        cell_pixel(x, y, cell_of_pixel(x, y, i)) == i,
        cell_of_pixel(x, y, i) % 8 == i % (DISPLAY_WIDTH as int) - x,
        cell_of_pixel(x, y, i) / 8 == i / (DISPLAY_WIDTH as int) - y,
{
    let w = DISPLAY_WIDTH as int;
    let px = i % w;
    let py = i / w;
    let col = px - x;
    let row = py - y;
    assert(0 <= col < 8 && 0 <= row < sprite.len());
    let c = 8 * row + col;
    assert(c % 8 == col && c / 8 == row) by (nonlinear_arith)
        requires
            c == 8 * row + col,
            0 <= col < 8,
            0 <= row,
    ;
    assert(c < 8 * sprite.len()) by (nonlinear_arith)
        requires
            c == 8 * row + col,
            col < 8,
            row < sprite.len(),
    ;
    assert(0 <= px < w);
    assert(0 <= py < DISPLAY_HEIGHT) by (nonlinear_arith)
        requires
            py == i / w,
            0 <= i < DISPLAY_WIDTH * DISPLAY_HEIGHT,
            w == 64,
    ;
    assert(i == py * w + px);
}

/// The cell-by-cell drawing of the first `k` cells equals its closed form,
/// and so does its collision flag.
pub(crate) proof fn lemma_draw_cells_closed(
    d: Seq<bool>,
    sprite: Seq<u8>,
    x: int,
    y: int,
    k: nat,
)
    requires
        d.len() == DISPLAY_WIDTH * DISPLAY_HEIGHT,
        0 <= x < DISPLAY_WIDTH,
        0 <= y < DISPLAY_HEIGHT,
        k <= 8 * sprite.len(),
    ensures
        draw_cells(d, sprite, x, y, k) == spec_draw_display_upto(d, sprite, x, y, k as int),
        collided_cells(d, sprite, x, y, k) == spec_draw_collision_upto(d, sprite, x, y, k as int),
    decreases k,
{
    if k == 0 {
        assert(draw_cells(d, sprite, x, y, 0) =~= spec_draw_display_upto(d, sprite, x, y, 0));
        if spec_draw_collision_upto(d, sprite, x, y, 0) {
            let i = choose|i: int|
                0 <= i < d.len() && pixel_toggled(sprite, x, y, i) && cell_of_pixel(x, y, i) < 0
                    && d[i];
            lemma_pixel_cell_decompose(sprite, x, y, i);
            assert(false);
        }
    } else {
        let c = (k - 1) as int;
        lemma_draw_cells_closed(d, sprite, x, y, (k - 1) as nat);
        let prev = draw_cells(d, sprite, x, y, (k - 1) as nat);
        if cell_visible(x, y, c) && cell_set(sprite, c) {
            lemma_cell_pixel_decompose(x, y, c);
            let p = cell_pixel(x, y, c);
            assert forall|i: int| 0 <= i < d.len() implies draw_cells(d, sprite, x, y, k)[i]
                == spec_draw_display_upto(d, sprite, x, y, k as int)[i] by {
                if i == p {
                    if c / 8 < sprite.len() {
                        assert(pixel_toggled(sprite, x, y, p));
                    }
                } else {
                    if pixel_toggled(sprite, x, y, i) && cell_of_pixel(x, y, i) == c {
                        lemma_pixel_cell_decompose(sprite, x, y, i);
                        assert(false);
                    }
                }
            }
            assert(draw_cells(d, sprite, x, y, k) =~= spec_draw_display_upto(
                d,
                sprite,
                x,
                y,
                k as int,
            ));
            // Collision: the new cell contributes exactly the witness `p`.
            if collided_cells(d, sprite, x, y, k) {
                if collided_cells(d, sprite, x, y, (k - 1) as nat) {
                    let i = choose|i: int|
                        0 <= i < d.len() && pixel_toggled(sprite, x, y, i) && cell_of_pixel(
                            x,
                            y,
                            i,
                        ) < c && d[i];
                    assert(spec_draw_collision_upto(d, sprite, x, y, k as int));
                } else {
                    assert(d[p]);
                    assert(pixel_toggled(sprite, x, y, p));
                    assert(spec_draw_collision_upto(d, sprite, x, y, k as int));
                }
            }
            if spec_draw_collision_upto(d, sprite, x, y, k as int) {
                let i = choose|i: int|
                    0 <= i < d.len() && pixel_toggled(sprite, x, y, i) && cell_of_pixel(x, y, i)
                        < k && d[i];
                lemma_pixel_cell_decompose(sprite, x, y, i);
                if cell_of_pixel(x, y, i) < c {
                    assert(spec_draw_collision_upto(d, sprite, x, y, c));
                } else {
                    assert(cell_of_pixel(x, y, i) == c);
                    lemma_cell_pixel_injective(x, y, cell_of_pixel(x, y, i), c);
                    assert(i == p);
                    assert(collided_cells(d, sprite, x, y, k));
                }
            }
        } else {
            assert forall|i: int| 0 <= i < d.len() implies draw_cells(d, sprite, x, y, k)[i]
                == spec_draw_display_upto(d, sprite, x, y, k as int)[i] by {
                if pixel_toggled(sprite, x, y, i) && cell_of_pixel(x, y, i) == c {
                    lemma_pixel_cell_decompose(sprite, x, y, i);
                    assert(false);
                }
            }
            assert(draw_cells(d, sprite, x, y, k) =~= spec_draw_display_upto(
                d,
                sprite,
                x,
                y,
                k as int,
            ));
            if spec_draw_collision_upto(d, sprite, x, y, k as int) {
                let i = choose|i: int|
                    0 <= i < d.len() && pixel_toggled(sprite, x, y, i) && cell_of_pixel(x, y, i)
                        < k && d[i];
                lemma_pixel_cell_decompose(sprite, x, y, i);
                if cell_of_pixel(x, y, i) == c {
                    assert(false);
                } else {
                    assert(spec_draw_collision_upto(d, sprite, x, y, c));
                }
            }
            if spec_draw_collision_upto(d, sprite, x, y, c) {
                let i = choose|i: int|
                    0 <= i < d.len() && pixel_toggled(sprite, x, y, i) && cell_of_pixel(x, y, i)
                        < c && d[i];
                assert(spec_draw_collision_upto(d, sprite, x, y, k as int));
            }
        }
    }
}

/// Drawing all cells of the sprite gives exactly the specified display and
/// collision flag.
pub(crate) proof fn lemma_draw_cells_complete(d: Seq<bool>, sprite: Seq<u8>, x: int, y: int)
    requires
        d.len() == DISPLAY_WIDTH * DISPLAY_HEIGHT,
        0 <= x < DISPLAY_WIDTH,
        0 <= y < DISPLAY_HEIGHT,
    ensures
        draw_cells(d, sprite, x, y, (8 * sprite.len()) as nat) == spec_draw_display(
            d,
            sprite,
            x,
            y,
        ),
        collided_cells(d, sprite, x, y, (8 * sprite.len()) as nat) == spec_draw_collision(
            d,
            sprite,
            x,
            y,
        ),
{
    let k = (8 * sprite.len()) as nat;
    lemma_draw_cells_closed(d, sprite, x, y, k);
    assert forall|i: int| 0 <= i < d.len() implies spec_draw_display_upto(
        d,
        sprite,
        x,
        y,
        k as int,
    )[i] == spec_draw_display(d, sprite, x, y)[i] by {
        if pixel_toggled(sprite, x, y, i) {
            lemma_pixel_cell_decompose(sprite, x, y, i);
        }
    }
    assert(spec_draw_display_upto(d, sprite, x, y, k as int) =~= spec_draw_display(d, sprite, x, y));
    if spec_draw_collision_upto(d, sprite, x, y, k as int) {
        let i = choose|i: int|
            0 <= i < d.len() && pixel_toggled(sprite, x, y, i) && cell_of_pixel(x, y, i) < k && d[i];
        assert(spec_draw_collision(d, sprite, x, y));
    }
    if spec_draw_collision(d, sprite, x, y) {
        let i = choose|i: int| 0 <= i < d.len() && pixel_toggled(sprite, x, y, i) && d[i];
        lemma_pixel_cell_decompose(sprite, x, y, i);
        assert(spec_draw_collision_upto(d, sprite, x, y, k as int));
    }
}

/// Drawing the same sprite twice at the same origin restores the display:
/// the second XOR clears exactly the pixels the first one set and restores
/// exactly the ones it cleared.
pub proof fn lemma_draw_twice_restores(d: Seq<bool>, sprite: Seq<u8>, x: int, y: int)
    ensures
        spec_draw_display(spec_draw_display(d, sprite, x, y), sprite, x, y) == d,
{
    assert(spec_draw_display(spec_draw_display(d, sprite, x, y), sprite, x, y) =~= d);
}

/// The collision flag of the second of two identical draws: after drawing a
/// sprite once, drawing it again turns off exactly the pixels the first
/// draw turned on, so the second draw collides exactly when the sprite
/// toggles some pixel that was clear before the first draw.
pub proof fn lemma_second_draw_collision(d: Seq<bool>, sprite: Seq<u8>, x: int, y: int)
    ensures
        spec_draw_collision(spec_draw_display(d, sprite, x, y), sprite, x, y) == (exists|i: int|
            0 <= i < d.len() && pixel_toggled(sprite, x, y, i) && !d[i]),
{
    let d1 = spec_draw_display(d, sprite, x, y);
    if spec_draw_collision(d1, sprite, x, y) {
        let i = choose|i: int| 0 <= i < d1.len() && pixel_toggled(sprite, x, y, i) && d1[i];
        assert(d1[i] == !d[i]);
        assert(0 <= i < d.len() && pixel_toggled(sprite, x, y, i) && !d[i]);
    }
    if exists|i: int| 0 <= i < d.len() && pixel_toggled(sprite, x, y, i) && !d[i] {
        let i = choose|i: int| 0 <= i < d.len() && pixel_toggled(sprite, x, y, i) && !d[i];
        assert(d1[i]);
        assert(spec_draw_collision(d1, sprite, x, y));
    }
}

} // verus!
