//! The display buffer, its model as a grid of pixels, and what drawing a
//! sprite does to a grid.

use vstd::prelude::*;

verus! {

/// Pixels in one row of the display.
pub const WIDTH: usize = 64;

/// Rows of the display.
pub const HEIGHT: usize = 32;

/// The pixels of the display, row by row from the top; `true` is a lit pixel.
pub type Buffer = [[bool; WIDTH]; HEIGHT];

/// The pixel grid the machine draws on, with a flag that tells the renderer
/// that the grid has been written since it was last presented.
pub struct DisplayBuffer {
    pub buffer: Buffer,
    pub is_dirty: bool,
}

/// What a display buffer holds: `HEIGHT` rows of `WIDTH` pixels, and the
/// dirty flag.
pub struct Frame {
    pub pixels: Seq<Seq<bool>>,
    pub is_dirty: bool,
}

/// A well-formed grid has `HEIGHT` rows of `WIDTH` pixels each.
pub open spec fn is_grid(pixels: Seq<Seq<bool>>) -> bool {
    &&& pixels.len() == HEIGHT
    &&& forall|row: int| 0 <= row < HEIGHT ==> (#[trigger] pixels[row]).len() == WIDTH
}

/// The grid with every pixel off.
pub open spec fn blank() -> Seq<Seq<bool>> {
    Seq::new(HEIGHT as nat, |row: int| Seq::new(WIDTH as nat, |col: int| false))
}

/// The rows of an array of pixels as sequences.
pub open spec fn grid_of(buffer: Buffer) -> Seq<Seq<bool>> {
    Seq::new(HEIGHT as nat, |row: int| buffer[row]@)
}

impl View for DisplayBuffer {
    type V = Frame;

    open spec fn view(&self) -> Frame {
        Frame { pixels: grid_of(self.buffer), is_dirty: self.is_dirty }
    }
}

/// What the bit at `index` is worth, counted from the most significant bit:
/// 128 for bit 0, 1 for bit 7.
pub open spec fn bit_weight(index: int) -> int {
    if index <= 0 {
        128
    } else if index == 1 {
        64
    } else if index == 2 {
        32
    } else if index == 3 {
        16
    } else if index == 4 {
        8
    } else if index == 5 {
        4
    } else if index == 6 {
        2
    } else {
        1
    }
}

/// Bit `index` of `byte`, counted from the most significant bit, which is
/// bit 0 and the leftmost pixel of a sprite row.
pub open spec fn bit_from_left(byte: u8, index: int) -> bool {
    0 <= index < 8 && (byte as int / bit_weight(index)) % 2 == 1
}

/// Shifting a byte right by `7 - index` brings bit `index`, counted from the
/// left, to the lowest place.
pub proof fn lemma_bit_from_left(byte: u8, index: u8)
    requires
        index < 8,
    ensures
        bit_from_left(byte, index as int) == ((byte >> ((7 - index) as u8)) & 1 == 1),
{
    assert((byte >> 7u8) & 1 == (byte / 128) % 2) by (bit_vector);
    assert((byte >> 6u8) & 1 == (byte / 64) % 2) by (bit_vector);
    assert((byte >> 5u8) & 1 == (byte / 32) % 2) by (bit_vector);
    assert((byte >> 4u8) & 1 == (byte / 16) % 2) by (bit_vector);
    assert((byte >> 3u8) & 1 == (byte / 8) % 2) by (bit_vector);
    assert((byte >> 2u8) & 1 == (byte / 4) % 2) by (bit_vector);
    assert((byte >> 1u8) & 1 == (byte / 2) % 2) by (bit_vector);
    assert((byte >> 0u8) & 1 == (byte / 1) % 2) by (bit_vector);
}

/// Whether a sprite whose top left corner is drawn at column `x`, row `y`
/// has a set bit on the pixel at (`row`, `col`). Rows and columns that run
/// off one edge of the display come back in at the opposite edge. Byte `k`
/// of the sprite is its row `k`; only the first `HEIGHT` rows count.
pub open spec fn sprite_covers(sprite: Seq<u8>, x: int, y: int, row: int, col: int) -> bool {
    let line = (row - y) % (HEIGHT as int);
    let bit = (col - x) % (WIDTH as int);
    line < sprite.len() && bit_from_left(sprite[line], bit)
}

/// The grid after a sprite has been drawn onto it: every pixel that the
/// sprite covers is flipped, every other pixel is kept.
pub open spec fn blit(pixels: Seq<Seq<bool>>, sprite: Seq<u8>, x: int, y: int) -> Seq<Seq<bool>> {
    Seq::new(
        HEIGHT as nat,
        |row: int|
            Seq::new(
                WIDTH as nat,
                |col: int| pixels[row][col] != sprite_covers(sprite, x, y, row, col),
            ),
    )
}

/// Whether drawing the sprite turns off the pixel at (`row`, `col`).
pub open spec fn erases(
    pixels: Seq<Seq<bool>>,
    sprite: Seq<u8>,
    x: int,
    y: int,
    row: int,
    col: int,
) -> bool {
    &&& 0 <= row < HEIGHT
    &&& 0 <= col < WIDTH
    &&& pixels[row][col]
    &&& sprite_covers(sprite, x, y, row, col)
}

/// Whether drawing the sprite turns off at least one lit pixel.
pub open spec fn collides(pixels: Seq<Seq<bool>>, sprite: Seq<u8>, x: int, y: int) -> bool {
    exists|row: int, col: int| erases(pixels, sprite, x, y, row, col)
}

/// Drawing no bytes changes nothing and turns nothing off.
pub proof fn lemma_blit_nothing(pixels: Seq<Seq<bool>>, x: int, y: int)
    requires
        is_grid(pixels),
    ensures
        blit(pixels, Seq::empty(), x, y) == pixels,
        !collides(pixels, Seq::empty(), x, y),
{
    let drawn = blit(pixels, Seq::empty(), x, y);
    assert forall|row: int| 0 <= row < HEIGHT implies #[trigger] drawn[row] == pixels[row] by {
        assert(drawn[row] =~= pixels[row]);
    }
    assert(drawn =~= pixels);
}

/// Drawing the first `k + 1` bytes of a sprite is drawing its first `k`
/// bytes and then byte `k` alone, `k` rows further down; and a pixel goes
/// off in the whole where it goes off in one of the two parts. This holds
/// while the sprite is no taller than the display, so that no two of its
/// rows meet.
pub proof fn lemma_blit_next_line(pixels: Seq<Seq<bool>>, sprite: Seq<u8>, x: int, y: int, k: int)
    requires
        is_grid(pixels),
        0 <= k < sprite.len(),
        k < HEIGHT,
    ensures
        blit(blit(pixels, sprite.take(k), x, y), seq![sprite[k]], x, y + k) == blit(
            pixels,
            sprite.take(k + 1),
            x,
            y,
        ),
        collides(pixels, sprite.take(k + 1), x, y) <==> collides(pixels, sprite.take(k), x, y)
            || collides(blit(pixels, sprite.take(k), x, y), seq![sprite[k]], x, y + k),
{
    let before = sprite.take(k);
    let line = seq![sprite[k]];
    let after = sprite.take(k + 1);
    let partly = blit(pixels, before, x, y);
    let twice = blit(partly, line, x, y + k);
    let whole = blit(pixels, after, x, y);
    assert forall|row: int, col: int| 0 <= row < HEIGHT && 0 <= col < WIDTH implies {
        &&& sprite_covers(after, x, y, row, col) == (sprite_covers(before, x, y, row, col)
            || sprite_covers(line, x, y + k, row, col))
        &&& !(sprite_covers(before, x, y, row, col) && sprite_covers(line, x, y + k, row, col))
    } by {
        let at = (row - y) % (HEIGHT as int);
        let below = (row - (y + k)) % (HEIGHT as int);
        assert(below == 0 <==> at == k);
    }
    assert forall|row: int| 0 <= row < HEIGHT implies #[trigger] twice[row] == whole[row] by {
        assert(twice[row] =~= whole[row]);
    }
    assert(twice =~= whole);
    if collides(pixels, after, x, y) {
        let (row, col) = choose|row: int, col: int| erases(pixels, after, x, y, row, col);
        if sprite_covers(before, x, y, row, col) {
            assert(erases(pixels, before, x, y, row, col));
        } else {
            assert(erases(partly, line, x, y + k, row, col));
        }
    }
    if collides(pixels, before, x, y) {
        let (row, col) = choose|row: int, col: int| erases(pixels, before, x, y, row, col);
        assert(erases(pixels, after, x, y, row, col));
    }
    if collides(partly, line, x, y + k) {
        let (row, col) = choose|row: int, col: int| #[trigger]
            erases(partly, line, x, y + k, row, col);
        assert(erases(pixels, after, x, y, row, col));
    }
}

impl DisplayBuffer {
    /// A display with every pixel off, marked dirty so that it is presented once.
    pub fn new() -> (display: DisplayBuffer)
        ensures
            display@.pixels == blank(),
            display@.is_dirty,
    {
        let display = DisplayBuffer { buffer: [[false; WIDTH]; HEIGHT], is_dirty: true };
        assert(display@.pixels =~~= blank());
        display
    }

    /// What a display buffer holds is a well-formed grid.
    pub proof fn lemma_is_grid(&self)
        ensures
            is_grid(self@.pixels),
    {
    }
}

} // verus!
