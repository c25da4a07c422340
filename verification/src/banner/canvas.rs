//! A picture, pixel by pixel.

use vstd::prelude::*;

verus! {

/// A colour.
#[derive(Debug, Clone, Copy, PartialEq, Eq, Structural)]
pub struct Color {
    pub r: u8,
    pub g: u8,
    pub b: u8,
}

/// A picture of a fixed size.
#[derive(Debug)]
pub struct Canvas {
    pub width: u32,
    /// The rows from the top, each from the left.
    pub rows: Vec<Vec<Color>>,
}

/// A font of 256 glyphs, each sixteen rows of eight pixels.
#[derive(Debug)]
pub struct Font {
    /// The rows of all glyphs, one byte each, the leftmost pixel in the highest bit.
    pub rows: Vec<u8>,
}

pub const COLS: u32 = 80;

pub const ROWS: u32 = 25;

pub const GLYPH_W: u32 = 8;

pub const GLYPH_H: u32 = 16;

/// Two to the power of seven less `px`: the weight of a pixel in its byte.
pub open spec fn weight(px: int) -> int {
    if px == 0 {
        128
    } else if px == 1 {
        64
    } else if px == 2 {
        32
    } else if px == 3 {
        16
    } else if px == 4 {
        8
    } else if px == 5 {
        4
    } else if px == 6 {
        2
    } else {
        1
    }
}

/// Whether a pixel is set in the byte of its row.
pub open spec fn bit_set(byte: int, px: int) -> bool {
    (byte / weight(px)) % 2 == 1
}

/// Whether a pixel is set in the byte of its row.
pub fn bit_at(byte: u8, px: u32) -> (r: bool)
    requires
        px < 8,
    ensures
        r == bit_set(byte as int, px as int),
{
    let w: u8 = if px == 0 {
        128
    } else if px == 1 {
        64
    } else if px == 2 {
        32
    } else if px == 3 {
        16
    } else if px == 4 {
        8
    } else if px == 5 {
        4
    } else if px == 6 {
        2
    } else {
        1
    };
    (byte / w) % 2 == 1
}

impl Font {
    /// Every glyph is there.
    pub open spec fn wf(&self) -> bool {
        self.rows@.len() == 4096
    }

    /// Whether a pixel of a glyph is set.
    pub open spec fn glyph(&self, ch: u8, px: int, py: int) -> bool {
        bit_set(self.rows@[ch * 16 + py] as int, px)
    }

    /// Whether a pixel of a glyph is set.
    pub fn glyph_pixel(&self, ch: u8, px: u32, py: u32) -> (r: bool)
        requires
            self.wf(),
            px < 8,
            py < 16,
        ensures
            r == self.glyph(ch, px as int, py as int),
    {
        bit_at(self.rows[ch as usize * 16 + py as usize], px)
    }
}

impl Canvas {
    /// Every row is as wide as the picture.
    pub open spec fn wf(&self) -> bool {
        &&& self.rows@.len() <= u32::MAX
        &&& forall|y: int| 0 <= y < self.rows@.len() ==> (#[trigger] self.rows@[y])@.len() == self.width
    }

    /// How many rows there are.
    pub open spec fn tall(&self) -> int {
        self.rows@.len() as int
    }

    /// The colour at a place.
    pub open spec fn at(&self, x: int, y: int) -> Color {
        self.rows@[y]@[x]
    }

    /// Whether another canvas has the same size.
    pub open spec fn same_size(&self, other: &Canvas) -> bool {
        self.width == other.width && self.tall() == other.tall()
    }

    /// A canvas of one colour.
    pub fn from_pixel(width: u32, height: u32, color: Color) -> (r: Canvas)
        ensures
            r.wf(),
            r.width == width,
            r.tall() == height,
            forall|x: int, y: int| 0 <= x < width && 0 <= y < height ==> #[trigger] r.at(x, y) == color,
    {
        let mut rows: Vec<Vec<Color>> = Vec::new();
        let mut y: u32 = 0;
        while y < height
            invariant
                y <= height,
                rows@.len() == y,
                forall|j: int| 0 <= j < y ==> (#[trigger] rows@[j])@.len() == width,
                forall|i: int, j: int| 0 <= j < y && 0 <= i < width ==> #[trigger] rows@[j]@[i] == color,
            decreases height - y,
        {
            let mut row: Vec<Color> = Vec::new();
            let mut x: u32 = 0;
            while x < width
                invariant
                    x <= width,
                    row@.len() == x,
                    forall|i: int| 0 <= i < x ==> #[trigger] row@[i] == color,
                decreases width - x,
            {
                row.push(color);
                x += 1;
            }
            rows.push(row);
            y += 1;
        }
        Canvas { width, rows }
    }

    /// How many rows there are.
    pub fn height(&self) -> (r: u32)
        requires
            self.wf(),
        ensures
            r == self.tall(),
    {
        self.rows.len() as u32
    }

    /// Sets the colour at a place.
    pub fn put_pixel(&mut self, x: u32, y: u32, color: Color)
        requires
            old(self).wf(),
            x < old(self).width,
            y < old(self).tall(),
        ensures
            final(self).wf(),
            final(self).same_size(old(self)),
            forall|i: int, j: int|
                0 <= i < final(self).width && 0 <= j < final(self).tall() ==> #[trigger] final(self).at(i, j)
                    == (if i == x && j == y {
                    color
                } else {
                    old(self).at(i, j)
                }),
    {
        let row: &mut Vec<Color> = &mut self.rows[y as usize];
        row.set(x as usize, color);
    }

    /// The colour at a place.
    pub fn get_pixel(&self, x: u32, y: u32) -> (r: Color)
        requires
            self.wf(),
            x < self.width,
            y < self.tall(),
        ensures
            r == self.at(x as int, y as int),
    {
        self.rows[y as usize][x as usize]
    }
}

// ── Laws ────────────────────────────────────────────────────────────────────

/// The pixels of a row of a glyph are the bits of its byte, the highest on the left.
pub proof fn law_pixels_are_bits(byte: u8, px: u8)
    requires
        px < 8,
    ensures
        bit_set(byte as int, px as int) <==> (byte >> (7 - px) as u8) & 1 == 1,
{
    assert((byte / 128) % 2 == (byte >> 7u8) & 1) by (bit_vector);
    assert((byte / 64) % 2 == (byte >> 6u8) & 1) by (bit_vector);
    assert((byte / 32) % 2 == (byte >> 5u8) & 1) by (bit_vector);
    assert((byte / 16) % 2 == (byte >> 4u8) & 1) by (bit_vector);
    assert((byte / 8) % 2 == (byte >> 3u8) & 1) by (bit_vector);
    assert((byte / 4) % 2 == (byte >> 2u8) & 1) by (bit_vector);
    assert((byte / 2) % 2 == (byte >> 1u8) & 1) by (bit_vector);
    assert(byte % 2 == (byte >> 0u8) & 1) by (bit_vector);
}

} // verus!
