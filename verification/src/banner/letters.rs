//! Block letters.

use vstd::prelude::*;
use crate::banner::canvas;
use crate::banner::canvas::bit_at;

verus! {

/// A block letter: seven rows, each a byte with the leftmost pixel in the highest
/// bit.
#[derive(Debug, Clone, Copy)]
pub struct BigLetter {
    pub width: u32,
    pub rows: [u8; 7],
}

/// A letter of ASCII in upper case; any other byte as it is.
pub open spec fn upper_byte(b: u8) -> u8 {
    if 97 <= b <= 122 {
        (b - 32) as u8
    } else {
        b
    }
}

/// The width and the rows of a letter.
pub open spec fn letter_of(ch: u8) -> Option<(u32, Seq<u8>)> {
    let c = upper_byte(ch);
    if c == 65 {
        Some((5, seq![0x70u8, 0x88, 0x88, 0xF8, 0x88, 0x88, 0x88]))
    } else if c == 66 {
        Some((5, seq![0xF0u8, 0x88, 0x88, 0xF0, 0x88, 0x88, 0xF0]))
    } else if c == 67 {
        Some((5, seq![0x70u8, 0x88, 0x80, 0x80, 0x80, 0x88, 0x70]))
    } else if c == 68 {
        Some((5, seq![0xF0u8, 0x88, 0x88, 0x88, 0x88, 0x88, 0xF0]))
    } else if c == 69 {
        Some((4, seq![0xF0u8, 0x80, 0x80, 0xE0, 0x80, 0x80, 0xF0]))
    } else if c == 70 {
        Some((4, seq![0xF0u8, 0x80, 0x80, 0xE0, 0x80, 0x80, 0x80]))
    } else if c == 71 {
        Some((5, seq![0x70u8, 0x88, 0x80, 0x98, 0x88, 0x88, 0x70]))
    } else if c == 72 {
        Some((5, seq![0x88u8, 0x88, 0x88, 0xF8, 0x88, 0x88, 0x88]))
    } else if c == 73 {
        Some((3, seq![0xE0u8, 0x40, 0x40, 0x40, 0x40, 0x40, 0xE0]))
    } else if c == 74 {
        Some((4, seq![0x70u8, 0x10, 0x10, 0x10, 0x10, 0x90, 0x60]))
    } else if c == 75 {
        Some((5, seq![0x88u8, 0x90, 0xA0, 0xC0, 0xA0, 0x90, 0x88]))
    } else if c == 76 {
        Some((4, seq![0x80u8, 0x80, 0x80, 0x80, 0x80, 0x80, 0xF0]))
    } else if c == 77 {
        Some((5, seq![0x88u8, 0xD8, 0xA8, 0xA8, 0x88, 0x88, 0x88]))
    } else if c == 78 {
        Some((5, seq![0x88u8, 0xC8, 0xA8, 0xA8, 0xA8, 0x98, 0x88]))
    } else if c == 79 {
        Some((5, seq![0x70u8, 0x88, 0x88, 0x88, 0x88, 0x88, 0x70]))
    } else if c == 80 {
        Some((5, seq![0xF0u8, 0x88, 0x88, 0xF0, 0x80, 0x80, 0x80]))
    } else if c == 81 {
        Some((5, seq![0x70u8, 0x88, 0x88, 0x88, 0xA8, 0x90, 0x68]))
    } else if c == 82 {
        Some((5, seq![0xF0u8, 0x88, 0x88, 0xF0, 0xA0, 0x90, 0x88]))
    } else if c == 83 {
        Some((5, seq![0x70u8, 0x88, 0x80, 0x70, 0x08, 0x88, 0x70]))
    } else if c == 84 {
        Some((5, seq![0xF8u8, 0x20, 0x20, 0x20, 0x20, 0x20, 0x20]))
    } else if c == 85 {
        Some((5, seq![0x88u8, 0x88, 0x88, 0x88, 0x88, 0x88, 0x70]))
    } else if c == 86 {
        Some((5, seq![0x88u8, 0x88, 0x88, 0x88, 0x50, 0x50, 0x20]))
    } else if c == 87 {
        Some((5, seq![0x88u8, 0x88, 0x88, 0x88, 0xA8, 0xD8, 0x88]))
    } else if c == 88 {
        Some((5, seq![0x88u8, 0x88, 0x50, 0x20, 0x50, 0x88, 0x88]))
    } else if c == 89 {
        Some((5, seq![0x88u8, 0x88, 0x50, 0x20, 0x20, 0x20, 0x20]))
    } else if c == 90 {
        Some((5, seq![0xF8u8, 0x08, 0x10, 0x20, 0x40, 0x80, 0xF8]))
    } else {
        None
    }
}

/// A letter, whichever its case; nothing for any other byte.
pub fn big_letter(ch: u8) -> (r: Option<BigLetter>)
    ensures
        match r {
            Some(l) => letter_of(ch) == Some((l.width, l.rows@)),
            None => letter_of(ch) is None,
        },
{
    let c: u8 = if 97 <= ch && ch <= 122 {
        ch - 32
    } else {
        ch
    };
    let r: Option<BigLetter> = if c == 65 {
        Some(BigLetter { width: 5, rows: [0x70, 0x88, 0x88, 0xF8, 0x88, 0x88, 0x88] })
    } else if c == 66 {
        Some(BigLetter { width: 5, rows: [0xF0, 0x88, 0x88, 0xF0, 0x88, 0x88, 0xF0] })
    } else if c == 67 {
        Some(BigLetter { width: 5, rows: [0x70, 0x88, 0x80, 0x80, 0x80, 0x88, 0x70] })
    } else if c == 68 {
        Some(BigLetter { width: 5, rows: [0xF0, 0x88, 0x88, 0x88, 0x88, 0x88, 0xF0] })
    } else if c == 69 {
        Some(BigLetter { width: 4, rows: [0xF0, 0x80, 0x80, 0xE0, 0x80, 0x80, 0xF0] })
    } else if c == 70 {
        Some(BigLetter { width: 4, rows: [0xF0, 0x80, 0x80, 0xE0, 0x80, 0x80, 0x80] })
    } else if c == 71 {
        Some(BigLetter { width: 5, rows: [0x70, 0x88, 0x80, 0x98, 0x88, 0x88, 0x70] })
    } else if c == 72 {
        Some(BigLetter { width: 5, rows: [0x88, 0x88, 0x88, 0xF8, 0x88, 0x88, 0x88] })
    } else if c == 73 {
        Some(BigLetter { width: 3, rows: [0xE0, 0x40, 0x40, 0x40, 0x40, 0x40, 0xE0] })
    } else if c == 74 {
        Some(BigLetter { width: 4, rows: [0x70, 0x10, 0x10, 0x10, 0x10, 0x90, 0x60] })
    } else if c == 75 {
        Some(BigLetter { width: 5, rows: [0x88, 0x90, 0xA0, 0xC0, 0xA0, 0x90, 0x88] })
    } else if c == 76 {
        Some(BigLetter { width: 4, rows: [0x80, 0x80, 0x80, 0x80, 0x80, 0x80, 0xF0] })
    } else if c == 77 {
        Some(BigLetter { width: 5, rows: [0x88, 0xD8, 0xA8, 0xA8, 0x88, 0x88, 0x88] })
    } else if c == 78 {
        Some(BigLetter { width: 5, rows: [0x88, 0xC8, 0xA8, 0xA8, 0xA8, 0x98, 0x88] })
    } else if c == 79 {
        Some(BigLetter { width: 5, rows: [0x70, 0x88, 0x88, 0x88, 0x88, 0x88, 0x70] })
    } else if c == 80 {
        Some(BigLetter { width: 5, rows: [0xF0, 0x88, 0x88, 0xF0, 0x80, 0x80, 0x80] })
    } else if c == 81 {
        Some(BigLetter { width: 5, rows: [0x70, 0x88, 0x88, 0x88, 0xA8, 0x90, 0x68] })
    } else if c == 82 {
        Some(BigLetter { width: 5, rows: [0xF0, 0x88, 0x88, 0xF0, 0xA0, 0x90, 0x88] })
    } else if c == 83 {
        Some(BigLetter { width: 5, rows: [0x70, 0x88, 0x80, 0x70, 0x08, 0x88, 0x70] })
    } else if c == 84 {
        Some(BigLetter { width: 5, rows: [0xF8, 0x20, 0x20, 0x20, 0x20, 0x20, 0x20] })
    } else if c == 85 {
        Some(BigLetter { width: 5, rows: [0x88, 0x88, 0x88, 0x88, 0x88, 0x88, 0x70] })
    } else if c == 86 {
        Some(BigLetter { width: 5, rows: [0x88, 0x88, 0x88, 0x88, 0x50, 0x50, 0x20] })
    } else if c == 87 {
        Some(BigLetter { width: 5, rows: [0x88, 0x88, 0x88, 0x88, 0xA8, 0xD8, 0x88] })
    } else if c == 88 {
        Some(BigLetter { width: 5, rows: [0x88, 0x88, 0x50, 0x20, 0x50, 0x88, 0x88] })
    } else if c == 89 {
        Some(BigLetter { width: 5, rows: [0x88, 0x88, 0x50, 0x20, 0x20, 0x20, 0x20] })
    } else if c == 90 {
        Some(BigLetter { width: 5, rows: [0xF8, 0x08, 0x10, 0x20, 0x40, 0x80, 0xF8] })
    } else {
        None
    };
    proof {
        if let Some(l) = r {
            let rows = l.rows@;
            assert((letter_of(ch)->0).1 =~= rows);
        }
    }
    r
}

/// Every letter is between three and five pixels wide.
pub proof fn law_letters_are_narrow(ch: u8)
    ensures
        letter_of(ch) matches Some((w, rows)) ==> 3 <= w <= 5 && rows.len() == 7,
{
}

/// Whether a pixel of a letter is set.
pub open spec fn pixel_of(rows: Seq<u8>, px: int, py: int) -> bool {
    0 <= py < 7 && 0 <= px < 8 && canvas::bit_set(rows[py] as int, px)
}

/// Whether a pixel of a letter is set.
pub fn pixel_set(rows: &[u8; 7], px: u32, py: u32) -> (r: bool)
    ensures
        r == pixel_of(rows@, px as int, py as int),
{
    py < 7 && px < 8 && bit_at(rows[py as usize], px)
}

} // verus!
