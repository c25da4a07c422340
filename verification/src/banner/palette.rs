//! The colours of the banner.

use vstd::prelude::*;
use crate::banner::canvas::Color;
use crate::text::str_eq;

verus! {

/// The colours of a banner.
#[derive(Debug, Clone, Copy, PartialEq, Eq, Structural)]
pub struct Palette {
    pub bg: Color,
    pub header_fg: Color,
    pub border_fg: Color,
    pub label_fg: Color,
    pub value_fg: Color,
    pub gradient_0: Color,
    pub gradient_1: Color,
    pub gradient_2: Color,
    pub gradient_3: Color,
    pub title_face: Color,
    pub title_hi: Color,
    pub title_shadow: Color,
    pub bar_warn: Color,
    pub bar_crit: Color,
}

/// A colour from its parts.
pub open spec fn rgb_of(r: u8, g: u8, b: u8) -> Color {
    Color { r, g, b }
}

/// A colour from its parts.
pub fn rgb(r: u8, g: u8, b: u8) -> (c: Color)
    ensures
        c == rgb_of(r, g, b),
{
    Color { r, g, b }
}

/// Red and orange.
pub open spec fn fire_of() -> Palette {
    Palette {
        bg: rgb_of(20, 5, 0),
        header_fg: rgb_of(255, 100, 20),
        border_fg: rgb_of(180, 60, 10),
        label_fg: rgb_of(200, 80, 15),
        value_fg: rgb_of(255, 180, 60),
        gradient_0: rgb_of(80, 20, 0),
        gradient_1: rgb_of(160, 50, 5),
        gradient_2: rgb_of(220, 80, 10),
        gradient_3: rgb_of(255, 140, 30),
        title_face: rgb_of(210, 70, 8),
        title_hi: rgb_of(255, 230, 120),
        title_shadow: rgb_of(30, 5, 0),
        bar_warn: rgb_of(255, 180, 40),
        bar_crit: rgb_of(255, 60, 30),
    }
}

/// Green.
pub open spec fn matrix_of() -> Palette {
    Palette {
        bg: rgb_of(0, 10, 0),
        header_fg: rgb_of(0, 255, 65),
        border_fg: rgb_of(0, 140, 35),
        label_fg: rgb_of(0, 180, 45),
        value_fg: rgb_of(80, 255, 120),
        gradient_0: rgb_of(0, 40, 10),
        gradient_1: rgb_of(0, 100, 25),
        gradient_2: rgb_of(0, 180, 45),
        gradient_3: rgb_of(0, 255, 65),
        title_face: rgb_of(0, 170, 42),
        title_hi: rgb_of(180, 255, 200),
        title_shadow: rgb_of(0, 18, 4),
        bar_warn: rgb_of(200, 255, 50),
        bar_crit: rgb_of(255, 60, 40),
    }
}

/// Grey.
pub open spec fn steel_of() -> Palette {
    Palette {
        bg: rgb_of(15, 18, 22),
        header_fg: rgb_of(200, 210, 220),
        border_fg: rgb_of(100, 110, 120),
        label_fg: rgb_of(140, 150, 160),
        value_fg: rgb_of(220, 225, 230),
        gradient_0: rgb_of(50, 55, 65),
        gradient_1: rgb_of(90, 95, 105),
        gradient_2: rgb_of(140, 150, 160),
        gradient_3: rgb_of(200, 210, 220),
        title_face: rgb_of(150, 160, 175),
        title_hi: rgb_of(235, 240, 250),
        title_shadow: rgb_of(18, 20, 30),
        bar_warn: rgb_of(230, 200, 80),
        bar_crit: rgb_of(220, 80, 60),
    }
}

/// Violet.
pub open spec fn cyber_of() -> Palette {
    Palette {
        bg: rgb_of(8, 4, 20),
        header_fg: rgb_of(213, 110, 255),
        border_fg: rgb_of(99, 60, 180),
        label_fg: rgb_of(141, 80, 200),
        value_fg: rgb_of(177, 160, 255),
        gradient_0: rgb_of(57, 20, 100),
        gradient_1: rgb_of(93, 40, 160),
        gradient_2: rgb_of(141, 70, 220),
        gradient_3: rgb_of(213, 110, 255),
        title_face: rgb_of(130, 60, 210),
        title_hi: rgb_of(240, 210, 255),
        title_shadow: rgb_of(18, 5, 40),
        bar_warn: rgb_of(255, 200, 60),
        bar_crit: rgb_of(255, 50, 50),
    }
}

/// Red and orange.
fn fire() -> (r: Palette)
    ensures
        r == fire_of(),
{
    Palette {
        bg: rgb(20, 5, 0),
        header_fg: rgb(255, 100, 20),
        border_fg: rgb(180, 60, 10),
        label_fg: rgb(200, 80, 15),
        value_fg: rgb(255, 180, 60),
        gradient_0: rgb(80, 20, 0),
        gradient_1: rgb(160, 50, 5),
        gradient_2: rgb(220, 80, 10),
        gradient_3: rgb(255, 140, 30),
        title_face: rgb(210, 70, 8),
        title_hi: rgb(255, 230, 120),
        title_shadow: rgb(30, 5, 0),
        bar_warn: rgb(255, 180, 40),
        bar_crit: rgb(255, 60, 30),
    }
}

/// Green.
fn matrix() -> (r: Palette)
    ensures
        r == matrix_of(),
{
    Palette {
        bg: rgb(0, 10, 0),
        header_fg: rgb(0, 255, 65),
        border_fg: rgb(0, 140, 35),
        label_fg: rgb(0, 180, 45),
        value_fg: rgb(80, 255, 120),
        gradient_0: rgb(0, 40, 10),
        gradient_1: rgb(0, 100, 25),
        gradient_2: rgb(0, 180, 45),
        gradient_3: rgb(0, 255, 65),
        title_face: rgb(0, 170, 42),
        title_hi: rgb(180, 255, 200),
        title_shadow: rgb(0, 18, 4),
        bar_warn: rgb(200, 255, 50),
        bar_crit: rgb(255, 60, 40),
    }
}

/// Grey.
fn steel() -> (r: Palette)
    ensures
        r == steel_of(),
{
    Palette {
        bg: rgb(15, 18, 22),
        header_fg: rgb(200, 210, 220),
        border_fg: rgb(100, 110, 120),
        label_fg: rgb(140, 150, 160),
        value_fg: rgb(220, 225, 230),
        gradient_0: rgb(50, 55, 65),
        gradient_1: rgb(90, 95, 105),
        gradient_2: rgb(140, 150, 160),
        gradient_3: rgb(200, 210, 220),
        title_face: rgb(150, 160, 175),
        title_hi: rgb(235, 240, 250),
        title_shadow: rgb(18, 20, 30),
        bar_warn: rgb(230, 200, 80),
        bar_crit: rgb(220, 80, 60),
    }
}

/// Violet.
fn cyber() -> (r: Palette)
    ensures
        r == cyber_of(),
{
    Palette {
        bg: rgb(8, 4, 20),
        header_fg: rgb(213, 110, 255),
        border_fg: rgb(99, 60, 180),
        label_fg: rgb(141, 80, 200),
        value_fg: rgb(177, 160, 255),
        gradient_0: rgb(57, 20, 100),
        gradient_1: rgb(93, 40, 160),
        gradient_2: rgb(141, 70, 220),
        gradient_3: rgb(213, 110, 255),
        title_face: rgb(130, 60, 210),
        title_hi: rgb(240, 210, 255),
        title_shadow: rgb(18, 5, 40),
        bar_warn: rgb(255, 200, 60),
        bar_crit: rgb(255, 50, 50),
    }
}

/// The palette of that name; one that is not known is taken for the default.
pub open spec fn palette_of(name: Seq<char>) -> Palette {
    if name == "fire"@ {
        fire_of()
    } else if name == "matrix"@ {
        matrix_of()
    } else if name == "steel"@ {
        steel_of()
    } else {
        cyber_of()
    }
}

/// The palette of that name; one that is not known is taken for the default.
pub fn palette_by_name(name: &str) -> (r: Palette)
    ensures
        r == palette_of(name@),
{
    if str_eq(name, "fire") {
        fire()
    } else if str_eq(name, "matrix") {
        matrix()
    } else if str_eq(name, "steel") {
        steel()
    } else {
        cyber()
    }
}

impl Palette {
    /// One of the four colours of the gradient.
    pub open spec fn gradient_of(&self, i: int) -> Color {
        if i == 0 {
            self.gradient_0
        } else if i == 1 {
            self.gradient_1
        } else if i == 2 {
            self.gradient_2
        } else {
            self.gradient_3
        }
    }

    /// One of the four colours of the gradient.
    pub fn gradient(&self, i: u32) -> (r: Color)
        ensures
            r == self.gradient_of(i as int),
    {
        if i == 0 {
            self.gradient_0
        } else if i == 1 {
            self.gradient_1
        } else if i == 2 {
            self.gradient_2
        } else {
            self.gradient_3
        }
    }
}

// ── Laws ────────────────────────────────────────────────────────────────────

/// How bright a colour is.
pub open spec fn brightness(c: Color) -> int {
    c.r + c.g + c.b
}

/// In every palette the gradient goes from dark to bright, the face of the title is
/// brighter than its shadow and darker than its highlight, and text is brighter than
/// what it stands on.
pub proof fn law_palettes_go_from_dark_to_bright(name: Seq<char>)
    ensures
        ({
            let p = palette_of(name);
            &&& brightness(p.gradient_of(0)) < brightness(p.gradient_of(1)) < brightness(p.gradient_of(2))
                < brightness(p.gradient_of(3))
            &&& brightness(p.title_shadow) < brightness(p.title_face) < brightness(p.title_hi)
            &&& brightness(p.bg) < brightness(p.border_fg) < brightness(p.label_fg) < brightness(p.value_fg)
            &&& brightness(p.bg) < brightness(p.header_fg)
            &&& brightness(p.bar_crit) < brightness(p.bar_warn)
            &&& p.bar_crit.r > p.bar_crit.g && p.bar_crit.r > p.bar_crit.b
        }),
{
}

/// Three palettes go by their names, and every other name is the fourth.
pub proof fn law_palettes_go_by_name(name: Seq<char>)
    ensures
        palette_of(name) == fire_of() <==> name == "fire"@,
        palette_of(name) == matrix_of() <==> name == "matrix"@,
        palette_of(name) == steel_of() <==> name == "steel"@,
        palette_of(name) == cyber_of() <==> name != "fire"@ && name != "matrix"@ && name != "steel"@,
{
    reveal_strlit("fire");
    reveal_strlit("matrix");
    reveal_strlit("steel");
    assert("fire"@.len() == 4 && "matrix"@.len() == 6 && "steel"@.len() == 5);
    assert(fire_of().bg.r == 20 && matrix_of().bg.r == 0 && steel_of().bg.r == 15 && cyber_of().bg.r == 8);
}

} // verus!
