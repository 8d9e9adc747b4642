use vstd::prelude::*;

use bracket_lib::prelude::RandomNumberGenerator;

use crate::utils::{make_weighted_vec, sheet_index, ss_idx, weighted_seq};

verus! {

/// bracket-random's seeded generator, carried through opaquely.
#[verifier::external_type_specification]
#[verifier::external_body]
pub struct ExRandomNumberGenerator(RandomNumberGenerator);

/// Relies on bracket-random's RandomNumberGenerator::new: a generator seeded
/// from the operating system's entropy, or the clock.
pub assume_specification[ RandomNumberGenerator::new ]() -> RandomNumberGenerator;

/// Relies on bracket-random's RandomNumberGenerator::roll_dice: the sum of `n`
/// uniform draws from `1..=die_type`; each draw panics unless `die_type >= 1`.
pub assume_specification[ RandomNumberGenerator::roll_dice ](
    rng: &mut RandomNumberGenerator,
    n: i32,
    die_type: i32,
) -> (r: i32)
    requires
        0 <= n,
        1 <= die_type < i32::MAX,
        n * die_type <= i32::MAX,
    ensures
        n <= r <= n * die_type,
;

/// Terrain kind of a cell.
#[derive(Clone, Copy, Debug, PartialEq, Eq, Structural)]
pub enum TileType {
    Floor,
    Wall,
}

/// An 8-bit RGB color.
#[derive(Clone, Copy, Debug, PartialEq, Eq, Structural)]
pub struct Color {
    pub r: u8,
    pub g: u8,
    pub b: u8,
}

/// The color with the same components.
pub open spec fn rgb(r: int, g: int, b: int) -> Color {
    Color { r: r as u8, g: g as u8, b: b as u8 }
}

/// The color halfway between `c` and black, each component rounded down.
pub open spec fn dim(c: Color) -> Color {
    rgb((c.r / 2) as int, (c.g / 2) as int, (c.b / 2) as int)
}

/// Luminance of `c` on the 0 to 255 scale, rounded down: the components
/// weighted 0.2126, 0.7152 and 0.0722.
pub open spec fn luminance(c: Color) -> int {
    (2126 * c.r + 7152 * c.g + 722 * c.b) / 10000
}

/// The grey of the same luminance as `c`.
pub open spec fn greyed(c: Color) -> Color {
    rgb(luminance(c), luminance(c), luminance(c))
}

/// The color halfway between `a` and `b`, each component rounded down.
pub open spec fn halfway(a: Color, b: Color) -> Color {
    rgb((a.r + b.r) / 2, (a.g + b.g) / 2, (a.b + b.b) / 2)
}

impl Color {
    /// The color `(r, g, b)`.
    pub fn new(r: u8, g: u8, b: u8) -> (c: Color)
        ensures
            c == (Color { r, g, b }),
    {
        Color { r, g, b }
    }

    /// The color halfway to black.
    pub fn dimmed(self) -> (c: Color)
        ensures
            c == dim(self),
    {
        Color { r: self.r / 2, g: self.g / 2, b: self.b / 2 }
    }

    /// The grey of the same luminance.
    pub fn greyscale(self) -> (c: Color)
        ensures
            c == greyed(self),
    {
        let level = (2126 * self.r as u32 + 7152 * self.g as u32 + 722 * self.b as u32) / 10000;
        Color { r: level as u8, g: level as u8, b: level as u8 }
    }

    /// The color halfway between this one and `other`, rounded down.
    pub fn midpoint(self, other: Color) -> (c: Color)
        ensures
            c == halfway(self, other),
    {
        Color {
            r: ((self.r as u16 + other.r as u16) / 2) as u8,
            g: ((self.g as u16 + other.g as u16) / 2) as u8,
            b: ((self.b as u16 + other.b as u16) / 2) as u8,
        }
    }

    /// Each component scaled by `shade / 255`, rounded down.
    pub fn shaded(self, shade: u8) -> (c: Color)
        ensures
            c == rgb(
                self.r * shade / 255,
                self.g * shade / 255,
                self.b * shade / 255,
            ),
    {
        Color { r: scale(self.r, shade), g: scale(self.g, shade), b: scale(self.b, shade) }
    }
}

/// `c * s / 255`, rounded down.
fn scale(c: u8, s: u8) -> (r: u8)
    ensures
        r == c * s / 255,
{
    proof {
        assert(c * s <= 255 * 255) by (nonlinear_arith)
            requires
                c <= 255,
                s <= 255,
        ;
        assert(c * s / 255 <= 255) by (nonlinear_arith)
            requires
                0 <= c * s <= 255 * 255,
        ;
    }
    (c as u32 * s as u32 / 255) as u8
}

/// Pure white.
pub fn white() -> (c: Color)
    ensures
        c == rgb(255, 255, 255),
{
    Color { r: 255, g: 255, b: 255 }
}

/// Pure black.
pub fn black() -> (c: Color)
    ensures
        c == rgb(0, 0, 0),
{
    Color { r: 0, g: 0, b: 0 }
}

/// The background color of every console, a dark grey.
pub fn bg_color() -> (c: Color)
    ensures
        c == rgb(38, 38, 38),
{
    Color { r: 38, g: 38, b: 38 }
}

/// One grid cell: its terrain and how it is drawn, lit and in fog.
#[derive(Clone, Copy, Debug, PartialEq, Eq, Structural)]
pub struct Tile {
    pub tile_type: TileType,
    pub glyph: u16,
    pub bg_fog: Color,
    pub bg: Color,
    pub fg_fog: Color,
    pub fg: Color,
    pub console: usize,
}

/// Glyphs of wall tiles, each with its weight.
pub open spec fn wall_choices() -> Seq<(u16, usize)> {
    seq![
        (sheet_index(72, 216) as u16, 1usize),
        (sheet_index(80, 216) as u16, 1usize),
        (sheet_index(88, 216) as u16, 20usize),
        (sheet_index(96, 216) as u16, 20usize),
        (sheet_index(104, 216) as u16, 1usize),
    ]
}

/// Glyphs of floor tiles, each with its weight: small items, an empty cell,
/// a dot and a skeleton.
pub open spec fn floor_choices() -> Seq<(u16, usize)> {
    seq![
        (sheet_index(40, 200) as u16, 1usize),
        (sheet_index(112, 352) as u16, 1usize),
        (sheet_index(120, 352) as u16, 1usize),
        (sheet_index(112, 360) as u16, 1usize),
        (sheet_index(120, 360) as u16, 1usize),
        (32u16, 200usize),
        (sheet_index(0, 384) as u16, 1usize),
        (sheet_index(24, 144) as u16, 1usize),
    ]
}

/// The colors of a floor cell of brightness `shade` out of 255: foreground,
/// background, foreground in fog, background in fog. The background is the
/// sand tone (197, 178, 145) at that brightness; in fog the foreground is black
/// and the background a dimmed grey.
pub open spec fn floor_colors(shade: int) -> (Color, Color, Color, Color) {
    let grey = (shade * 6 / 5) as u8;
    let bg = rgb(197 * shade / 255, 178 * shade / 255, 145 * shade / 255);
    (rgb(grey as int, grey as int, grey as int), bg, rgb(0, 0, 0), dim(greyed(bg)))
}

/// The colors of a wall cell: foreground, background, foreground in fog,
/// background in fog. The fog colors are greys: the foreground's dimmed, the
/// background's as it is.
pub open spec fn wall_colors() -> (Color, Color, Color, Color) {
    (rgb(205, 133, 0), rgb(39, 35, 29), rgb(69, 69, 69), rgb(35, 35, 35))
}

/// The glyphs of wall tiles, each repeated as often as its weight.
fn wall_glyphs() -> (r: Vec<u16>)
    ensures
        r@ == weighted_seq(wall_choices()),
{
    let choices: Vec<(u16, usize)> = vec![
        (ss_idx(72, 216), 1),
        (ss_idx(80, 216), 1),
        (ss_idx(88, 216), 20),
        (ss_idx(96, 216), 20),
        (ss_idx(104, 216), 1),
    ];
    assert(choices@ =~= wall_choices());
    make_weighted_vec(choices.as_slice())
}

/// The glyphs of floor tiles, each repeated as often as its weight.
fn floor_glyphs() -> (r: Vec<u16>)
    ensures
        r@ == weighted_seq(floor_choices()),
{
    let choices: Vec<(u16, usize)> = vec![
        (ss_idx(40, 200), 1),
        (ss_idx(112, 352), 1),
        (ss_idx(120, 352), 1),
        (ss_idx(112, 360), 1),
        (ss_idx(120, 360), 1),
        (32, 200),
        (ss_idx(0, 384), 1),
        (ss_idx(24, 144), 1),
    ];
    assert(choices@ =~= floor_choices());
    make_weighted_vec(choices.as_slice())
}

impl Tile {
    /// A wall cell drawn with the `pick`-th glyph of the weighted wall glyphs.
    pub fn wall_with(pick: usize) -> (t: Tile)
        requires
            pick < weighted_seq(wall_choices()).len(),
        ensures
            t.tile_type == TileType::Wall,
            t.glyph == weighted_seq(wall_choices())[pick as int],
            (t.fg, t.bg, t.fg_fog, t.bg_fog) == wall_colors(),
            t.console == 0,
    {
        let glyphs = wall_glyphs();
        let glyph = glyphs[pick];
        let fg = Color::new(205, 133, 0);
        let bg = Color::new(197, 178, 145).shaded(51);
        let t = Tile {
            tile_type: TileType::Wall,
            glyph,
            fg,
            bg,
            fg_fog: fg.greyscale().dimmed(),
            bg_fog: bg.greyscale(),
            console: 0,
        };
        assert((t.fg, t.bg, t.fg_fog, t.bg_fog) == wall_colors());
        t
    }

    /// A wall cell, drawn with a glyph chosen at random by weight.
    pub fn wall() -> (t: Tile)
        ensures
            t.tile_type == TileType::Wall,
            weighted_seq(wall_choices()).contains(t.glyph),
            (t.fg, t.bg, t.fg_fog, t.bg_fog) == wall_colors(),
            t.console == 0,
    {
        let count = wall_glyphs().len();
        proof {
            reveal_with_fuel(weighted_seq, 6);
            assert(count == 43);
        }
        let mut rng = RandomNumberGenerator::new();
        let roll = rng.roll_dice(1, count as i32);
        let t = Tile::wall_with((roll - 1) as usize);
        assert(weighted_seq(wall_choices())[roll - 1] == t.glyph);
        t
    }

    /// A floor cell drawn with the `pick`-th glyph of the weighted floor
    /// glyphs, at brightness `shade`.
    pub fn floor_with(pick: usize, shade: u8) -> (t: Tile)
        requires
            pick < weighted_seq(floor_choices()).len(),
            128 <= shade <= 153,
        ensures
            t.tile_type == TileType::Floor,
            t.glyph == weighted_seq(floor_choices())[pick as int],
            (t.fg, t.bg, t.fg_fog, t.bg_fog) == floor_colors(shade as int),
            t.console == 0,
    {
        let glyphs = floor_glyphs();
        let glyph = glyphs[pick];
        let grey = (shade as u32 * 6 / 5) as u8;
        let fg = Color::new(grey, grey, grey);
        let bg = Color::new(197, 178, 145).shaded(shade);
        let t = Tile {
            tile_type: TileType::Floor,
            glyph,
            fg,
            bg,
            fg_fog: black(),
            bg_fog: bg.greyscale().dimmed(),
            console: 0,
        };
        assert((t.fg, t.bg, t.fg_fog, t.bg_fog) == floor_colors(shade as int));
        t
    }

    /// A floor cell, drawn with a glyph chosen at random by weight, in a sand
    /// tone of random brightness.
    pub fn floor() -> (t: Tile)
        ensures
            t.tile_type == TileType::Floor,
            weighted_seq(floor_choices()).contains(t.glyph),
            exists|shade: int| 128 <= shade <= 153 && (t.fg, t.bg, t.fg_fog, t.bg_fog) == floor_colors(shade),
            t.console == 0,
    {
        let count = floor_glyphs().len();
        proof {
            reveal_with_fuel(weighted_seq, 9);
            assert(count == 207);
        }
        let mut rng = RandomNumberGenerator::new();
        let roll = rng.roll_dice(1, count as i32);
        let shade = (127 + rng.roll_dice(1, 26)) as u8;
        let t = Tile::floor_with((roll - 1) as usize, shade);
        assert(weighted_seq(floor_choices())[roll - 1] == t.glyph);
        t
    }
}

} // verus!
