//! The icons of the tray, the window and the taskbar.
//!
//! A picture is a list of layers on a grid of 64 by 64 units, given in tenths of
//! a unit, with a badge on top that tells the profile.  How a layer covers a
//! pixel is a matter of continuous geometry and is left to the caller; which
//! layers there are, in which order, what the badge shows and where its
//! characters stand is decided here.
use crate::config::DEFAULT_CONFIG_NAME;
use crate::ico::{encode_bmp_icon_image, encode_ico_images, IcoImage};
use crate::text::{
    eq_ignore_ascii_case, from_chars, is_ascii_alphanumeric, is_ascii_digit, take_chars,
    to_ascii_uppercase, to_chars, trim_chars,
};
use vstd::prelude::*;

verus! {

/// The width and height of an icon, where no other size is asked for.
pub const ICON_SIZE: usize = 256;

// ---------------------------------------------------------------------------
// The text of the badge
// ---------------------------------------------------------------------------
/// The letters and digits of a text, in order.
pub open spec fn alphanumerics_of(s: Seq<char>) -> Seq<char>
    decreases s.len(),
{
    if s.len() == 0 {
        Seq::empty()
    } else if crate::text::ascii_alphanumeric(s.last()) {
        alphanumerics_of(s.drop_last()).push(s.last())
    } else {
        alphanumerics_of(s.drop_last())
    }
}

/// The text of a badge: zero for the default profile, else the first two digits
/// of the name, or its first two letters as capitals, or its first character.
pub open spec fn badge_text(name: Seq<char>) -> Seq<char> {
    let trimmed = crate::text::trimmed(name);
    let digits = crate::text::prefix(crate::store::digits_of(trimmed), 2);
    let letters = crate::text::prefix(alphanumerics_of(trimmed), 2);
    if crate::text::same_ignoring_case(trimmed, DEFAULT_CONFIG_NAME@) || trimmed.len() == 0 {
        seq!['0']
    } else if digits.len() > 0 {
        digits
    } else if letters.len() > 0 {
        crate::text::uppercased(letters)
    } else {
        crate::text::prefix(trimmed, 1)
    }
}

fn digits_in(s: &Vec<char>) -> (r: Vec<char>)
    ensures
        r@ == crate::store::digits_of(s@),
{
    let mut out: Vec<char> = Vec::new();
    let mut i: usize = 0;
    while i < s.len()
        invariant
            i <= s@.len(),
            out@ == crate::store::digits_of(s@.take(i as int)),
        decreases s@.len() - i,
    {
        assert(s@.take(i + 1).drop_last() =~= s@.take(i as int));
        if is_ascii_digit(s[i]) {
            out.push(s[i]);
        }
        i = i + 1;
    }
    assert(s@.take(i as int) =~= s@);
    out
}

fn alphanumerics_in(s: &Vec<char>) -> (r: Vec<char>)
    ensures
        r@ == alphanumerics_of(s@),
{
    let mut out: Vec<char> = Vec::new();
    let mut i: usize = 0;
    while i < s.len()
        invariant
            i <= s@.len(),
            out@ == alphanumerics_of(s@.take(i as int)),
        decreases s@.len() - i,
    {
        assert(s@.take(i + 1).drop_last() =~= s@.take(i as int));
        if is_ascii_alphanumeric(s[i]) {
            out.push(s[i]);
        }
        i = i + 1;
    }
    assert(s@.take(i as int) =~= s@);
    out
}

/// The text of the badge for a profile.
pub fn config_badge_text(config_name: &str) -> (r: String)
    ensures
        r@ == badge_text(config_name@),
{
    let chars = to_chars(config_name);
    let trimmed = trim_chars(&chars);
    if trimmed.len() == 0 || eq_ignore_ascii_case(&from_chars(&trimmed), DEFAULT_CONFIG_NAME) {
        let mut zero: Vec<char> = Vec::new();
        zero.push('0');
        assert(zero@ =~= seq!['0']);
        return from_chars(&zero);
    }
    let digits = take_chars(&digits_in(&trimmed), 2);
    if digits.len() > 0 {
        return from_chars(&digits);
    }
    let letters = take_chars(&alphanumerics_in(&trimmed), 2);
    if letters.len() > 0 {
        from_chars(&to_ascii_uppercase(&letters))
    } else {
        from_chars(&take_chars(&trimmed, 1))
    }
}

/// A badge shows one or two characters.
pub proof fn lemma_badge_text_length(name: Seq<char>)
    ensures
        1 <= badge_text(name).len() <= 2,
{
}

// ---------------------------------------------------------------------------
// The characters of the badge
// ---------------------------------------------------------------------------
/// The picture of a character: seven rows of five pixels, a bit for each, from
/// the top left one on.
pub open spec fn glyph_bits(c: char) -> Option<u64> {
    match c {
        '0' => Some(0b01110_10001_10001_10001_10001_10001_01110u64),
        '1' => Some(0b00100_01100_00100_00100_00100_00100_01110u64),
        '2' => Some(0b01110_10001_00001_00110_01000_10000_11111u64),
        '3' => Some(0b11110_00001_00001_01110_00001_00001_11110u64),
        '4' => Some(0b00010_00110_01010_10010_11111_00010_00010u64),
        '5' => Some(0b11111_10000_11110_00001_00001_10001_01110u64),
        '6' => Some(0b00110_01000_10000_11110_10001_10001_01110u64),
        '7' => Some(0b11111_00001_00010_00100_01000_01000_01000u64),
        '8' => Some(0b01110_10001_10001_01110_10001_10001_01110u64),
        '9' => Some(0b01110_10001_10001_01111_00001_00010_01100u64),
        'A' => Some(0b01110_10001_10001_11111_10001_10001_10001u64),
        'B' => Some(0b11110_10001_10001_11110_10001_10001_11110u64),
        'C' => Some(0b01110_10001_10000_10000_10000_10001_01110u64),
        'D' => Some(0b11100_10010_10001_10001_10001_10010_11100u64),
        'E' => Some(0b11111_10000_10000_11110_10000_10000_11111u64),
        'F' => Some(0b11111_10000_10000_11110_10000_10000_10000u64),
        'G' => Some(0b01110_10001_10000_10111_10001_10001_01111u64),
        'H' => Some(0b10001_10001_10001_11111_10001_10001_10001u64),
        'I' => Some(0b01110_00100_00100_00100_00100_00100_01110u64),
        'J' => Some(0b00111_00010_00010_00010_10010_10010_01100u64),
        'K' => Some(0b10001_10010_10100_11000_10100_10010_10001u64),
        'L' => Some(0b10000_10000_10000_10000_10000_10000_11111u64),
        'M' => Some(0b10001_11011_10101_10101_10001_10001_10001u64),
        'N' => Some(0b10001_11001_10101_10011_10001_10001_10001u64),
        'O' => Some(0b01110_10001_10001_10001_10001_10001_01110u64),
        'P' => Some(0b11110_10001_10001_11110_10000_10000_10000u64),
        'Q' => Some(0b01110_10001_10001_10001_10101_10010_01101u64),
        'R' => Some(0b11110_10001_10001_11110_10100_10010_10001u64),
        'S' => Some(0b01111_10000_10000_01110_00001_00001_11110u64),
        'T' => Some(0b11111_00100_00100_00100_00100_00100_00100u64),
        'U' => Some(0b10001_10001_10001_10001_10001_10001_01110u64),
        'V' => Some(0b10001_10001_10001_10001_10001_01010_00100u64),
        'W' => Some(0b10001_10001_10001_10101_10101_11011_10001u64),
        'X' => Some(0b10001_10001_01010_00100_01010_10001_10001u64),
        'Y' => Some(0b10001_10001_01010_00100_00100_00100_00100u64),
        'Z' => Some(0b11111_00001_00010_00100_01000_10000_11111u64),
        _ => None,
    }
}

/// The picture of a character, if there is one.
pub fn glyph_for(c: char) -> (r: Option<u64>)
    ensures
        r == glyph_bits(c),
{
    match c {
        '0' => Some(0b01110_10001_10001_10001_10001_10001_01110u64),
        '1' => Some(0b00100_01100_00100_00100_00100_00100_01110u64),
        '2' => Some(0b01110_10001_00001_00110_01000_10000_11111u64),
        '3' => Some(0b11110_00001_00001_01110_00001_00001_11110u64),
        '4' => Some(0b00010_00110_01010_10010_11111_00010_00010u64),
        '5' => Some(0b11111_10000_11110_00001_00001_10001_01110u64),
        '6' => Some(0b00110_01000_10000_11110_10001_10001_01110u64),
        '7' => Some(0b11111_00001_00010_00100_01000_01000_01000u64),
        '8' => Some(0b01110_10001_10001_01110_10001_10001_01110u64),
        '9' => Some(0b01110_10001_10001_01111_00001_00010_01100u64),
        'A' => Some(0b01110_10001_10001_11111_10001_10001_10001u64),
        'B' => Some(0b11110_10001_10001_11110_10001_10001_11110u64),
        'C' => Some(0b01110_10001_10000_10000_10000_10001_01110u64),
        'D' => Some(0b11100_10010_10001_10001_10001_10010_11100u64),
        'E' => Some(0b11111_10000_10000_11110_10000_10000_11111u64),
        'F' => Some(0b11111_10000_10000_11110_10000_10000_10000u64),
        'G' => Some(0b01110_10001_10000_10111_10001_10001_01111u64),
        'H' => Some(0b10001_10001_10001_11111_10001_10001_10001u64),
        'I' => Some(0b01110_00100_00100_00100_00100_00100_01110u64),
        'J' => Some(0b00111_00010_00010_00010_10010_10010_01100u64),
        'K' => Some(0b10001_10010_10100_11000_10100_10010_10001u64),
        'L' => Some(0b10000_10000_10000_10000_10000_10000_11111u64),
        'M' => Some(0b10001_11011_10101_10101_10001_10001_10001u64),
        'N' => Some(0b10001_11001_10101_10011_10001_10001_10001u64),
        'O' => Some(0b01110_10001_10001_10001_10001_10001_01110u64),
        'P' => Some(0b11110_10001_10001_11110_10000_10000_10000u64),
        'Q' => Some(0b01110_10001_10001_10001_10101_10010_01101u64),
        'R' => Some(0b11110_10001_10001_11110_10100_10010_10001u64),
        'S' => Some(0b01111_10000_10000_01110_00001_00001_11110u64),
        'T' => Some(0b11111_00100_00100_00100_00100_00100_00100u64),
        'U' => Some(0b10001_10001_10001_10001_10001_10001_01110u64),
        'V' => Some(0b10001_10001_10001_10001_10001_01010_00100u64),
        'W' => Some(0b10001_10001_10001_10101_10101_11011_10001u64),
        'X' => Some(0b10001_10001_01010_00100_01010_10001_10001u64),
        'Y' => Some(0b10001_10001_01010_00100_00100_00100_00100u64),
        'Z' => Some(0b11111_00001_00010_00100_01000_10000_11111u64),
        _ => None,
    }
}

/// Whether a pixel of a character's picture is set.
pub open spec fn glyph_pixel(bits: u64, x: int, y: int) -> bool {
    (bits >> ((34 - (y * 5 + x)) as u64)) & 1 == 1
}

/// One or two characters side by side, with one empty column between them.
#[derive(Debug, Clone, Copy, PartialEq, Eq, Structural)]
pub struct StampedGlyph {
    pub width: usize,
    pub height: usize,
    pub source_chars: usize,
    pub first: u64,
    pub second: u64,
}

/// The picture of a character; that of zero for one without a picture.
pub open spec fn glyph_or_zero(c: char) -> u64 {
    match glyph_bits(c) {
        Some(bits) => bits,
        None => glyph_bits('0')->Some_0,
    }
}

/// The picture of a badge's text.
pub open spec fn stamped(text: Seq<char>) -> StampedGlyph {
    if text.len() == 0 {
        StampedGlyph { width: 0, height: 0, source_chars: 0, first: 0, second: 0 }
    } else if text.len() == 1 {
        StampedGlyph {
            width: 5,
            height: 7,
            source_chars: 1,
            first: glyph_or_zero(text[0]),
            second: 0,
        }
    } else {
        StampedGlyph {
            width: 11,
            height: 7,
            source_chars: 2,
            first: glyph_or_zero(text[0]),
            second: glyph_or_zero(text[1]),
        }
    }
}

/// Whether a pixel of the picture of a text is set.
pub open spec fn stamp_pixel(glyph: StampedGlyph, x: int, y: int) -> bool {
    if x < 0 || y < 0 || x >= glyph.width || y >= glyph.height || x >= 11 || y >= 7 {
        false
    } else if x < 5 {
        glyph_pixel(glyph.first, x, y)
    } else if x == 5 {
        false
    } else {
        glyph_pixel(glyph.second, x - 6, y)
    }
}

fn picture_of(c: char) -> (r: u64)
    ensures
        r == glyph_or_zero(c),
{
    match glyph_for(c) {
        Some(bits) => bits,
        None => 0b01110_10001_10001_10001_10001_10001_01110u64,
    }
}

/// The picture of a badge's text.
pub fn badge_glyph(text: &str) -> (r: StampedGlyph)
    ensures
        r == stamped(text@),
{
    let chars = to_chars(text);
    if chars.len() == 0 {
        StampedGlyph { width: 0, height: 0, source_chars: 0, first: 0, second: 0 }
    } else if chars.len() == 1 {
        StampedGlyph {
            width: 5,
            height: 7,
            source_chars: 1,
            first: picture_of(chars[0]),
            second: 0,
        }
    } else {
        StampedGlyph {
            width: 11,
            height: 7,
            source_chars: 2,
            first: picture_of(chars[0]),
            second: picture_of(chars[1]),
        }
    }
}

impl StampedGlyph {
    /// Whether a pixel of the picture is set.
    pub fn pixel(&self, x: usize, y: usize) -> (r: bool)
        ensures
            r == stamp_pixel(*self, x as int, y as int),
    {
        if x >= self.width || y >= self.height || x >= 11 || y >= 7 {
            return false;
        }
        if x < 5 {
            let shift: u64 = (34 - (y * 5 + x)) as u64;
            (self.first >> shift) & 1 == 1
        } else if x == 5 {
            false
        } else {
            let shift: u64 = (34 - (y * 5 + (x - 6))) as u64;
            (self.second >> shift) & 1 == 1
        }
    }
}

// ---------------------------------------------------------------------------
// Layers
// ---------------------------------------------------------------------------
/// A pixel.
#[derive(Debug, Clone, Copy, PartialEq, Eq, Structural)]
pub struct Pixel {
    pub r: u8,
    pub g: u8,
    pub b: u8,
    pub a: u8,
}

/// The colors of the icons.
#[derive(Debug, Clone, Copy, PartialEq, Eq, Structural)]
pub enum Color {
    /// The upper end of the tile.
    BgTop,
    /// The lower end of the tile.
    BgBottom,
    /// The glow on the tile.
    PanelGlow,
    /// The shadow of the route.
    RouteShadow,
    /// The route.
    RouteMain,
    /// The arrow of the route.
    RouteAccent,
    White,
    /// The state while the scheduler runs.
    Running,
    /// The state while it does not.
    Stopped,
    /// The characters on a badge.
    BadgeText,
}

/// The pixel that a color gives.
pub open spec fn pixel_of(color: Color) -> Pixel {
    match color {
        Color::BgTop => Pixel { r: 13, g: 42, b: 67, a: 255 },
        Color::BgBottom => Pixel { r: 25, g: 126, b: 190, a: 255 },
        Color::PanelGlow => Pixel { r: 255, g: 255, b: 255, a: 34 },
        Color::RouteShadow => Pixel { r: 8, g: 26, b: 42, a: 95 },
        Color::RouteMain => Pixel { r: 242, g: 250, b: 255, a: 255 },
        Color::RouteAccent => Pixel { r: 94, g: 220, b: 255, a: 255 },
        Color::White => Pixel { r: 255, g: 255, b: 255, a: 255 },
        Color::Running => Pixel { r: 76, g: 175, b: 80, a: 255 },
        Color::Stopped => Pixel { r: 211, g: 47, b: 47, a: 255 },
        Color::BadgeText => Pixel { r: 9, g: 55, b: 93, a: 255 },
    }
}

impl Color {
    /// The pixel that the color gives.
    pub fn pixel(self) -> (r: Pixel)
        ensures
            r == pixel_of(self),
    {
        match self {
            Color::BgTop => Pixel { r: 13, g: 42, b: 67, a: 255 },
            Color::BgBottom => Pixel { r: 25, g: 126, b: 190, a: 255 },
            Color::PanelGlow => Pixel { r: 255, g: 255, b: 255, a: 34 },
            Color::RouteShadow => Pixel { r: 8, g: 26, b: 42, a: 95 },
            Color::RouteMain => Pixel { r: 242, g: 250, b: 255, a: 255 },
            Color::RouteAccent => Pixel { r: 94, g: 220, b: 255, a: 255 },
            Color::White => Pixel { r: 255, g: 255, b: 255, a: 255 },
            Color::Running => Pixel { r: 76, g: 175, b: 80, a: 255 },
            Color::Stopped => Pixel { r: 211, g: 47, b: 47, a: 255 },
            Color::BadgeText => Pixel { r: 9, g: 55, b: 93, a: 255 },
        }
    }
}

/// A shape with its color.  Lengths are in tenths of a unit.
#[derive(Debug, Clone, Copy, PartialEq, Eq, Structural)]
pub enum Layer {
    /// A rectangle with round corners, whose color goes over from the upper to
    /// the lower one.
    Gradient { left: u32, top: u32, right: u32, bottom: u32, radius: u32, upper: Color, lower: Color },
    /// A rectangle with round corners.
    RoundedRect { left: u32, top: u32, right: u32, bottom: u32, radius: u32, color: Color },
    /// A line with round ends.
    Line { x0: u32, y0: u32, x1: u32, y1: u32, width: u32, color: Color },
    Circle { cx: u32, cy: u32, radius: u32, color: Color },
}

/// The color that tells whether the scheduler runs.
pub open spec fn accent_of(is_running: bool) -> Color {
    if is_running {
        Color::Running
    } else {
        Color::Stopped
    }
}

fn accent_color(is_running: bool) -> (r: Color)
    ensures
        r == accent_of(is_running),
{
    if is_running {
        Color::Running
    } else {
        Color::Stopped
    }
}

/// The icon without its badge: a tile, the mark of a route on it, and a dot for
/// the state.
pub open spec fn tile_layers(accent: Color) -> Seq<Layer> {
    seq![
        Layer::Gradient {
            left: 20,
            top: 20,
            right: 620,
            bottom: 620,
            radius: 140,
            upper: Color::BgTop,
            lower: Color::BgBottom,
        },
        Layer::RoundedRect {
            left: 80,
            top: 80,
            right: 560,
            bottom: 560,
            radius: 100,
            color: Color::PanelGlow,
        },
        Layer::Line { x0: 170, y0: 440, x1: 310, y1: 300, width: 80, color: Color::RouteShadow },
        Layer::Line { x0: 310, y0: 300, x1: 450, y1: 300, width: 80, color: Color::RouteShadow },
        Layer::Line { x0: 170, y0: 440, x1: 310, y1: 300, width: 54, color: Color::RouteMain },
        Layer::Line { x0: 310, y0: 300, x1: 450, y1: 300, width: 54, color: Color::RouteMain },
        Layer::Line { x0: 390, y0: 230, x1: 470, y1: 300, width: 44, color: Color::RouteAccent },
        Layer::Line { x0: 390, y0: 370, x1: 470, y1: 300, width: 44, color: Color::RouteAccent },
        Layer::Circle { cx: 190, cy: 450, radius: 92, color: Color::White },
        Layer::Circle { cx: 190, cy: 450, radius: 68, color: accent },
    ]
}

/// A badge: a disc with a ring in the color of the state.
pub open spec fn badge_layers(accent: Color) -> Seq<Layer> {
    seq![
        Layer::Circle { cx: 477, cy: 161, radius: 160, color: accent },
        Layer::Circle { cx: 477, cy: 161, radius: 134, color: Color::White },
    ]
}

/// A badge that fills the picture.
pub open spec fn overlay_layers(accent: Color) -> Seq<Layer> {
    seq![
        Layer::Circle { cx: 320, cy: 320, radius: 310, color: accent },
        Layer::Circle { cx: 320, cy: 320, radius: 268, color: Color::White },
    ]
}

fn make_tile_layers(accent: Color) -> (r: Vec<Layer>)
    ensures
        r@ == tile_layers(accent),
{
    let mut out: Vec<Layer> = Vec::new();
    out.push(
        Layer::Gradient {
            left: 20,
            top: 20,
            right: 620,
            bottom: 620,
            radius: 140,
            upper: Color::BgTop,
            lower: Color::BgBottom,
        },
    );
    out.push(
        Layer::RoundedRect {
            left: 80,
            top: 80,
            right: 560,
            bottom: 560,
            radius: 100,
            color: Color::PanelGlow,
        },
    );
    out.push(Layer::Line { x0: 170, y0: 440, x1: 310, y1: 300, width: 80, color: Color::RouteShadow });
    out.push(Layer::Line { x0: 310, y0: 300, x1: 450, y1: 300, width: 80, color: Color::RouteShadow });
    out.push(Layer::Line { x0: 170, y0: 440, x1: 310, y1: 300, width: 54, color: Color::RouteMain });
    out.push(Layer::Line { x0: 310, y0: 300, x1: 450, y1: 300, width: 54, color: Color::RouteMain });
    out.push(Layer::Line { x0: 390, y0: 230, x1: 470, y1: 300, width: 44, color: Color::RouteAccent });
    out.push(Layer::Line { x0: 390, y0: 370, x1: 470, y1: 300, width: 44, color: Color::RouteAccent });
    out.push(Layer::Circle { cx: 190, cy: 450, radius: 92, color: Color::White });
    out.push(Layer::Circle { cx: 190, cy: 450, radius: 68, color: accent });
    assert(out@ =~= tile_layers(accent));
    out
}

// ---------------------------------------------------------------------------
// Painting
// ---------------------------------------------------------------------------
/// A picture of this size fits into memory.
pub open spec fn paintable(size: usize) -> bool {
    size > 0 && size * size * 4 <= usize::MAX
}

/// A picture with nothing on it.
pub open spec fn blank(size: usize) -> Seq<Pixel> {
    Seq::new((size * size) as nat, |i: int| Pixel { r: 0, g: 0, b: 0, a: 0 })
}

/// Whether a picture is one after a layer was painted on one before: every pixel
/// is what painting gives for it.
pub open spec fn layer_painted<P: Fn(Layer, usize, usize, usize, Pixel) -> Pixel>(
    paint: P,
    size: usize,
    layer: Layer,
    before: Seq<Pixel>,
    after: Seq<Pixel>,
) -> bool {
    &&& after.len() == before.len()
    &&& forall|i: int|
        0 <= i < after.len() ==> call_ensures(
            paint,
            (layer, size, (i % (size as int)) as usize, (i / (size as int)) as usize, before[i]),
            #[trigger] after[i],
        )
}

/// Whether a picture comes from painting the layers in order on an empty one.
pub open spec fn painted<P: Fn(Layer, usize, usize, usize, Pixel) -> Pixel>(
    paint: P,
    size: usize,
    layers: Seq<Layer>,
    canvas: Seq<Pixel>,
) -> bool
    decreases layers.len(),
{
    if layers.len() == 0 {
        canvas == blank(size)
    } else {
        exists|before: Seq<Pixel>|
            painted(paint, size, layers.drop_last(), before) && #[trigger] layer_painted(
                paint,
                size,
                layers.last(),
                before,
                canvas,
            )
    }
}

/// What painting may be called with: anything.
pub open spec fn can_paint<P: Fn(Layer, usize, usize, usize, Pixel) -> Pixel>(paint: P) -> bool {
    forall|layer: Layer, size: usize, x: usize, y: usize, old_pixel: Pixel|
        #[trigger] call_requires(paint, (layer, size, x, y, old_pixel))
}

fn paint_layers<P: Fn(Layer, usize, usize, usize, Pixel) -> Pixel>(
    size: usize,
    layers: &Vec<Layer>,
    paint: &P,
) -> (canvas: Vec<Pixel>)
    requires
        paintable(size),
        can_paint(*paint),
    ensures
        painted(*paint, size, layers@, canvas@),
        canvas@.len() == size * size,
{
    proof {
        assert(0 <= size * size) by (nonlinear_arith)
            requires
                size >= 0,
        ;
    }
    let count: usize = size * size;
    let mut canvas: Vec<Pixel> = Vec::new();
    while canvas.len() < count
        invariant
            canvas@.len() <= count,
            forall|i: int|
                0 <= i < canvas@.len() ==> #[trigger] canvas@[i] == (Pixel {
                    r: 0,
                    g: 0,
                    b: 0,
                    a: 0,
                }),
        decreases count - canvas@.len(),
    {
        canvas.push(Pixel { r: 0, g: 0, b: 0, a: 0 });
    }
    assert(canvas@ =~= blank(size));
    let mut k: usize = 0;
    assert(layers@.take(0) =~= Seq::<Layer>::empty());
    while k < layers.len()
        invariant
            k <= layers@.len(),
            size > 0,
            count == size * size,
            canvas@.len() == count,
            can_paint(*paint),
            painted(*paint, size, layers@.take(k as int), canvas@),
        decreases layers@.len() - k,
    {
        let layer: Layer = layers[k];
        let ghost before = canvas@;
        let mut next: Vec<Pixel> = Vec::new();
        let mut i: usize = 0;
        while i < count
            invariant
                i <= count,
                size > 0,
                canvas@ == before,
                before.len() == count,
                next@.len() == i,
                can_paint(*paint),
                forall|j: int|
                    0 <= j < i ==> call_ensures(
                        *paint,
                        (
                            layer,
                            size,
                            (j % (size as int)) as usize,
                            (j / (size as int)) as usize,
                            before[j],
                        ),
                        #[trigger] next@[j],
                    ),
            decreases count - i,
        {
            let pixel: Pixel = paint(layer, size, i % size, i / size, canvas[i]);
            next.push(pixel);
            i = i + 1;
        }
        assert(layer_painted(*paint, size, layer, before, next@));
        canvas = next;
        assert(layers@.take(k + 1).drop_last() =~= layers@.take(k as int));
        assert(layers@.take(k + 1).last() == layer);
        assert(painted(*paint, size, layers@.take(k + 1).drop_last(), before));
        assert(layer_painted(*paint, size, layers@.take(k + 1).last(), before, canvas@));
        k = k + 1;
    }
    assert(layers@.take(k as int) =~= layers@);
    canvas
}

// ---------------------------------------------------------------------------
// The characters on the picture
// ---------------------------------------------------------------------------
/// Where the characters of a badge stand, in tenths of a unit.
#[derive(Debug, Clone, Copy, PartialEq, Eq, Structural)]
pub struct BadgeLayout {
    pub cx: u32,
    pub cy: u32,
    /// The width and height of one character alone.
    pub single_width: u32,
    pub single_height: u32,
    /// The width and height of two characters together.
    pub double_width: u32,
    pub double_height: u32,
}

/// The layout of the badge in the corner of an icon.
pub open spec fn corner_layout() -> BadgeLayout {
    BadgeLayout {
        cx: 477,
        cy: 161,
        single_width: 170,
        single_height: 225,
        double_width: 250,
        double_height: 185,
    }
}

/// The layout of a badge that fills the picture.
pub open spec fn overlay_layout() -> BadgeLayout {
    BadgeLayout {
        cx: 320,
        cy: 320,
        single_width: 260,
        single_height: 340,
        double_width: 420,
        double_height: 300,
    }
}

/// A length of so many tenths of a unit in pixels, rounded.
pub open spec fn pixels_of(tenths: int, size: int) -> int {
    (tenths * size + 320) / 640
}

/// The greater of two numbers.
pub open spec fn at_least(value: int, least: int) -> int {
    if value < least {
        least
    } else {
        value
    }
}

/// Whether the characters of a badge cover a pixel: where the picture of the
/// text, scaled to its size and centred at its place, is set.
pub open spec fn glyph_covers(
    glyph: StampedGlyph,
    layout: BadgeLayout,
    size: int,
    x: int,
    y: int,
) -> bool {
    let single = glyph.source_chars <= 1;
    let width = at_least(
        pixels_of(
            if single {
                layout.single_width as int
            } else {
                layout.double_width as int
            },
            size,
        ),
        glyph.width as int,
    );
    let height = at_least(
        pixels_of(
            if single {
                layout.single_height as int
            } else {
                layout.double_height as int
            },
            size,
        ),
        glyph.height as int,
    );
    let out_x = x - (pixels_of(layout.cx as int, size) - width / 2);
    let out_y = y - (pixels_of(layout.cy as int, size) - height / 2);
    &&& glyph.width > 0
    &&& glyph.height > 0
    &&& 0 <= out_x < width
    &&& 0 <= out_y < height
    &&& stamp_pixel(glyph, out_x * glyph.width / width, out_y * glyph.height / height)
}

/// A picture with the characters of a badge on it.
pub open spec fn with_glyph(
    canvas: Seq<Pixel>,
    size: int,
    glyph: StampedGlyph,
    layout: BadgeLayout,
) -> Seq<Pixel> {
    Seq::new(
        canvas.len(),
        |i: int|
            if glyph_covers(glyph, layout, size, i % size, i / size) {
                pixel_of(Color::BadgeText)
            } else {
                canvas[i]
            },
    )
}

proof fn lemma_paintable_size(size: usize)
    requires
        paintable(size),
    ensures
        size < 0x8000_0000,
        size <= size * size,
{
    assert(size < 0x8000_0000) by (nonlinear_arith)
        requires
            size * size * 4 <= 0xffff_ffff_ffff_ffff,
            size >= 0,
    ;
    assert(size <= size * size) by (nonlinear_arith)
        requires
            size > 0,
    ;
}

fn length_in_pixels(tenths: u32, size: usize) -> (r: i64)
    requires
        tenths <= 1000,
        size < 0x8000_0000,
    ensures
        r == pixels_of(tenths as int, size as int),
        0 <= r <= 2 * size,
{
    proof {
        assert(0 <= tenths * size <= 1000 * size) by (nonlinear_arith)
            requires
                0 <= tenths <= 1000,
                0 <= size,
        ;
    }
    let product: i64 = tenths as i64 * size as i64;
    (product + 320) / 640
}

/// Whether the characters of a badge cover a pixel.
fn is_covered(glyph: &StampedGlyph, layout: &BadgeLayout, size: usize, x: usize, y: usize) -> (r:
    bool)
    requires
        size < 0x8000_0000,
        x < size,
        y < size,
        glyph.width <= 11,
        glyph.height <= 7,
        layout.cx <= 1000,
        layout.cy <= 1000,
        layout.single_width <= 1000,
        layout.single_height <= 1000,
        layout.double_width <= 1000,
        layout.double_height <= 1000,
    ensures
        r == glyph_covers(*glyph, *layout, size as int, x as int, y as int),
{
    if glyph.width == 0 || glyph.height == 0 {
        return false;
    }
    let single: bool = glyph.source_chars <= 1;
    let wanted_width: i64 = length_in_pixels(
        if single {
            layout.single_width
        } else {
            layout.double_width
        },
        size,
    );
    let width: i64 = if wanted_width < glyph.width as i64 {
        glyph.width as i64
    } else {
        wanted_width
    };
    let wanted_height: i64 = length_in_pixels(
        if single {
            layout.single_height
        } else {
            layout.double_height
        },
        size,
    );
    let height: i64 = if wanted_height < glyph.height as i64 {
        glyph.height as i64
    } else {
        wanted_height
    };
    let out_x: i64 = x as i64 - (length_in_pixels(layout.cx, size) - width / 2);
    let out_y: i64 = y as i64 - (length_in_pixels(layout.cy, size) - height / 2);
    if out_x < 0 || out_x >= width || out_y < 0 || out_y >= height {
        return false;
    }
    proof {
        assert(0 <= out_x * glyph.width <= 0x2_0000_0000 * 11 && 0 <= out_x * glyph.width / width as int)
            by (nonlinear_arith)
            requires
                0 <= out_x < width,
                0 <= out_x <= 0x2_0000_0000,
                0 <= glyph.width <= 11,
        ;
        assert(0 <= out_y * glyph.height <= 0x2_0000_0000 * 7 && 0 <= out_y * glyph.height
            / height as int) by (nonlinear_arith)
            requires
                0 <= out_y < height,
                0 <= out_y <= 0x2_0000_0000,
                0 <= glyph.height <= 7,
        ;
        assert(out_x * glyph.width / width as int <= 11) by (nonlinear_arith)
            requires
                0 <= out_x < width,
                0 <= glyph.width <= 11,
        ;
        assert(out_y * glyph.height / height as int <= 7) by (nonlinear_arith)
            requires
                0 <= out_y < height,
                0 <= glyph.height <= 7,
        ;
    }
    let gx: i64 = out_x * glyph.width as i64 / width;
    let gy: i64 = out_y * glyph.height as i64 / height;
    glyph.pixel(gx as usize, gy as usize)
}

/// The bytes of pixels: red, green, blue and opacity of each.
pub open spec fn rgba_bytes(canvas: Seq<Pixel>) -> Seq<u8>
    decreases canvas.len(),
{
    if canvas.len() == 0 {
        Seq::empty()
    } else {
        let p = canvas.last();
        rgba_bytes(canvas.drop_last()) + seq![p.r, p.g, p.b, p.a]
    }
}

/// The number of bytes of a picture.
pub proof fn lemma_rgba_length(canvas: Seq<Pixel>)
    ensures
        rgba_bytes(canvas).len() == canvas.len() * 4,
    decreases canvas.len(),
{
    if canvas.len() > 0 {
        lemma_rgba_length(canvas.drop_last());
    }
}

fn finish_picture(size: usize, canvas: &Vec<Pixel>, glyph: &StampedGlyph, layout: &BadgeLayout) -> (
out: Vec<u8>)
    requires
        paintable(size),
        canvas@.len() == size * size,
        glyph.width <= 11,
        glyph.height <= 7,
        layout.cx <= 1000,
        layout.cy <= 1000,
        layout.single_width <= 1000,
        layout.single_height <= 1000,
        layout.double_width <= 1000,
        layout.double_height <= 1000,
    ensures
        out@ == rgba_bytes(with_glyph(canvas@, size as int, *glyph, *layout)),
        out@.len() == size * size * 4,
{
    proof {
        lemma_paintable_size(size);
        lemma_rgba_length(with_glyph(canvas@, size as int, *glyph, *layout));
    }
    let ghost done = with_glyph(canvas@, size as int, *glyph, *layout);
    let mut out: Vec<u8> = Vec::new();
    let mut i: usize = 0;
    assert(done.take(0) =~= Seq::<Pixel>::empty());
    while i < canvas.len()
        invariant
            i <= canvas@.len(),
            canvas@.len() == size * size,
            size > 0,
            size < 0x8000_0000,
            glyph.width <= 11,
            glyph.height <= 7,
            layout.cx <= 1000,
            layout.cy <= 1000,
            layout.single_width <= 1000,
            layout.single_height <= 1000,
            layout.double_width <= 1000,
            layout.double_height <= 1000,
            done == with_glyph(canvas@, size as int, *glyph, *layout),
            out@ == rgba_bytes(done.take(i as int)),
        decreases canvas@.len() - i,
    {
        let x: usize = i % size;
        let y: usize = i / size;
        proof {
            assert(i / size < size) by (nonlinear_arith)
                requires
                    0 <= i < size * size,
                    size > 0,
            ;
        }
        let pixel: Pixel = if is_covered(glyph, layout, size, x, y) {
            Color::BadgeText.pixel()
        } else {
            canvas[i]
        };
        let ghost before = out@;
        out.push(pixel.r);
        out.push(pixel.g);
        out.push(pixel.b);
        out.push(pixel.a);
        assert(done[i as int] == pixel);
        assert(done.take(i + 1).drop_last() =~= done.take(i as int));
        assert(out@ =~= before + seq![pixel.r, pixel.g, pixel.b, pixel.a]);
        i = i + 1;
    }
    assert(done.take(i as int) =~= done);
    out
}

// ---------------------------------------------------------------------------
// Icons
// ---------------------------------------------------------------------------
/// The layers of an icon; those of the badge only where it has a text.
pub open spec fn icon_layers(accent: Color, badge: Seq<char>) -> Seq<Layer> {
    if badge.len() > 0 {
        tile_layers(accent) + badge_layers(accent)
    } else {
        tile_layers(accent)
    }
}

/// Whether bytes are those of an icon with the given text on its badge: its
/// layers painted in order, and the characters over them.
pub open spec fn icon_rendered<P: Fn(Layer, usize, usize, usize, Pixel) -> Pixel>(
    paint: P,
    size: usize,
    is_running: bool,
    badge: Seq<char>,
    bytes: Seq<u8>,
) -> bool {
    exists|canvas: Seq<Pixel>|
        #[trigger] painted(paint, size, icon_layers(accent_of(is_running), badge), canvas) && bytes
            == rgba_bytes(with_glyph(canvas, size as int, stamped(badge), corner_layout()))
}

fn render_icon_rgba_at_with_badge<P: Fn(Layer, usize, usize, usize, Pixel) -> Pixel>(
    size: usize,
    is_running: bool,
    badge: &str,
    paint: &P,
) -> (bytes: Vec<u8>)
    requires
        paintable(size),
        can_paint(*paint),
    ensures
        icon_rendered(*paint, size, is_running, badge@, bytes@),
        bytes@.len() == size * size * 4,
{
    let accent: Color = accent_color(is_running);
    let mut layers = make_tile_layers(accent);
    let glyph: StampedGlyph = badge_glyph(badge);
    if glyph.width > 0 {
        layers.push(Layer::Circle { cx: 477, cy: 161, radius: 160, color: accent });
        layers.push(Layer::Circle { cx: 477, cy: 161, radius: 134, color: Color::White });
    }
    assert(layers@ =~= icon_layers(accent, badge@));
    let canvas = paint_layers(size, &layers, paint);
    let layout = BadgeLayout {
        cx: 477,
        cy: 161,
        single_width: 170,
        single_height: 225,
        double_width: 250,
        double_height: 185,
    };
    finish_picture(size, &canvas, &glyph, &layout)
}

/// The bytes of the icon for a state and a profile.
pub fn render_icon_rgba<P: Fn(Layer, usize, usize, usize, Pixel) -> Pixel>(
    is_running: bool,
    config_name: &str,
    paint: &P,
) -> (bytes: Vec<u8>)
    requires
        can_paint(*paint),
    ensures
        icon_rendered(*paint, ICON_SIZE, is_running, badge_text(config_name@), bytes@),
        bytes@.len() == ICON_SIZE * ICON_SIZE * 4,
{
    render_icon_rgba_at(ICON_SIZE, is_running, config_name, paint)
}

/// The bytes of the icon in a size.
pub fn render_icon_rgba_at<P: Fn(Layer, usize, usize, usize, Pixel) -> Pixel>(
    size: usize,
    is_running: bool,
    config_name: &str,
    paint: &P,
) -> (bytes: Vec<u8>)
    requires
        paintable(size),
        can_paint(*paint),
    ensures
        icon_rendered(*paint, size, is_running, badge_text(config_name@), bytes@),
        bytes@.len() == size * size * 4,
{
    render_icon_rgba_at_with_badge(size, is_running, &config_badge_text(config_name), paint)
}

/// The bytes of the icon without a badge.
pub fn render_icon_rgba_unbadged<P: Fn(Layer, usize, usize, usize, Pixel) -> Pixel>(
    is_running: bool,
    paint: &P,
) -> (bytes: Vec<u8>)
    requires
        can_paint(*paint),
    ensures
        icon_rendered(*paint, ICON_SIZE, is_running, Seq::empty(), bytes@),
        bytes@.len() == ICON_SIZE * ICON_SIZE * 4,
{
    render_icon_rgba_at_unbadged(ICON_SIZE, is_running, paint)
}

/// The bytes of the icon in a size, without a badge.
pub fn render_icon_rgba_at_unbadged<P: Fn(Layer, usize, usize, usize, Pixel) -> Pixel>(
    size: usize,
    is_running: bool,
    paint: &P,
) -> (bytes: Vec<u8>)
    requires
        paintable(size),
        can_paint(*paint),
    ensures
        icon_rendered(*paint, size, is_running, Seq::empty(), bytes@),
        bytes@.len() == size * size * 4,
{
    let none = String::new();
    assert(none@ =~= Seq::<char>::empty());
    render_icon_rgba_at_with_badge(size, is_running, &none, paint)
}

/// The bytes of the icon of the program file: stopped, without a badge.
pub fn render_app_icon_rgba_at<P: Fn(Layer, usize, usize, usize, Pixel) -> Pixel>(
    size: usize,
    paint: &P,
) -> (bytes: Vec<u8>)
    requires
        paintable(size),
        can_paint(*paint),
    ensures
        icon_rendered(*paint, size, false, Seq::empty(), bytes@),
        bytes@.len() == size * size * 4,
{
    render_icon_rgba_at_unbadged(size, false, paint)
}

/// Whether bytes are those of a badge that fills the picture.
pub open spec fn overlay_rendered<P: Fn(Layer, usize, usize, usize, Pixel) -> Pixel>(
    paint: P,
    size: usize,
    is_running: bool,
    badge: Seq<char>,
    bytes: Seq<u8>,
) -> bool {
    exists|canvas: Seq<Pixel>|
        #[trigger] painted(paint, size, overlay_layers(accent_of(is_running)), canvas) && bytes
            == rgba_bytes(with_glyph(canvas, size as int, stamped(badge), overlay_layout()))
}

/// The bytes of the badge alone, for the taskbar.
pub fn render_taskbar_overlay_rgba_at<P: Fn(Layer, usize, usize, usize, Pixel) -> Pixel>(
    size: usize,
    is_running: bool,
    config_name: &str,
    paint: &P,
) -> (bytes: Vec<u8>)
    requires
        paintable(size),
        can_paint(*paint),
    ensures
        overlay_rendered(*paint, size, is_running, badge_text(config_name@), bytes@),
        bytes@.len() == size * size * 4,
{
    let accent: Color = accent_color(is_running);
    let mut layers: Vec<Layer> = Vec::new();
    layers.push(Layer::Circle { cx: 320, cy: 320, radius: 310, color: accent });
    layers.push(Layer::Circle { cx: 320, cy: 320, radius: 268, color: Color::White });
    assert(layers@ =~= overlay_layers(accent));
    let canvas = paint_layers(size, &layers, paint);
    let glyph: StampedGlyph = badge_glyph(&config_badge_text(config_name));
    let layout = BadgeLayout {
        cx: 320,
        cy: 320,
        single_width: 260,
        single_height: 340,
        double_width: 420,
        double_height: 300,
    };
    finish_picture(size, &canvas, &glyph, &layout)
}

// ---------------------------------------------------------------------------
// Icon files
// ---------------------------------------------------------------------------
/// The sizes of the images in an icon file.
pub open spec fn ico_sizes() -> Seq<usize> {
    seq![16usize, 32usize, 48usize, 64usize, 128usize, 256usize]
}

/// The images of a file, given their pictures.
pub open spec fn images_of(pictures: Seq<Seq<u8>>) -> Seq<crate::ico::IcoImageModel> {
    Seq::new(
        pictures.len(),
        |i: int|
            crate::ico::IcoImageModel {
                size: ico_sizes()[i] as int,
                data: crate::ico::bmp_image(ico_sizes()[i] as int, pictures[i]),
            },
    )
}

/// Whether a file holds the icon in all sizes.
pub open spec fn ico_rendered<P: Fn(Layer, usize, usize, usize, Pixel) -> Pixel>(
    paint: P,
    is_running: bool,
    badge: Seq<char>,
    file: Seq<u8>,
) -> bool {
    exists|pictures: Seq<Seq<u8>>|
        {
            &&& pictures.len() == ico_sizes().len()
            &&& file == crate::ico::ico_file(#[trigger] images_of(pictures))
            &&& forall|i: int|
                0 <= i < pictures.len() ==> icon_rendered(
                    paint,
                    ico_sizes()[i],
                    is_running,
                    badge,
                    #[trigger] pictures[i],
                )
        }
}

proof fn lemma_contents_bound(images: Seq<crate::ico::IcoImageModel>, k: nat)
    requires
        k <= images.len(),
        forall|i: int| 0 <= i < images.len() ==> (#[trigger] images[i]).data.len() <= 300_000,
    ensures
        crate::ico::contents(images, k).len() <= 300_000 * k,
    decreases k,
{
    if k > 0 {
        lemma_contents_bound(images, (k - 1) as nat);
        assert(images[k - 1].data.len() <= 300_000);
    }
}

#[verifier::spinoff_prover]
fn render_ico_with_badge<P: Fn(Layer, usize, usize, usize, Pixel) -> Pixel>(
    is_running: bool,
    badge: &str,
    paint: &P,
) -> (file: Vec<u8>)
    requires
        can_paint(*paint),
    ensures
        ico_rendered(*paint, is_running, badge@, file@),
{
    let mut sizes: Vec<usize> = Vec::new();
    sizes.push(16);
    sizes.push(32);
    sizes.push(48);
    sizes.push(64);
    sizes.push(128);
    sizes.push(256);
    assert(sizes@ =~= ico_sizes());
    let mut images: Vec<IcoImage> = Vec::new();
    let ghost mut pictures: Seq<Seq<u8>> = Seq::empty();
    let mut k: usize = 0;
    while k < sizes.len()
        invariant
            k <= sizes@.len(),
            sizes@ == ico_sizes(),
            can_paint(*paint),
            pictures.len() == k,
            crate::ico::image_models(images@) == images_of(pictures),
            images@.len() == k,
            forall|i: int|
                0 <= i < pictures.len() ==> icon_rendered(
                    *paint,
                    ico_sizes()[i],
                    is_running,
                    badge@,
                    #[trigger] pictures[i],
                ),
            forall|i: int| 0 <= i < images@.len() ==> (#[trigger] images@[i])@.data.len() <= 300_000,
        decreases sizes@.len() - k,
    {
        let size: usize = sizes[k];
        assert(size == ico_sizes()[k as int]);
        assert(16 <= size <= 256);
        proof {
            assert(size * size <= 65536) by (nonlinear_arith)
                requires
                    16 <= size <= 256,
            ;
            assert(0 <= crate::ico::mask_length(size as int) <= 8192) by (nonlinear_arith)
                requires
                    16 <= size <= 256,
                    crate::ico::mask_length(size as int) == (size + 31) / 32 * 4 * size,
            ;
        }
        let picture = render_icon_rgba_at_with_badge(size, is_running, badge, paint);
        let data = encode_bmp_icon_image(size, &picture);
        let ghost before = images@;
        let ghost earlier = pictures;
        images.push(IcoImage { size, data });
        proof {
            pictures = pictures.push(picture@);
            assert forall|i: int| 0 <= i < images@.len() implies #[trigger] crate::ico::image_models(
                images@,
            )[i] == images_of(pictures)[i] by {
                if i < before.len() {
                    assert(images@[i] == before[i]);
                    assert(crate::ico::image_models(before)[i] == images_of(earlier)[i]);
                }
            }
            assert(crate::ico::image_models(images@) =~= images_of(pictures));
        }
        k = k + 1;
    }
    proof {
        let models = crate::ico::image_models(images@);
        assert forall|i: int| 0 <= i < models.len() implies (#[trigger] models[i]).data.len()
            <= 300_000 by {
            assert(models[i] == images@[i]@);
        }
        lemma_contents_bound(models, models.len());
    }
    encode_ico_images(&images)
}

/// The icon file for a state and a profile.
pub fn render_icon_ico<P: Fn(Layer, usize, usize, usize, Pixel) -> Pixel>(
    is_running: bool,
    config_name: &str,
    paint: &P,
) -> (file: Vec<u8>)
    requires
        can_paint(*paint),
    ensures
        ico_rendered(*paint, is_running, badge_text(config_name@), file@),
{
    render_ico_with_badge(is_running, &config_badge_text(config_name), paint)
}

/// The icon file for a state, without a badge.
pub fn render_icon_ico_unbadged<P: Fn(Layer, usize, usize, usize, Pixel) -> Pixel>(
    is_running: bool,
    paint: &P,
) -> (file: Vec<u8>)
    requires
        can_paint(*paint),
    ensures
        ico_rendered(*paint, is_running, Seq::empty(), file@),
{
    let none = String::new();
    assert(none@ =~= Seq::<char>::empty());
    render_ico_with_badge(is_running, &none, paint)
}

/// Without a text on the badge, no pixel of a picture changes.
pub proof fn lemma_no_badge_no_characters(canvas: Seq<Pixel>, size: int, layout: BadgeLayout)
    ensures
        with_glyph(canvas, size, stamped(Seq::empty()), layout) == canvas,
{
    assert(with_glyph(canvas, size, stamped(Seq::empty()), layout) =~= canvas);
}

/// Whether painting has one result for every pixel.
pub open spec fn paints_one_way<P: Fn(Layer, usize, usize, usize, Pixel) -> Pixel>(
    paint: P,
) -> bool {
    forall|args: (Layer, usize, usize, usize, Pixel), p: Pixel, q: Pixel|
        #![trigger call_ensures(paint, args, p), call_ensures(paint, args, q)]
        call_ensures(paint, args, p) && call_ensures(paint, args, q) ==> p == q
}

proof fn lemma_one_painting<P: Fn(Layer, usize, usize, usize, Pixel) -> Pixel>(
    paint: P,
    size: usize,
    layers: Seq<Layer>,
    first: Seq<Pixel>,
    second: Seq<Pixel>,
)
    requires
        paints_one_way(paint),
        painted(paint, size, layers, first),
        painted(paint, size, layers, second),
    ensures
        first == second,
        first.len() == size * size,
    decreases layers.len(),
{
    if layers.len() == 0 {
        assert(0 <= size * size) by (nonlinear_arith)
            requires
                size >= 0,
        ;
    } else {
        let under_first = choose|before: Seq<Pixel>|
            painted(paint, size, layers.drop_last(), before) && #[trigger] layer_painted(
                paint,
                size,
                layers.last(),
                before,
                first,
            );
        let under_second = choose|before: Seq<Pixel>|
            painted(paint, size, layers.drop_last(), before) && #[trigger] layer_painted(
                paint,
                size,
                layers.last(),
                before,
                second,
            );
        lemma_one_painting(paint, size, layers.drop_last(), under_first, under_second);
        assert forall|i: int| 0 <= i < first.len() implies first[i] == second[i] by {
            let args = (
                layers.last(),
                size,
                (i % (size as int)) as usize,
                (i / (size as int)) as usize,
                under_first[i],
            );
            assert(call_ensures(paint, args, first[i]));
            assert(call_ensures(paint, args, second[i]));
        }
        assert(first =~= second);
    }
}

proof fn lemma_one_icon<P: Fn(Layer, usize, usize, usize, Pixel) -> Pixel>(
    paint: P,
    size: usize,
    is_running: bool,
    badge: Seq<char>,
    bytes: Seq<u8>,
    other_bytes: Seq<u8>,
)
    requires
        paints_one_way(paint),
        icon_rendered(paint, size, is_running, badge, bytes),
        icon_rendered(paint, size, is_running, badge, other_bytes),
    ensures
        bytes == other_bytes,
        bytes.len() == size * size * 4,
{
    let layers = icon_layers(accent_of(is_running), badge);
    let glyph = stamped(badge);
    let first = choose|canvas: Seq<Pixel>| #[trigger]
        painted(paint, size, layers, canvas) && bytes == rgba_bytes(
            with_glyph(canvas, size as int, glyph, corner_layout()),
        );
    let second = choose|canvas: Seq<Pixel>| #[trigger]
        painted(paint, size, layers, canvas) && other_bytes == rgba_bytes(
            with_glyph(canvas, size as int, glyph, corner_layout()),
        );
    lemma_one_painting(paint, size, layers, first, second);
    lemma_rgba_length(with_glyph(first, size as int, glyph, corner_layout()));
}

/// What an icon shows of a profile is its badge: two names with the same badge
/// give the same icon, of four bytes for every pixel, in every size and state.
pub proof fn lemma_same_badge_same_icon<P: Fn(Layer, usize, usize, usize, Pixel) -> Pixel>(
    paint: P,
    size: usize,
    is_running: bool,
    name: Seq<char>,
    other: Seq<char>,
    bytes: Seq<u8>,
    other_bytes: Seq<u8>,
)
    requires
        paints_one_way(paint),
        badge_text(name) == badge_text(other),
        icon_rendered(paint, size, is_running, badge_text(name), bytes),
        icon_rendered(paint, size, is_running, badge_text(other), other_bytes),
    ensures
        bytes == other_bytes,
        bytes.len() == size * size * 4,
{
    lemma_one_icon(paint, size, is_running, badge_text(name), bytes, other_bytes);
}

/// What the taskbar shows of a profile is its badge too.
pub proof fn lemma_same_badge_same_overlay<P: Fn(Layer, usize, usize, usize, Pixel) -> Pixel>(
    paint: P,
    size: usize,
    is_running: bool,
    name: Seq<char>,
    other: Seq<char>,
    bytes: Seq<u8>,
    other_bytes: Seq<u8>,
)
    requires
        paints_one_way(paint),
        badge_text(name) == badge_text(other),
        overlay_rendered(paint, size, is_running, badge_text(name), bytes),
        overlay_rendered(paint, size, is_running, badge_text(other), other_bytes),
    ensures
        bytes == other_bytes,
        bytes.len() == size * size * 4,
{
    let layers = overlay_layers(accent_of(is_running));
    let glyph = stamped(badge_text(name));
    let first = choose|canvas: Seq<Pixel>| #[trigger]
        painted(paint, size, layers, canvas) && bytes == rgba_bytes(
            with_glyph(canvas, size as int, glyph, overlay_layout()),
        );
    let second = choose|canvas: Seq<Pixel>| #[trigger]
        painted(paint, size, layers, canvas) && other_bytes == rgba_bytes(
            with_glyph(canvas, size as int, glyph, overlay_layout()),
        );
    lemma_one_painting(paint, size, layers, first, second);
    lemma_rgba_length(with_glyph(first, size as int, glyph, overlay_layout()));
}

/// And so is what the icon file of a profile shows.
pub proof fn lemma_same_badge_same_ico<P: Fn(Layer, usize, usize, usize, Pixel) -> Pixel>(
    paint: P,
    is_running: bool,
    name: Seq<char>,
    other: Seq<char>,
    file: Seq<u8>,
    other_file: Seq<u8>,
)
    requires
        paints_one_way(paint),
        badge_text(name) == badge_text(other),
        ico_rendered(paint, is_running, badge_text(name), file),
        ico_rendered(paint, is_running, badge_text(other), other_file),
    ensures
        file == other_file,
{
    let badge = badge_text(name);
    let first = choose|pictures: Seq<Seq<u8>>|
        {
            &&& pictures.len() == ico_sizes().len()
            &&& file == crate::ico::ico_file(#[trigger] images_of(pictures))
            &&& forall|i: int|
                0 <= i < pictures.len() ==> icon_rendered(
                    paint,
                    ico_sizes()[i],
                    is_running,
                    badge,
                    #[trigger] pictures[i],
                )
        };
    let second = choose|pictures: Seq<Seq<u8>>|
        {
            &&& pictures.len() == ico_sizes().len()
            &&& other_file == crate::ico::ico_file(#[trigger] images_of(pictures))
            &&& forall|i: int|
                0 <= i < pictures.len() ==> icon_rendered(
                    paint,
                    ico_sizes()[i],
                    is_running,
                    badge,
                    #[trigger] pictures[i],
                )
        };
    assert forall|i: int| 0 <= i < first.len() implies first[i] == second[i] by {
        lemma_one_icon(paint, ico_sizes()[i], is_running, badge, first[i], second[i]);
    }
    assert(first =~= second);
}

// ---------------------------------------------------------------------------
// What badges show
// ---------------------------------------------------------------------------
proof fn lemma_digits_of_parts(a: Seq<char>, b: Seq<char>)
    ensures
        crate::store::digits_of(a + b) == crate::store::digits_of(a) + crate::store::digits_of(b),
    decreases b.len(),
{
    if b.len() == 0 {
        assert(a + b =~= a);
        assert(crate::store::digits_of(a) + crate::store::digits_of(b) =~= crate::store::digits_of(a));
    } else {
        lemma_digits_of_parts(a, b.drop_last());
        assert((a + b).drop_last() =~= a + b.drop_last());
        assert(crate::store::digits_of(a + b) =~= crate::store::digits_of(a)
            + crate::store::digits_of(b));
    }
}

proof fn lemma_alphanumerics_of_parts(a: Seq<char>, b: Seq<char>)
    ensures
        alphanumerics_of(a + b) == alphanumerics_of(a) + alphanumerics_of(b),
    decreases b.len(),
{
    if b.len() == 0 {
        assert(a + b =~= a);
        assert(alphanumerics_of(a) + alphanumerics_of(b) =~= alphanumerics_of(a));
    } else {
        lemma_alphanumerics_of_parts(a, b.drop_last());
        assert((a + b).drop_last() =~= a + b.drop_last());
        assert(alphanumerics_of(a + b) =~= alphanumerics_of(a) + alphanumerics_of(b));
    }
}

/// Whether a text holds no digit.
pub open spec fn without_digits(s: Seq<char>) -> bool {
    forall|i: int| 0 <= i < s.len() ==> !('0' <= #[trigger] s[i] <= '9')
}

/// Whether a text holds no letter from A to Z, in either case.
pub open spec fn without_letters(s: Seq<char>) -> bool {
    forall|i: int|
        0 <= i < s.len() ==> !('a' <= #[trigger] s[i] <= 'z') && !('A' <= s[i] <= 'Z')
}

proof fn lemma_without(s: Seq<char>)
    ensures
        without_digits(s) ==> crate::store::digits_of(s) == Seq::<char>::empty(),
        without_digits(s) && without_letters(s) ==> alphanumerics_of(s) == Seq::<char>::empty(),
    decreases s.len(),
{
    if s.len() > 0 {
        let rest = s.drop_last();
        lemma_without(rest);
        assert(s.last() == s[s.len() - 1]);
        if without_digits(s) {
            assert forall|i: int| 0 <= i < rest.len() implies !('0' <= #[trigger] rest[i] <= '9') by {
                assert(rest[i] == s[i]);
            }
        }
        if without_letters(s) {
            assert forall|i: int| 0 <= i < rest.len() implies !('a' <= #[trigger] rest[i] <= 'z')
                && !('A' <= rest[i] <= 'Z') by {
                assert(rest[i] == s[i]);
            }
        }
    }
}

proof fn lemma_of_one(c: char)
    ensures
        '0' <= c <= '9' ==> crate::store::digits_of(seq![c]) == seq![c],
        'a' <= c <= 'z' || 'A' <= c <= 'Z' ==> alphanumerics_of(seq![c]) == seq![c],
{
    assert(seq![c].drop_last() =~= Seq::<char>::empty());
    reveal_with_fuel(crate::store::digits_of, 2);
    reveal_with_fuel(alphanumerics_of, 2);
    if '0' <= c <= '9' {
        assert(crate::store::digits_of(seq![c]) =~= seq![c]);
    }
    if 'a' <= c <= 'z' || 'A' <= c <= 'Z' {
        assert(alphanumerics_of(seq![c]) =~= seq![c]);
    }
}

proof fn lemma_not_default(s: Seq<char>, i: int)
    requires
        0 <= i < s.len(),
        crate::text::ascii_alphanumeric(s[i]),
    ensures
        !crate::text::same_ignoring_case(s, DEFAULT_CONFIG_NAME@),
{
    reveal_strlit("默认");
    if crate::text::same_ignoring_case(s, DEFAULT_CONFIG_NAME@) {
        crate::text::lemma_ignoring_case(s, DEFAULT_CONFIG_NAME@);
        assert(s[i] == DEFAULT_CONFIG_NAME@[i] || crate::text::upper(s[i]) == crate::text::upper(
            DEFAULT_CONFIG_NAME@[i],
        ));
        assert(DEFAULT_CONFIG_NAME@[i] == '默' || DEFAULT_CONFIG_NAME@[i] == '认');
        crate::text::lemma_character_classes(s[i]);
    }
}

/// A badge shows the digits of a name before anything else: the first one, and
/// the second one if there is another.
pub proof fn lemma_badge_of_digits(
    name: Seq<char>,
    a: Seq<char>,
    d: char,
    b: Seq<char>,
    e: char,
    rest: Seq<char>,
)
    requires
        without_digits(a),
        '0' <= d <= '9',
        without_digits(b),
        '0' <= e <= '9',
    ensures
        crate::text::trimmed(name) == a + seq![d] + b ==> badge_text(name) == seq![d],
        crate::text::trimmed(name) == a + seq![d] + b + seq![e] + rest ==> badge_text(name)
            == seq![d, e],
{
    let s = a + seq![d] + b;
    let t = s + seq![e];
    lemma_without(a);
    lemma_without(b);
    lemma_of_one(d);
    lemma_of_one(e);
    lemma_digits_of_parts(a, seq![d]);
    lemma_digits_of_parts(a + seq![d], b);
    lemma_digits_of_parts(s, seq![e]);
    lemma_digits_of_parts(t, rest);
    assert(s[a.len() as int] == d);
    assert((t + rest)[a.len() as int] == d);
    lemma_not_default(s, a.len() as int);
    lemma_not_default(t + rest, a.len() as int);
    assert(crate::store::digits_of(s) =~= seq![d]);
    assert(crate::store::digits_of(t) =~= seq![d, e]);
    assert((crate::store::digits_of(t) + crate::store::digits_of(rest)).take(2) =~= seq![d, e]);
    if crate::text::trimmed(name) == t + rest {
        assert(crate::text::prefix(crate::store::digits_of(t + rest), 2) =~= seq![d, e]);
    }
}

/// A badge shows the letters of a name without digits: the first one, and the
/// second one if there is another, as capitals.
pub proof fn lemma_badge_of_letters(
    name: Seq<char>,
    a: Seq<char>,
    d: char,
    b: Seq<char>,
    e: char,
    rest: Seq<char>,
)
    requires
        without_digits(a) && without_letters(a),
        'a' <= d <= 'z' || 'A' <= d <= 'Z',
        without_digits(b) && without_letters(b),
        'a' <= e <= 'z' || 'A' <= e <= 'Z',
        without_digits(rest),
    ensures
        crate::text::trimmed(name) == a + seq![d] + b ==> badge_text(name) == seq![
            crate::text::upper(d),
        ],
        crate::text::trimmed(name) == a + seq![d] + b + seq![e] + rest ==> badge_text(name)
            == seq![crate::text::upper(d), crate::text::upper(e)],
{
    let s = a + seq![d] + b;
    let t = s + seq![e];
    lemma_without(a);
    lemma_without(b);
    lemma_of_one(d);
    lemma_of_one(e);
    lemma_alphanumerics_of_parts(a, seq![d]);
    lemma_alphanumerics_of_parts(a + seq![d], b);
    lemma_alphanumerics_of_parts(s, seq![e]);
    lemma_alphanumerics_of_parts(t, rest);
    assert(s[a.len() as int] == d);
    assert((t + rest)[a.len() as int] == d);
    lemma_not_default(s, a.len() as int);
    lemma_not_default(t + rest, a.len() as int);
    assert(without_digits(s));
    assert(without_digits(t + rest));
    lemma_without(s);
    lemma_without(t + rest);
    assert(alphanumerics_of(s) =~= seq![d]);
    assert(alphanumerics_of(t) =~= seq![d, e]);
    assert((alphanumerics_of(t) + alphanumerics_of(rest)).take(2) =~= seq![d, e]);
    assert(crate::text::prefix(alphanumerics_of(t + rest), 2) =~= seq![d, e]);
    assert(crate::text::uppercased(seq![d]) =~= seq![crate::text::upper(d)]);
    assert(crate::text::uppercased(seq![d, e]) =~= seq![
        crate::text::upper(d),
        crate::text::upper(e),
    ]);
}

/// A badge shows zero for the default profile and for an empty name, and the
/// first character of any other name with neither digits nor letters.
pub proof fn lemma_badge_of_others(name: Seq<char>)
    requires
        without_digits(crate::text::trimmed(name)),
        without_letters(crate::text::trimmed(name)),
    ensures
        ({
            let s = crate::text::trimmed(name);
            &&& s.len() == 0 || s == "默认"@ ==> badge_text(name) == seq!['0']
            &&& s.len() > 0 && s != "默认"@ ==> badge_text(name) == seq![s[0]]
        }),
{
    let s = crate::text::trimmed(name);
    lemma_without(s);
    reveal_strlit("默认");
    if crate::text::same_ignoring_case(s, "默认"@) {
        crate::text::lemma_ignoring_case(s, "默认"@);
        assert forall|i: int| 0 <= i < s.len() implies s[i] == "默认"@[i] by {
            assert(s[i] == "默认"@[i] || crate::text::upper(s[i]) == crate::text::upper("默认"@[i]));
        }
        assert(s =~= "默认"@);
    }
    if s.len() > 0 {
        assert(crate::text::prefix(s, 1) =~= seq![s[0]]);
    }
}

/// Just the digits and the capitals have a picture of 35 pixels, and no two of
/// them the same, but for zero and O.
pub proof fn lemma_glyphs(c: char, d: char)
    ensures
        glyph_bits(c) is Some <==> '0' <= c <= '9' || 'A' <= c <= 'Z',
        glyph_bits(c) matches Some(bits) ==> 0 < bits < 0x8_0000_0000,
        glyph_bits(c) is Some && glyph_bits(c) == glyph_bits(d) ==> c == d || (c == '0' && d == 'O')
            || (c == 'O' && d == '0'),
        glyph_bits('0') == glyph_bits('O'),
{
}

/// A picture is read from the top left on, row by row: L is its left column and
/// its last row, T its first row and its middle column.
pub proof fn lemma_pictures_stand_upright(x: int, y: int)
    requires
        0 <= x < 5,
        0 <= y < 7,
    ensures
        stamp_pixel(stamped(seq!['L']), x, y) <==> x == 0 || y == 6,
        stamp_pixel(stamped(seq!['T']), x, y) <==> x == 2 || y == 0,
{
    let (s, u, v) = ((34 - (y * 5 + x)) as u64, x as u64, y as u64);
    assert(((0b10000_10000_10000_10000_10000_10000_11111u64 >> s) & 1 == 1) == (u == 0 || v == 6)
        && ((0b11111_00100_00100_00100_00100_00100_00100u64 >> s) & 1 == 1) == (u == 2 || v == 0))
        by (bit_vector)
        requires
            s == 34 - (v * 5 + u),
            u < 5,
            v < 7,
    ;
}

/// Two characters stand side by side as each of them alone, with an empty column
/// between them; more are not shown, and one without a picture shows as zero.
/// Nothing is set beside the characters.
pub proof fn lemma_stamped(text: Seq<char>, x: int, y: int)
    ensures
        text.len() == 0 ==> !stamp_pixel(stamped(text), x, y),
        text.len() == 1 ==> stamped(text).width == 5 && stamped(text).height == 7,
        text.len() >= 2 ==> {
            &&& stamped(text).width == 11 && stamped(text).height == 7
            &&& stamped(text) == stamped(text.take(2))
            &&& x < 5 ==> stamp_pixel(stamped(text), x, y) == stamp_pixel(
                stamped(seq![text[0]]),
                x,
                y,
            )
            &&& x == 5 ==> !stamp_pixel(stamped(text), x, y)
            &&& x > 5 ==> stamp_pixel(stamped(text), x, y) == stamp_pixel(
                stamped(seq![text[1]]),
                x - 6,
                y,
            )
        },
        stamped(text).source_chars == if text.len() < 2 {
            text.len() as int
        } else {
            2
        },
        text.len() == 1 && glyph_bits(text[0]) is None ==> stamped(text) == stamped(seq!['0']),
        x < 0 || x >= 11 || y < 0 || y >= 7 ==> !stamp_pixel(stamped(text), x, y),
        text.len() == 1 && x >= 5 ==> !stamp_pixel(stamped(text), x, y),
{
}

// ---------------------------------------------------------------------------
// What pictures show
// ---------------------------------------------------------------------------
/// The state shows as green while the scheduler runs and as red while it does
/// not.  Only the glow and the shadow let through what lies under them.
pub proof fn lemma_colors(color: Color, is_running: bool)
    ensures
        ({
            let p = pixel_of(accent_of(is_running));
            &&& is_running ==> p == (Pixel { r: 76, g: 175, b: 80, a: 255 })
            &&& !is_running ==> p == (Pixel { r: 211, g: 47, b: 47, a: 255 })
            &&& is_running <==> p.g > p.r
        }),
        pixel_of(color).a < 255 <==> color is PanelGlow || color is RouteShadow,
        pixel_of(Color::White) == (Pixel { r: 255, g: 255, b: 255, a: 255 }),
        pixel_of(Color::PanelGlow) == (Pixel { a: 34, ..pixel_of(Color::White) }),
        pixel_of(Color::RouteShadow) == (Pixel { r: 8, g: 26, b: 42, a: 95 }),
        pixel_of(Color::BadgeText) == (Pixel { r: 9, g: 55, b: 93, a: 255 }),
{
}

/// The color of a layer, the upper one where it goes over into another.
pub open spec fn color_of(layer: Layer) -> Color {
    match layer {
        Layer::Gradient { upper, .. } => upper,
        Layer::RoundedRect { color, .. } => color,
        Layer::Line { color, .. } => color,
        Layer::Circle { color, .. } => color,
    }
}

/// Whether a circle leaves a rim of another around it.
pub open spec fn within_rim(rim: Layer, disc: Layer) -> bool {
    match (rim, disc) {
        (
            Layer::Circle { cx, cy, radius, .. },
            Layer::Circle { cx: x, cy: y, radius: inner, .. },
        ) => cx == x && cy == y && inner < radius,
        _ => false,
    }
}

/// Whether a line goes along another that is wider.
pub open spec fn along(under: Layer, over: Layer) -> bool {
    match (under, over) {
        (
            Layer::Line { x0, y0, x1, y1, width, .. },
            Layer::Line { x0: a, y0: b, x1: c, y1: d, width: inner, .. },
        ) => x0 == a && y0 == b && x1 == c && y1 == d && inner < width,
        _ => false,
    }
}

/// Whether two lines are the halves of an arrow's tip at the height of the end of
/// a third, which is level.
pub open spec fn tip_of(route: Layer, upper: Layer, lower: Layer) -> bool {
    match (route, upper, lower) {
        (
            Layer::Line { y0, y1, .. },
            Layer::Line { x0: a, y0: b, x1: c, y1: d, width, .. },
            Layer::Line { x0: e, y0: f, x1: g, y1: h, width: same, .. },
        ) => y0 == y1 && a == e && c == g && d == y1 && h == y1 && b + f == 2 * y1 && b < f && a < c
            && width == same,
        _ => false,
    }
}

/// Whether a line goes on where another ends.
pub open spec fn goes_on(first: Layer, second: Layer) -> bool {
    match (first, second) {
        (Layer::Line { x1, y1, .. }, Layer::Line { x0, y0, .. }) => x1 == x0 && y1 == y0,
        _ => false,
    }
}

/// Whether a shape leaves a margin to all sides of the picture.
pub open spec fn with_margin(layer: Layer, margin: int) -> bool {
    match layer {
        Layer::Gradient { left, top, right, bottom, .. } => left == margin && top == margin && right
            == 640 - margin && bottom == 640 - margin,
        Layer::RoundedRect { left, top, right, bottom, .. } => left == margin && top == margin
            && right == 640 - margin && bottom == 640 - margin,
        Layer::Line { .. } => false,
        Layer::Circle { cx, cy, radius, .. } => cx == 320 && cy == 320 && radius == 320 - margin,
    }
}

/// The ways in which the layers of an icon belong together: the tile fills the
/// picture but for a margin; the shadow lies under the route where the route
/// goes, and is wider; the tip of the arrow mirrors itself about the route; dot
/// and badge have a rim around their middle.  The state colors the dot and the
/// ring of the badge and nothing else.  A badge comes on top of the icon without
/// one, behind the place of its characters.
pub proof fn lemma_layers(accent: Color, other: Color, badge: Seq<char>, i: int)
    ensures
        ({
            let layers = icon_layers(accent, badge);
            let plain = icon_layers(accent, Seq::empty());
            &&& plain.len() == 10
            &&& badge.len() == 0 ==> layers == plain
            &&& badge.len() > 0 ==> layers.len() == 12 && layers.take(10) == plain
            &&& 0 <= i < layers.len() && i != 9 && i != 10 ==> layers[i] == icon_layers(
                other,
                badge,
            )[i]
            &&& with_margin(plain[0], 20) && plain[0]->lower is BgBottom
            &&& with_margin(plain[1], 80)
            &&& along(plain[2], plain[4]) && along(plain[3], plain[5])
            &&& goes_on(plain[4], plain[5])
            &&& tip_of(plain[5], plain[6], plain[7])
            &&& within_rim(plain[8], plain[9])
            &&& color_of(plain[0]) is BgTop && color_of(plain[1]) is PanelGlow
            &&& color_of(plain[2]) is RouteShadow && color_of(plain[3]) is RouteShadow
            &&& color_of(plain[4]) is RouteMain && color_of(plain[5]) is RouteMain
            &&& color_of(plain[6]) is RouteAccent && color_of(plain[7]) is RouteAccent
            &&& color_of(plain[8]) is White && color_of(plain[9]) == accent
            &&& badge.len() > 0 ==> {
                &&& within_rim(layers[10], layers[11])
                &&& color_of(layers[10]) == accent && color_of(layers[11]) is White
                &&& layers[10]->Circle_cx == corner_layout().cx && layers[10]->Circle_cy
                    == corner_layout().cy
                &&& corner_layout().double_width <= 2 * layers[11]->Circle_radius
                &&& layers[10]->Circle_cx + layers[10]->Circle_radius <= 640
                &&& layers[10]->Circle_radius <= layers[10]->Circle_cy
            }
        }),
{
    let layers = icon_layers(accent, badge);
    if badge.len() > 0 {
        assert(layers.take(10) =~= tile_layers(accent));
    }
}

/// A badge alone fills the picture but for a margin of one unit, with a ring in
/// the color of the state around a white disc, and its characters in the middle.
pub proof fn lemma_overlay(accent: Color)
    ensures
        ({
            let layers = overlay_layers(accent);
            &&& layers.len() == 2
            &&& with_margin(layers[0], 10) && color_of(layers[0]) == accent
            &&& within_rim(layers[0], layers[1]) && color_of(layers[1]) is White
            &&& overlay_layout().cx == 320 && overlay_layout().cy == 320
            &&& overlay_layout().double_width <= 2 * layers[1]->Circle_radius
        }),
{
}

/// Before anything is painted a picture is clear.  A layer more is painted over
/// the picture with the layers before it, at every place on what is there.
pub proof fn lemma_painting<P: Fn(Layer, usize, usize, usize, Pixel) -> Pixel>(
    paint: P,
    size: usize,
    layers: Seq<Layer>,
    layer: Layer,
    canvas: Seq<Pixel>,
)
    requires
        painted(paint, size, layers.push(layer), canvas),
    ensures
        exists|before: Seq<Pixel>|
            {
                &&& #[trigger] painted(paint, size, layers, before)
                &&& before.len() == canvas.len() == size * size
                &&& forall|x: usize, y: usize|
                    x < size && y < size ==> call_ensures(
                        paint,
                        (layer, size, x, y, before[y * size + x]),
                        #[trigger] canvas[y * size + x],
                    )
            },
        forall|clear: Seq<Pixel>, i: int|
            painted(paint, size, Seq::empty(), clear) && 0 <= i < clear.len()
                ==> #[trigger] clear[i].a == 0,
{
    let all = layers.push(layer);
    assert(all.drop_last() =~= layers);
    let before = choose|before: Seq<Pixel>|
        painted(paint, size, all.drop_last(), before) && #[trigger] layer_painted(
            paint,
            size,
            all.last(),
            before,
            canvas,
        );
    lemma_painted_length(paint, size, layers, before);
    assert forall|x: usize, y: usize| x < size && y < size implies call_ensures(
        paint,
        (layer, size, x, y, before[y * size + x]),
        #[trigger] canvas[y * size + x],
    ) by {
        let i = y * size + x;
        assert(0 <= i < size * size) by (nonlinear_arith)
            requires
                0 <= x < size,
                0 <= y < size,
                i == y * size + x,
        ;
        vstd::arithmetic::div_mod::lemma_fundamental_div_mod_converse(
            i,
            size as int,
            y as int,
            x as int,
        );
        assert(call_ensures(
            paint,
            (layer, size, (i % (size as int)) as usize, (i / (size as int)) as usize, before[i]),
            canvas[i],
        ));
    }
    assert(painted(paint, size, layers, before));
}

proof fn lemma_painted_length<P: Fn(Layer, usize, usize, usize, Pixel) -> Pixel>(
    paint: P,
    size: usize,
    layers: Seq<Layer>,
    canvas: Seq<Pixel>,
)
    requires
        painted(paint, size, layers, canvas),
    ensures
        canvas.len() == size * size,
    decreases layers.len(),
{
    if layers.len() == 0 {
        assert(0 <= size * size) by (nonlinear_arith)
            requires
                size >= 0,
        ;
    } else {
        let before = choose|before: Seq<Pixel>|
            painted(paint, size, layers.drop_last(), before) && #[trigger] layer_painted(
                paint,
                size,
                layers.last(),
                before,
                canvas,
            );
        lemma_painted_length(paint, size, layers.drop_last(), before);
    }
}

/// Whether a number of pixels is the one nearest to a length in tenths of a unit,
/// of which a picture has 640 from side to side.
pub open spec fn nearest(pixels: int, tenths: int, size: int) -> bool {
    -320 <= tenths * size - 640 * pixels < 320
}

/// A length is rounded to the nearest number of pixels.
pub proof fn lemma_rounded(tenths: int, size: int, pixels: int)
    ensures
        nearest(pixels, tenths, size) <==> pixels == pixels_of(tenths, size),
        pixels_of(640, size) == size,
        pixels_of(0, size) == 0,
{
    assert(640 * size == size * 640) by (nonlinear_arith);
    assert(0 * size == 0) by (nonlinear_arith);
}

/// The characters of a badge are scaled to a box around the middle of their
/// place: a pixel of the box shows the pixel of their picture at the same share
/// of width and height, and none beside the box shows anything.
///
/// The box is as wide and high as the layout says, but no less than the picture.
pub proof fn lemma_characters_in_box(
    text: Seq<char>,
    layout: BadgeLayout,
    size: int,
    width: int,
    height: int,
    middle_x: int,
    middle_y: int,
    column: int,
    row: int,
    x: int,
    y: int,
)
    requires
        text.len() > 0,
        ({
            let (glyph, single) = (stamped(text), text.len() == 1);
            let (wide, high) = if single {
                (layout.single_width as int, layout.single_height as int)
            } else {
                (layout.double_width as int, layout.double_height as int)
            };
            &&& width >= glyph.width && height >= glyph.height
            &&& nearest(width, wide, size) || (width == glyph.width && wide * size < 640 * width)
            &&& nearest(height, high, size) || (height == glyph.height && high * size < 640
                * height)
        }),
        nearest(middle_x, layout.cx as int, size),
        nearest(middle_y, layout.cy as int, size),
    ensures
        ({
            let (glyph, covered) = (stamped(text), glyph_covers(stamped(text), layout, size, x, y));
            let (across, down) = (x - (middle_x - width / 2), y - (middle_y - height / 2));
            &&& across < 0 || across >= width || down < 0 || down >= height ==> !covered
            &&& 0 <= across < width && 0 <= down < height && column * width <= across * glyph.width
                < (column + 1) * width && row * height <= down * glyph.height < (row + 1) * height
                ==> covered == stamp_pixel(glyph, column, row)
        }),
{
    let (glyph, single) = (stamped(text), text.len() == 1);
    let (wide, high) = if single {
        (layout.single_width as int, layout.single_height as int)
    } else {
        (layout.double_width as int, layout.double_height as int)
    };
    lemma_rounded(wide, size, width);
    lemma_rounded(high, size, height);
    lemma_rounded(layout.cx as int, size, middle_x);
    lemma_rounded(layout.cy as int, size, middle_y);
    assert(at_least(pixels_of(wide, size), glyph.width as int) == width);
    assert(at_least(pixels_of(high, size), glyph.height as int) == height);
    let (across, down) = (x - (middle_x - width / 2), y - (middle_y - height / 2));
    if 0 <= across < width && 0 <= down < height && column * width <= across * glyph.width < (column
        + 1) * width && row * height <= down * glyph.height < (row + 1) * height {
        lemma_quotient(across * glyph.width, width, column);
        lemma_quotient(down * glyph.height, height, row);
    }
}

proof fn lemma_quotient(n: int, d: int, q: int)
    requires
        d > 0,
        q * d <= n < (q + 1) * d,
    ensures
        n / d == q,
{
    assert((q + 1) * d == q * d + d) by (nonlinear_arith);
    vstd::arithmetic::div_mod::lemma_fundamental_div_mod_converse(n, d, q, n - q * d);
}

/// Characters change just the pixels that they cover, to the color of the text.
pub proof fn lemma_characters_on_picture(
    canvas: Seq<Pixel>,
    size: int,
    glyph: StampedGlyph,
    layout: BadgeLayout,
    x: int,
    y: int,
)
    requires
        0 <= x < size,
        0 <= y,
        y * size + x < canvas.len(),
    ensures
        ({
            let after = with_glyph(canvas, size, glyph, layout);
            let i = y * size + x;
            &&& after.len() == canvas.len()
            &&& glyph_covers(glyph, layout, size, x, y) ==> after[i] == (Pixel {
                r: 9,
                g: 55,
                b: 93,
                a: 255,
            })
            &&& !glyph_covers(glyph, layout, size, x, y) ==> after[i] == canvas[i]
        }),
{
    let i = y * size + x;
    assert(0 <= i) by (nonlinear_arith)
        requires
            0 <= x < size,
            0 <= y,
            i == y * size + x,
    ;
    vstd::arithmetic::div_mod::lemma_fundamental_div_mod_converse(i, size, y, x);
}

/// The bytes of every pixel stand in its place: red, green, blue and opacity.
pub proof fn lemma_rgba_pixel(canvas: Seq<Pixel>, i: int)
    requires
        0 <= i < canvas.len(),
    ensures
        rgba_bytes(canvas).len() == 4 * canvas.len(),
        rgba_bytes(canvas)[4 * i] == canvas[i].r,
        rgba_bytes(canvas)[4 * i + 1] == canvas[i].g,
        rgba_bytes(canvas)[4 * i + 2] == canvas[i].b,
        rgba_bytes(canvas)[4 * i + 3] == canvas[i].a,
    decreases canvas.len(),
{
    lemma_rgba_length(canvas);
    lemma_rgba_length(canvas.drop_last());
    if i < canvas.len() - 1 {
        lemma_rgba_pixel(canvas.drop_last(), i);
    }
}

/// An icon file holds six images, from 16 pixels to 256, each larger than the one
/// before, with the picture of its size.
pub proof fn lemma_images(pictures: Seq<Seq<u8>>, i: int, j: int)
    requires
        pictures.len() == 6,
    ensures
        ico_sizes().len() == 6,
        ico_sizes()[0] == 16 && ico_sizes()[5] == 256,
        0 <= i < j < 6 ==> ico_sizes()[i] < ico_sizes()[j],
        0 <= i < 6 ==> ico_sizes()[i] % 16 == 0,
        images_of(pictures).len() == 6,
        0 <= i < 6 ==> images_of(pictures)[i].size == ico_sizes()[i] && images_of(pictures)[i].data
            == crate::ico::bmp_image(ico_sizes()[i] as int, pictures[i]),
{
}

/// Nothing is set outside the width and the height of a picture.
pub proof fn lemma_nothing_beside_picture(glyph: StampedGlyph, x: int, y: int)
    ensures
        x < 0 || x >= glyph.width || y < 0 || y >= glyph.height ==> !stamp_pixel(glyph, x, y),
{
}

/// The measures of an icon, in tenths of a unit: the corners of its tile, the
/// course and the width of the route, the radii of dot and badge, and the room for
/// the characters.
pub proof fn lemma_measures(accent: Color)
    ensures
        ({
            let tile = tile_layers(accent);
            let (badge, overlay) = (badge_layers(accent), overlay_layers(accent));
            let (corner, full) = (corner_layout(), overlay_layout());
            &&& tile[0]->Gradient_radius == 140 && tile[1]->RoundedRect_radius == 100
            &&& tile[4]->x0 == 170 && tile[4]->y0 == 440 && tile[4]->x1 == 310 && tile[4]->y1 == 300
            &&& tile[5]->x1 == 450 && tile[5]->y1 == 300
            &&& tile[6]->x0 == 390 && tile[6]->y0 == 230 && tile[6]->x1 == 470
            &&& tile[2]->width == 80 && tile[3]->width == 80
            &&& tile[4]->width == 54 && tile[5]->width == 54
            &&& tile[6]->width == 44 && tile[7]->width == 44
            &&& tile[8]->cx == 190 && tile[8]->cy == 450
            &&& tile[8]->Circle_radius == 92 && tile[9]->Circle_radius == 68
            &&& badge[0]->cx == 477 && badge[0]->cy == 161
            &&& badge[0]->Circle_radius == 160 && badge[1]->Circle_radius == 134
            &&& overlay[0]->Circle_radius == 310 && overlay[1]->Circle_radius == 268
            &&& corner.single_width == 170 && corner.single_height == 225
            &&& corner.double_width == 250 && corner.double_height == 185
            &&& full.single_width == 260 && full.single_height == 340
            &&& full.double_width == 420 && full.double_height == 300
        }),
{
}

} // verus!
