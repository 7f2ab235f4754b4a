//! RGBA colors and the `over` alpha-compositing operator.

use vstd::prelude::*;

verus! {

/// An RGBA color with 8-bit channels.
#[derive(Clone, Copy, Debug, PartialEq, Eq, Structural)]
pub struct Color {
    pub r: u8,
    pub g: u8,
    pub b: u8,
    pub a: u8,
}

/// One color channel after an `over` blend: the mean of the foreground and
/// background channel values, weighted by the foreground alpha.
pub open spec fn blend_channel(fa: int, fc: int, bc: int) -> int {
    (fa * fc + (255 - fa) * bc) / 255
}

/// The alpha channel after an `over` blend: the foreground alpha plus the
/// share of the background alpha that shines through.
pub open spec fn blend_alpha(fa: int, ba: int) -> int {
    fa + (255 - fa) * ba / 255
}

/// The `over` compositing operator: `fg` laid over `bg`, each channel of `fg`
/// dominating in proportion to the foreground opacity.
pub open spec fn spec_over(fg: Color, bg: Color) -> Color {
    Color {
        r: blend_channel(fg.a as int, fg.r as int, bg.r as int) as u8,
        g: blend_channel(fg.a as int, fg.g as int, bg.g as int) as u8,
        b: blend_channel(fg.a as int, fg.b as int, bg.b as int) as u8,
        a: blend_alpha(fg.a as int, bg.a as int) as u8,
    }
}

pub proof fn lemma_blend_channel_bounds(fa: int, fc: int, bc: int)
    requires
        0 <= fa <= 255,
        0 <= fc <= 255,
        0 <= bc <= 255,
    ensures
        0 <= blend_channel(fa, fc, bc) <= 255,
{
    assert(0 <= fa * fc + (255 - fa) * bc <= 255 * 255) by (nonlinear_arith)
        requires
            0 <= fa <= 255,
            0 <= fc <= 255,
            0 <= bc <= 255,
    ;
    assert(0 <= (fa * fc + (255 - fa) * bc) / 255 <= 255) by (nonlinear_arith)
        requires
            0 <= fa * fc + (255 - fa) * bc <= 255 * 255,
    ;
}

pub proof fn lemma_blend_alpha_bounds(fa: int, ba: int)
    requires
        0 <= fa <= 255,
        0 <= ba <= 255,
    ensures
        fa <= blend_alpha(fa, ba) <= 255,
{
    assert(0 <= (255 - fa) * ba <= (255 - fa) * 255) by (nonlinear_arith)
        requires
            0 <= fa <= 255,
            0 <= ba <= 255,
    ;
    assert(0 <= (255 - fa) * ba / 255 <= 255 - fa) by (nonlinear_arith)
        requires
            0 <= (255 - fa) * ba <= (255 - fa) * 255,
            0 <= 255 - fa,
    ;
}

/// Laying a fully opaque foreground over any background returns the
/// foreground unchanged.
pub proof fn lemma_over_opaque(fg: Color, bg: Color)
    requires
        fg.a == 255,
    ensures
        spec_over(fg, bg) == fg,
{
}

/// Laying a fully transparent foreground over any background returns the
/// background unchanged.
pub proof fn lemma_over_transparent(fg: Color, bg: Color)
    requires
        fg.a == 0,
    ensures
        spec_over(fg, bg) == bg,
{
}

/// An `over` blend never reduces opacity below the foreground's alpha.
pub proof fn lemma_over_alpha_monotone(fg: Color, bg: Color)
    ensures
        spec_over(fg, bg).a >= fg.a,
{
    lemma_blend_alpha_bounds(fg.a as int, bg.a as int);
}

/// `x - d`, saturating at zero.
pub open spec fn sat_sub_u8(x: u8, d: u8) -> u8 {
    if x >= d {
        (x - d) as u8
    } else {
        0
    }
}

/// `x + d`, saturating at 255.
pub open spec fn sat_add_u8(x: u8, d: u8) -> u8 {
    if x + d <= 255 {
        (x + d) as u8
    } else {
        255
    }
}

impl Default for Color {
    /// The fully transparent black color.
    fn default() -> (c: Color)
        ensures
            c == (Color { r: 0, g: 0, b: 0, a: 0 }),
    {
        Color { r: 0, g: 0, b: 0, a: 0 }
    }
}

impl Color {
    /// The opacity of this color.
    pub fn alpha(&self) -> (a: u8)
        ensures
            a == self.a,
    {
        self.a
    }

    /// Composites `self` over `other`: `self` is the foreground accumulated
    /// from shallower voxels, `other` the deeper background showing through.
    pub fn with_background(&self, other: &Color) -> (c: Color)
        ensures
            c == spec_over(*self, *other),
    {
        proof {
            lemma_blend_channel_bounds(self.a as int, self.r as int, other.r as int);
            lemma_blend_channel_bounds(self.a as int, self.g as int, other.g as int);
            lemma_blend_channel_bounds(self.a as int, self.b as int, other.b as int);
            lemma_blend_alpha_bounds(self.a as int, other.a as int);
        }
        let fa = self.a as u32;
        let ba = 255 - fa;
        let r = ((fa * self.r as u32 + ba * other.r as u32) / 255) as u8;
        let g = ((fa * self.g as u32 + ba * other.g as u32) / 255) as u8;
        let b = ((fa * self.b as u32 + ba * other.b as u32) / 255) as u8;
        let a = (fa + ba * other.a as u32 / 255) as u8;
        Color { r, g, b, a }
    }

    /// Subtracts `amount` from the red, green and blue channels, saturating
    /// at zero; the alpha channel is kept.
    pub fn darken(&mut self, amount: u8)
        ensures
            *final(self) == (Color {
                r: sat_sub_u8(old(self).r, amount),
                g: sat_sub_u8(old(self).g, amount),
                b: sat_sub_u8(old(self).b, amount),
                a: old(self).a,
            }),
    {
        self.r = if self.r >= amount {
            self.r - amount
        } else {
            0
        };
        self.g = if self.g >= amount {
            self.g - amount
        } else {
            0
        };
        self.b = if self.b >= amount {
            self.b - amount
        } else {
            0
        };
    }

    /// Adds `amount` to the red, green and blue channels, saturating at 255;
    /// the alpha channel is kept.
    pub fn lighten_up(&mut self, amount: u8)
        ensures
            *final(self) == (Color {
                r: sat_add_u8(old(self).r, amount),
                g: sat_add_u8(old(self).g, amount),
                b: sat_add_u8(old(self).b, amount),
                a: old(self).a,
            }),
    {
        self.r = if self.r <= 255 - amount {
            self.r + amount
        } else {
            255
        };
        self.g = if self.g <= 255 - amount {
            self.g + amount
        } else {
            255
        };
        self.b = if self.b <= 255 - amount {
            self.b + amount
        } else {
            255
        };
    }
}

/// The numeric value of an ASCII hexadecimal digit, or -1 for any other byte.
pub open spec fn hex_digit_value(b: u8) -> int {
    if 48 <= b <= 57 {
        b - 48
    } else if 97 <= b <= 102 {
        b - 87
    } else if 65 <= b <= 70 {
        b - 55
    } else {
        -1
    }
}

pub open spec fn is_hex_digit(b: u8) -> bool {
    hex_digit_value(b) >= 0
}

pub open spec fn all_hex_digits(s: Seq<u8>) -> bool {
    forall|i: int| 0 <= i < s.len() ==> is_hex_digit(s[i])
}

/// The byte written as two hexadecimal digits `hi`, `lo`.
pub open spec fn hex_byte(hi: u8, lo: u8) -> u8 {
    (16 * hex_digit_value(hi) + hex_digit_value(lo)) as u8
}

/// The color written as `"rrggbb"` or `"rrggbbaa"` in hexadecimal digits;
/// a six-digit form is fully opaque. Any other text denotes no color.
pub open spec fn spec_color_from_hex(s: Seq<u8>) -> Option<Color> {
    if (s.len() == 6 || s.len() == 8) && all_hex_digits(s) {
        Some(Color {
            r: hex_byte(s[0], s[1]),
            g: hex_byte(s[2], s[3]),
            b: hex_byte(s[4], s[5]),
            a: if s.len() == 8 {
                hex_byte(s[6], s[7])
            } else {
                255
            },
        })
    } else {
        None
    }
}

/// The value of one ASCII hexadecimal digit.
fn hex_digit(b: u8) -> (r: Option<u8>)
    ensures
        match r {
            Some(v) => is_hex_digit(b) && v == hex_digit_value(b) && v <= 15,
            None => !is_hex_digit(b),
        },
{
    if 48 <= b && b <= 57 {
        Some(b - 48)
    } else if 97 <= b && b <= 102 {
        Some(b - 87)
    } else if 65 <= b && b <= 70 {
        Some(b - 55)
    } else {
        None
    }
}

impl Color {
    /// Parses a color from hexadecimal text: `"rrggbb"` (opaque) or
    /// `"rrggbbaa"`. Returns `None` for any other length or content.
    pub fn from_hex(s: &[u8]) -> (c: Option<Color>)
        ensures
            c == spec_color_from_hex(s@),
    {
        if s.len() != 6 && s.len() != 8 {
            return None;
        }
        let mut i: usize = 0;
        while i < s.len()
            invariant
                i <= s.len(),
                s@.len() == 6 || s@.len() == 8,
                forall|j: int| 0 <= j < i ==> is_hex_digit(s@[j]),
            decreases s.len() - i,
        {
            if hex_digit(s[i]).is_none() {
                return None;
            }
            i += 1;
        }
        let r = 16 * hex_digit(s[0]).unwrap() + hex_digit(s[1]).unwrap();
        let g = 16 * hex_digit(s[2]).unwrap() + hex_digit(s[3]).unwrap();
        let b = 16 * hex_digit(s[4]).unwrap() + hex_digit(s[5]).unwrap();
        let a = if s.len() == 8 {
            16 * hex_digit(s[6]).unwrap() + hex_digit(s[7]).unwrap()
        } else {
            255
        };
        Some(Color { r, g, b, a })
    }
}

} // verus!
