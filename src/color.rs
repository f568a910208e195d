use vstd::prelude::*;

verus! {

/// An 8-bit RGBA color; equality is channel equality.
#[derive(Debug, Clone, Copy, PartialEq, Eq, Structural, Hash)]
pub struct Rgba {
    pub r: u8,
    pub g: u8,
    pub b: u8,
    pub a: u8,
}

pub open spec fn max3(r: int, g: int, b: int) -> int {
    if r >= g && r >= b {
        r
    } else if g >= b {
        g
    } else {
        b
    }
}

pub open spec fn min3(r: int, g: int, b: int) -> int {
    if r <= g && r <= b {
        r
    } else if g <= b {
        g
    } else {
        b
    }
}

/// `num / den` rounded to the nearest integer, halves rounded up.
pub open spec fn round_div(num: int, den: int) -> int {
    (2 * num + den) / (2 * den)
}

/// Six times the hue, as a numerator over the chroma `max - min`: a value in
/// `[0, 6 * chroma)`, zero for a gray.
pub open spec fn hue_sixths(r: int, g: int, b: int) -> int {
    let mx = max3(r, g, b);
    let n = mx - min3(r, g, b);
    if n == 0 {
        0
    } else if mx == r {
        if g < b {
            6 * n + g - b
        } else {
            g - b
        }
    } else if mx == g {
        2 * n + b - r
    } else {
        4 * n + r - g
    }
}

/// The hue rounded to the nearest sixth of the color wheel, `0..=5`; a hue
/// that rounds up to a full turn is bucket `0` again.
pub open spec fn hue_bucket(r: int, g: int, b: int) -> int {
    let n = max3(r, g, b) - min3(r, g, b);
    if n == 0 {
        0
    } else {
        round_div(hue_sixths(r, g, b), n) % 6
    }
}

/// The mean of saturation and value scaled to `0..=255` and rounded:
/// `(255 * (max - min) / max + max) / 2`, and `0` for black.
pub open spec fn lightness_bucket(r: int, g: int, b: int) -> int {
    let mx = max3(r, g, b);
    let n = mx - min3(r, g, b);
    if mx == 0 {
        0
    } else {
        round_div(255 * n + mx * mx, 2 * mx)
    }
}

/// The display sort key of a color (alpha is ignored), as one number:
/// hue bucket first, lightness bucket second.
pub open spec fn key_rank(c: Rgba) -> int {
    hue_bucket(c.r as int, c.g as int, c.b as int) * 256 + lightness_bucket(
        c.r as int,
        c.g as int,
        c.b as int,
    )
}

/// A color in hue / saturation / value form, held exactly: the largest and
/// the smallest channel, and six times the hue as a numerator over their
/// difference.
#[derive(Debug, Clone, Copy, PartialEq, Eq, Structural)]
pub struct Hsv {
    pub max: u8,
    pub min: u8,
    pub hue_sixths: u32,
}

impl Hsv {
    /// The smallest channel is at most the largest, and six times the hue is
    /// below six times the chroma (zero for a gray).
    pub open spec fn well_formed(self) -> bool {
        &&& self.min <= self.max
        &&& self.max == self.min ==> self.hue_sixths == 0
        &&& self.max != self.min ==> self.hue_sixths < 6 * (self.max - self.min)
    }

    /// Whether this is the exact form of the color `(r, g, b)`.
    pub open spec fn is_of(self, r: u8, g: u8, b: u8) -> bool {
        &&& self.max as int == max3(r as int, g as int, b as int)
        &&& self.min as int == min3(r as int, g as int, b as int)
        &&& self.hue_sixths as int == hue_sixths(r as int, g as int, b as int)
    }

    pub fn from_rgb(r: u8, g: u8, b: u8) -> (h: Hsv)
        ensures
            h.is_of(r, g, b),
            h.well_formed(),
    {
        let max = if r >= g && r >= b {
            r
        } else if g >= b {
            g
        } else {
            b
        };
        let min = if r <= g && r <= b {
            r
        } else if g <= b {
            g
        } else {
            b
        };
        let n = (max - min) as u32;
        let (r, g, b) = (r as u32, g as u32, b as u32);
        let hue_sixths = if n == 0 {
            0
        } else if max as u32 == r {
            if g < b {
                6 * n + g - b
            } else {
                g - b
            }
        } else if max as u32 == g {
            2 * n + b - r
        } else {
            4 * n + r - g
        };
        Hsv { max, min, hue_sixths }
    }

    /// The display sort key: `(hue bucket, lightness bucket)`.
    pub fn to_sort_key(self) -> (k: (u8, u8))
        requires
            self.well_formed(),
        ensures
            self.max != self.min ==> k.0 as int == round_div(
                self.hue_sixths as int,
                self.max - self.min,
            ) % 6,
            self.max == self.min ==> k.0 == 0,
            self.max != 0 ==> k.1 as int == round_div(
                255 * (self.max - self.min) + self.max * self.max,
                2 * self.max,
            ),
            self.max == 0 ==> k.1 == 0,
    {
        let n = (self.max - self.min) as u32;
        let hue = if n == 0 {
            0u8
        } else {
            let h = (2 * self.hue_sixths + n) / (2 * n);
            assert(h <= 6) by (nonlinear_arith)
                requires
                    h == (2 * self.hue_sixths + n) / (2 * n),
                    self.hue_sixths < 6 * n,
                    n > 0,
            ;
            (h % 6) as u8
        };
        let mx = self.max as u32;
        let light = if mx == 0 {
            0u8
        } else {
            assert(mx * mx <= 255 * 255) by (nonlinear_arith)
                requires
                    mx <= 255,
            ;
            let num = 255 * n + mx * mx;
            let l = (2 * num + 2 * mx) / (4 * mx);
            assert(l <= 255) by (nonlinear_arith)
                requires
                    l == (2 * num + 2 * mx) / (4 * mx),
                    num == 255 * n + mx * mx,
                    n <= mx,
                    mx <= 255,
                    mx > 0,
            ;
            l as u8
        };
        (hue, light)
    }
}

/// The display sort key of `c`, packed as `hue * 256 + lightness`.
pub fn sort_key_of(c: Rgba) -> (k: u32)
    ensures
        k as int == key_rank(c),
{
    let h = Hsv::from_rgb(c.r, c.g, c.b);
    let (hue, light) = h.to_sort_key();
    hue as u32 * 256 + light as u32
}

} // verus!
