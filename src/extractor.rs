use vstd::prelude::*;

use crate::cli::{ColorChannel, Coefficients, SortingAlgorithm, COEFFICIENT_SCALE};
use crate::sort::SortOptions;

verus! {

/// An RGB pixel with 8-bit channels.
#[derive(Debug, Clone, Copy, PartialEq, Eq, Structural)]
pub struct Pixel {
    pub red: u8,
    pub green: u8,
    pub blue: u8,
}

pub open spec fn min3(a: u8, b: u8, c: u8) -> u8 {
    if a <= b && a <= c {
        a
    } else if b <= c {
        b
    } else {
        c
    }
}

pub open spec fn max3(a: u8, b: u8, c: u8) -> u8 {
    if a >= b && a >= c {
        a
    } else if b >= c {
        b
    } else {
        c
    }
}

/// `n / d` truncated toward zero and saturated to the range of `u8`.
pub open spec fn saturating_quotient(n: int, d: int) -> u8 {
    if n <= 0 {
        0
    } else if n / d >= 255 {
        255
    } else {
        (n / d) as u8
    }
}

/// A channel value multiplied by its coefficient, unless the coefficient is zero.
pub open spec fn scaled_channel(v: u8, c: i32) -> u8 {
    if c == 0 {
        v
    } else {
        saturating_quotient(v * c, COEFFICIENT_SCALE as int)
    }
}

/// The pixel with each channel pre-scaled by its coefficient.
pub open spec fn scaled_pixel(p: Pixel, c: Coefficients) -> Pixel {
    Pixel {
        red: scaled_channel(p.red, c.red),
        green: scaled_channel(p.green, c.green),
        blue: scaled_channel(p.blue, c.blue),
    }
}

pub open spec fn pixel_min(p: Pixel) -> u8 {
    min3(p.red, p.green, p.blue)
}

pub open spec fn pixel_max(p: Pixel) -> u8 {
    max3(p.red, p.green, p.blue)
}

/// Mean of the channels, by integer division.
pub open spec fn intensity_of(p: Pixel, c: Coefficients) -> u8 {
    let q = scaled_pixel(p, c);
    ((q.red + q.green + q.blue) / 3) as u8
}

/// Midpoint of the smallest and largest channel, with the sum wrapping at 256.
pub open spec fn brightness_of(p: Pixel, c: Coefficients) -> u8 {
    let q = scaled_pixel(p, c);
    (((pixel_max(q) + pixel_min(q)) % 256) / 2) as u8
}

/// Weighted sum of the channels.
pub open spec fn luma_of(p: Pixel, c: Coefficients) -> u8 {
    saturating_quotient(
        c.red * p.red + c.green * p.green + c.blue * p.blue,
        COEFFICIENT_SCALE as int,
    )
}

/// Largest channel minus smallest channel.
pub open spec fn chroma_of(p: Pixel, c: Coefficients) -> u8 {
    let q = scaled_pixel(p, c);
    (pixel_max(q) - pixel_min(q)) as u8
}

/// Chroma divided by the largest channel, or zero for black.
pub open spec fn saturation_of(p: Pixel, c: Coefficients) -> u8 {
    let q = scaled_pixel(p, c);
    if pixel_max(q) != 0 {
        ((pixel_max(q) - pixel_min(q)) / (pixel_max(q) as int)) as u8
    } else {
        0
    }
}

/// HSV hue in degrees, truncated and saturated to `u8`; zero for grays.
///
/// The coefficients are the sector offsets, in units of 60 degrees, for a
/// largest channel of red, green and blue (checked in that order).
pub open spec fn hue_of(p: Pixel, c: Coefficients) -> u8 {
    let mx = pixel_max(p);
    let mn = pixel_min(p);
    if mx == mn {
        0
    } else {
        let d = mx - mn;
        let offset: int = if mx == p.red {
            c.red as int
        } else if mx == p.green {
            c.green as int
        } else {
            c.blue as int
        };
        let delta: int = if mx == p.red {
            p.green - p.blue
        } else if mx == p.green {
            p.blue - p.red
        } else {
            p.red - p.green
        };
        let den = COEFFICIENT_SCALE * d;
        let n = 60 * (offset * d + COEFFICIENT_SCALE * delta);
        saturating_quotient(if n < 0 { n + 360 * den } else { n }, den)
    }
}

/// The pixel with every channel but `ch` set to zero.
pub open spec fn isolated(p: Pixel, ch: ColorChannel) -> Pixel {
    match ch {
        ColorChannel::Red => Pixel { red: p.red, green: 0, blue: 0 },
        ColorChannel::Green => Pixel { red: 0, green: p.green, blue: 0 },
        ColorChannel::Blue => Pixel { red: 0, green: 0, blue: p.blue },
    }
}

/// The score of `p` under the score function `by`.
pub open spec fn score_of(by: SortingAlgorithm, p: Pixel, c: Coefficients) -> u8 {
    match by {
        SortingAlgorithm::Luma => luma_of(p, c),
        SortingAlgorithm::Chroma => chroma_of(p, c),
        SortingAlgorithm::Saturation => saturation_of(p, c),
        SortingAlgorithm::Hue => hue_of(p, c),
        SortingAlgorithm::Brightness => brightness_of(p, c),
        SortingAlgorithm::Intensity => intensity_of(p, c),
    }
}

/// Whether channel isolation can be composed with a score function: only
/// with those that combine channel values, not with hue and saturation.
pub open spec fn channel_supported(by: SortingAlgorithm, channel: Option<ColorChannel>) -> bool {
    channel is None || !(by is Hue || by is Saturation)
}

fn saturating_div(n: i64, d: i64) -> (r: u8)
    requires
        d > 0,
    ensures
        r == saturating_quotient(n as int, d as int),
{
    if n <= 0 {
        0
    } else {
        let q = n / d;
        if q >= 255 {
            255
        } else {
            q as u8
        }
    }
}

fn scale_channel(v: u8, c: i32) -> (r: u8)
    ensures
        r == scaled_channel(v, c),
{
    if c == 0 {
        v
    } else {
        let vi = v as i64;
        let ci = c as i64;
        assert(-0x8000_0000 * 255 <= vi * ci <= 0x7fff_ffff * 255) by (nonlinear_arith)
            requires
                0 <= vi <= 255,
                -0x8000_0000 <= ci <= 0x7fff_ffff,
        ;
        saturating_div(vi * ci, COEFFICIENT_SCALE)
    }
}

/// The pixel with each channel multiplied by its coefficient, truncated to
/// 8 bits; a zero coefficient leaves its channel as it is.
fn update_pixel(pixel: &Pixel, coefficients: &Coefficients) -> (r: Pixel)
    ensures
        r == scaled_pixel(*pixel, *coefficients),
{
    Pixel {
        red: scale_channel(pixel.red, coefficients.red),
        green: scale_channel(pixel.green, coefficients.green),
        blue: scale_channel(pixel.blue, coefficients.blue),
    }
}

/// The smallest and the largest channel of a pixel.
fn min_max(p: &Pixel) -> (r: (u8, u8))
    ensures
        r == (pixel_min(*p), pixel_max(*p)),
{
    let mut mn = p.red;
    let mut mx = p.red;
    if p.green < mn {
        mn = p.green;
    }
    if p.green > mx {
        mx = p.green;
    }
    if p.blue < mn {
        mn = p.blue;
    }
    if p.blue > mx {
        mx = p.blue;
    }
    (mn, mx)
}

fn intensity_score(pixel: &Pixel, c: &Coefficients) -> (r: u8)
    ensures
        r == intensity_of(*pixel, *c),
{
    let q = update_pixel(pixel, c);
    ((q.red as u16 + q.green as u16 + q.blue as u16) / 3) as u8
}

fn brightness_score(pixel: &Pixel, c: &Coefficients) -> (r: u8)
    ensures
        r == brightness_of(*pixel, *c),
{
    let q = update_pixel(pixel, c);
    let (mn, mx) = min_max(&q);
    mx.wrapping_add(mn) / 2
}

fn luma_score(pixel: &Pixel, c: &Coefficients) -> (r: u8)
    ensures
        r == luma_of(*pixel, *c),
{
    let r = pixel.red as i64;
    let g = pixel.green as i64;
    let b = pixel.blue as i64;
    let cr = c.red as i64;
    let cg = c.green as i64;
    let cb = c.blue as i64;
    assert(-0x8000_0000 * 255 <= cr * r <= 0x7fff_ffff * 255) by (nonlinear_arith)
        requires
            0 <= r <= 255,
            -0x8000_0000 <= cr <= 0x7fff_ffff,
    ;
    assert(-0x8000_0000 * 255 <= cg * g <= 0x7fff_ffff * 255) by (nonlinear_arith)
        requires
            0 <= g <= 255,
            -0x8000_0000 <= cg <= 0x7fff_ffff,
    ;
    assert(-0x8000_0000 * 255 <= cb * b <= 0x7fff_ffff * 255) by (nonlinear_arith)
        requires
            0 <= b <= 255,
            -0x8000_0000 <= cb <= 0x7fff_ffff,
    ;
    saturating_div(cr * r + cg * g + cb * b, COEFFICIENT_SCALE)
}

fn chroma_score(pixel: &Pixel, c: &Coefficients) -> (r: u8)
    ensures
        r == chroma_of(*pixel, *c),
{
    let q = update_pixel(pixel, c);
    let (mn, mx) = min_max(&q);
    mx.wrapping_sub(mn)
}

fn saturation_score(pixel: &Pixel, c: &Coefficients) -> (r: u8)
    ensures
        r == saturation_of(*pixel, *c),
{
    let q = update_pixel(pixel, c);
    let (mn, mx) = min_max(&q);
    if mx != 0 {
        mx.wrapping_sub(mn) / mx
    } else {
        0
    }
}

fn hue_score(pixel: &Pixel, c: &Coefficients) -> (r: u8)
    ensures
        r == hue_of(*pixel, *c),
{
    let (mn, mx) = min_max(pixel);
    if mx == mn {
        return 0;
    }
    let r = pixel.red as i64;
    let g = pixel.green as i64;
    let b = pixel.blue as i64;
    let d = (mx - mn) as i64;
    let (offset, delta): (i64, i64) = if mx == pixel.red {
        (c.red as i64, g - b)
    } else if mx == pixel.green {
        (c.green as i64, b - r)
    } else {
        (c.blue as i64, r - g)
    };
    assert(-0x8000_0000 * 255 <= offset * d <= 0x7fff_ffff * 255) by (nonlinear_arith)
        requires
            1 <= d <= 255,
            -0x8000_0000 <= offset <= 0x7fff_ffff,
    ;
    let den = COEFFICIENT_SCALE * d;
    let n = 60 * (offset * d + COEFFICIENT_SCALE * delta);
    let n2 = if n < 0 {
        n + 360 * den
    } else {
        n
    };
    saturating_div(n2, den)
}

/// Intensity of a pixel: the mean of its (pre-scaled) channels.
pub fn intensity(pixel: &Pixel, options: &SortOptions) -> (r: u8)
    ensures
        r == intensity_of(*pixel, options.coefficients),
{
    intensity_score(pixel, &options.coefficients)
}

/// Brightness of a pixel: the midpoint of its (pre-scaled) smallest and
/// largest channel, the sum wrapping at 256.
pub fn brightness(pixel: &Pixel, options: &SortOptions) -> (r: u8)
    ensures
        r == brightness_of(*pixel, options.coefficients),
{
    brightness_score(pixel, &options.coefficients)
}

/// Luma of a pixel: the coefficient-weighted sum of its channels.
pub fn luma(pixel: &Pixel, options: &SortOptions) -> (r: u8)
    ensures
        r == luma_of(*pixel, options.coefficients),
{
    luma_score(pixel, &options.coefficients)
}

/// Chroma of a pixel: its (pre-scaled) largest minus smallest channel.
pub fn chroma(pixel: &Pixel, options: &SortOptions) -> (r: u8)
    ensures
        r == chroma_of(*pixel, options.coefficients),
{
    chroma_score(pixel, &options.coefficients)
}

/// Hue of a pixel in degrees, saturated to 8 bits; zero for grays.
pub fn hue(pixel: &Pixel, options: &SortOptions) -> (r: u8)
    ensures
        r == hue_of(*pixel, options.coefficients),
{
    hue_score(pixel, &options.coefficients)
}

/// Saturation of a pixel: chroma divided by the largest channel.
pub fn saturation(pixel: &Pixel, options: &SortOptions) -> (r: u8)
    ensures
        r == saturation_of(*pixel, options.coefficients),
{
    saturation_score(pixel, &options.coefficients)
}

/// A score function bound to its coefficients and optional channel isolation.
#[derive(Debug, Clone, Copy, PartialEq, Eq, Structural)]
pub struct RgbSorter {
    pub by: SortingAlgorithm,
    pub coefficients: Coefficients,
    pub channel: Option<ColorChannel>,
}

impl RgbSorter {
    /// The ordering key of a pixel under this sorter.
    pub open spec fn key_of(self, p: Pixel) -> u8 {
        match self.channel {
            Some(ch) => score_of(self.by, isolated(p, ch), self.coefficients),
            None => score_of(self.by, p, self.coefficients),
        }
    }

    /// The ordering key of `pixel`: its score, computed on the isolated
    /// channel when one is set.
    pub fn key(&self, pixel: &Pixel) -> (r: u8)
        ensures
            r == self.key_of(*pixel),
    {
        let p = match self.channel {
            Some(ColorChannel::Red) => Pixel { red: pixel.red, green: 0, blue: 0 },
            Some(ColorChannel::Green) => Pixel { red: 0, green: pixel.green, blue: 0 },
            Some(ColorChannel::Blue) => Pixel { red: 0, green: 0, blue: pixel.blue },
            None => *pixel,
        };
        let c = &self.coefficients;
        match self.by {
            SortingAlgorithm::Luma => luma_score(&p, c),
            SortingAlgorithm::Chroma => chroma_score(&p, c),
            SortingAlgorithm::Saturation => saturation_score(&p, c),
            SortingAlgorithm::Hue => hue_score(&p, c),
            SortingAlgorithm::Brightness => brightness_score(&p, c),
            SortingAlgorithm::Intensity => intensity_score(&p, c),
        }
    }
}

impl SortingAlgorithm {
    /// Binds this score function to its coefficients and channel isolation.
    ///
    /// Fails with a configuration error when a channel is isolated for hue or
    /// saturation, whose meaning on a single channel is not defined.
    pub fn into_rgb_sorter(&self, coefficients: Coefficients, channel: Option<ColorChannel>) -> (r:
        Option<RgbSorter>)
        ensures
            r == (if channel_supported(*self, channel) {
                Some(RgbSorter { by: *self, coefficients, channel })
            } else {
                None::<RgbSorter>
            }),
    {
        match (self, channel) {
            (SortingAlgorithm::Hue, Some(_)) => None,
            (SortingAlgorithm::Saturation, Some(_)) => None,
            _ => Some(RgbSorter { by: *self, coefficients, channel }),
        }
    }
}

} // verus!
