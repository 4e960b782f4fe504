use vstd::prelude::*;
use crate::chance::random_range;
use crate::fixed::clamp_i32;
use crate::fixed::div_toward_zero;
use crate::fixed::along;
use crate::fixed::carry;
use crate::fixed::fine_length;
use crate::fixed::fine_length_of;
use crate::fixed::lemma_along_bounds;
use crate::fixed::narrow;
use crate::fixed::trunc_div;
use crate::pixel::Pixel;

verus! {

/// Colour-vector units in one pixel level.
pub const LEVEL: i32 = 1000;

/// The number of values a uniform sample can take: a sample `s` stands for the
/// fraction `s / SAMPLE_SPAN`.
pub const SAMPLE_SPAN: u32 = 65536;

/// A colour as three signed fixed-point channels. One unit is a thousandth of
/// a pixel level, so a channel at full brightness holds 255 000.
#[derive(Clone, Copy, Debug, PartialEq, Eq, Structural)]
pub struct ColorVector {
    pub r: i32,
    pub g: i32,
    pub b: i32,
}

/// Three uniform samples, one for each colour channel.
#[derive(Clone, Copy, Debug, PartialEq, Eq, Structural)]
pub struct Sample {
    pub r: u16,
    pub g: u16,
    pub b: u16,
}

/// The pixel level that a colour-vector channel narrows to: the channel in
/// whole levels, rounded toward zero and held to the range of a byte.
pub open spec fn level_of(channel: int) -> u8 {
    if channel < 0 {
        0
    } else if channel / 1000 > 255 {
        255
    } else {
        (channel / 1000) as u8
    }
}

/// The colour vector of a pixel: each colour channel times `LEVEL`.
pub open spec fn vector_of(p: Pixel) -> ColorVector {
    ColorVector { r: (p.r * 1000) as i32, g: (p.g * 1000) as i32, b: (p.b * 1000) as i32 }
}

/// The opaque pixel that a colour vector narrows to.
pub open spec fn pixel_of(v: ColorVector) -> Pixel {
    Pixel { r: level_of(v.r as int), g: level_of(v.g as int), b: level_of(v.b as int), a: 255 }
}

/// One channel of a sampled direction scaled to `magnitude`: the sample times
/// the magnitude over the length of the sampled vector, held to the 32-bit
/// range.
pub open spec fn scaled_channel(s: int, length: int, magnitude: int) -> int {
    clamp_i32(along(s, length, magnitude))
}

impl Sample {
    /// Squared length of the sampled vector.
    pub open spec fn sq_len(self) -> nat {
        (self.r * self.r + self.g * self.g + self.b * self.b) as nat
    }

    /// The sampled direction scaled to `magnitude`, or the zero vector where
    /// all three samples are zero.
    pub open spec fn unit_scaled(self, magnitude: u32) -> ColorVector {
        let length = fine_length(self.sq_len()) as int;
        ColorVector {
            r: scaled_channel(self.r as int, length, magnitude as int) as i32,
            g: scaled_channel(self.g as int, length, magnitude as int) as i32,
            b: scaled_channel(self.b as int, length, magnitude as int) as i32,
        }
    }
}

impl ColorVector {
    /// The vector with every channel zero.
    pub open spec fn zero() -> ColorVector {
        ColorVector { r: 0, g: 0, b: 0 }
    }

    /// Squared length.
    pub open spec fn sq_len(self) -> int {
        self.r * self.r + self.g * self.g + self.b * self.b
    }

    /// Channel-wise difference, each channel held to the 32-bit range.
    pub open spec fn minus(self, other: ColorVector) -> ColorVector {
        ColorVector {
            r: clamp_i32(self.r - other.r) as i32,
            g: clamp_i32(self.g - other.g) as i32,
            b: clamp_i32(self.b - other.b) as i32,
        }
    }

    /// Every channel times `permille / 1000`, rounded toward zero and held to
    /// the 32-bit range.
    pub open spec fn scaled(self, permille: u16) -> ColorVector {
        ColorVector {
            r: clamp_i32(trunc_div(self.r * permille, 1000)) as i32,
            g: clamp_i32(trunc_div(self.g * permille, 1000)) as i32,
            b: clamp_i32(trunc_div(self.b * permille, 1000)) as i32,
        }
    }

    /// Squared length.
    pub fn sq_length(&self) -> (m: u64)
        ensures
            m == self.sq_len(),
    {
        let r: u64 = square(self.r);
        let g: u64 = square(self.g);
        let b: u64 = square(self.b);
        r + g + b
    }

    /// Channel-wise difference, saturating at the 32-bit range.
    pub fn sub(&self, other: &ColorVector) -> (d: ColorVector)
        ensures
            d == self.minus(*other),
    {
        ColorVector {
            r: narrow(self.r as i128 - other.r as i128),
            g: narrow(self.g as i128 - other.g as i128),
            b: narrow(self.b as i128 - other.b as i128),
        }
    }

    /// Every channel times `permille / 1000`, rounded toward zero.
    pub fn scale(&self, permille: u16) -> (s: ColorVector)
        ensures
            s == self.scaled(permille),
    {
        ColorVector {
            r: scale_channel(self.r, permille),
            g: scale_channel(self.g, permille),
            b: scale_channel(self.b, permille),
        }
    }
}

/// The square of a channel.
fn square(c: i32) -> (s: u64)
    ensures
        s == c * c,
        s <= 0x4000_0000_0000_0000,
{
    let wide: i64 = c as i64;
    assert(0 <= wide * wide <= 0x4000_0000_0000_0000) by (nonlinear_arith)
        requires
            -0x8000_0000 <= wide <= 0x8000_0000,
    ;
    (wide * wide) as u64
}

/// One channel times `permille / 1000`, rounded toward zero.
fn scale_channel(c: i32, permille: u16) -> (s: i32)
    ensures
        s == clamp_i32(trunc_div(c * permille, 1000)),
{
    assert(-0x8000_0000 * 0xffff <= c * permille <= 0x8000_0000 * 0xffff) by (nonlinear_arith)
        requires
            -0x8000_0000 <= c <= 0x8000_0000,
            0 <= permille <= 0xffff,
    ;
    let product: i128 = (c as i128) * (permille as i128);
    narrow(div_toward_zero(product, 1000))
}

/// The pixel level that a colour-vector channel narrows to.
fn level(channel: i32) -> (l: u8)
    ensures
        l == level_of(channel as int),
{
    if channel < 0 {
        0
    } else if channel / 1000 > 255 {
        255
    } else {
        (channel / 1000) as u8
    }
}

/// The colour vector of a pixel: each colour channel times `LEVEL`. Alpha is
/// dropped.
pub fn pixel_to_vector(p: &Pixel) -> (v: ColorVector)
    ensures
        v == vector_of(*p),
        v.r == p.r * 1000,
        v.g == p.g * 1000,
        v.b == p.b * 1000,
{
    ColorVector { r: p.r as i32 * LEVEL, g: p.g as i32 * LEVEL, b: p.b as i32 * LEVEL }
}

/// The opaque pixel that a colour vector narrows to: each channel in whole
/// levels, rounded toward zero and held to the range from 0 to 255.
pub fn vector_to_pixel(v: ColorVector) -> (p: Pixel)
    ensures
        p == pixel_of(v),
{
    Pixel { r: level(v.r), g: level(v.g), b: level(v.b), a: 255 }
}

/// One channel of a sampled direction scaled to `magnitude`.
fn scale_sample(s: u16, length: u64, magnitude: u32) -> (c: i32)
    ensures
        c == scaled_channel(s as int, length as int, magnitude as int),
{
    narrow(carry(s as i64, length, magnitude as u64))
}

/// The direction of three samples scaled to `magnitude`: each sample times the
/// magnitude over the length of the sampled vector, rounded down. Three zero
/// samples have no direction and give the zero vector.
pub fn unit_scaled(sample: Sample, magnitude: u32) -> (v: ColorVector)
    ensures
        v == sample.unit_scaled(magnitude),
        0 <= v.r <= magnitude,
        0 <= v.g <= magnitude,
        0 <= v.b <= magnitude,
{
    let r: u64 = sample.r as u64;
    let g: u64 = sample.g as u64;
    let b: u64 = sample.b as u64;
    assert(r * r <= 0xffff * 0xffff && g * g <= 0xffff * 0xffff && b * b <= 0xffff * 0xffff)
        by (nonlinear_arith)
        requires
            r <= 0xffff,
            g <= 0xffff,
            b <= 0xffff,
    ;
    let length: u64 = fine_length_of((r * r + g * g + b * b) as u128);
    proof {
        lemma_unit_scaled_bounds(sample, magnitude);
    }
    ColorVector {
        r: scale_sample(sample.r, length, magnitude),
        g: scale_sample(sample.g, length, magnitude),
        b: scale_sample(sample.b, length, magnitude),
    }
}

/// No channel of a scaled direction is negative or exceeds the magnitude.
pub proof fn lemma_unit_scaled_bounds(sample: Sample, magnitude: u32)
    ensures
        0 <= sample.unit_scaled(magnitude).r <= magnitude,
        0 <= sample.unit_scaled(magnitude).g <= magnitude,
        0 <= sample.unit_scaled(magnitude).b <= magnitude,
{
    let n = sample.sq_len();
    assert(sample.r * sample.r >= 0 && sample.g * sample.g >= 0 && sample.b * sample.b >= 0)
        by (nonlinear_arith);
    lemma_along_bounds(sample.r as int, n, magnitude as int);
    lemma_along_bounds(sample.g as int, n, magnitude as int);
    lemma_along_bounds(sample.b as int, n, magnitude as int);
}

/// Draws three uniform samples and scales their direction to `magnitude`.
pub fn random_unit_scaled(magnitude: u32) -> (v: ColorVector)
    ensures
        exists|sample: Sample| v == sample.unit_scaled(magnitude),
        0 <= v.r <= magnitude,
        0 <= v.g <= magnitude,
        0 <= v.b <= magnitude,
{
    let sample = Sample {
        r: random_range(0, SAMPLE_SPAN as i64) as u16,
        g: random_range(0, SAMPLE_SPAN as i64) as u16,
        b: random_range(0, SAMPLE_SPAN as i64) as u16,
    };
    unit_scaled(sample, magnitude)
}

/// Turning a pixel into a colour vector and back keeps its three colour
/// channels and makes it opaque.
pub proof fn lemma_round_trip(p: Pixel)
    ensures
        pixel_of(vector_of(p)) == (Pixel { r: p.r, g: p.g, b: p.b, a: 255 }),
        p.a == 255 ==> pixel_of(vector_of(p)) == p,
{
}

/// Scaling by at most one whole never raises a channel of a pixel's colour:
/// the pixel that the scaled vector narrows to has no colour channel above the
/// pixel it came from.
pub proof fn lemma_scaling_darkens(p: Pixel, permille: u16)
    requires
        permille <= 1000,
    ensures
        pixel_of(vector_of(p).scaled(permille)).r <= p.r,
        pixel_of(vector_of(p).scaled(permille)).g <= p.g,
        pixel_of(vector_of(p).scaled(permille)).b <= p.b,
{
    lemma_channel_darkens(p.r, permille);
    lemma_channel_darkens(p.g, permille);
    lemma_channel_darkens(p.b, permille);
}

/// Scaling one channel of a pixel by at most one whole never raises it.
proof fn lemma_channel_darkens(c: u8, permille: u16)
    requires
        permille <= 1000,
    ensures
        level_of(clamp_i32(trunc_div((c * 1000) * permille, 1000))) <= c,
{
    let x: int = c * 1000;
    assert(0 <= trunc_div(x * permille, 1000) <= x) by (nonlinear_arith)
        requires
            0 <= x,
            0 <= permille <= 1000,
            trunc_div(x * permille, 1000) == (x * permille) / 1000,
    ;
}

} // verus!
