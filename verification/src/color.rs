//! Radiance as three channels, and its way to a displayable pixel.
use crate::scalar::{
    is_floor_sqrt, lemma_floor_sqrt_unique, truncated_quotient, Scalar, SCALE,
};
use crate::text::{decimal, write_decimal};
use crate::utils::{gamma_correct, rand, rand_range};
use crate::vector::Vector3;
use vstd::arithmetic::div_mod::lemma_div_multiples_vanish;
use vstd::prelude::*;

verus! {

/// Red, green and blue. While samples are added it is a sum of radiance;
/// only its average, gamma-corrected, is a colour to display.
#[derive(Clone, Copy, Debug, PartialEq, Eq, Structural)]
pub struct RGB(pub Scalar, pub Scalar, pub Scalar);

/// The brightest intensity that is displayed, in billionths: just below one.
pub const BRIGHTEST: i64 = 999_000_000;

/// The byte that shows a channel's sum over `samples` samples: the average is
/// gamma-corrected and clamped to zero and `BRIGHTEST`, and the byte is the
/// whole part of 256 times that.
pub open spec fn quantize_channel(sum: Scalar, samples: u32) -> u8 {
    let average = sum.div(Scalar::spec_from_int(samples as int));
    let shown = gamma_correct(average).max(Scalar::zero()).min(Scalar { raw: BRIGHTEST });
    (256 * shown.raw / (SCALE as int)) as u8
}

/// The byte that shows a channel's sum over `samples` samples.
fn quantize(sum: Scalar, samples: u32) -> (r: u8)
    ensures
        r == quantize_channel(sum, samples),
{
    let average = sum.div(Scalar::from_int(samples as i64));
    let shown = gamma_correct(average).max(Scalar::zero()).min(Scalar { raw: BRIGHTEST });
    (256 * shown.raw / SCALE) as u8
}

impl RGB {
    /// The pixel that shows this sum of `samples` samples.
    pub open spec fn spec_quantize(&self, samples: u32) -> (u8, u8, u8) {
        (
            quantize_channel(self.0, samples),
            quantize_channel(self.1, samples),
            quantize_channel(self.2, samples),
        )
    }

    /// The pixel as a line of text: the three bytes in decimal with a space
    /// between them, and a line feed.
    pub open spec fn line(&self, samples: u32) -> Seq<u8> {
        let (r, g, b) = self.spec_quantize(samples);
        decimal(r as nat) + seq![32u8] + decimal(g as nat) + seq![32u8] + decimal(b as nat)
            + seq![10u8]
    }

    /// The pixel that shows this sum of `samples_per_pixel` samples.
    #[verifier::when_used_as_spec(spec_quantize)]
    pub fn quantize(&self, samples_per_pixel: u32) -> (r: (u8, u8, u8))
        ensures
            r == self.spec_quantize(samples_per_pixel),
    {
        (
            quantize(self.0, samples_per_pixel),
            quantize(self.1, samples_per_pixel),
            quantize(self.2, samples_per_pixel),
        )
    }

    /// Appends to `writer` the line of text of the pixel that shows this sum
    /// of `samples_per_pixel` samples.
    pub fn write(&self, samples_per_pixel: u32, writer: &mut Vec<u8>)
        ensures
            final(writer)@ == old(writer)@ + self.line(samples_per_pixel),
    {
        let (r, g, b) = self.quantize(samples_per_pixel);
        write_decimal(writer, r as u64);
        writer.push(32u8);
        write_decimal(writer, g as u64);
        writer.push(32u8);
        write_decimal(writer, b as u64);
        writer.push(10u8);
        assert(writer@ =~= old(writer)@ + self.line(samples_per_pixel));
    }

    /// A colour whose channels are drawn from zero up to, not including, one.
    pub fn random() -> (r: RGB)
        ensures
            0 <= r.0.raw < SCALE,
            0 <= r.1.raw < SCALE,
            0 <= r.2.raw < SCALE,
    {
        RGB(rand(), rand(), rand())
    }

    /// A colour whose channels are drawn from `min` up to, not including,
    /// `max`.
    pub fn rand_range(min: Scalar, max: Scalar) -> (r: RGB)
        requires
            min.raw < max.raw,
        ensures
            min.raw <= r.0.raw < max.raw,
            min.raw <= r.1.raw < max.raw,
            min.raw <= r.2.raw < max.raw,
    {
        RGB(rand_range(min, max), rand_range(min, max), rand_range(min, max))
    }

    /// A pixel whose every sample was white is shown white: the sum of
    /// `samples` ones gives the brightest byte on every channel.
    pub proof fn lemma_all_white_shows_white(samples: u32)
        requires
            samples > 0,
        ensures
            RGB::white().scale(Scalar::spec_from_int(samples as int)).quantize(samples) == (
                255u8,
                255u8,
                255u8,
            ),
    {
        reveal(truncated_quotient);
        let count = Scalar::spec_from_int(samples as int);
        let c = count.raw as int;
        let s = SCALE as int;
        assert(c == samples * s && c > 0);
        assert(c * s == s * c && s * s == s * s) by (nonlinear_arith);
        assert(count.mul(Scalar::one()) == count) by {
            lemma_div_multiples_vanish(c, s);
        }
        assert(count.div(count) == Scalar::one()) by {
            lemma_div_multiples_vanish(s, c);
        }
        assert(is_floor_sqrt(SCALE * SCALE, SCALE as int)) by (nonlinear_arith)
            requires
                SCALE == 1_000_000_000,
        ;
        lemma_floor_sqrt_unique(SCALE * SCALE, SCALE as int);
        assert(gamma_correct(Scalar::one()) == Scalar::one());
        assert(quantize_channel(count, samples) == 255u8);
    }

    /// No light.
    pub open spec fn spec_black() -> RGB {
        RGB(Scalar::zero(), Scalar::zero(), Scalar::zero())
    }

    /// Full light on every channel.
    pub open spec fn spec_white() -> RGB {
        RGB(Scalar::one(), Scalar::one(), Scalar::one())
    }

    /// The channels of `v`, `x` for red.
    pub open spec fn spec_from_vector(v: Vector3) -> RGB {
        RGB(v.x, v.y, v.z)
    }

    /// Channel by channel sum.
    pub open spec fn spec_add(self, rhs: RGB) -> RGB {
        RGB(self.0.add(rhs.0), self.1.add(rhs.1), self.2.add(rhs.2))
    }

    /// Channel by channel product.
    pub open spec fn spec_mul(self, rhs: RGB) -> RGB {
        RGB(self.0.mul(rhs.0), self.1.mul(rhs.1), self.2.mul(rhs.2))
    }

    /// Every channel times `s`.
    pub open spec fn spec_scale(self, s: Scalar) -> RGB {
        RGB(s.mul(self.0), s.mul(self.1), s.mul(self.2))
    }

    /// No light.
    #[verifier::when_used_as_spec(spec_black)]
    pub fn black() -> (r: RGB)
        ensures
            r == RGB::spec_black(),
    {
        RGB(Scalar::zero(), Scalar::zero(), Scalar::zero())
    }

    /// Full light on every channel.
    #[verifier::when_used_as_spec(spec_white)]
    pub fn white() -> (r: RGB)
        ensures
            r == RGB::spec_white(),
    {
        RGB(Scalar::one(), Scalar::one(), Scalar::one())
    }

    /// The channels of `v`, `x` for red.
    #[verifier::when_used_as_spec(spec_from_vector)]
    pub fn from_vector(v: Vector3) -> (r: RGB)
        ensures
            r == RGB::spec_from_vector(v),
    {
        RGB(v.x, v.y, v.z)
    }

    /// Channel by channel sum.
    #[verifier::when_used_as_spec(spec_add)]
    pub fn add(self, rhs: RGB) -> (r: RGB)
        ensures
            r == self.spec_add(rhs),
    {
        RGB(self.0.add(rhs.0), self.1.add(rhs.1), self.2.add(rhs.2))
    }

    /// Channel by channel product.
    #[verifier::when_used_as_spec(spec_mul)]
    pub fn mul(self, rhs: RGB) -> (r: RGB)
        ensures
            r == self.spec_mul(rhs),
    {
        RGB(self.0.mul(rhs.0), self.1.mul(rhs.1), self.2.mul(rhs.2))
    }

    /// Every channel times `s`.
    #[verifier::when_used_as_spec(spec_scale)]
    pub fn scale(self, s: Scalar) -> (r: RGB)
        ensures
            r == self.spec_scale(s),
    {
        RGB(s.mul(self.0), s.mul(self.1), s.mul(self.2))
    }
}

} // verus!
