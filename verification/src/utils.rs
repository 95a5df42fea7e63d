//! Angles, random draws, and the optics of reflection and refraction.
use crate::scalar::{magnitude, magnitude_of, truncated_quotient, Scalar, LIMIT, SCALE};
use vstd::arithmetic::div_mod::{lemma_div_is_ordered_by_denominator, lemma_div_pos_is_pos};
use crate::vector::Vector3;
use rand::Rng;
use vstd::prelude::*;

verus! {

/// The circle constant in billionths, to the nearest.
pub const PI: i64 = 3_141_592_654;

/// Below this many billionths a component counts as zero: a hundred-millionth.
pub const NEAR_ZERO: i64 = 10;

/// The parameter, in billionths, beyond which no intersection is looked for.
pub const INF: i64 = LIMIT;

/// The angle of `degrees` degrees in radians: times `PI`, by 180.
pub open spec fn spec_degrees_to_radians(degrees: Scalar) -> Scalar {
    degrees.mul(Scalar { raw: PI }).div(Scalar::spec_from_int(180))
}

/// The angle of `degrees` degrees in radians.
#[verifier::when_used_as_spec(spec_degrees_to_radians)]
pub fn degrees_to_radians(degrees: Scalar) -> (r: Scalar)
    ensures
        r == spec_degrees_to_radians(degrees),
{
    degrees.mul(Scalar { raw: PI }).div(Scalar::from_int(180))
}

/// Units in one of the finer numbers that angles, sines and cosines are
/// worked out in: a billion billionths.
pub const WIDE: u128 = 1_000_000_000_000_000_000;

/// The circle constant in the finer unit.
pub const PI_WIDE: u128 = 3_141_592_653_589_793_238;

/// The right angle in the finer unit.
pub const RIGHT_WIDE: u128 = 1_570_796_326_794_896_619;

/// Terms that the series of the sine and of the cosine are summed to: enough
/// for the finer unit up to a right angle.
pub const SERIES_TERMS: u32 = 14;

/// The sum `1 - q/(f(f+1)) (1 - q/((f+2)(f+3)) (1 - ...))` of `terms` nested
/// terms in the finer unit, where `q` is `squared`, the square of an angle:
/// with `f = 2` the series of the sine divided by the angle, and with `f = 3`
/// the inner part of the series of the cosine.
pub open spec fn alternating_series(squared: int, first: int, terms: nat) -> int
    decreases terms,
{
    if terms == 0 {
        WIDE as int
    } else {
        WIDE - (squared * alternating_series(squared, first + 2, (terms - 1) as nat) / (WIDE as int))
            / (first * (first + 1))
    }
}

/// One term of the series lies between zero and one.
pub proof fn lemma_term_bounds(squared: int, inner: int, first: int)
    requires
        0 <= squared <= 2_500_000_000_000_000_000,
        0 <= inner <= WIDE,
        2 <= first,
    ensures
        0 <= (squared * inner / (WIDE as int)) / (first * (first + 1)) <= WIDE,
        0 <= squared * inner <= 2_500_000_000_000_000_000 * 1_000_000_000_000_000_000,
        6 <= first * (first + 1),
{
    let w = WIDE as int;
    assert(0 <= squared * inner <= 2_500_000_000_000_000_000 * w) by (nonlinear_arith)
        requires
            0 <= squared <= 2_500_000_000_000_000_000,
            0 <= inner <= w,
    ;
    assert(6 <= first * (first + 1)) by (nonlinear_arith)
        requires
            2 <= first,
    ;
    let t = squared * inner / w;
    assert(0 <= t <= 2_500_000_000_000_000_000);
    lemma_div_pos_is_pos(t, first * (first + 1));
    lemma_div_is_ordered_by_denominator(t, 6, first * (first + 1));
}

/// The series of `SERIES_TERMS` terms, from the innermost out.
fn series(squared: u128, first: u128) -> (r: u128)
    requires
        squared <= 2_500_000_000_000_000_000,
        2 <= first <= 3,
    ensures
        r == alternating_series(squared as int, first as int, SERIES_TERMS as nat),
        r <= WIDE,
{
    let mut acc: u128 = WIDE;
    let mut left: u32 = SERIES_TERMS;
    while left > 0
        invariant
            squared <= 2_500_000_000_000_000_000,
            2 <= first <= 3,
            left <= SERIES_TERMS,
            acc <= WIDE,
            acc == alternating_series(
                squared as int,
                first + 2 * left,
                (SERIES_TERMS - left) as nat,
            ),
        decreases left,
    {
        left -= 1;
        let f: u128 = first + 2 * (left as u128);
        proof {
            lemma_term_bounds(squared as int, acc as int, f as int);
        }
        assert(f * (f + 1) <= 31 * 32) by (nonlinear_arith)
            requires
                2 <= f <= 31,
        ;
        acc = WIDE - (squared * acc / WIDE) / (f * (f + 1));
    }
    acc
}

/// The sine of an angle of up to a right angle, both in the finer unit: the
/// angle times its series.
pub open spec fn wide_sin(angle: int) -> int {
    angle * alternating_series(angle * angle / (WIDE as int), 2, SERIES_TERMS as nat) / (
    WIDE as int)
}

/// The cosine of an angle of up to a right angle, both in the finer unit:
/// one less half the square times the inner series.
pub open spec fn wide_cos(angle: int) -> int {
    WIDE - (angle * angle / (WIDE as int) * alternating_series(
        angle * angle / (WIDE as int),
        3,
        SERIES_TERMS as nat,
    ) / (WIDE as int)) / 2
}

/// Half of an angle of `degrees` degrees, in radians in the finer unit, sign
/// left aside.
pub open spec fn half_angle(degrees: Scalar) -> int {
    magnitude(degrees.raw as int) * PI_WIDE / 360_000_000_000
}

/// `factor` times the tangent of half the angle of `degrees` degrees, the
/// sine and the cosine worked out in the finer unit and the quotient rounded
/// once, to the nearest. Zero for a factor of zero; else, from a right angle
/// on and where the cosine is not positive, the limit of the sign.
pub open spec fn spec_half_angle_tangent(degrees: Scalar, factor: Scalar) -> Scalar {
    let angle = half_angle(degrees);
    let sine = wide_sin(angle);
    let cosine = wide_cos(angle);
    let size = if angle >= RIGHT_WIDE || cosine <= 0 {
        LIMIT as int
    } else {
        (2 * magnitude(factor.raw as int) * sine + cosine) / (2 * cosine)
    };
    if factor.raw == 0 {
        Scalar::zero()
    } else if (degrees.raw < 0) != (factor.raw < 0) {
        Scalar::of(-size)
    } else {
        Scalar::of(size)
    }
}

/// `factor` times the tangent of half the angle of `degrees` degrees,
/// rounded once, to the nearest.
#[verifier::when_used_as_spec(spec_half_angle_tangent)]
pub fn half_angle_tangent(degrees: Scalar, factor: Scalar) -> (r: Scalar)
    ensures
        r == spec_half_angle_tangent(degrees, factor),
{
    if factor.raw == 0 {
        return Scalar::zero();
    }
    let turned = (degrees.raw < 0) != (factor.raw < 0);
    let size: u128 = magnitude_of(factor.raw);
    let angle: u128 = magnitude_of(degrees.raw) * PI_WIDE / 360_000_000_000;
    let clamped: u128 = if angle >= RIGHT_WIDE {
        LIMIT as u128
    } else {
        assert(angle * angle <= 2_500_000_000_000_000_000 * 1_000_000_000_000_000_000)
            by (nonlinear_arith)
            requires
                angle < 1_570_796_326_794_896_619,
        ;
        let squared: u128 = angle * angle / WIDE;
        let sine_series = series(squared, 2);
        let cosine_series = series(squared, 3);
        assert(angle * sine_series <= 1_570_796_326_794_896_619 * 1_000_000_000_000_000_000
            && squared * cosine_series <= 2_500_000_000_000_000_000 * 1_000_000_000_000_000_000)
            by (nonlinear_arith)
            requires
                angle < 1_570_796_326_794_896_619,
                sine_series <= 1_000_000_000_000_000_000,
                squared <= 2_500_000_000_000_000_000,
                cosine_series <= 1_000_000_000_000_000_000,
        ;
        let sine: u128 = angle * sine_series / WIDE;
        let fall: u128 = (squared * cosine_series / WIDE) / 2;
        if fall >= WIDE {
            LIMIT as u128
        } else {
            let cosine: u128 = WIDE - fall;
            assert(2 * size * sine <= 2 * 0x8000_0000_0000_0000 * 1_570_796_326_794_896_619)
                by (nonlinear_arith)
                requires
                    size <= 0x8000_0000_0000_0000,
                    sine <= 1_570_796_326_794_896_619,
            ;
            let rounded: u128 = (2 * size * sine + cosine) / (2 * cosine);
            if rounded > LIMIT as u128 {
                LIMIT as u128
            } else {
                rounded
            }
        }
    };
    if turned {
        Scalar { raw: -(clamped as i64) }
    } else {
        Scalar { raw: clamped as i64 }
    }
}

/// The square root.
pub open spec fn spec_gamma_correct(linear: Scalar) -> Scalar {
    linear.sqrt()
}

/// The displayed intensity of a linear one: its square root.
#[verifier::when_used_as_spec(spec_gamma_correct)]
pub fn gamma_correct(linear: Scalar) -> (r: Scalar)
    ensures
        r == spec_gamma_correct(linear),
{
    linear.sqrt()
}

/// `ray` less twice its part along `normal`.
pub open spec fn spec_reflect(ray: &Vector3, normal: &Vector3) -> Vector3 {
    ray.sub(normal.scale(Scalar::spec_from_int(2).mul(ray.dot(*normal))))
}

/// The direction `ray` mirrored at a surface with the given normal.
#[verifier::when_used_as_spec(spec_reflect)]
pub fn reflect(ray: &Vector3, normal: &Vector3) -> (r: Vector3)
    ensures
        r == spec_reflect(ray, normal),
{
    ray.sub(normal.scale(Scalar::from_int(2).mul(ray.dot(*normal))))
}

/// The part across the normal, scaled by the ratio, plus the part along
/// the normal that brings the whole to length one.
pub open spec fn spec_refract(uv: &Vector3, n: &Vector3, etai_over_etat: Scalar) -> Vector3 {
    let cos_theta = uv.neg().dot(*n).min(Scalar::one());
    let r_out_perp = uv.add(n.scale(cos_theta)).scale(etai_over_etat);
    let r_out_parallel = n.scale(Scalar::one().sub(r_out_perp.norm_squared()).abs().sqrt().neg());
    r_out_perp.add(r_out_parallel)
}

/// The direction `uv` bent on entering a medium, by Snell's law:
/// `etai_over_etat` is the ratio of the refraction indices, `n` the normal.
#[verifier::when_used_as_spec(spec_refract)]
pub fn refract(uv: &Vector3, n: &Vector3, etai_over_etat: Scalar) -> (r: Vector3)
    ensures
        r == spec_refract(uv, n, etai_over_etat),
{
    let cos_theta = uv.neg().dot(*n).min(Scalar::one());
    let r_out_perp = uv.add(n.scale(cos_theta)).scale(etai_over_etat);
    let r_out_parallel = n.scale(Scalar::one().sub(r_out_perp.norm_squared()).abs().sqrt().neg());
    r_out_perp.add(r_out_parallel)
}

/// Values that may be too small to tell from zero.
pub trait NearZero {
    /// Whether the value is too small to tell from zero.
    spec fn spec_is_near_zero(&self) -> bool;

    /// Whether the value is too small to tell from zero.
    fn is_near_zero(&self) -> (r: bool)
        ensures
            r == self.spec_is_near_zero(),
    ;
}

impl NearZero for Vector3 {
    /// Every component is below `NEAR_ZERO` in magnitude.
    open spec fn spec_is_near_zero(&self) -> bool {
        self.x.abs().raw < NEAR_ZERO && self.y.abs().raw < NEAR_ZERO && self.z.abs().raw
            < NEAR_ZERO
    }

    fn is_near_zero(&self) -> (r: bool) {
        self.x.abs().raw < NEAR_ZERO && self.y.abs().raw < NEAR_ZERO && self.z.abs().raw
            < NEAR_ZERO
    }
}

/// A whole number drawn from `low .. high`, by `rand::Rng::gen_range` on the
/// generator of `rand::thread_rng`. Taken on trust from that crate, not
/// proved: the call returns a number of the half-open range that it is given,
/// and panics only where the range is empty.
#[verifier::external_body]
fn uniform(low: i64, high: i64) -> (r: i64)
    requires
        low < high,
    ensures
        low <= r < high,
{
    rand::thread_rng().gen_range(low..high)
}

/// A random number from zero up to, not including, one.
pub fn rand() -> (r: Scalar)
    ensures
        0 <= r.raw < SCALE,
{
    Scalar { raw: uniform(0, SCALE) }
}

/// A random number from `min` up to, not including, `max`.
pub fn rand_range(min: Scalar, max: Scalar) -> (r: Scalar)
    requires
        min.raw < max.raw,
    ensures
        min.raw <= r.raw < max.raw,
{
    Scalar { raw: uniform(min.raw, max.raw) }
}

/// Candidates that `rand_in_unit_sphere` and `rand_in_unit_disk` draw at
/// most, before they settle for the last one halved.
pub const MAX_TRIES: u32 = 64;

/// Whether `p` lies strictly inside the sphere of radius one about the origin.
pub open spec fn spec_in_unit_sphere(p: Vector3) -> bool {
    p.norm_squared().raw < SCALE
}

/// Whether `p` lies strictly inside the sphere of radius one about the origin.
#[verifier::when_used_as_spec(spec_in_unit_sphere)]
pub fn in_unit_sphere(p: Vector3) -> (r: bool)
    ensures
        r == spec_in_unit_sphere(p),
{
    p.norm_squared().raw < SCALE
}

/// Whether every component of `p` lies from minus one up to, not including,
/// one.
pub open spec fn in_unit_cube(p: Vector3) -> bool {
    -SCALE <= p.x.raw < SCALE && -SCALE <= p.y.raw < SCALE && -SCALE <= p.z.raw < SCALE
}

/// Whether `v` may be a vector of length one: it is not zero, and none of
/// its components is above one in magnitude.
pub open spec fn is_direction(v: Vector3) -> bool {
    v != Vector3::zeros() && -SCALE <= v.x.raw <= SCALE && -SCALE <= v.y.raw <= SCALE && -SCALE
        <= v.z.raw <= SCALE
}

/// The direction along the first axis.
pub open spec fn first_axis() -> Vector3 {
    Vector3 { x: Scalar::one(), y: Scalar::zero(), z: Scalar::zero() }
}

/// `p` brought to length one, or the direction along the first axis where
/// that leaves nothing.
pub open spec fn spec_unit_of(p: Vector3) -> Vector3 {
    if p.normalize() == Vector3::zeros() {
        first_axis()
    } else {
        p.normalize()
    }
}

/// The direction of `p`: `p` brought to length one, or the direction along
/// the first axis where that leaves nothing, as it does for the origin.
#[verifier::when_used_as_spec(spec_unit_of)]
pub fn unit_of(p: Vector3) -> (r: Vector3)
    ensures
        r == spec_unit_of(p),
        is_direction(r),
{
    proof {
        Vector3::lemma_normalize_bounded(p);
    }
    let unit = p.normalize();
    if unit == Vector3::zeros() {
        Vector3::new(Scalar::one(), Scalar::zero(), Scalar::zero())
    } else {
        unit
    }
}

/// The origin lies inside the unit sphere.
pub proof fn lemma_origin_in_unit_sphere()
    ensures
        in_unit_sphere(Vector3::zeros()),
        in_unit_cube(Vector3::zeros()),
{
    reveal(truncated_quotient);
}

/// A point of the cube around the unit sphere, halved, lies inside the
/// sphere.
pub proof fn lemma_halved_is_inside(p: Vector3)
    requires
        in_unit_cube(p),
    ensures
        in_unit_sphere(p.scale(Scalar::spec_from_ratio(1, 2))),
        in_unit_cube(p.scale(Scalar::spec_from_ratio(1, 2))),
{
    reveal(truncated_quotient);
    let half = Scalar::spec_from_ratio(1, 2);
    assert(1 * SCALE == 1_000_000_000 && 1_000_000_000int / 2 == 500_000_000);
    assert(half.raw == 500_000_000);
    let h = p.scale(half);
    assert(p.x.raw * half.raw == p.x.raw * 500_000_000);
    assert(p.y.raw * half.raw == p.y.raw * 500_000_000);
    assert(p.z.raw * half.raw == p.z.raw * 500_000_000);
    let (x, y, z) = (h.x.raw as int, h.y.raw as int, h.z.raw as int);
    assert(-500_000_000 <= x <= 500_000_000 && -500_000_000 <= y <= 500_000_000 && -500_000_000
        <= z <= 500_000_000);
    assert(0 <= x * x + y * y + z * z <= 3 * 250_000_000_000_000_000) by (nonlinear_arith)
        requires
            -500_000_000 <= x <= 500_000_000,
            -500_000_000 <= y <= 500_000_000,
            -500_000_000 <= z <= 500_000_000,
    ;
}

/// The point that is settled for when `p` is the last candidate drawn from
/// the cube: `p` where it lies inside the unit sphere, and else `p` halved,
/// which does.
pub open spec fn spec_settle(p: Vector3) -> Vector3 {
    if in_unit_sphere(p) {
        p
    } else {
        p.scale(Scalar::spec_from_ratio(1, 2))
    }
}

/// The point that is settled for when `p` is the last candidate drawn from
/// the cube: `p` where it lies inside the unit sphere, and else `p` halved.
#[verifier::when_used_as_spec(spec_settle)]
pub fn settle(p: Vector3) -> (r: Vector3)
    ensures
        r == spec_settle(p),
        in_unit_cube(p) ==> in_unit_sphere(r) && in_unit_cube(r),
{
    proof {
        if in_unit_cube(p) {
            lemma_halved_is_inside(p);
        }
    }
    if in_unit_sphere(p) {
        p
    } else {
        p.scale(Scalar::from_ratio(1, 2))
    }
}

/// A random point strictly inside the unit sphere: the first of up to
/// `MAX_TRIES` points drawn from the cube around it that lies inside, or the
/// last of them halved if none does.
pub fn rand_in_unit_sphere() -> (r: Vector3)
    ensures
        in_unit_sphere(r),
        in_unit_cube(r),
        exists|p: Vector3| in_unit_cube(p) && r == #[trigger] settle(p),
{
    let one = Scalar::one();
    let mut p = Vector3::new(
        rand_range(one.neg(), one),
        rand_range(one.neg(), one),
        rand_range(one.neg(), one),
    );
    let mut tries: u32 = 1;
    while tries < MAX_TRIES && !in_unit_sphere(p)
        invariant
            one == Scalar::one(),
            in_unit_cube(p),
        decreases MAX_TRIES - tries,
    {
        p = Vector3::new(
            rand_range(one.neg(), one),
            rand_range(one.neg(), one),
            rand_range(one.neg(), one),
        );
        tries += 1;
    }
    settle(p)
}

/// A random point strictly inside the unit disk of the plane `z = 0`, drawn
/// as `rand_in_unit_sphere` draws.
pub fn rand_in_unit_disk() -> (r: Vector3)
    ensures
        in_unit_sphere(r),
        in_unit_cube(r),
        r.z == Scalar::zero(),
        exists|p: Vector3| in_unit_cube(p) && p.z == Scalar::zero() && r == #[trigger] settle(p),
{
    let one = Scalar::one();
    let mut p = Vector3::new(rand_range(one.neg(), one), rand_range(one.neg(), one), Scalar::zero());
    let mut tries: u32 = 1;
    while tries < MAX_TRIES && !in_unit_sphere(p)
        invariant
            one == Scalar::one(),
            in_unit_cube(p),
            p.z == Scalar::zero(),
        decreases MAX_TRIES - tries,
    {
        p = Vector3::new(rand_range(one.neg(), one), rand_range(one.neg(), one), Scalar::zero());
        tries += 1;
    }
    proof {
        reveal(truncated_quotient);
    }
    settle(p)
}

/// A random direction, never zero: the direction of a point of
/// `rand_in_unit_sphere`.
pub fn rand_unit_vector() -> (r: Vector3)
    ensures
        is_direction(r),
        r != Vector3::zeros(),
        exists|p: Vector3| in_unit_sphere(p) && in_unit_cube(p) && r == #[trigger] unit_of(p),
{
    let p = rand_in_unit_sphere();
    unit_of(p)
}

/// `unit` where its inner product with `normal`, in full, is positive, and
/// else turned round.
pub open spec fn spec_on_hemisphere(unit: Vector3, normal: &Vector3) -> Vector3 {
    if unit.agrees(*normal) {
        unit
    } else {
        unit.neg()
    }
}

/// `unit` turned to the side of the surface that `normal` points to: `unit`
/// itself where it points there, and else turned round.
#[verifier::when_used_as_spec(spec_on_hemisphere)]
pub fn on_hemisphere(unit: Vector3, normal: &Vector3) -> (r: Vector3)
    ensures
        r == spec_on_hemisphere(unit, normal),
        is_direction(unit) ==> is_direction(r) && r.dot_exact(*normal) >= 0 && r.dot(
            *normal,
        ).raw >= 0,
{
    if unit.agrees(*normal) {
        proof {
            Vector3::lemma_dot_sign(unit, *normal);
        }
        unit
    } else {
        proof {
            if is_direction(unit) {
                Vector3::lemma_neg_dot(unit, *normal);
                Vector3::lemma_dot_sign(unit.neg(), *normal);
            }
        }
        unit.neg()
    }
}

/// A random direction that does not point into the surface with the given
/// normal: one of `rand_unit_vector`, turned round where it points into it.
pub fn rand_on_hemisphere(normal: &Vector3) -> (r: Vector3)
    ensures
        exists|unit: Vector3| is_direction(unit) && r == #[trigger] on_hemisphere(unit, normal),
        is_direction(r),
        r.dot(*normal).raw >= 0,
{
    let on_unit_sphere = rand_unit_vector();
    on_hemisphere(on_unit_sphere, normal)
}

} // verus!
