//! Surface materials: how a ray leaves the point it hit.
use crate::color::RGB;
use crate::error::ConfigError;
use crate::ray::Ray;
use crate::scalar::{truncated_quotient, Scalar, SCALE};
use crate::scene::HitRecord;
use crate::utils::{
    first_axis, is_direction, rand, rand_unit_vector, reflect, refract, NearZero,
};
use crate::vector::Vector3;
use vstd::prelude::*;

verus! {

/// A matte surface that scatters about the normal.
#[derive(Clone, Copy, Debug, PartialEq, Eq, Structural)]
pub struct Lambertian {
    pub albedo: RGB,
}

/// A mirror; `fuzz` blurs the reflection.
#[derive(Clone, Copy, Debug, PartialEq, Eq, Structural)]
pub struct Metal {
    pub albedo: RGB,
    pub fuzz: Scalar,
}

/// A clear medium such as glass, which reflects or refracts.
#[derive(Clone, Copy, Debug, PartialEq, Eq, Structural)]
pub struct Dielectric {
    pub refraction_index: Scalar,
}

/// The materials that a surface can have.
#[derive(Clone, Copy, Debug, PartialEq, Eq, Structural)]
pub enum Material {
    Lambertian(Lambertian),
    Metal(Metal),
    Dielectric(Dielectric),
}

impl Lambertian {
    /// A matte surface that keeps `color` of the light.
    pub fn new(color: RGB) -> (r: Lambertian)
        ensures
            r.albedo == color,
    {
        Lambertian { albedo: color }
    }
}

impl Metal {
    /// A mirror that keeps `color` of the light and blurs by `fuzz`.
    pub fn new(color: RGB, fuzz: Scalar) -> (r: Metal)
        ensures
            r.albedo == color,
            r.fuzz == fuzz,
    {
        Metal { albedo: color, fuzz }
    }
}

impl Dielectric {
    /// Whether the index is one that a medium can have.
    pub open spec fn wf(self) -> bool {
        self.refraction_index.raw > 0
    }

    /// A clear medium of the given refraction index, which must be positive.
    pub fn new(refraction_index: Scalar) -> (r: Result<Dielectric, ConfigError>)
        ensures
            refraction_index.raw > 0 ==> r == Ok::<Dielectric, ConfigError>(
                Dielectric { refraction_index },
            ) && r->Ok_0.wf(),
            refraction_index.raw <= 0 ==> r == Err::<Dielectric, ConfigError>(
                ConfigError::NonPositiveRefractionIndex,
            ),
    {
        if refraction_index.raw > 0 {
            Ok(Dielectric { refraction_index })
        } else {
            Err(ConfigError::NonPositiveRefractionIndex)
        }
    }
}

impl Lambertian {
    /// The ray that leaves `hit` when `unit` is the random direction drawn,
    /// and what it keeps of the light: the ray leaves along the normal plus
    /// `unit`, or along the normal alone where that sum is near zero.
    pub open spec fn scattered(self, hit: HitRecord, unit: Vector3) -> (Ray, RGB) {
        let direction = hit.normal.add(unit);
        (
            Ray {
                orig: hit.p,
                dir: if direction.spec_is_near_zero() {
                    hit.normal
                } else {
                    direction
                },
            },
            self.albedo,
        )
    }

    /// The scattering for a given random direction.
    pub fn scatter_with(&self, hit: &HitRecord, unit: Vector3) -> (r: Option<(Ray, RGB)>)
        ensures
            r == Some(self.scattered(*hit, unit)),
    {
        let mut direction = hit.normal.add(unit);
        if direction.is_near_zero() {
            direction = hit.normal;
        }
        Some((Ray::new(hit.p, direction), self.albedo))
    }

    /// Scatters about the normal, in a direction drawn at random. A matte
    /// surface never absorbs the ray.
    pub fn scatter(&self, _ray: &Ray, hit: &HitRecord) -> (r: Option<(Ray, RGB)>)
        ensures
            r is Some,
            exists|unit: Vector3|
                is_direction(unit) && r == Some(#[trigger] self.scattered(*hit, unit)),
    {
        let unit = rand_unit_vector();
        self.scatter_with(hit, unit)
    }
}

impl Metal {
    /// The direction in which a perfect mirror sends `ray` on.
    pub open spec fn mirrored(ray: Ray, hit: HitRecord) -> Vector3 {
        reflect(&ray.dir.normalize(), &hit.normal)
    }

    /// The ray that leaves `hit` when `unit` is the random direction drawn,
    /// and what it keeps of the light; nothing where the ray would leave into
    /// the surface. It leaves along the mirrored direction plus `unit` scaled
    /// by the fuzz.
    pub open spec fn scattered(self, ray: Ray, hit: HitRecord, unit: Vector3) -> Option<
        (Ray, RGB),
    > {
        let direction = Metal::mirrored(ray, hit).add(unit.scale(self.fuzz));
        if direction.agrees(hit.normal) {
            Some((Ray { orig: hit.p, dir: direction }, self.albedo))
        } else {
            None
        }
    }

    /// The scattering for a given random direction.
    pub fn scatter_with(&self, ray: &Ray, hit: &HitRecord, unit: Vector3) -> (r: Option<
        (Ray, RGB),
    >)
        ensures
            r == self.scattered(*ray, *hit, unit),
    {
        let reflected = reflect(&ray.dir.normalize(), &hit.normal);
        let scattered = Ray::new(hit.p, reflected.add(unit.scale(self.fuzz)));
        if scattered.dir.agrees(hit.normal) {
            Some((scattered, self.albedo))
        } else {
            None
        }
    }

    /// Without fuzz the random direction plays no part: the ray leaves along
    /// the mirrored direction, and is absorbed where that direction does not
    /// point away from the surface.
    pub proof fn lemma_mirror(self, ray: Ray, hit: HitRecord, unit: Vector3)
        requires
            self.fuzz.raw == 0,
        ensures
            !Metal::mirrored(ray, hit).agrees(hit.normal) ==> self.scattered(ray, hit, unit)
                is None,
            Metal::mirrored(ray, hit).agrees(hit.normal) ==> self.scattered(ray, hit, unit)
                == Some((Ray { orig: hit.p, dir: Metal::mirrored(ray, hit) }, self.albedo)),
    {
        reveal(truncated_quotient);
        assert(unit.x.raw * 0 == 0 && unit.y.raw * 0 == 0 && unit.z.raw * 0 == 0);
        assert(unit.scale(self.fuzz) == Vector3::zeros());
        assert(Metal::mirrored(ray, hit).add(Vector3::zeros()) == Metal::mirrored(ray, hit));
    }

    /// Reflects `ray`, off the mirrored direction by a random one scaled by
    /// the fuzz. The ray is absorbed where it would leave into the surface:
    /// without fuzz, exactly where the mirrored direction does not point away
    /// from it.
    pub fn scatter(&self, ray: &Ray, hit: &HitRecord) -> (r: Option<(Ray, RGB)>)
        ensures
            exists|unit: Vector3|
                is_direction(unit) && r == #[trigger] self.scattered(*ray, *hit, unit),
            self.fuzz.raw == 0 && !Metal::mirrored(*ray, *hit).agrees(hit.normal) ==> r
                is None,
    {
        let unit = rand_unit_vector();
        proof {
            if self.fuzz.raw == 0 {
                self.lemma_mirror(*ray, *hit, unit);
            }
        }
        self.scatter_with(ray, hit, unit)
    }
}

impl Dielectric {
    /// The share of the light that is reflected, by Schlick's approximation,
    /// at an angle of cosine `cos_theta` and a ratio of refraction indices
    /// `refraction_ratio`.
    pub open spec fn spec_reflectance(&self, cos_theta: Scalar, refraction_ratio: Scalar) -> Scalar {
        let r0 = Scalar::one().sub(refraction_ratio).div(Scalar::one().add(refraction_ratio)).powi(
            2,
        );
        r0.add(Scalar::one().sub(r0).mul(Scalar::one().sub(cos_theta).powi(5)))
    }

    /// The share of the light that is reflected, by Schlick's approximation.
    #[verifier::when_used_as_spec(spec_reflectance)]
    pub fn reflectance(&self, cos_theta: Scalar, refraction_ratio: Scalar) -> (r: Scalar)
        ensures
            r == self.spec_reflectance(cos_theta, refraction_ratio),
    {
        let r0 = Scalar::one().sub(refraction_ratio).div(Scalar::one().add(refraction_ratio)).powi(
            2,
        );
        r0.add(Scalar::one().sub(r0).mul(Scalar::one().sub(cos_theta).powi(5)))
    }

    /// The ratio of the refraction indices on the ray's way: into the medium
    /// at a front face, out of it otherwise.
    pub open spec fn refraction_ratio(self, hit: HitRecord) -> Scalar {
        if hit.front {
            Scalar::one().div(self.refraction_index)
        } else {
            self.refraction_index
        }
    }

    /// Whether the ray is reflected when `uniform` is the random number
    /// drawn: where no refracted ray exists, the sine after Snell's law being
    /// above one, and else where the reflectance is above `uniform`.
    pub open spec fn reflects(self, ray: Ray, hit: HitRecord, uniform: Scalar) -> bool {
        let ratio = self.refraction_ratio(hit);
        let cos_theta = ray.dir.normalize().neg().dot(hit.normal).min(Scalar::one());
        let sin_theta = Scalar::one().sub(cos_theta.mul(cos_theta)).sqrt();
        ratio.mul(sin_theta).raw > SCALE || self.reflectance(cos_theta, ratio).raw > uniform.raw
    }

    /// The ray that leaves `hit` when `uniform` is the random number drawn,
    /// reflected or refracted, and what it keeps of the light: all of it.
    pub open spec fn scattered(self, ray: Ray, hit: HitRecord, uniform: Scalar) -> (Ray, RGB) {
        let unit_direction = ray.dir.normalize();
        (
            Ray {
                orig: hit.p,
                dir: if self.reflects(ray, hit, uniform) {
                    reflect(&unit_direction, &hit.normal)
                } else {
                    refract(&unit_direction, &hit.normal, self.refraction_ratio(hit))
                },
            },
            RGB::white(),
        )
    }

    /// The scattering for a given random number.
    pub fn scatter_with(&self, ray: &Ray, hit: &HitRecord, uniform: Scalar) -> (r: Option<
        (Ray, RGB),
    >)
        ensures
            r == Some(self.scattered(*ray, *hit, uniform)),
    {
        let refraction_ratio = if hit.front {
            Scalar::one().div(self.refraction_index)
        } else {
            self.refraction_index
        };
        let unit_direction = ray.dir.normalize();
        let cos_theta = unit_direction.neg().dot(hit.normal).min(Scalar::one());
        let sin_theta = Scalar::one().sub(cos_theta.mul(cos_theta)).sqrt();
        let can_refract = refraction_ratio.mul(sin_theta).raw <= SCALE;
        let direction = if !can_refract || self.reflectance(cos_theta, refraction_ratio).raw
            > uniform.raw {
            reflect(&unit_direction, &hit.normal)
        } else {
            refract(&unit_direction, &hit.normal, refraction_ratio)
        };
        Some((Ray::new(hit.p, direction), RGB::white()))
    }

    /// Reflects or refracts `ray`, by a number drawn at random. A clear
    /// medium never absorbs the ray and takes nothing from the light.
    pub fn scatter(&self, ray: &Ray, hit: &HitRecord) -> (r: Option<(Ray, RGB)>)
        ensures
            exists|uniform: Scalar|
                0 <= uniform.raw < SCALE && r == Some(
                    #[trigger] self.scattered(*ray, *hit, uniform),
                ),
            r matches Some(pair) && pair.1 == RGB::white(),
    {
        let uniform = rand();
        self.scatter_with(ray, hit, uniform)
    }
}

impl Material {
    /// What leaves `hit` when `unit` and `uniform` are the random direction
    /// and number drawn: the ray and what it keeps of the light, or nothing
    /// where the ray is absorbed.
    pub open spec fn scattered(self, ray: Ray, hit: HitRecord, unit: Vector3, uniform: Scalar) -> Option<
        (Ray, RGB),
    > {
        match self {
            Material::Lambertian(m) => Some(m.scattered(hit, unit)),
            Material::Metal(m) => m.scattered(ray, hit, unit),
            Material::Dielectric(m) => Some(m.scattered(ray, hit, uniform)),
        }
    }

    /// Whether `unit` and `uniform` are a direction and a number that may be
    /// drawn: no component of `unit` is above one in magnitude, and `uniform`
    /// lies from zero up to, not including, one.
    pub open spec fn drawn(unit: Vector3, uniform: Scalar) -> bool {
        is_direction(unit) && 0 <= uniform.raw < SCALE
    }

    /// The scattering for a given random direction and number.
    pub fn scatter_with(&self, ray: &Ray, hit: &HitRecord, unit: Vector3, uniform: Scalar) -> (r:
        Option<(Ray, RGB)>)
        ensures
            r == self.scattered(*ray, *hit, unit, uniform),
    {
        match self {
            Material::Lambertian(m) => m.scatter_with(hit, unit),
            Material::Metal(m) => m.scatter_with(ray, hit, unit),
            Material::Dielectric(m) => m.scatter_with(ray, hit, uniform),
        }
    }

    /// Scatters `ray` at `hit` as the material does, drawing at random what
    /// the material needs: the scattered ray and what it keeps of the light,
    /// or nothing where the ray is absorbed.
    pub fn scatter(&self, ray: &Ray, hit: &HitRecord) -> (r: Option<(Ray, RGB)>)
        ensures
            exists|unit: Vector3, uniform: Scalar|
                Material::drawn(unit, uniform) && r == #[trigger] self.scattered(
                    *ray,
                    *hit,
                    unit,
                    uniform,
                ),
            self is Lambertian ==> r is Some,
            self matches Material::Dielectric(_) ==> r matches Some(pair) && pair.1 == RGB::white(),
    {
        match self {
            Material::Lambertian(m) => {
                let unit = rand_unit_vector();
                let r = m.scatter_with(hit, unit);
                assert(Material::drawn(unit, Scalar::zero()) && r == self.scattered(
                    *ray,
                    *hit,
                    unit,
                    Scalar::zero(),
                ));
                r
            },
            Material::Metal(m) => {
                let unit = rand_unit_vector();
                let r = m.scatter_with(ray, hit, unit);
                assert(Material::drawn(unit, Scalar::zero()) && r == self.scattered(
                    *ray,
                    *hit,
                    unit,
                    Scalar::zero(),
                ));
                r
            },
            Material::Dielectric(m) => {
                let uniform = rand();
                let r = m.scatter_with(ray, hit, uniform);
                assert(Material::drawn(first_axis(), uniform) && r == self.scattered(
                    *ray,
                    *hit,
                    first_axis(),
                    uniform,
                ));
                r
            },
        }
    }
}

} // verus!
