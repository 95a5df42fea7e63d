//! The camera, the radiance that a ray brings back, and the rendering of a
//! picture pixel by pixel.
use crate::color::RGB;
use crate::error::ConfigError;
use crate::image::{Image, PPM};
use crate::material::Material;
use crate::ray::Ray;
use crate::scalar::{truncated_quotient, Scalar, SCALE};
use crate::scene::{interval, Scene};
use crate::utils::{
    first_axis, half_angle_tangent, in_unit_sphere, lemma_origin_in_unit_sphere, rand, rand_in_unit_disk, INF,
};
use crate::vector::{Point3, Vector3};
use vstd::arithmetic::div_mod::lemma_fundamental_div_mod_converse;
use vstd::prelude::*;

verus! {

/// The nearest that a surface may lie to a ray's origin and still be hit, in
/// billionths: a ray that leaves a surface must not hit it again at once.
pub const T_MIN: i64 = 1_000_000;

/// The number of rows of a picture `width` pixels wide whose width is
/// `aspect_ratio` times its height: the quotient rounded to the nearest,
/// and at least one. One where the ratio is not positive.
pub open spec fn rows(width: usize, aspect_ratio: Scalar) -> usize {
    if aspect_ratio.raw <= 0 {
        1
    } else {
        let rounded = (2 * width * SCALE + aspect_ratio.raw) / (2 * aspect_ratio.raw);
        if rounded < 1 {
            1
        } else if rounded > usize::MAX {
            usize::MAX
        } else {
            rounded as usize
        }
    }
}

/// The number of rows of a picture of the given width and aspect ratio.
fn rows_of(width: usize, aspect_ratio: Scalar) -> (r: usize)
    ensures
        r == rows(width, aspect_ratio),
{
    if aspect_ratio.raw <= 0 {
        1
    } else {
        let ratio: u128 = aspect_ratio.raw as u128;
        let rounded: u128 = (2 * (width as u128) * 1_000_000_000 + ratio) / (2 * ratio);
        if rounded < 1 {
            1
        } else if rounded > usize::MAX as u128 {
            usize::MAX
        } else {
            rounded as usize
        }
    }
}

/// A camera: how the picture is to be taken, and the frame and the grid of
/// pixels that follow from that.
#[derive(Clone, Copy, Debug, PartialEq, Eq, Structural)]
pub struct Camera {
    /// Pixels in a row.
    pub render_width: usize,
    /// Width of the picture by its height.
    pub aspect_ratio: Scalar,
    /// Rays sent through each pixel.
    pub samples_per_pixel: u32,
    /// Times that a ray may be scattered.
    pub max_bounces: u32,
    /// The vertical angle of view, in degrees.
    pub fov_degrees: Scalar,
    /// Where the camera stands.
    pub lookfrom: Point3,
    /// What it looks at.
    pub lookat: Point3,
    /// The direction that is up in the picture.
    pub vup: Vector3,
    /// The angle of the cone of rays through one point in focus, in degrees.
    pub defocus_angle_degrees: Scalar,
    /// How far away the plane in focus lies.
    pub focus_dist: Scalar,
    /// Rows of the picture.
    pub render_height: usize,
    /// The camera's centre.
    pub center: Point3,
    /// The centre of the pixel of the first row and column.
    pub pixel00_loc: Point3,
    /// From a pixel to the next in its row.
    pub pixel_delta_u: Vector3,
    /// From a pixel to the one below it.
    pub pixel_delta_v: Vector3,
    /// The frame's unit vector to the right.
    pub u: Vector3,
    /// The frame's unit vector upward.
    pub v: Vector3,
    /// The frame's unit vector backward, away from what is looked at.
    pub w: Vector3,
    /// The horizontal radius of the disk that rays start from.
    pub defocus_disk_u: Vector3,
    /// The vertical radius of the disk that rays start from.
    pub defocus_disk_v: Vector3,
}

impl Camera {
    /// Whether a picture can be taken as configured: it has a column, and its
    /// aspect ratio is positive.
    pub open spec fn valid(self) -> bool {
        self.render_width > 0 && self.aspect_ratio.raw > 0
    }

    /// The height of the viewport: twice the distance of the plane in focus,
    /// times the tangent of half the angle of view.
    pub open spec fn viewport_height(self) -> Scalar {
        half_angle_tangent(self.fov_degrees, Scalar::spec_from_int(2).mul(self.focus_dist))
    }

    /// The width of the viewport, which is to its height as the picture's
    /// columns are to its rows.
    pub open spec fn viewport_width(self) -> Scalar {
        self.viewport_height().mul(Scalar::spec_from_int(self.render_width as int)).div(
            Scalar::spec_from_int(rows(self.render_width, self.aspect_ratio) as int),
        )
    }

    /// The frame's unit vector backward.
    pub open spec fn frame_w(self) -> Vector3 {
        self.lookfrom.sub(self.lookat).normalize()
    }

    /// The frame's unit vector to the right.
    pub open spec fn frame_u(self) -> Vector3 {
        self.vup.cross(self.frame_w()).normalize()
    }

    /// The frame's unit vector upward.
    pub open spec fn frame_v(self) -> Vector3 {
        self.frame_w().cross(self.frame_u())
    }

    /// Along the viewport's upper edge, from left to right.
    pub open spec fn viewport_u(self) -> Vector3 {
        self.frame_u().scale(self.viewport_width())
    }

    /// Down the viewport's left edge: rows count downward.
    pub open spec fn viewport_v(self) -> Vector3 {
        self.frame_v().neg().scale(self.viewport_height())
    }

    /// The radius of the disk that rays start from: the distance of the
    /// plane in focus times the tangent of half the defocus angle.
    pub open spec fn defocus_radius(self) -> Scalar {
        half_angle_tangent(self.defocus_angle_degrees, self.focus_dist)
    }

    /// The camera with what follows from its configuration worked out.
    pub open spec fn initialized(self) -> Camera {
        let height = rows(self.render_width, self.aspect_ratio);
        let delta_u = self.viewport_u().unscale(Scalar::spec_from_int(self.render_width as int));
        let delta_v = self.viewport_v().unscale(Scalar::spec_from_int(height as int));
        let upper_left = self.lookfrom.sub(self.frame_w().scale(self.focus_dist)).sub(
            self.viewport_u().unscale(Scalar::spec_from_int(2)),
        ).sub(self.viewport_v().unscale(Scalar::spec_from_int(2)));
        Camera {
            render_height: height,
            center: self.lookfrom,
            pixel00_loc: upper_left.add(delta_u.add(delta_v).scale(Scalar::spec_from_ratio(1, 2))),
            pixel_delta_u: delta_u,
            pixel_delta_v: delta_v,
            u: self.frame_u(),
            v: self.frame_v(),
            w: self.frame_w(),
            defocus_disk_u: self.frame_u().scale(self.defocus_radius()),
            defocus_disk_v: self.frame_v().scale(self.defocus_radius()),
            ..self
        }
    }

    /// Whether the frame and the grid are the ones that follow from the
    /// configuration as it is now: none of them is stale.
    #[verifier::opaque]
    pub open spec fn is_initialized(self) -> bool {
        self == self.initialized()
    }

    /// Whether the configuration is valid and the rest follows from it.
    pub open spec fn wf(self) -> bool {
        self.valid() && self.is_initialized()
    }

    /// What follows from the configuration does not depend on what was
    /// worked out before: to work it out twice is to work it out once.
    pub proof fn lemma_initialized_once(self)
        ensures
            self.initialized().is_initialized(),
    {
        reveal(Camera::is_initialized);
        let once = self.initialized();
        assert(once.viewport_height() == self.viewport_height());
        assert(once.viewport_width() == self.viewport_width());
        assert(once.frame_w() == self.frame_w());
        assert(once.frame_u() == self.frame_u());
        assert(once.frame_v() == self.frame_v());
        assert(once.viewport_u() == self.viewport_u());
        assert(once.viewport_v() == self.viewport_v());
        assert(once.defocus_radius() == self.defocus_radius());
    }

    /// The width and the height of the viewport.
    pub fn viewport(&self) -> (r: (Scalar, Scalar))
        ensures
            r == (self.viewport_width(), self.viewport_height()),
    {
        let viewport_height = half_angle_tangent(
            self.fov_degrees,
            Scalar::from_int(2).mul(self.focus_dist),
        );
        let viewport_width = viewport_height.mul(Scalar::from_usize(self.render_width)).div(
            Scalar::from_usize(rows_of(self.render_width, self.aspect_ratio)),
        );
        (viewport_width, viewport_height)
    }

    /// Works out the rows of the picture, the camera's frame, the grid of
    /// pixels and the disk that rays start from. To be done again whenever
    /// the configuration changes.
    pub fn initialize(&mut self)
        ensures
            *final(self) == old(self).initialized(),
            final(self).is_initialized(),
    {
        proof {
            self.lemma_initialized_once();
        }
        self.render_height = rows_of(self.render_width, self.aspect_ratio);
        self.center = self.lookfrom;
        let viewport_height = half_angle_tangent(
            self.fov_degrees,
            Scalar::from_int(2).mul(self.focus_dist),
        );
        let viewport_width = viewport_height.mul(Scalar::from_usize(self.render_width)).div(
            Scalar::from_usize(self.render_height),
        );
        self.w = self.lookfrom.sub(self.lookat).normalize();
        self.u = self.vup.cross(self.w).normalize();
        self.v = self.w.cross(self.u);
        let viewport_u = self.u.scale(viewport_width);
        let viewport_v = self.v.neg().scale(viewport_height);
        self.pixel_delta_u = viewport_u.unscale(Scalar::from_usize(self.render_width));
        self.pixel_delta_v = viewport_v.unscale(Scalar::from_usize(self.render_height));
        let viewport_upper_left = self.center.sub(self.w.scale(self.focus_dist)).sub(
            viewport_u.unscale(Scalar::from_int(2)),
        ).sub(viewport_v.unscale(Scalar::from_int(2)));
        self.pixel00_loc = viewport_upper_left.add(
            self.pixel_delta_u.add(self.pixel_delta_v).scale(Scalar::from_ratio(1, 2)),
        );
        let defocus_radius = half_angle_tangent(self.defocus_angle_degrees, self.focus_dist);
        self.defocus_disk_u = self.u.scale(defocus_radius);
        self.defocus_disk_v = self.v.scale(defocus_radius);
    }
}

impl Camera {
    /// A camera that takes pictures `width` pixels wide, with its frame and
    /// grid worked out. A width of zero is refused, and then an aspect ratio
    /// that is not positive.
    pub fn new(
        width: usize,
        aspect_ratio: Scalar,
        samples_per_pixel: u32,
        max_bounces: u32,
        fov: Scalar,
        lookfrom: Point3,
        lookat: Point3,
        vup: Vector3,
        defocus_angle_degrees: Scalar,
        focus_dist: Scalar,
    ) -> (r: Result<Camera, ConfigError>)
        ensures
            width == 0 ==> r == Err::<Camera, ConfigError>(ConfigError::NonPositiveWidth),
            width > 0 && aspect_ratio.raw <= 0 ==> r == Err::<Camera, ConfigError>(
                ConfigError::NonPositiveAspectRatio,
            ),
            width > 0 && aspect_ratio.raw > 0 ==> (r matches Ok(camera) && camera.wf()
                && camera.render_width == width && camera.aspect_ratio == aspect_ratio
                && camera.samples_per_pixel == samples_per_pixel && camera.max_bounces
                == max_bounces && camera.fov_degrees == fov && camera.lookfrom == lookfrom
                && camera.lookat == lookat && camera.vup == vup && camera.defocus_angle_degrees
                == defocus_angle_degrees && camera.focus_dist == focus_dist),
    {
        if width == 0 {
            return Err(ConfigError::NonPositiveWidth);
        }
        if aspect_ratio.raw <= 0 {
            return Err(ConfigError::NonPositiveAspectRatio);
        }
        let mut camera = Camera {
            render_width: width,
            aspect_ratio,
            samples_per_pixel,
            max_bounces,
            fov_degrees: fov,
            lookfrom,
            lookat,
            vup,
            defocus_angle_degrees,
            focus_dist,
            render_height: 1,
            center: lookfrom,
            pixel00_loc: Vector3::zeros(),
            pixel_delta_u: Vector3::zeros(),
            pixel_delta_v: Vector3::zeros(),
            u: Vector3::zeros(),
            v: Vector3::zeros(),
            w: Vector3::zeros(),
            defocus_disk_u: Vector3::zeros(),
            defocus_disk_v: Vector3::zeros(),
        };
        camera.initialize();
        Ok(camera)
    }

    /// Whether `a` and `b` are numbers and `lens` a point that may be drawn
    /// for a ray: the numbers lie from zero up to, not including, one, and
    /// the point strictly inside the unit disk of the plane `z = 0`.
    pub open spec fn drawn(a: Scalar, b: Scalar, lens: Vector3) -> bool {
        0 <= a.raw < SCALE && 0 <= b.raw < SCALE && in_unit_sphere(lens) && lens.z
            == Scalar::zero()
    }

    /// Where in the square around a pixel's centre a sample lies, when `a`
    /// and `b` are the random numbers drawn: each shifted to lie about zero,
    /// they count along the two steps of the grid.
    pub open spec fn spec_pixel_sample_square(&self, a: Scalar, b: Scalar) -> Vector3 {
        self.pixel_delta_u.scale(a.sub(Scalar::spec_from_ratio(1, 2))).add(
            self.pixel_delta_v.scale(b.sub(Scalar::spec_from_ratio(1, 2))),
        )
    }

    /// Where on the disk a ray starts, when `lens` is the random point drawn.
    pub open spec fn spec_defocus_disk_sample(&self, lens: Vector3) -> Point3 {
        self.center.add(self.defocus_disk_u.scale(lens.x)).add(self.defocus_disk_v.scale(lens.y))
    }

    /// The ray through the pixel of row `i` and column `j`, when `a`, `b`
    /// and `lens` are what was drawn: from the camera's centre, or from the
    /// disk where the defocus angle is positive, to the sample about the
    /// pixel's centre.
    pub open spec fn ray_for(&self, i: usize, j: usize, a: Scalar, b: Scalar, lens: Vector3) -> Ray {
        let pixel_center = self.pixel00_loc.add(
            self.pixel_delta_u.scale(Scalar::spec_from_int(j as int)),
        ).add(self.pixel_delta_v.scale(Scalar::spec_from_int(i as int)));
        let pixel_sample = pixel_center.add(self.spec_pixel_sample_square(a, b));
        let origin = if self.defocus_angle_degrees.raw <= 0 {
            self.center
        } else {
            self.spec_defocus_disk_sample(lens)
        };
        Ray { orig: origin, dir: pixel_sample.sub(origin) }
    }

    /// Where in the square around a pixel's centre a sample lies.
    fn pixel_sample_square(&self, a: Scalar, b: Scalar) -> (r: Vector3)
        ensures
            r == self.spec_pixel_sample_square(a, b),
    {
        let px = a.sub(Scalar::from_ratio(1, 2));
        let py = b.sub(Scalar::from_ratio(1, 2));
        self.pixel_delta_u.scale(px).add(self.pixel_delta_v.scale(py))
    }

    /// Where on the disk a ray starts.
    fn defocus_disk_sample(&self, lens: Vector3) -> (r: Point3)
        ensures
            r == self.spec_defocus_disk_sample(lens),
    {
        self.center.add(self.defocus_disk_u.scale(lens.x)).add(self.defocus_disk_v.scale(lens.y))
    }

    /// The ray through the pixel of row `i` and column `j` for given draws.
    pub fn sample_ray_with(&self, i: usize, j: usize, a: Scalar, b: Scalar, lens: Vector3) -> (r:
        Ray)
        requires
            self.is_initialized(),
        ensures
            r == self.ray_for(i, j, a, b, lens),
    {
        let pixel_center = self.pixel00_loc.add(self.pixel_delta_u.scale(Scalar::from_usize(j))).add(
            self.pixel_delta_v.scale(Scalar::from_usize(i)),
        );
        let pixel_sample = pixel_center.add(self.pixel_sample_square(a, b));
        let ray_origin = if self.defocus_angle_degrees.raw <= 0 {
            self.center
        } else {
            self.defocus_disk_sample(lens)
        };
        let ray_direction = pixel_sample.sub(ray_origin);
        Ray::new(ray_origin, ray_direction)
    }

    /// A ray through the pixel of row `i` and column `j`, to a point drawn
    /// at random in the square around the pixel's centre, from the camera's
    /// centre or, where the defocus angle is positive, from a point drawn at
    /// random on the disk.
    pub fn sample_ray(&self, i: usize, j: usize) -> (r: Ray)
        requires
            self.is_initialized(),
        ensures
            exists|a: Scalar, b: Scalar, lens: Vector3|
                Camera::drawn(a, b, lens) && r == #[trigger] self.ray_for(i, j, a, b, lens),
    {
        let a = rand();
        let b = rand();
        proof {
            lemma_origin_in_unit_sphere();
        }
        let lens = if self.defocus_angle_degrees.raw <= 0 {
            Vector3::zeros()
        } else {
            rand_in_unit_disk()
        };
        self.sample_ray_with(i, j, a, b, lens)
    }
}

/// The interval of parameters in which a ray's intersections count.
pub open spec fn visible() -> std::ops::Range<Scalar> {
    interval(Scalar { raw: T_MIN }, Scalar { raw: INF })
}

/// The light of the sky that a ray sees which hits nothing: white where it
/// runs downward, blending into blue as it turns upward.
pub open spec fn spec_background(ray: &Ray) -> RGB {
    let unit = ray.dir.normalize();
    let a = Scalar::spec_from_ratio(1, 2).mul(unit.y.add(Scalar::one()));
    let blue = Vector3 {
        x: Scalar::spec_from_ratio(1, 2),
        y: Scalar::spec_from_ratio(7, 10),
        z: Scalar::one(),
    };
    let white = Vector3 { x: Scalar::one(), y: Scalar::one(), z: Scalar::one() };
    RGB::from_vector(white.lerp(blue, a))
}

/// The light of the sky that a ray sees which hits nothing.
#[verifier::when_used_as_spec(spec_background)]
pub fn background(ray: &Ray) -> (r: RGB)
    ensures
        r == spec_background(ray),
{
    let unit = ray.dir.normalize();
    let a = Scalar::from_ratio(1, 2).mul(unit.y.add(Scalar::one()));
    let blue = Vector3::new(Scalar::from_ratio(1, 2), Scalar::from_ratio(7, 10), Scalar::one());
    let white = Vector3::new(Scalar::one(), Scalar::one(), Scalar::one());
    RGB::from_vector(white.lerp(blue, a))
}

/// What is drawn at random for one scattering: a direction and a number.
#[derive(Clone, Copy, Debug, PartialEq, Eq, Structural)]
pub struct Draw {
    pub unit: Vector3,
    pub uniform: Scalar,
}

impl Draw {
    /// Whether the direction and the number are ones that may be drawn.
    pub open spec fn valid(self) -> bool {
        Material::drawn(self.unit, self.uniform)
    }
}

/// The light that comes back along `ray` when `draws` are the draws of its
/// scatterings, one after the other, and it may be scattered as often as
/// there are draws: black where no scattering is left; the light of the sky
/// where the ray hits nothing; black where the surface that it hits first
/// absorbs it; else what the scattered ray brings back with the draws that
/// are left, channel by channel times what the material keeps.
pub open spec fn radiance(scene: Scene, ray: Ray, draws: Seq<Draw>) -> RGB
    decreases draws.len(),
{
    if draws.len() == 0 {
        RGB::black()
    } else {
        match scene.spec_hit(ray, visible()) {
            Some(hit) => match hit.material.scattered(ray, hit, draws[0].unit, draws[0].uniform) {
                Some((scattered, attenuation)) => attenuation.mul(
                    radiance(scene, scattered, draws.drop_first()),
                ),
                None => RGB::black(),
            },
            None => background(&ray),
        }
    }
}

/// Whether `color` is an estimate of the light that comes back along `ray`
/// when it may be scattered `depth` times: what comes back for some `depth`
/// draws that may be drawn.
pub open spec fn is_radiance(scene: Scene, ray: Ray, depth: u32, color: RGB) -> bool {
    exists|draws: Seq<Draw>|
        draws.len() == depth && (forall|k: int| 0 <= k < draws.len() ==> (#[trigger] draws[k]).valid())
            && color == #[trigger] radiance(scene, ray, draws)
}

/// Draws that may be drawn and that no scattering looks at.
pub open spec fn idle_draws(n: nat) -> Seq<Draw> {
    Seq::new(n, |k: int| Draw { unit: first_axis(), uniform: Scalar::zero() })
}

/// An estimate of the light that comes back along `ray`, which may be
/// scattered `depth` times.
pub fn ray_color(ray: &Ray, depth: u32, scene: &Scene) -> (r: RGB)
    ensures
        is_radiance(*scene, *ray, depth, r),
    decreases depth,
{
    if depth == 0 {
        assert(RGB::black() == radiance(*scene, *ray, idle_draws(0)));
        return RGB::black();
    }
    let trange = Scalar { raw: T_MIN }..Scalar { raw: INF };
    assert(trange == visible());
    if let Some(hit) = scene.hit(ray, trange) {
        let bounce = hit.material.scatter(ray, &hit);
        let ghost (unit, uniform) = choose|unit: Vector3, uniform: Scalar|
            Material::drawn(unit, uniform) && bounce == #[trigger] hit.material.scattered(
                *ray,
                hit,
                unit,
                uniform,
            );
        let ghost first = Draw { unit, uniform };
        match bounce {
            Some((scattered, attenuation)) => {
                let inner = ray_color(&scattered, depth - 1, scene);
                proof {
                    let rest = choose|draws: Seq<Draw>|
                        draws.len() == depth - 1 && (forall|k: int|
                            0 <= k < draws.len() ==> (#[trigger] draws[k]).valid()) && inner
                            == #[trigger] radiance(*scene, scattered, draws);
                    let draws = seq![first] + rest;
                    assert(draws.drop_first() =~= rest);
                    assert(attenuation.mul(inner) == radiance(*scene, *ray, draws));
                }
                attenuation.mul(inner)
            },
            None => {
                proof {
                    let draws = seq![first] + idle_draws((depth - 1) as nat);
                    assert(RGB::black() == radiance(*scene, *ray, draws));
                }
                RGB::black()
            },
        }
    } else {
        assert(background(ray) == radiance(*scene, *ray, idle_draws(depth as nat)));
        background(ray)
    }
}

/// What a ray brings back that may be scattered once: nothing where it hits
/// a surface, since what leaves the surface may not be scattered again, and
/// the light of the sky where it hits nothing.
pub open spec fn shade(scene: Scene, ray: Ray) -> RGB {
    if scene.spec_hit(ray, visible()) is Some {
        RGB::black()
    } else {
        background(&ray)
    }
}

/// A ray that may be scattered once brings back nothing from a surface and
/// the light of the sky from elsewhere, whatever is drawn.
pub proof fn lemma_single_bounce(scene: Scene, ray: Ray, draws: Seq<Draw>)
    requires
        draws.len() == 1,
    ensures
        radiance(scene, ray, draws) == shade(scene, ray),
{
    reveal(truncated_quotient);
    if let Some(hit) = scene.spec_hit(ray, visible()) {
        if let Some((scattered, attenuation)) = hit.material.scattered(
            ray,
            hit,
            draws[0].unit,
            draws[0].uniform,
        ) {
            assert(radiance(scene, scattered, draws.drop_first()) == RGB::black());
            assert(attenuation.0.raw * 0 == 0 && attenuation.1.raw * 0 == 0 && attenuation.2.raw
                * 0 == 0);
            assert(attenuation.mul(RGB::black()) == RGB::black());
        }
    }
}

/// With one ray through each pixel that may be scattered once, a pixel is
/// black where its ray hits a surface and holds the light of the sky where
/// it hits nothing.
pub proof fn lemma_single_sample_single_bounce(
    camera: Camera,
    scene: Scene,
    i: usize,
    j: usize,
    sum: RGB,
)
    requires
        camera.samples_per_pixel == 1,
        camera.max_bounces == 1,
        is_pixel_sum(camera, scene, i, j, sum),
    ensures
        exists|a: Scalar, b: Scalar, lens: Vector3|
            Camera::drawn(a, b, lens) && sum == shade(
                scene,
                #[trigger] camera.ray_for(i, j, a, b, lens),
            ),
{
    let samples = choose|samples: Seq<Sample>|
        samples.len() == camera.samples_per_pixel && (forall|k: int|
            0 <= k < samples.len() ==> (#[trigger] samples[k]).valid(camera.max_bounces)) && sum
            == #[trigger] pixel_sum(camera, scene, i, j, samples);
    let only = samples[0];
    assert(only.valid(1));
    assert(samples.last() == only);
    assert(samples.drop_last().len() == 0);
    let ray = camera.ray_for(i, j, only.a, only.b, only.lens);
    lemma_single_bounce(scene, ray, only.draws);
    lemma_background_is_sky(ray);
    assert(pixel_sum(camera, scene, i, j, samples.drop_last()) == RGB::black());
    assert(sum == RGB::black().add(shade(scene, ray)));
    assert(sum == shade(scene, ray));
}

/// The light of the sky is at least half on every channel and full on the
/// blue one, and no channel is above the next: red, green, blue.
pub proof fn lemma_background_is_sky(ray: Ray)
    ensures
        background(&ray).2 == Scalar::one(),
        SCALE / 2 <= background(&ray).0.raw <= background(&ray).1.raw <= background(&ray).2.raw,
{
    reveal(truncated_quotient);
    Vector3::lemma_normalize_bounded(ray.dir);
    let unit = ray.dir.normalize();
    let half = Scalar::spec_from_ratio(1, 2);
    assert(half.raw == 500_000_000);
    assert(7 * SCALE == 7_000_000_000 && 7_000_000_000int / 10 == 700_000_000);
    assert(Scalar::spec_from_ratio(7, 10).raw == 700_000_000);
    let t = unit.y.add(Scalar::one());
    assert(0 <= t.raw <= 2 * SCALE);
    let a = half.mul(t);
    assert(half.raw * t.raw == 500_000_000 * t.raw);
    assert(a.raw == (500_000_000 * t.raw) / 1_000_000_000);
    assert(0 <= a.raw <= SCALE);
    let rest = Scalar::one().sub(a);
    assert(rest.raw == SCALE - a.raw);
    assert(Scalar::one().mul(rest) == rest) by {
        assert(SCALE * rest.raw == 1_000_000_000 * rest.raw);
    }
    assert(Scalar::one().mul(a) == a) by {
        assert(SCALE * a.raw == 1_000_000_000 * a.raw);
    }
    assert(half.mul(a).raw == (500_000_000 * a.raw) / 1_000_000_000) by {
        assert(half.raw * a.raw == 500_000_000 * a.raw);
    }
    assert(Scalar::spec_from_ratio(7, 10).mul(a).raw == (700_000_000 * a.raw) / 1_000_000_000)
        by {
        assert(Scalar::spec_from_ratio(7, 10).raw * a.raw == 700_000_000 * a.raw);
    }
}

/// Without scattering a ray brings back no light.
pub proof fn lemma_no_bounce_is_black(scene: Scene, ray: Ray, color: RGB)
    requires
        is_radiance(scene, ray, 0, color),
    ensures
        color == RGB::black(),
{
}

/// The light that comes back along `ray` for the draws from `from` on.
fn trace(ray: &Ray, draws: &Vec<Draw>, from: usize, scene: &Scene) -> (r: RGB)
    requires
        from <= draws@.len(),
    ensures
        r == radiance(*scene, *ray, draws@.skip(from as int)),
    decreases draws@.len() - from,
{
    if from >= draws.len() {
        return RGB::black();
    }
    let trange = Scalar { raw: T_MIN }..Scalar { raw: INF };
    assert(trange == visible());
    assert(draws@.skip(from as int).drop_first() =~= draws@.skip(from + 1));
    if let Some(hit) = scene.hit(ray, trange) {
        match hit.material.scatter_with(ray, &hit, draws[from].unit, draws[from].uniform) {
            Some((scattered, attenuation)) => attenuation.mul(
                trace(&scattered, draws, from + 1, scene),
            ),
            None => RGB::black(),
        }
    } else {
        background(ray)
    }
}

/// The light that comes back along `ray` when `draws` are the draws of its
/// scatterings, one after the other, and it may be scattered as often as
/// there are draws.
pub fn ray_color_with(ray: &Ray, draws: &Vec<Draw>, scene: &Scene) -> (r: RGB)
    ensures
        r == radiance(*scene, *ray, draws@),
{
    assert(draws@.skip(0) =~= draws@);
    trace(ray, draws, 0, scene)
}

/// What is drawn at random for one ray through a pixel: two numbers for the
/// point about the pixel's centre, a point of the disk that rays start from,
/// and the draws of the ray's scatterings.
pub struct Sample {
    pub a: Scalar,
    pub b: Scalar,
    pub lens: Vector3,
    pub draws: Seq<Draw>,
}

impl Sample {
    /// Whether all of it may be drawn for a ray that may be scattered `depth`
    /// times.
    pub open spec fn valid(self, depth: u32) -> bool {
        Camera::drawn(self.a, self.b, self.lens) && self.draws.len() == depth && forall|k: int|
            0 <= k < self.draws.len() ==> (#[trigger] self.draws[k]).valid()
    }
}

/// The sum of the light that the rays of `samples` bring back through the
/// pixel of row `i` and column `j`, added one by one to black.
pub open spec fn pixel_sum(camera: Camera, scene: Scene, i: usize, j: usize, samples: Seq<Sample>) -> RGB
    decreases samples.len(),
{
    if samples.len() == 0 {
        RGB::black()
    } else {
        let last = samples.last();
        pixel_sum(camera, scene, i, j, samples.drop_last()).add(
            radiance(scene, camera.ray_for(i, j, last.a, last.b, last.lens), last.draws),
        )
    }
}

/// Whether `sum` is the sum that `camera` may get for the pixel of row `i`
/// and column `j` of its picture of `scene`: that of as many samples as it
/// sends rays through a pixel, each one that may be drawn for its bounces.
pub open spec fn is_pixel_sum(camera: Camera, scene: Scene, i: usize, j: usize, sum: RGB) -> bool {
    exists|samples: Seq<Sample>|
        samples.len() == camera.samples_per_pixel && (forall|k: int|
            0 <= k < samples.len() ==> (#[trigger] samples[k]).valid(camera.max_bounces)) && sum
            == #[trigger] pixel_sum(camera, scene, i, j, samples)
}

/// Rays that may not be scattered add up to black.
pub proof fn lemma_no_bounce_sums_to_black(
    camera: Camera,
    scene: Scene,
    i: usize,
    j: usize,
    samples: Seq<Sample>,
)
    requires
        forall|k: int| 0 <= k < samples.len() ==> (#[trigger] samples[k]).draws.len() == 0,
    ensures
        pixel_sum(camera, scene, i, j, samples) == RGB::black(),
    decreases samples.len(),
{
    if samples.len() > 0 {
        lemma_no_bounce_sums_to_black(camera, scene, i, j, samples.drop_last());
        assert(samples.last() == samples[samples.len() - 1]);
    }
}

impl Camera {
    /// The sum of the light that comes back along as many rays through the
    /// pixel of row `i` and column `j` as the camera sends through a pixel.
    /// Black where no ray may be scattered.
    pub fn sample_pixel(&self, scene: &Scene, i: usize, j: usize) -> (r: RGB)
        requires
            self.is_initialized(),
        ensures
            is_pixel_sum(*self, *scene, i, j, r),
            self.max_bounces == 0 ==> r == RGB::black(),
    {
        let mut sum = RGB::black();
        let ghost mut samples: Seq<Sample> = Seq::empty();
        let mut n: u32 = 0;
        while n < self.samples_per_pixel
            invariant
                self.is_initialized(),
                n <= self.samples_per_pixel,
                samples.len() == n,
                forall|k: int|
                    0 <= k < samples.len() ==> (#[trigger] samples[k]).valid(self.max_bounces),
                sum == pixel_sum(*self, *scene, i, j, samples),
            decreases self.samples_per_pixel - n,
        {
            let ray = self.sample_ray(i, j);
            let color = ray_color(&ray, self.max_bounces, scene);
            proof {
                let (a, b, lens) = choose|a: Scalar, b: Scalar, lens: Vector3|
                    Camera::drawn(a, b, lens) && ray == #[trigger] self.ray_for(i, j, a, b, lens);
                let draws = choose|draws: Seq<Draw>|
                    draws.len() == self.max_bounces && (forall|k: int|
                        0 <= k < draws.len() ==> (#[trigger] draws[k]).valid()) && color
                        == #[trigger] radiance(*scene, ray, draws);
                let sample = Sample { a, b, lens, draws };
                let before = samples;
                samples = samples.push(sample);
                assert(samples.drop_last() =~= before);
                assert(samples.last() == sample);
            }
            sum = sum.add(color);
            n += 1;
        }
        proof {
            if self.max_bounces == 0 {
                lemma_no_bounce_sums_to_black(*self, *scene, i, j, samples);
            }
        }
        sum
    }
}

/// What renders the pixels of a camera's picture one by one, for whoever
/// assembles the picture.
#[derive(Clone, Copy, Debug, PartialEq, Eq, Structural)]
pub struct Renderer {
    /// Pixels in a row.
    pub render_width: usize,
    /// Rows of the picture.
    pub render_height: usize,
    /// Rays sent through each pixel.
    pub samples_per_pixel: u32,
    /// Times that a ray may be scattered.
    pub max_bounces: u32,
    /// The camera, with its frame and grid worked out.
    pub camera: Camera,
}

impl Renderer {
    /// The sum of the light that comes back along the rays that the camera
    /// sends through the pixel of row `i` and column `j`.
    pub fn render_pixel(&self, scene: &Scene, i: usize, j: usize) -> (r: RGB)
        requires
            self.camera.is_initialized(),
        ensures
            is_pixel_sum(self.camera, *scene, i, j, r),
            self.camera.max_bounces == 0 ==> r == RGB::black(),
    {
        self.camera.sample_pixel(scene, i, j)
    }
}

/// Whether `pixels` are sums that `camera` may get for the first pixels of
/// its picture of `scene`, row by row from the top.
pub open spec fn are_pixel_sums(camera: Camera, scene: Scene, pixels: Seq<RGB>) -> bool {
    forall|k: int|
        0 <= k < pixels.len() ==> is_pixel_sum(
            camera,
            scene,
            (k / (camera.render_width as int)) as usize,
            (k % (camera.render_width as int)) as usize,
            #[trigger] pixels[k],
        )
}

impl Camera {
    /// Works the camera's frame and grid out, and gives what renders its
    /// pixels one by one.
    pub fn renderer(&mut self) -> (r: Renderer)
        ensures
            *final(self) == old(self).initialized(),
            final(self).is_initialized(),
            r.camera == *final(self),
            r.render_width == final(self).render_width,
            r.render_height == final(self).render_height,
            r.samples_per_pixel == final(self).samples_per_pixel,
            r.max_bounces == final(self).max_bounces,
    {
        self.initialize();
        Renderer {
            render_width: self.render_width,
            render_height: self.render_height,
            samples_per_pixel: self.samples_per_pixel,
            max_bounces: self.max_bounces,
            camera: *self,
        }
    }

    /// Works the camera's frame and grid out and renders its picture of
    /// `scene`, pixel by pixel and row by row from the top. The picture holds
    /// a sum for every pixel; all are black where no ray may be scattered.
    pub fn render(&mut self, scene: &Scene) -> (image: Box<PPM>)
        ensures
            *final(self) == old(self).initialized(),
            final(self).is_initialized(),
            image.spec_width() == final(self).render_width,
            image.spec_height() == final(self).render_height,
            image.samples() == final(self).samples_per_pixel,
            image.pixels().len() == final(self).render_width * final(self).render_height,
            are_pixel_sums(*final(self), *scene, image.pixels()),
            final(self).max_bounces == 0 ==> forall|k: int|
                0 <= k < image.pixels().len() ==> #[trigger] image.pixels()[k] == RGB::black(),
    {
        self.initialize();
        let camera: Camera = *self;
        let width = camera.render_width;
        let height = camera.render_height;
        let mut pixels: Vec<RGB> = Vec::new();
        let mut i: usize = 0;
        while i < height
            invariant
                camera.is_initialized(),
                i <= height,
                width == camera.render_width,
                pixels@.len() == i * width,
                are_pixel_sums(camera, *scene, pixels@),
                camera.max_bounces == 0 ==> forall|k: int|
                    0 <= k < pixels@.len() ==> #[trigger] pixels@[k] == RGB::black(),
            decreases height - i,
        {
            let mut j: usize = 0;
            while j < width
                invariant
                    camera.is_initialized(),
                    j <= width,
                    width == camera.render_width,
                    pixels@.len() == i * width + j,
                    are_pixel_sums(camera, *scene, pixels@),
                    camera.max_bounces == 0 ==> forall|k: int|
                        0 <= k < pixels@.len() ==> #[trigger] pixels@[k] == RGB::black(),
                decreases width - j,
            {
                let color = camera.sample_pixel(scene, i, j);
                proof {
                    lemma_fundamental_div_mod_converse(
                        i * width + j,
                        width as int,
                        i as int,
                        j as int,
                    );
                }
                pixels.push(color);
                j += 1;
            }
            assert((i + 1) * width == i * width + width) by (nonlinear_arith);
            i += 1;
        }
        assert(height * width == width * height) by (nonlinear_arith);
        Box::new(PPM::from_pixels(width, height, camera.samples_per_pixel, pixels))
    }
}

} // verus!
