use raytracer::camera::{
    background, ray_color, ray_color_with, Camera, Draw, T_MIN,
};
use raytracer::color::RGB;
use raytracer::error::ConfigError;
use raytracer::image::{Image, PPM};
use raytracer::material::{Dielectric, Lambertian, Material, Metal};
use raytracer::ray::Ray;
use raytracer::scalar::Scalar;
use raytracer::scene::{Hittable, Scene, Sphere};
use raytracer::vector::Vector3;

fn s(x: f64) -> Scalar {
    Scalar { raw: (x * 1e9).round() as i64 }
}

fn f(x: Scalar) -> f64 {
    x.raw as f64 / 1e9
}

fn v(x: f64, y: f64, z: f64) -> Vector3 {
    Vector3::new(s(x), s(y), s(z))
}

fn close(a: Vector3, x: f64, y: f64, z: f64) -> bool {
    (f(a.x) - x).abs() < 1e-6 && (f(a.y) - y).abs() < 1e-6 && (f(a.z) - z).abs() < 1e-6
}

fn camera(width: usize, samples: u32, bounces: u32) -> Camera {
    Camera::new(
        width,
        Scalar::from_ratio(16, 9),
        samples,
        bounces,
        s(40.0),
        v(0.0, 1.0, 4.0),
        v(0.0, 0.5, 0.0),
        v(0.0, 1.0, 0.0),
        s(0.0),
        s(4.0),
    )
    .unwrap()
}

fn straight(width: usize, aspect: Scalar) -> Camera {
    Camera::new(
        width,
        aspect,
        1,
        1,
        s(90.0),
        v(0.0, 0.0, 0.0),
        v(0.0, 0.0, -1.0),
        v(0.0, 1.0, 0.0),
        s(0.0),
        s(1.0),
    )
    .unwrap()
}

fn matte(r: f64, g: f64, b: f64) -> Material {
    Material::Lambertian(Lambertian::new(RGB(s(r), s(g), s(b))))
}

fn ball(x: f64, y: f64, z: f64, radius: f64, material: Material) -> Hittable {
    Hittable::Sphere(Sphere::new(v(x, y, z), s(radius), material).unwrap())
}

fn ground_and_ball(material: Material) -> Scene {
    let mut scene = Scene::new();
    scene.add(ball(0.0, -1000.0, 0.0, 1000.0, matte(0.5, 0.5, 0.5)));
    scene.add(ball(0.0, 0.5, 0.0, 0.5, material));
    scene
}

fn idle() -> Draw {
    Draw { unit: Vector3::zeros(), uniform: Scalar::zero() }
}

fn bytes(image: &PPM) -> Vec<Vec<(u8, u8, u8)>> {
    (0..image.height())
        .map(|y| {
            (0..image.width())
                .map(|x| image.get(y, x).quantize(image.samples_per_pixel()))
                .collect()
        })
        .collect()
}

#[test]
fn a_camera_needs_a_width_and_a_positive_aspect_ratio() {
    let make = |width: usize, aspect: Scalar| {
        Camera::new(
            width,
            aspect,
            1,
            1,
            s(90.0),
            v(0.0, 0.0, 0.0),
            v(0.0, 0.0, -1.0),
            v(0.0, 1.0, 0.0),
            s(0.0),
            s(1.0),
        )
    };
    assert_eq!(make(0, s(1.0)).err(), Some(ConfigError::NonPositiveWidth));
    assert_eq!(make(10, s(0.0)).err(), Some(ConfigError::NonPositiveAspectRatio));
    assert_eq!(make(10, s(-1.5)).err(), Some(ConfigError::NonPositiveAspectRatio));
    assert_eq!(make(0, s(-1.5)).err(), Some(ConfigError::NonPositiveWidth));
    assert!(make(1, Scalar { raw: 1 }).is_ok());
}

#[test]
fn a_camera_keeps_its_configuration() {
    let c = camera(16, 3, 5);
    assert_eq!(c.render_width, 16);
    assert_eq!(c.aspect_ratio, Scalar::from_ratio(16, 9));
    assert_eq!(c.samples_per_pixel, 3);
    assert_eq!(c.max_bounces, 5);
    assert_eq!(c.fov_degrees, s(40.0));
    assert_eq!(c.lookfrom, v(0.0, 1.0, 4.0));
    assert_eq!(c.lookat, v(0.0, 0.5, 0.0));
    assert_eq!(c.vup, v(0.0, 1.0, 0.0));
    assert_eq!(c.defocus_angle_degrees, s(0.0));
    assert_eq!(c.focus_dist, s(4.0));
    assert_eq!(c.center, c.lookfrom);
}

#[test]
fn the_rows_are_the_rounded_quotient_and_at_least_one() {
    assert_eq!(straight(1200, Scalar::from_ratio(16, 9)).render_height, 675);
    assert_eq!(straight(16, Scalar::from_ratio(16, 9)).render_height, 9);
    assert_eq!(straight(100, s(1.0)).render_height, 100);
    assert_eq!(straight(3, s(2.0)).render_height, 2);
    assert_eq!(straight(5, s(4.0)).render_height, 1);
    assert_eq!(straight(1, Scalar::from_ratio(16, 9)).render_height, 1);
    assert_eq!(straight(10, s(100.0)).render_height, 1);
    assert_eq!(straight(10, s(0.3)).render_height, 33);
}

#[test]
fn the_frame_is_right_handed_and_of_unit_length() {
    let c = straight(100, s(2.0));
    assert_eq!(c.w, v(0.0, 0.0, 1.0));
    assert_eq!(c.u, v(1.0, 0.0, 0.0));
    assert_eq!(c.v, v(0.0, 1.0, 0.0));
    let tilted = camera(16, 1, 1);
    for axis in [tilted.u, tilted.v, tilted.w] {
        assert!((f(axis.norm()) - 1.0).abs() < 1e-6);
    }
    assert!(f(tilted.u.dot(tilted.v)).abs() < 1e-6);
    assert!(f(tilted.u.dot(tilted.w)).abs() < 1e-6);
    assert!(f(tilted.v.dot(tilted.w)).abs() < 1e-6);
    assert!(close(tilted.w, 0.0, 0.5 / 16.25f64.sqrt(), 4.0 / 16.25f64.sqrt()));
    assert_eq!(tilted.u, v(1.0, 0.0, 0.0));
}

#[test]
fn the_grid_of_pixels_spans_the_viewport() {
    let c = straight(100, s(2.0));
    assert_eq!(c.render_height, 50);
    assert_eq!(c.center, v(0.0, 0.0, 0.0));
    assert_eq!(c.viewport(), (s(4.0), s(2.0)));
    assert_eq!(c.pixel_delta_u, v(0.04, 0.0, 0.0));
    assert_eq!(c.pixel_delta_v, v(0.0, -0.04, 0.0));
    assert_eq!(c.pixel00_loc, v(-1.98, 0.98, -1.0));
    assert_eq!(c.defocus_disk_u, Vector3::zeros());
    assert_eq!(c.defocus_disk_v, Vector3::zeros());
}

#[test]
fn the_grid_is_exact_where_its_numbers_are_billionths() {
    let c = Camera::new(
        400,
        s(2.0),
        1,
        1,
        s(90.0),
        v(1.0, 2.0, 3.0),
        v(1.0, 2.0, -7.0),
        v(0.0, 1.0, 0.0),
        s(0.0),
        s(5.0),
    )
    .unwrap();
    assert_eq!(c.render_height, 200);
    assert_eq!(c.viewport(), (s(20.0), s(10.0)));
    assert_eq!(c.pixel_delta_u, v(0.05, 0.0, 0.0));
    assert_eq!(c.pixel_delta_v, v(0.0, -0.05, 0.0));
    assert_eq!(c.pixel00_loc, v(1.0 - 10.0 + 0.025, 2.0 + 5.0 - 0.025, -2.0));
    assert_eq!(c.sample_ray_with(0, 0, s(0.5), s(0.5), Vector3::zeros()).dir, v(-9.975, 4.975, -5.0));
    assert_eq!(
        c.sample_ray_with(199, 399, s(0.5), s(0.5), Vector3::zeros()).dir,
        v(9.975, -4.975, -5.0)
    );
}

#[test]
fn the_disk_has_the_radius_of_the_cone_at_the_focus() {
    let c = Camera::new(
        100,
        s(2.0),
        1,
        1,
        s(90.0),
        v(0.0, 0.0, 0.0),
        v(0.0, 0.0, -1.0),
        v(0.0, 1.0, 0.0),
        s(10.0),
        s(3.0),
    )
    .unwrap();
    let radius = 3.0 * 5.0f64.to_radians().tan();
    assert!(close(c.defocus_disk_u, radius, 0.0, 0.0));
    assert!(close(c.defocus_disk_v, 0.0, radius, 0.0));
    assert!(close(c.pixel_delta_u, 0.12, 0.0, 0.0));
    assert!(close(c.pixel00_loc, -6.0 + 0.06, 3.0 - 0.06, -3.0));
}

#[test]
fn initializing_again_follows_a_changed_configuration() {
    let mut c = straight(100, s(2.0));
    let first = c;
    c.initialize();
    assert_eq!(c, first);
    c.render_width = 200;
    c.lookat = v(1.0, 0.0, 0.0);
    c.initialize();
    assert_eq!(c.render_height, 100);
    assert_eq!(c.w, v(-1.0, 0.0, 0.0));
    assert_eq!(c.u, v(0.0, 0.0, 1.0));
    assert_eq!(c.v, v(0.0, 1.0, 0.0));
    assert!(close(c.pixel_delta_u, 0.0, 0.0, 0.02));
}

#[test]
fn a_ray_goes_from_the_centre_through_the_sample() {
    let c = straight(100, s(2.0));
    let middle = c.sample_ray_with(0, 0, s(0.5), s(0.5), v(0.3, 0.4, 0.0));
    assert_eq!(middle.orig, c.center);
    assert_eq!(middle.dir, c.pixel00_loc.sub(c.center));
    let corner = c.sample_ray_with(0, 0, s(0.0), s(0.0), Vector3::zeros());
    assert!(close(corner.dir, -2.0, 1.0, -1.0));
    let other = c.sample_ray_with(49, 99, s(0.5), s(0.5), Vector3::zeros());
    assert!(close(other.dir, 2.0 - 0.02, -1.0 + 0.02, -1.0));
    let shifted = c.sample_ray_with(10, 20, s(0.75), s(0.25), Vector3::zeros());
    assert!(close(shifted.dir, -2.0 + 0.04 * 20.75, 1.0 - 0.04 * 10.25, -1.0));
}

#[test]
fn with_a_defocus_angle_a_ray_starts_on_the_disk() {
    let c = Camera::new(
        100,
        s(2.0),
        1,
        1,
        s(90.0),
        v(0.0, 0.0, 0.0),
        v(0.0, 0.0, -1.0),
        v(0.0, 1.0, 0.0),
        s(10.0),
        s(3.0),
    )
    .unwrap();
    let radius = 3.0 * 5.0f64.to_radians().tan();
    let ray = c.sample_ray_with(0, 0, s(0.5), s(0.5), v(0.5, -0.5, 0.0));
    assert!(close(ray.orig, 0.5 * radius, -0.5 * radius, 0.0));
    assert_eq!(ray.dir, c.pixel00_loc.sub(ray.orig));
    for _ in 0..50 {
        let drawn = c.sample_ray(3, 4);
        let offset = drawn.orig.sub(c.center);
        assert!(f(offset.norm()) <= radius + 1e-6);
        assert_eq!(offset.z.raw, 0);
    }
}

#[test]
fn random_rays_stay_within_their_pixel() {
    let c = straight(100, s(2.0));
    let mut seen = Vec::new();
    for _ in 0..100 {
        let ray = c.sample_ray(10, 20);
        assert_eq!(ray.orig, c.center);
        let x = f(ray.dir.x);
        let y = f(ray.dir.y);
        assert!(-2.0 + 0.04 * 20.0 - 1e-6 <= x && x <= -2.0 + 0.04 * 21.0 + 1e-6);
        assert!(1.0 - 0.04 * 11.0 - 1e-6 <= y && y <= 1.0 - 0.04 * 10.0 + 1e-6);
        seen.push(ray.dir);
    }
    assert!(seen.iter().any(|d| *d != seen[0]));
}

#[test]
fn the_sky_blends_from_white_below_to_blue_above() {
    assert_eq!(T_MIN, 1_000_000);
    let up = Ray::new(v(0.0, 0.0, 0.0), v(0.0, 2.0, 0.0));
    let down = Ray::new(v(0.0, 0.0, 0.0), v(0.0, -2.0, 0.0));
    let level = Ray::new(v(0.0, 0.0, 0.0), v(0.0, 0.0, -3.0));
    assert_eq!(background(&up), RGB(s(0.5), s(0.7), s(1.0)));
    assert_eq!(background(&down), RGB(s(1.0), s(1.0), s(1.0)));
    assert_eq!(background(&level), RGB(s(0.75), s(0.85), s(1.0)));
}

#[test]
fn a_ray_that_hits_nothing_brings_back_the_sky() {
    let scene = Scene::new();
    let up = Ray::new(v(0.0, 0.0, 0.0), v(0.0, 2.0, 0.0));
    assert_eq!(ray_color(&up, 1, &scene), RGB(s(0.5), s(0.7), s(1.0)));
    assert_eq!(ray_color(&up, 50, &scene), RGB(s(0.5), s(0.7), s(1.0)));
    assert_eq!(ray_color_with(&up, &vec![idle()], &scene), RGB(s(0.5), s(0.7), s(1.0)));
    let away = Ray::new(v(0.0, 2.0, 5.0), v(0.0, 0.0, 1.0));
    assert_eq!(ray_color(&away, 3, &ground_and_ball(matte(0.1, 0.2, 0.5))), background(&away));
}

#[test]
fn without_bounces_a_ray_brings_back_nothing() {
    let up = Ray::new(v(0.0, 0.0, 0.0), v(0.0, 2.0, 0.0));
    let down = Ray::new(v(0.0, 2.0, 0.0), v(0.0, -1.0, 0.0));
    for scene in [Scene::new(), ground_and_ball(matte(0.1, 0.2, 0.5))] {
        for ray in [up, down] {
            assert_eq!(ray_color(&ray, 0, &scene), RGB::black());
            assert_eq!(ray_color_with(&ray, &vec![], &scene), RGB::black());
        }
    }
}

#[test]
fn a_scattered_ray_brings_back_the_sky_times_the_albedo() {
    let scene = ground_and_ball(matte(0.1, 0.2, 0.5));
    let down = Ray::new(v(0.0, 3.0, 0.0), v(0.0, -1.0, 0.0));
    let two = vec![idle(), idle()];
    assert_eq!(ray_color_with(&down, &two, &scene), RGB(s(0.05), s(0.14), s(0.5)));
    let one = vec![idle()];
    assert_eq!(ray_color_with(&down, &one, &scene), RGB::black());
    let sideways = vec![Draw { unit: v(0.6, 0.0, 0.8), uniform: s(0.0) }, idle()];
    let leaving = Ray::new(v(0.0, 1.0, 0.0), v(0.6, 1.0, 0.8));
    assert_eq!(
        ray_color_with(&down, &sideways, &scene),
        RGB(s(0.1), s(0.2), s(0.5)).mul(background(&leaving))
    );
}

#[test]
fn an_absorbed_ray_brings_back_nothing() {
    let steel = Material::Metal(Metal::new(RGB(s(0.8), s(0.6), s(0.2)), s(1.0)));
    let scene = ground_and_ball(steel);
    let down = Ray::new(v(0.0, 3.0, 0.0), v(0.0, -1.0, 0.0));
    let into = vec![Draw { unit: v(0.0, -1.0, 0.0), uniform: s(0.0) }, idle(), idle()];
    assert_eq!(ray_color_with(&down, &into, &scene), RGB::black());
    let out = vec![idle(), idle(), idle()];
    assert_eq!(ray_color_with(&down, &out, &scene), RGB(s(0.4), s(0.42), s(0.2)));
}

#[test]
fn light_passes_through_glass_untouched() {
    let glass = Material::Dielectric(Dielectric::new(s(1.5)).unwrap());
    let mut scene = Scene::new();
    scene.add(ball(0.0, 0.0, 0.0, 1.0, glass));
    let down = Ray::new(v(0.0, 3.0, 0.0), v(0.0, -1.0, 0.0));
    let through = Draw { unit: Vector3::zeros(), uniform: s(0.5) };
    assert_eq!(
        ray_color_with(&down, &vec![through, through, through], &scene),
        RGB(s(1.0), s(1.0), s(1.0))
    );
    assert_eq!(ray_color_with(&down, &vec![through, through], &scene), RGB::black());
    let back = Draw { unit: Vector3::zeros(), uniform: s(0.0) };
    assert_eq!(ray_color_with(&down, &vec![back, through], &scene), RGB(s(0.5), s(0.7), s(1.0)));
}

#[test]
fn random_radiance_is_one_of_the_possible_ones() {
    let scene = ground_and_ball(matte(0.1, 0.2, 0.5));
    let down = Ray::new(v(0.0, 3.0, 0.0), v(0.0, -1.0, 0.0));
    for _ in 0..50 {
        let c = ray_color(&down, 1, &scene);
        assert_eq!(c, RGB::black());
        let d = ray_color(&down, 6, &scene);
        for part in [d.0, d.1, d.2] {
            assert!(0 <= part.raw && part.raw <= s(1.0).raw);
        }
        assert!(d.0.raw <= d.1.raw && d.1.raw <= d.2.raw);
    }
}

#[test]
fn the_picture_has_the_cameras_size() {
    let mut c = camera(16, 1, 1);
    let image = c.render(&Scene::new());
    assert_eq!(image.width(), 16);
    assert_eq!(image.height(), 9);
    assert_eq!(image.len(), 16 * 9);
    assert_eq!(image.samples_per_pixel(), 1);
    let mut wide = straight(7, s(7.0));
    let strip = wide.render(&Scene::new());
    assert_eq!((strip.width(), strip.height(), strip.len()), (7, 1, 7));
}

#[test]
fn an_empty_scene_shows_the_sky() {
    let mut c = camera(16, 2, 3);
    let image = c.render(&Scene::new());
    for y in 0..image.height() {
        for x in 0..image.width() {
            let (r, g, b) = image.get(y, x).quantize(2);
            assert!(r <= g && g <= b);
            assert!(b >= 254);
            assert!(r >= 180);
        }
    }
    let rows = bytes(&image);
    assert!(rows[0][8].0 < rows[8][8].0);
}

#[test]
fn without_bounces_every_pixel_is_black() {
    for scene in [Scene::new(), ground_and_ball(matte(0.1, 0.2, 0.5))] {
        let mut c = camera(16, 4, 0);
        let image = c.render(&scene);
        for y in 0..image.height() {
            for x in 0..image.width() {
                assert_eq!(image.get(y, x), RGB::black());
            }
        }
        let mut text = Vec::new();
        image.save(&mut text);
        let text = String::from_utf8(text).unwrap();
        assert!(text.starts_with("P3\n16 9\n255\n"));
        assert!(text.lines().skip(3).all(|line| line == "0 0 0"));
        assert_eq!(text.lines().count(), 3 + 16 * 9);
        let renderer = c.renderer();
        assert_eq!(renderer.render_pixel(&scene, 4, 8), RGB::black());
    }
}

#[test]
fn without_samples_every_pixel_is_black() {
    let mut c = camera(8, 0, 5);
    let image = c.render(&ground_and_ball(matte(0.1, 0.2, 0.5)));
    assert_eq!(image.len(), 8 * 5);
    for y in 0..image.height() {
        for x in 0..image.width() {
            assert_eq!(image.get(y, x), RGB::black());
        }
    }
}

#[test]
fn ground_and_ball_show_sky_above_and_dark_below() {
    let materials = [
        matte(0.1, 0.2, 0.5),
        Material::Metal(Metal::new(RGB(s(0.8), s(0.6), s(0.2)), s(0.0))),
        Material::Dielectric(Dielectric::new(s(1.5)).unwrap()),
    ];
    for material in materials {
        let mut c = camera(32, 1, 1);
        let image = c.render(&ground_and_ball(material));
        assert_eq!((image.width(), image.height()), (32, 18));
        let rows = bytes(&image);
        let brightness = |row: &Vec<(u8, u8, u8)>| -> u32 {
            row.iter().map(|p| p.0 as u32 + p.1 as u32 + p.2 as u32).sum()
        };
        for pixel in &rows[0] {
            assert!(pixel.2 >= 254);
            assert!(pixel.0 < pixel.2);
            assert!(pixel.0 <= pixel.1 && pixel.1 <= pixel.2);
        }
        for pixel in &rows[17] {
            assert_eq!(*pixel, (0, 0, 0));
        }
        assert!(brightness(&rows[0]) > brightness(&rows[17]));
        assert!(brightness(&rows[0]) >= brightness(&rows[9]));
        let all: Vec<(u8, u8, u8)> = rows.iter().flatten().copied().collect();
        assert!(all.iter().any(|p| *p != all[0]));
        assert_eq!(rows[9][16], (0, 0, 0));
    }
}

#[test]
fn with_one_ray_and_one_bounce_a_pixel_is_black_or_sky() {
    let mut c = camera(32, 1, 1);
    let scene = ground_and_ball(matte(0.1, 0.2, 0.5));
    let image = c.render(&scene);
    let mut shadows = 0;
    let mut skies = 0;
    for y in 0..image.height() {
        for x in 0..image.width() {
            let sum = image.get(y, x);
            if sum == RGB::black() {
                shadows += 1;
            } else {
                skies += 1;
                assert_eq!(sum.2, s(1.0));
                assert!(s(0.5).raw <= sum.0.raw && sum.0.raw <= sum.1.raw && sum.1.raw <= sum.2.raw);
            }
        }
    }
    assert!(shadows > 0 && skies > 0);
    assert_eq!(shadows + skies, 32 * 18);
    let grid = image.quantized();
    assert_eq!(grid.len(), 32 * 18);
    for (k, pixel) in grid.iter().enumerate() {
        assert_eq!(*pixel, image.get(k / 32, k % 32).quantize(1));
        assert!(*pixel == (0, 0, 0) || (pixel.2 == 255 && pixel.0 >= 181));
    }
}

#[test]
fn with_more_bounces_the_ground_is_lit() {
    let mut c = camera(16, 4, 8);
    let image = c.render(&ground_and_ball(matte(0.1, 0.2, 0.5)));
    let rows = bytes(&image);
    let lit = rows[8].iter().filter(|p| **p != (0, 0, 0)).count();
    assert!(lit > 8);
    for row in &rows {
        for pixel in row {
            assert!(pixel.0 <= pixel.1.saturating_add(1) && pixel.1 <= pixel.2.saturating_add(1));
        }
    }
}

#[test]
fn the_renderer_is_made_for_the_initialized_camera() {
    let mut c = camera(16, 3, 5);
    c.render_width = 32;
    let renderer = c.renderer();
    assert_eq!(c.render_height, 18);
    assert_eq!(renderer.render_width, 32);
    assert_eq!(renderer.render_height, 18);
    assert_eq!(renderer.samples_per_pixel, 3);
    assert_eq!(renderer.max_bounces, 5);
    assert_eq!(renderer.camera, c);
    let scene = Scene::new();
    let pixel = renderer.render_pixel(&scene, 0, 0);
    let (r, g, b) = pixel.quantize(3);
    assert!(r <= g && g <= b && b >= 254);
    let pixels: Vec<RGB> = (0..18 * 32).map(|k| renderer.render_pixel(&scene, k / 32, k % 32)).collect();
    let image = PPM::from_pixels(32, 18, 3, pixels);
    assert_eq!(image.len(), 32 * 18);
}
