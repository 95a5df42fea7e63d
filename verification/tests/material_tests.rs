use raytracer::color::RGB;
use raytracer::error::ConfigError;
use raytracer::material::{Dielectric, Lambertian, Material, Metal};
use raytracer::ray::Ray;
use raytracer::scalar::{Scalar, SCALE};
use raytracer::scene::HitRecord;
use raytracer::utils::{reflect, refract};
use raytracer::vector::Vector3;

fn s(x: f64) -> Scalar {
    Scalar { raw: (x * 1e9).round() as i64 }
}

fn v(x: f64, y: f64, z: f64) -> Vector3 {
    Vector3::new(s(x), s(y), s(z))
}

fn hit_with(normal: Vector3, front: bool, material: Material) -> HitRecord {
    HitRecord { p: v(1.0, 2.0, 3.0), normal, t: s(1.0), front, material }
}

fn floor(front: bool, material: Material) -> HitRecord {
    hit_with(v(0.0, 1.0, 0.0), front, material)
}

#[test]
fn constructors_keep_what_they_are_given() {
    let color = RGB(s(0.1), s(0.2), s(0.5));
    assert_eq!(Lambertian::new(color).albedo, color);
    let metal = Metal::new(color, s(0.3));
    assert_eq!(metal.albedo, color);
    assert_eq!(metal.fuzz, s(0.3));
    assert_eq!(Dielectric::new(s(1.5)).unwrap().refraction_index, s(1.5));
}

#[test]
fn a_refraction_index_must_be_positive() {
    assert_eq!(Dielectric::new(s(0.0)), Err(ConfigError::NonPositiveRefractionIndex));
    assert_eq!(Dielectric::new(s(-1.5)), Err(ConfigError::NonPositiveRefractionIndex));
    assert!(Dielectric::new(Scalar { raw: 1 }).is_ok());
}

#[test]
fn a_matte_surface_scatters_along_normal_plus_direction() {
    let matte = Lambertian::new(RGB(s(0.1), s(0.2), s(0.5)));
    let hit = floor(true, Material::Lambertian(matte));
    let (ray, kept) = matte.scatter_with(&hit, v(0.6, 0.0, 0.8)).unwrap();
    assert_eq!(ray.orig, hit.p);
    assert_eq!(ray.dir, v(0.6, 1.0, 0.8));
    assert_eq!(kept, matte.albedo);
}

#[test]
fn a_matte_surface_falls_back_to_the_normal() {
    let matte = Lambertian::new(RGB(s(0.1), s(0.2), s(0.5)));
    let hit = floor(true, Material::Lambertian(matte));
    let (ray, _) = matte.scatter_with(&hit, v(0.0, -1.0, 0.0)).unwrap();
    assert_eq!(ray.dir, hit.normal);
    let nearly = Vector3::new(Scalar { raw: 9 }, Scalar { raw: -SCALE + 9 }, Scalar { raw: -9 });
    let (ray, _) = matte.scatter_with(&hit, nearly).unwrap();
    assert_eq!(ray.dir, hit.normal);
    let barely = Vector3::new(Scalar { raw: 10 }, Scalar { raw: -SCALE }, Scalar { raw: 0 });
    let (ray, _) = matte.scatter_with(&hit, barely).unwrap();
    assert_eq!(ray.dir, Vector3::new(Scalar { raw: 10 }, Scalar { raw: 0 }, Scalar { raw: 0 }));
}

#[test]
fn a_matte_surface_never_absorbs() {
    let matte = Lambertian::new(RGB(s(0.8), s(0.8), s(0.0)));
    let hit = floor(true, Material::Lambertian(matte));
    let incoming = Ray::new(v(1.0, 3.0, 3.0), v(0.0, -1.0, 0.0));
    for _ in 0..200 {
        let (ray, kept) = matte.scatter(&incoming, &hit).unwrap();
        assert_eq!(ray.orig, hit.p);
        assert_eq!(kept, matte.albedo);
        assert!(ray.dir != Vector3::zeros());
        assert!(Material::Lambertian(matte).scatter(&incoming, &hit).is_some());
    }
}

#[test]
fn a_mirror_reflects() {
    let mirror = Metal::new(RGB(s(0.8), s(0.6), s(0.2)), s(0.0));
    let hit = floor(true, Material::Metal(mirror));
    let incoming = Ray::new(v(0.0, 0.0, 0.0), v(3.0, -4.0, 0.0));
    let (ray, kept) = mirror.scatter_with(&incoming, &hit, v(0.0, 0.0, 1.0)).unwrap();
    assert_eq!(ray.orig, hit.p);
    assert_eq!(ray.dir, v(0.6, 0.8, 0.0));
    assert_eq!(kept, mirror.albedo);
    for _ in 0..50 {
        assert_eq!(mirror.scatter(&incoming, &hit), Some((ray, kept)));
    }
}

#[test]
fn fuzz_moves_the_reflection_by_the_scaled_direction() {
    let rough = Metal::new(RGB(s(0.8), s(0.6), s(0.2)), s(0.5));
    let hit = floor(true, Material::Metal(rough));
    let incoming = Ray::new(v(0.0, 0.0, 0.0), v(3.0, -4.0, 0.0));
    let (ray, _) = rough.scatter_with(&incoming, &hit, v(0.0, 0.6, -0.8)).unwrap();
    assert_eq!(ray.dir, v(0.6, 1.1, -0.4));
    assert_eq!(rough.scatter_with(&incoming, &hit, v(0.0, -1.0, 0.0)).unwrap().0.dir, v(0.6, 0.3, 0.0));
}

#[test]
fn a_mirror_absorbs_a_reflection_into_the_surface() {
    let mirror = Metal::new(RGB(s(0.8), s(0.6), s(0.2)), s(0.0));
    let hit = floor(true, Material::Metal(mirror));
    let from_behind = Ray::new(v(1.0, 1.0, 3.0), v(0.0, 1.0, 0.0));
    let ideal = reflect(&from_behind.dir.normalize(), &hit.normal);
    assert!(ideal.dot(hit.normal).raw <= 0);
    assert_eq!(mirror.scatter_with(&from_behind, &hit, v(0.0, 1.0, 0.0)), None);
    let grazing = Ray::new(v(0.0, 2.0, 3.0), v(1.0, 0.0, 0.0));
    assert_eq!(reflect(&grazing.dir.normalize(), &hit.normal).dot(hit.normal).raw, 0);
    for _ in 0..50 {
        assert_eq!(mirror.scatter(&from_behind, &hit), None);
        assert_eq!(mirror.scatter(&grazing, &hit), None);
        assert_eq!(Material::Metal(mirror).scatter(&grazing, &hit), None);
    }
}

#[test]
fn a_mirror_decides_by_the_true_sign() {
    let mirror = Metal::new(RGB(s(0.8), s(0.6), s(0.2)), s(0.0));
    let slanted = hit_with(v(0.6, 0.0, 0.8), true, Material::Metal(mirror));
    let unit = v(0.0, 0.0, 1.0);
    let along = Ray::new(v(0.0, 0.0, 0.0), v(0.8, 0.0, -0.6));
    assert_eq!(reflect(&along.dir, &slanted.normal), v(0.8, 0.0, -0.6));
    assert_eq!(mirror.scatter_with(&along, &slanted, unit), None);
    let rough = Metal::new(RGB(s(0.8), s(0.6), s(0.2)), Scalar { raw: 1 });
    let (sent, _) = rough.scatter_with(&along, &slanted, unit).unwrap();
    assert_eq!(sent.dir, Vector3::new(s(0.8), s(0.0), Scalar { raw: -599_999_999 }));
    assert_eq!(sent.dir.dot(slanted.normal).raw, 0);
    assert!(sent.dir.agrees(slanted.normal));
    assert_eq!(rough.scatter_with(&along, &slanted, unit.neg()), None);
}

#[test]
fn fuzz_can_push_the_ray_into_the_surface() {
    let rough = Metal::new(RGB(s(0.8), s(0.6), s(0.2)), s(1.0));
    let hit = floor(true, Material::Metal(rough));
    let incoming = Ray::new(v(0.0, 0.0, 0.0), v(3.0, -4.0, 0.0));
    assert_eq!(rough.scatter_with(&incoming, &hit, v(0.0, -1.0, 0.0)), None);
    assert_eq!(rough.scatter_with(&incoming, &hit, v(0.0, -0.8, 0.0)), None);
    assert!(rough.scatter_with(&incoming, &hit, v(0.0, -0.7, 0.0)).is_some());
}

#[test]
fn glass_keeps_all_the_light_whatever_its_index() {
    let incoming = Ray::new(v(0.0, 3.0, 0.0), v(0.3, -1.0, 0.2));
    for index in [0.000000001, 0.5, 1.0, 1.5, 2.4, 1000.0] {
        let glass = Dielectric::new(s(index)).unwrap();
        for front in [true, false] {
            let hit = floor(front, Material::Dielectric(glass));
            for uniform in [0.0, 0.3, 0.999999999] {
                let (_, kept) = glass.scatter_with(&incoming, &hit, s(uniform)).unwrap();
                assert_eq!(kept, RGB(s(1.0), s(1.0), s(1.0)));
            }
            for _ in 0..20 {
                let (ray, kept) = glass.scatter(&incoming, &hit).unwrap();
                assert_eq!(kept, RGB::white());
                assert_eq!(ray.orig, hit.p);
                assert_eq!(Material::Dielectric(glass).scatter(&incoming, &hit).unwrap().1, kept);
            }
        }
    }
}

#[test]
fn reflectance_follows_schlick() {
    let glass = Dielectric::new(s(1.5)).unwrap();
    assert_eq!(glass.reflectance(s(1.0), s(1.5)), s(0.04));
    assert_eq!(glass.reflectance(s(0.0), s(1.5)), s(1.0));
    assert_eq!(glass.reflectance(s(1.0), s(1.0)), s(0.0));
    assert_eq!(glass.reflectance(s(0.5), s(1.5)).raw, 70_000_000);
    assert_eq!(glass.reflectance(s(0.5), s(3.0)).raw, 273_437_500);
}

#[test]
fn glass_refracts_a_ray_that_meets_it_head_on() {
    let glass = Dielectric::new(s(1.5)).unwrap();
    let hit = floor(true, Material::Dielectric(glass));
    let incoming = Ray::new(v(1.0, 5.0, 3.0), v(0.0, -3.0, 0.0));
    let (ray, _) = glass.scatter_with(&incoming, &hit, s(0.5)).unwrap();
    assert_eq!(ray.dir, v(0.0, -1.0, 0.0));
    let (ray, _) = glass.scatter_with(&incoming, &hit, s(0.01)).unwrap();
    assert_eq!(ray.dir, v(0.0, 1.0, 0.0));
}

#[test]
fn glass_reflects_or_refracts_by_the_number_drawn() {
    let glass = Dielectric::new(s(1.5)).unwrap();
    let hit = floor(true, Material::Dielectric(glass));
    let incoming = Ray::new(v(0.0, 0.0, 0.0), v(3.0, -4.0, 0.0));
    let unit = v(0.6, -0.8, 0.0);
    let ratio = s(1.0).div(s(1.5));
    let share = glass.reflectance(s(0.8), ratio);
    assert!(0 < share.raw && share.raw < SCALE);
    let below = Scalar { raw: share.raw - 1 };
    assert_eq!(glass.scatter_with(&incoming, &hit, below).unwrap().0.dir, reflect(&unit, &hit.normal));
    assert_eq!(
        glass.scatter_with(&incoming, &hit, share).unwrap().0.dir,
        refract(&unit, &hit.normal, ratio)
    );
}

#[test]
fn glass_reflects_all_where_no_refracted_ray_exists() {
    let glass = Dielectric::new(s(1.5)).unwrap();
    let hit = floor(false, Material::Dielectric(glass));
    let incoming = Ray::new(v(0.0, 0.0, 0.0), v(4.0, -3.0, 0.0));
    let unit = v(0.8, -0.6, 0.0);
    for uniform in [0.0, 0.5, 0.999999999] {
        let (ray, _) = glass.scatter_with(&incoming, &hit, s(uniform)).unwrap();
        assert_eq!(ray.dir, reflect(&unit, &hit.normal));
        assert_eq!(ray.dir, v(0.8, 0.6, 0.0));
    }
}

#[test]
fn a_material_scatters_as_its_kind_does() {
    let incoming = Ray::new(v(0.0, 0.0, 0.0), v(3.0, -4.0, 0.0));
    let unit = v(0.0, 0.6, 0.8);
    let uniform = s(0.5);
    let matte = Lambertian::new(RGB(s(0.1), s(0.2), s(0.5)));
    let rough = Metal::new(RGB(s(0.8), s(0.6), s(0.2)), s(0.5));
    let glass = Dielectric::new(s(1.5)).unwrap();
    let hit = floor(true, Material::Lambertian(matte));
    assert_eq!(
        Material::Lambertian(matte).scatter_with(&incoming, &hit, unit, uniform),
        matte.scatter_with(&hit, unit)
    );
    assert_eq!(
        Material::Metal(rough).scatter_with(&incoming, &hit, unit, uniform),
        rough.scatter_with(&incoming, &hit, unit)
    );
    assert_eq!(
        Material::Dielectric(glass).scatter_with(&incoming, &hit, unit, uniform),
        glass.scatter_with(&incoming, &hit, uniform)
    );
}
