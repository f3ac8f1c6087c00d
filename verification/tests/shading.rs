use raytracer::fixed::{Fixed, SCALE};
use raytracer::material::{
    Dielectric, Lambert, Material, MaterialKind, Metallic, NormalMaterial, ScatterSample,
};
use raytracer::objects::object::{HitRecord, Object};
use raytracer::objects::sphere::Sphere;
use raytracer::ray::Ray;
use raytracer::utils::interval::Interval;
use raytracer::utils::helpers::{
    channel_byte, color_to_rgb, degrees_to_radians, fallback_sample, inside_unit_ball,
    linear_to_gamma_color,
    random_fixed,
    random_in_unit_disk, random_in_unit_sphere, random_in_unit_sphere_normalized, reflect_vector,
    reflectance, refract_vector, Rgb,
};
use raytracer::vec3::{Color3, Pos3, Vec3};
use raytracer::world::{Shape, World};

fn fx(v: f64) -> Fixed {
    Fixed::from_raw((v * 18446744073709551616.0) as i128)
}

fn to_f64(v: Fixed) -> f64 {
    v.raw() as f64 / 18446744073709551616.0
}

fn v3(x: f64, y: f64, z: f64) -> Vec3 {
    Vec3::new(fx(x), fx(y), fx(z))
}

fn close(a: Fixed, b: f64) -> bool {
    (to_f64(a) - b).abs() < 1e-9
}

fn close3(a: Vec3, x: f64, y: f64, z: f64) -> bool {
    close(a.x, x) && close(a.y, y) && close(a.z, z)
}

fn sample(unit: Vec3, coin: f64) -> ScatterSample {
    ScatterSample { unit, coin: fx(coin) }
}

fn hit_at_origin(normal: Vec3, front_face: bool, material: MaterialKind) -> HitRecord {
    HitRecord { point: v3(0.0, 0.0, 0.0), normal, ray_scalar: fx(1.0), front_face, material }
}

#[test]
fn create_ray() {
    let ray = Ray::new(Pos3::new(fx(1.0), fx(2.0), fx(3.0)), Vec3::new(fx(1.0), fx(0.0), fx(1.0)));

    assert_eq!(ray.cast(fx(1.0)), Pos3::new(fx(2.0), fx(2.0), fx(4.0)))
}

#[test]
fn default_ray_color() {
    let mut ray_up =
        Ray::new(Pos3::new(fx(1.0), fx(2.0), fx(3.0)), Vec3::new(fx(0.0), fx(1.0), fx(0.0)));
    let ray_down =
        Ray::new(Pos3::new(fx(1.0), fx(2.0), fx(3.0)), Vec3::new(fx(0.0), fx(-1.0), fx(0.0)));
    ray_up.ray_color = Color3::new(fx(1.0), fx(0.0), fx(0.0));

    let world = World::new();
    let color_up = ray_up.ray_color(&world, 1);
    let color_down = ray_down.ray_color(&world, 1);

    assert_eq!(color_up, ray_up.ray_color);
    assert_eq!(color_down, Color3::new(fx(1.0), fx(1.0), fx(1.0)));
}

#[test]
fn new_ray_has_the_default_sky() {
    let ray = Ray::new(v3(1.0, 2.0, 3.0), v3(0.0, 1.0, 0.0));
    assert_eq!(ray.pos, v3(1.0, 2.0, 3.0));
    assert_eq!(ray.dir, v3(0.0, 1.0, 0.0));
    assert_eq!(
        ray.ray_color,
        Vec3::new(Fixed::from_ratio(1, 2), Fixed::from_ratio(7, 10), Fixed::from_int(1))
    );
}

#[test]
fn cast_walks_along_the_ray() {
    let ray = Ray::new(v3(1.0, 2.0, 3.0), v3(2.0, 0.0, -1.0));
    assert_eq!(ray.cast(fx(0.0)), v3(1.0, 2.0, 3.0));
    assert_eq!(ray.cast(fx(2.5)), v3(6.0, 2.0, 0.5));
    assert_eq!(ray.cast(fx(-1.0)), v3(-1.0, 2.0, 4.0));
}

#[test]
fn sky_straight_up_and_straight_down() {
    let up = Ray::new(v3(0.0, 0.0, 0.0), v3(0.0, 1.0, 0.0));
    let down = Ray::new(v3(0.0, 0.0, 0.0), v3(0.0, -1.0, 0.0));
    let world = World::new();
    assert_eq!(up.ray_color(&world, 5), up.ray_color);
    assert_eq!(up.sky(), up.ray_color);
    assert_eq!(down.ray_color(&world, 5), Vec3::one());
    assert_eq!(down.sky(), Vec3::one());
    // longer directions are normalized first
    let far_up = Ray::new(v3(0.0, 0.0, 0.0), v3(0.0, 250.0, 0.0));
    assert_eq!(far_up.sky(), far_up.ray_color);
}

#[test]
fn sky_at_the_horizon_is_half_and_half() {
    let level = Ray::new(v3(0.0, 0.0, 0.0), v3(0.0, 0.0, -1.0));
    let c = level.sky();
    assert_eq!(c.x.raw(), 3 * SCALE / 4);
    assert_eq!(c.y.raw(), SCALE / 2 + 6456360425798343065);
    assert_eq!(c.z.raw(), SCALE);
}

#[test]
fn no_bounce_left_means_black() {
    let mut world = World::new();
    let ray = Ray::new(v3(0.0, 0.0, 0.0), v3(0.0, 0.0, -1.0));
    assert_eq!(ray.ray_color(&world, 0), Vec3::zero());
    let glass = MaterialKind::Dielectric(Dielectric::new(fx(1.5)));
    world.add_object(Shape::Sphere(Sphere::new(v3(0.0, 0.0, -5.0), fx(1.0), glass)));
    assert_eq!(ray.ray_color(&world, 0), Vec3::zero());
    let up = Ray::new(v3(0.0, 0.0, 0.0), v3(0.0, 1.0, 0.0));
    assert_eq!(up.ray_color(&world, 0), Vec3::zero());
    assert_eq!(up.ray_color_with(&world, &vec![]), Vec3::zero());
    assert_eq!(ray.ray_color_with(&world, &vec![]), Vec3::zero());
}

#[test]
fn one_diffuse_bounce_with_given_draws() {
    let grey = MaterialKind::Lambert(Lambert::new(v3(0.5, 0.5, 0.5)));
    let mut world = World::new();
    world.add_object(Shape::Sphere(Sphere::new(v3(0.0, 0.0, -5.0), fx(1.0), grey)));
    let ray = Ray::new(v3(0.0, 0.0, 0.0), v3(0.0, 0.0, -1.0));
    let draws = vec![sample(v3(0.0, 0.0, 1.0), 0.0), sample(v3(0.0, 0.0, 1.0), 0.0)];
    // the ray leaves the sphere at (0, 0, -4) along (0, 0, 2) and sees the
    // sky at the horizon, of which the sphere hands on one half
    let c = ray.ray_color_with(&world, &draws);
    assert_eq!(c.x.raw(), 3 * SCALE / 8);
    assert_eq!(c.y.raw(), (SCALE / 2 + 6456360425798343065) / 2);
    assert_eq!(c.z.raw(), SCALE / 2);
    // with one draw the scattered ray has no bounce left
    assert_eq!(ray.ray_color_with(&world, &draws[..1].to_vec()), Vec3::zero());
}

#[test]
fn absorbed_ray_is_black() {
    let rough = MaterialKind::Metallic(Metallic::new(v3(0.9, 0.9, 0.9), fx(1.0)));
    let mut world = World::new();
    world.add_object(Shape::Sphere(Sphere::new(v3(0.0, 0.0, -5.0), fx(1.0), rough)));
    let ray = Ray::new(v3(0.0, 0.0, 0.0), v3(0.0, 0.0, -1.0));
    // the mirrored direction (0, 0, 1) plus the draw (0, 0, -1) points nowhere
    let draws = vec![sample(v3(0.0, 0.0, -1.0), 0.0), sample(v3(0.0, 0.0, 1.0), 0.0)];
    assert_eq!(ray.ray_color_with(&world, &draws), Vec3::zero());
}

#[test]
fn mirror_bounce_multiplies_by_the_albedo() {
    let gold = MaterialKind::Metallic(Metallic::new(v3(0.5, 0.25, 1.0), fx(0.0)));
    let mut world = World::new();
    world.add_object(Shape::Sphere(Sphere::new(v3(0.0, -5.0, 0.0), fx(1.0), gold)));
    let mut ray = Ray::new(v3(0.0, 0.0, 0.0), v3(0.0, -1.0, 0.0));
    ray.ray_color = v3(0.0, 0.0, 0.0);
    let draws = vec![ScatterSample::unused(), ScatterSample::unused()];
    // mirrored straight up, where the scattered ray has the default sky
    let c = ray.ray_color_with(&world, &draws);
    assert_eq!(c, v3(0.5, 0.25, 1.0) * Ray::new(v3(0.0, 0.0, 0.0), v3(0.0, 1.0, 0.0)).ray_color);
    assert_eq!(c.x.raw(), SCALE / 4);
    assert_eq!(c.z.raw(), SCALE);
}

#[test]
fn random_shading_stays_between_black_and_white() {
    let grey = MaterialKind::Lambert(Lambert::new(v3(0.5, 0.5, 0.5)));
    let mut world = World::new();
    world.add_object(Shape::Sphere(Sphere::new(v3(0.0, 0.0, -1.0), fx(0.5), grey)));
    world.add_object(Shape::Sphere(Sphere::new(v3(0.0, -100.5, -1.0), fx(100.0), grey)));
    let ray = Ray::new(v3(0.0, 0.0, 0.0), v3(0.0, 0.0, -1.0));
    for _ in 0..50 {
        let c = ray.ray_color(&world, 10);
        for channel in [c.x, c.y, c.z] {
            assert!(channel >= Fixed::zero() && channel <= Fixed::one());
        }
    }
}

#[test]
fn lambert_scatters_about_the_normal() {
    let m = Lambert::new(v3(0.1, 0.2, 0.3));
    let hit = hit_at_origin(v3(0.0, 0.0, 1.0), true, MaterialKind::Lambert(m));
    let ray = Ray::new(v3(0.0, 0.0, 5.0), v3(0.0, 0.0, -1.0));
    let (attenuation, scattered) =
        m.reflect_with(&ray, &hit, &sample(v3(1.0, 0.0, 0.0), 0.0)).expect("never absorbs");
    assert_eq!(attenuation, v3(0.1, 0.2, 0.3));
    assert_eq!(scattered, Ray::new(hit.point, v3(1.0, 0.0, 1.0)));
    // a draw that cancels the normal falls back to the normal
    let (attenuation, scattered) =
        m.reflect_with(&ray, &hit, &sample(v3(0.0, 0.0, -1.0), 0.0)).expect("never absorbs");
    assert_eq!(attenuation, v3(0.1, 0.2, 0.3));
    assert_eq!(scattered.dir, v3(0.0, 0.0, 1.0));
    let nearly = Vec3::new(Fixed::from_raw(10), Fixed::from_raw(-10), fx(-1.0));
    let (_, scattered) = m.reflect_with(&ray, &hit, &sample(nearly, 0.0)).expect("never absorbs");
    assert_eq!(scattered.dir, v3(0.0, 0.0, 1.0));
}

#[test]
fn lambert_and_metal_never_amplify() {
    let albedo = v3(0.8, 0.3, 0.05);
    let ray = Ray::new(v3(0.0, 0.0, 5.0), v3(0.3, 0.1, -1.0));
    let materials = [
        MaterialKind::Lambert(Lambert::new(albedo)),
        MaterialKind::Metallic(Metallic::new(albedo, fx(0.3))),
    ];
    for m in materials {
        let hit = hit_at_origin(v3(0.0, 0.0, 1.0), true, m);
        let mut scattered = 0;
        for _ in 0..200 {
            if let Some((attenuation, _)) = m.reflect(&ray, &hit) {
                assert!(attenuation.x <= albedo.x);
                assert!(attenuation.y <= albedo.y);
                assert!(attenuation.z <= albedo.z);
                assert_eq!(attenuation, albedo);
                scattered += 1;
            }
        }
        assert!(scattered > 0);
    }
}

#[test]
fn polished_metal_mirrors() {
    let m = Metallic::new(v3(0.7, 0.6, 0.5), fx(0.0));
    let hit = hit_at_origin(v3(0.0, 1.0, 0.0), true, MaterialKind::Metallic(m));
    let ray = Ray::new(v3(-1.0, 1.0, 0.0), v3(3.0, -4.0, 0.0));
    let (attenuation, scattered) =
        m.reflect_with(&ray, &hit, &sample(v3(0.0, 0.0, 1.0), 0.0)).expect("a mirror reflects");
    assert_eq!(attenuation, v3(0.7, 0.6, 0.5));
    assert_eq!(scattered.pos, hit.point);
    assert_eq!(scattered.dir, v3(3.0, 4.0, 0.0) / fx(5.0));
    assert!(close3(scattered.dir, 0.6, 0.8, 0.0));
}

#[test]
fn fuzzy_metal_perturbs_and_absorbs() {
    let m = Metallic::new(v3(0.7, 0.6, 0.5), fx(0.5));
    let hit = hit_at_origin(v3(0.0, 1.0, 0.0), true, MaterialKind::Metallic(m));
    let ray = Ray::new(v3(-1.0, 1.0, 0.0), v3(3.0, -4.0, 0.0));
    let (_, scattered) =
        m.reflect_with(&ray, &hit, &sample(v3(0.0, 0.0, 1.0), 0.0)).expect("points outward");
    assert_eq!(scattered.dir, v3(3.0, 4.0, 0.0) / fx(5.0) + v3(0.0, 0.0, 0.5));
    // a grazing mirror direction pushed below the surface is absorbed
    let grazing = Ray::new(v3(-1.0, 0.1, 0.0), v3(1.0, -0.1, 0.0));
    assert_eq!(m.reflect_with(&grazing, &hit, &sample(v3(0.0, -1.0, 0.0), 0.0)), None);
    // exactly along the surface is absorbed too
    let rough = Metallic::new(v3(1.0, 1.0, 1.0), fx(1.0));
    let straight = Ray::new(v3(0.0, 1.0, 0.0), v3(0.0, -1.0, 0.0));
    assert_eq!(rough.reflect_with(&straight, &hit, &sample(v3(0.0, -1.0, 0.0), 0.0)), None);
}

#[test]
fn default_metal_is_a_white_mirror() {
    let m = Metallic::default();
    assert_eq!(m.albedo, v3(1.0, 1.0, 1.0));
    assert_eq!(m.fuzz, fx(0.0));
}

#[test]
fn glass_refracts_or_reflects_by_the_coin() {
    let m = Dielectric::new(fx(1.5));
    let hit = hit_at_origin(v3(0.0, 0.0, 1.0), true, MaterialKind::Dielectric(m));
    let ray = Ray::new(v3(0.0, 0.0, 5.0), v3(0.0, 0.0, -2.0));
    // head on, the reflectance is 0.04
    let (attenuation, through) =
        m.reflect_with(&ray, &hit, &sample(v3(0.0, 0.0, 0.0), 0.5)).expect("never absorbs");
    assert_eq!(attenuation, v3(1.0, 1.0, 1.0));
    assert_eq!(through, Ray::new(hit.point, v3(0.0, 0.0, -1.0)));
    let (attenuation, back) =
        m.reflect_with(&ray, &hit, &sample(v3(0.0, 0.0, 0.0), 0.01)).expect("never absorbs");
    assert_eq!(attenuation, v3(1.0, 1.0, 1.0));
    assert_eq!(back, Ray::new(hit.point, v3(0.0, 0.0, 1.0)));
    // the coin decides at the reflectance itself
    let r = reflectance(fx(1.0), fx(1.5));
    let at = ScatterSample { unit: v3(0.0, 0.0, 0.0), coin: r };
    assert_eq!(m.reflect_with(&ray, &hit, &at).map(|s| s.1.dir), Some(v3(0.0, 0.0, -1.0)));
    let below = ScatterSample { unit: v3(0.0, 0.0, 0.0), coin: Fixed::from_raw(r.raw() - 1) };
    assert_eq!(m.reflect_with(&ray, &hit, &below).map(|s| s.1.dir), Some(v3(0.0, 0.0, 1.0)));
}

#[test]
fn glass_bends_toward_the_normal_on_entry() {
    let m = Dielectric::new(fx(1.5));
    let hit = hit_at_origin(v3(0.0, 1.0, 0.0), true, MaterialKind::Dielectric(m));
    // 45 degrees to the normal
    let ray = Ray::new(v3(-1.0, 1.0, 0.0), v3(1.0, -1.0, 0.0));
    let (_, bent) =
        m.reflect_with(&ray, &hit, &sample(v3(0.0, 0.0, 0.0), 0.999)).expect("never absorbs");
    let sin_out = (0.5f64).sqrt() / 1.5;
    let cos_out = (1.0 - sin_out * sin_out).sqrt();
    assert!(close3(bent.dir, sin_out, -cos_out, 0.0));
}

#[test]
fn glass_reflects_totally_from_inside() {
    let m = Dielectric::new(fx(1.5));
    // leaving the glass at 60 degrees to the normal: 1.5 sin(60) > 1
    let hit = hit_at_origin(v3(0.0, 1.0, 0.0), false, MaterialKind::Dielectric(m));
    let ray = Ray::new(v3(-1.0, 1.0, 0.0), v3((0.75f64).sqrt(), -0.5, 0.0));
    for coin in [0.0, 0.5, 0.999] {
        let (attenuation, back) =
            m.reflect_with(&ray, &hit, &sample(v3(0.0, 0.0, 0.0), coin)).expect("never absorbs");
        assert_eq!(attenuation, v3(1.0, 1.0, 1.0));
        assert!(close3(back.dir, (0.75f64).sqrt(), 0.5, 0.0));
    }
    // from outside at the same angle the ray can enter
    let outside = hit_at_origin(v3(0.0, 1.0, 0.0), true, MaterialKind::Dielectric(m));
    let (_, bent) =
        m.reflect_with(&ray, &outside, &sample(v3(0.0, 0.0, 0.0), 0.999)).expect("never absorbs");
    assert!(bent.dir.y < Fixed::zero());
}

#[test]
fn refraction_in_and_out_restores_the_direction() {
    let n = v3(0.0, 1.0, 0.0);
    for (x, y, z) in [(0.6, -0.8, 0.0), (0.0, -1.0, 0.0), (0.48, -0.6, 0.64), (-0.28, -0.96, 0.0)] {
        let d = v3(x, y, z);
        let inside = refract_vector(&d, &n, fx(1.0) / fx(1.5));
        let out = refract_vector(&inside, &n, fx(1.5));
        assert!(close3(out, x, y, z));
    }
}

#[test]
fn normal_material_shows_the_normal() {
    let m = NormalMaterial {};
    let hit = hit_at_origin(v3(0.0, 1.0, -1.0), true, MaterialKind::Normal(m));
    let ray = Ray::new(v3(0.0, 0.0, 5.0), v3(0.0, 0.0, -1.0));
    let (color, scattered) =
        m.reflect_with(&ray, &hit, &ScatterSample::unused()).expect("never absorbs");
    assert_eq!(color, v3(0.5, 1.0, 0.0));
    assert_eq!(scattered, Ray::new(hit.point, Vec3::zero()));
    assert_eq!(m.reflect(&ray, &hit), Some((color, scattered)));
}

#[test]
fn material_kind_dispatches_to_its_variant() {
    let ray = Ray::new(v3(0.0, 0.0, 5.0), v3(0.3, 0.0, -1.0));
    let s = sample(v3(0.0, 1.0, 0.0), 0.5);
    let lambert = Lambert::new(v3(0.1, 0.2, 0.3));
    let metal = Metallic::new(v3(0.1, 0.2, 0.3), fx(0.1));
    let glass = Dielectric::new(fx(1.5));
    let hit = hit_at_origin(v3(0.0, 0.0, 1.0), true, MaterialKind::Lambert(lambert));
    assert_eq!(
        MaterialKind::Lambert(lambert).reflect_with(&ray, &hit, &s),
        lambert.reflect_with(&ray, &hit, &s)
    );
    assert_eq!(
        MaterialKind::Metallic(metal).reflect_with(&ray, &hit, &s),
        metal.reflect_with(&ray, &hit, &s)
    );
    assert_eq!(
        MaterialKind::Dielectric(glass).reflect_with(&ray, &hit, &s),
        glass.reflect_with(&ray, &hit, &s)
    );
    assert!(metal.reflect_with(&ray, &hit, &s) != lambert.reflect_with(&ray, &hit, &s));
}

#[test]
fn reflection_about_a_normal() {
    assert_eq!(reflect_vector(&v3(1.0, -1.0, 0.0), &v3(0.0, 1.0, 0.0)), v3(1.0, 1.0, 0.0));
    assert_eq!(reflect_vector(&v3(0.0, 0.0, -3.0), &v3(0.0, 0.0, 1.0)), v3(0.0, 0.0, 3.0));
    assert_eq!(reflect_vector(&v3(2.0, 0.0, 0.0), &v3(0.0, 1.0, 0.0)), v3(2.0, 0.0, 0.0));
}

#[test]
fn schlick_reflectance() {
    assert_eq!(reflectance(fx(1.0), fx(1.5)).raw(), 737869762948382064);
    assert!((to_f64(reflectance(fx(1.0), fx(1.5))) - 0.04).abs() < 1e-12);
    assert_eq!(reflectance(fx(0.0), fx(1.5)), fx(1.0));
    let r0 = 0.04;
    assert!(close(reflectance(fx(0.5), fx(1.5)), r0 + (1.0 - r0) * 0.5f64.powi(5)));
    // with matched indices only the grazing term is left
    assert!(close(reflectance(fx(0.3), fx(1.0)), 0.7f64.powi(5)));
    assert_eq!(reflectance(fx(1.0), fx(1.0)), fx(0.0));
}

#[test]
fn gamma_and_output_levels() {
    assert_eq!(linear_to_gamma_color(fx(0.25)), fx(0.5));
    assert_eq!(linear_to_gamma_color(fx(0.0)), fx(0.0));
    assert_eq!(linear_to_gamma_color(fx(-0.25)), fx(0.0));
    assert_eq!(linear_to_gamma_color(fx(4.0)), fx(2.0));
    assert_eq!(channel_byte(fx(0.0)), 0);
    assert_eq!(channel_byte(fx(-3.0)), 0);
    assert_eq!(channel_byte(fx(0.25)), 128);
    assert_eq!(channel_byte(fx(1.0)), 255);
    assert_eq!(channel_byte(fx(1000.0)), 255);
    assert_eq!(channel_byte(Fixed::max_value()), 255);
    assert_eq!(channel_byte(fx(0.0625)), 64);
    assert_eq!(channel_byte(Fixed::from_raw(1)), 0);
    assert_eq!(color_to_rgb(&v3(1.0, 0.25, 0.0)), Rgb { r: 255, g: 128, b: 0 });
    assert_eq!(color_to_rgb(&v3(-1.0, 9.0, 0.0625)), Rgb { r: 0, g: 255, b: 64 });
}

#[test]
fn degrees_and_radians() {
    assert_eq!(degrees_to_radians(fx(180.0)).raw(), 57952155664616982739);
    assert_eq!(degrees_to_radians(fx(0.0)), fx(0.0));
    assert!(close(degrees_to_radians(fx(90.0)), std::f64::consts::FRAC_PI_2));
    assert!(close(degrees_to_radians(fx(-45.0)), -std::f64::consts::FRAC_PI_4));
}

#[test]
fn random_numbers_stay_in_range_and_vary() {
    let lo = fx(-0.5);
    let hi = fx(0.5);
    let first = random_fixed(lo, hi);
    let mut varied = false;
    for _ in 0..500 {
        let r = random_fixed(lo, hi);
        assert!(r >= lo && r < hi);
        if r != first {
            varied = true;
        }
    }
    assert!(varied);
    let unit = Fixed::from_raw(7);
    assert_eq!(random_fixed(unit, Fixed::from_raw(8)), unit);
}

#[test]
fn random_points_of_ball_and_disk() {
    for _ in 0..200 {
        let b = random_in_unit_sphere();
        assert!(b.length_squared() > Fixed::zero() && b.length_squared() < Fixed::one());
        let d = random_in_unit_disk();
        assert!(d.length_squared() > Fixed::zero() && d.length_squared() < Fixed::one());
        assert_eq!(d.z, Fixed::zero());
        let u = random_in_unit_sphere_normalized();
        assert!((to_f64(u.length()) - 1.0).abs() < 1e-9);
    }
}

#[test]
fn drawn_samples_are_valid() {
    for _ in 0..100 {
        let s = ScatterSample::random();
        assert!(s.coin >= Fixed::zero() && s.coin < Fixed::one());
        assert!((to_f64(s.unit.length()) - 1.0).abs() < 1e-9);
    }
    // where nothing is drawn the direction is the x axis
    assert_eq!(ScatterSample::unused(), ScatterSample { unit: v3(1.0, 0.0, 0.0), coin: Fixed::zero() });
    assert_eq!(fallback_sample(), v3(0.5, 0.0, 0.0));
    assert!(inside_unit_ball(&fallback_sample()));
}

#[test]
fn draws_are_accepted_inside_the_unit_ball() {
    assert!(inside_unit_ball(&v3(0.5, 0.5, 0.5)));
    assert!(inside_unit_ball(&v3(-0.9, 0.0, 0.3)));
    assert!(!inside_unit_ball(&v3(1.0, 0.0, 0.0)));
    assert!(!inside_unit_ball(&v3(0.6, 0.6, 0.6)));
    assert!(!inside_unit_ball(&v3(0.0, 0.0, 0.0)));
    // a squared length that rounds to zero counts as zero
    assert!(!inside_unit_ball(&Vec3::new(Fixed::from_raw(9), Fixed::from_raw(9), Fixed::zero())));
    assert!(inside_unit_ball(&v3(0.0001, 0.0, 0.0)));
}

#[test]
fn random_directions_have_no_component_beyond_one() {
    for _ in 0..500 {
        let u = random_in_unit_sphere_normalized();
        for c in [u.x, u.y, u.z] {
            assert!(c.abs() <= Fixed::one());
        }
    }
}

#[test]
fn ray_through_a_glass_ball_comes_out_as_it_went_in() {
    let glass = Dielectric::new(fx(1.5));
    let ball = Sphere::new(v3(0.0, 0.0, -3.0), fx(1.0), MaterialKind::Dielectric(glass));
    let search = Interval::new(fx(0.000001), Fixed::max_value());
    let refract = sample(v3(0.0, 0.0, 0.0), 0.999);

    // through the center, at a right angle to the surface both times
    let ray = Ray::new(v3(0.0, 0.0, 0.0), v3(0.0, 0.0, -1.0));
    let entry = ball.hit(&ray, &search).expect("the ray is aimed at the ball");
    assert!(entry.front_face);
    let (_, inside) = glass.reflect_with(&ray, &entry, &refract).expect("never absorbs");
    assert_eq!(inside, Ray::new(v3(0.0, 0.0, -2.0), v3(0.0, 0.0, -1.0)));
    let exit = ball.hit(&inside, &search).expect("the ray must leave the ball");
    assert!(!exit.front_face);
    assert_eq!(exit.point, v3(0.0, 0.0, -4.0));
    let (_, outside) = glass.reflect_with(&inside, &exit, &refract).expect("never absorbs");
    assert_eq!(outside, Ray::new(v3(0.0, 0.0, -4.0), v3(0.0, 0.0, -1.0)));

    // off the center the two refractions mirror each other about the chord
    let ray = Ray::new(v3(0.5, 0.0, 0.0), v3(0.0, 0.0, -1.0));
    let entry = ball.hit(&ray, &search).expect("the ray meets the ball");
    let (_, inside) = glass.reflect_with(&ray, &entry, &refract).expect("never absorbs");
    assert!(inside.dir.x < Fixed::zero());
    let exit = ball.hit(&inside, &search).expect("the ray must leave the ball");
    let (_, outside) = glass.reflect_with(&inside, &exit, &refract).expect("never absorbs");
    // what the ray turned by on the way in, it turns by again on the way out
    let turn_in = to_f64(inside.dir.x).atan2(-to_f64(inside.dir.z));
    let turn_out = to_f64(outside.dir.x).atan2(-to_f64(outside.dir.z));
    assert!((turn_out - 2.0 * turn_in).abs() < 1e-6);
}

#[test]
fn polished_mirror_reflects_every_ray_from_outside() {
    let m = Metallic::new(v3(0.9, 0.9, 0.9), fx(0.0));
    let hit = hit_at_origin(v3(0.0, 1.0, 0.0), true, MaterialKind::Metallic(m));
    let any = sample(v3(0.0, -1.0, 0.0), 0.0);
    // so flat that the mirrored height is lost when the direction is normalized
    let flat = Ray::new(v3(-1.0, 1.0, 0.0), Vec3::new(fx(1000.0), Fixed::from_raw(-1), fx(0.0)));
    let (attenuation, scattered) = m.reflect_with(&flat, &hit, &any).expect("a mirror reflects");
    assert_eq!(attenuation, v3(0.9, 0.9, 0.9));
    assert_eq!(scattered, Ray::new(hit.point, v3(1.0, 0.0, 0.0)));
    for (x, y, z) in [(0.0, -1.0, 0.0), (0.3, -0.001, 0.9), (-5.0, -0.25, 2.0)] {
        let ray = Ray::new(v3(0.0, 1.0, 0.0), v3(x, y, z));
        assert!(m.reflect_with(&ray, &hit, &any).is_some());
        assert!(m.reflect(&ray, &hit).is_some());
    }
    // along the surface or from behind it nothing is reflected
    let along = Ray::new(v3(0.0, 1.0, 0.0), v3(1.0, 0.0, 0.0));
    assert_eq!(m.reflect_with(&along, &hit, &any), None);
    let behind = Ray::new(v3(0.0, -1.0, 0.0), v3(0.0, 1.0, 0.0));
    assert_eq!(m.reflect_with(&behind, &hit, &any), None);
}

#[test]
fn materials_draw_only_what_they_use() {
    let ray = Ray::new(v3(0.0, 0.0, 5.0), v3(0.0, 0.0, -1.0));
    let lambert = Lambert::new(v3(0.5, 0.5, 0.5));
    let hit = hit_at_origin(v3(0.0, 0.0, 1.0), true, MaterialKind::Lambert(lambert));
    assert_eq!(lambert.draw(&ray, &hit).coin, Fixed::zero());
    assert_eq!(NormalMaterial {}.draw(&ray, &hit), ScatterSample::unused());
    let glass = Dielectric::new(fx(1.5));
    let drawn = glass.draw(&ray, &hit);
    assert_eq!(drawn.unit, ScatterSample::unused().unit);
    assert!(drawn.coin >= Fixed::zero() && drawn.coin < Fixed::one());
    assert_eq!(
        MaterialKind::Normal(NormalMaterial {}).draw(&ray, &hit),
        ScatterSample::unused()
    );
}
