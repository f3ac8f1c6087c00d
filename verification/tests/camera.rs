use raytracer::camera::{AntiAliasingMethod, Camera, CameraError, CameraSetup, PixelJitter};
use raytracer::fixed::Fixed;
use raytracer::material::{Dielectric, Lambert, MaterialKind, Metallic, NormalMaterial};
use raytracer::objects::plane::Plane;
use raytracer::objects::sphere::Sphere;
use raytracer::ray::Ray;
use raytracer::utils::helpers::{color_to_rgb, Rgb};
use raytracer::vec3::Vec3;
use raytracer::world::{Shape, World};

fn fx(v: f64) -> Fixed {
    Fixed::from_raw((v * 18446744073709551616.0) as i128)
}

fn to_f64(v: Fixed) -> f64 {
    v.raw() as f64 / 18446744073709551616.0
}

fn v3(x: f64, y: f64, z: f64) -> Vec3 {
    Vec3::new(fx(x), fx(y), fx(z))
}

fn close3(a: Vec3, x: f64, y: f64, z: f64) -> bool {
    (to_f64(a.x) - x).abs() < 1e-9 && (to_f64(a.y) - y).abs() < 1e-9 && (to_f64(a.z) - z).abs() < 1e-9
}

fn setup() -> CameraSetup {
    CameraSetup {
        image_width: 100,
        aspect_ratio: Fixed::from_ratio(16, 9),
        vfov_half_tan: fx(1.0),
        position: v3(0.0, 0.0, 0.0),
        look_at: v3(0.0, 0.0, -1.0),
        anti_aliasing: AntiAliasingMethod::Off,
        max_ray_bounces: 1,
        focus_distance: fx(1.0),
        defocus_half_tan: fx(0.0),
    }
}

fn two_spheres() -> World {
    let grey = MaterialKind::Lambert(Lambert::new(v3(0.5, 0.5, 0.5)));
    let mut world = World::new();
    world.add_object(Shape::Sphere(Sphere::new(v3(0.0, 0.0, -1.0), fx(0.5), grey)));
    world.add_object(Shape::Sphere(Sphere::new(v3(0.0, -100.5, -1.0), fx(100.0), grey)));
    world
}

fn checksum(image: &[Rgb]) -> u64 {
    let mut sum: u64 = 0xcbf29ce484222325;
    for p in image {
        for byte in [p.r, p.g, p.b] {
            sum ^= byte as u64;
            sum = sum.wrapping_mul(0x100000001b3);
        }
    }
    sum
}

#[test]
fn setup_is_rejected_with_a_reason() {
    let mut bad = setup();
    bad.image_width = 0;
    assert_eq!(Camera::new(bad), Err(CameraError::ImageWidth));
    bad.image_width = -5;
    assert_eq!(Camera::new(bad), Err(CameraError::ImageWidth));

    let mut bad = setup();
    bad.aspect_ratio = fx(0.0);
    assert_eq!(Camera::new(bad), Err(CameraError::AspectRatio));
    bad.aspect_ratio = fx(-1.5);
    assert_eq!(Camera::new(bad), Err(CameraError::AspectRatio));

    let mut bad = setup();
    bad.anti_aliasing = AntiAliasingMethod::RandomSuperSampling(0);
    assert_eq!(Camera::new(bad), Err(CameraError::SampleCount));
    bad.anti_aliasing = AntiAliasingMethod::UniformSuperSampling(0);
    assert_eq!(Camera::new(bad), Err(CameraError::SampleCount));

    // an aspect ratio so small that the rows cannot be counted
    let mut bad = setup();
    bad.aspect_ratio = Fixed::from_raw(1);
    assert_eq!(Camera::new(bad), Err(CameraError::ImageHeight));
    bad.image_width = 1;
    bad.aspect_ratio = Fixed::from_raw(1 << 33);
    assert_eq!(Camera::new(bad), Err(CameraError::ImageHeight));
    bad.aspect_ratio = Fixed::from_raw(1 << 34);
    assert_eq!(Camera::new(bad).map(|c| c.render_image_heigh), Ok(1 << 30));

    let mut bad = setup();
    bad.anti_aliasing = AntiAliasingMethod::RandomSuperSampling(0);
    // the width is looked at first, then the aspect ratio
    bad.aspect_ratio = fx(0.0);
    assert_eq!(Camera::new(bad), Err(CameraError::AspectRatio));
    bad.image_width = 0;
    assert_eq!(Camera::new(bad), Err(CameraError::ImageWidth));
}

#[test]
fn errors_describe_themselves() {
    assert_eq!(CameraError::ImageWidth.message(), "the image width must be positive");
    assert_eq!(CameraError::AspectRatio.message(), "the aspect ratio must be positive");
    assert_eq!(CameraError::SampleCount.message(), "supersampling needs at least one sample");
    assert_eq!(CameraError::ImageHeight.message(), "the image has too many rows");
}

#[test]
fn good_setups_are_accepted() {
    assert!(Camera::new(setup()).is_ok());
    let mut s = setup();
    s.anti_aliasing = AntiAliasingMethod::RandomSuperSampling(1);
    assert!(Camera::new(s).is_ok());
    s.anti_aliasing = AntiAliasingMethod::UniformSuperSampling(3);
    assert!(Camera::new(s).is_ok());
    s.max_ray_bounces = 0;
    s.image_width = 1;
    assert!(Camera::new(s).is_ok());
}

#[test]
fn camera_derives_its_pixel_grid() {
    let camera = Camera::new(setup()).expect("the setup is sound");
    assert_eq!(camera.render_image_width, 100);
    // 100 / (16 / 9) = 56.25
    assert_eq!(camera.render_image_heigh, 56);
    assert_eq!(camera.position, v3(0.0, 0.0, 0.0));
    assert_eq!(camera.look_at, v3(0.0, 0.0, -1.0));
    assert_eq!(camera.max_ray_bounces, 1);
    assert_eq!(camera.anti_aliasing, AntiAliasingMethod::Off);
    let width = 2.0 * 16.0 / 9.0;
    assert!(close3(camera.pixel_delta_u, width / 100.0, 0.0, 0.0));
    assert!(close3(camera.pixel_delta_v, 0.0, -2.0 / 56.0, 0.0));
    assert!(close3(
        camera.pixel_00_loc,
        -width / 2.0 + width / 200.0,
        1.0 - 1.0 / 56.0,
        -1.0
    ));
    assert_eq!(camera.defocus_disk_u, v3(0.0, 0.0, 0.0));
    assert_eq!(camera.defocus_disk_v, v3(0.0, 0.0, 0.0));
}

#[test]
fn image_height_is_rounded() {
    let mut s = setup();
    s.aspect_ratio = fx(2.0);
    s.image_width = 5;
    // 2.5 rounds up
    assert_eq!(Camera::new(s).map(|c| c.render_image_heigh), Ok(3));
    s.image_width = 400;
    s.aspect_ratio = fx(1.0);
    assert_eq!(Camera::new(s).map(|c| c.render_image_heigh), Ok(400));
    s.image_width = 10;
    s.aspect_ratio = fx(3.0);
    assert_eq!(Camera::new(s).map(|c| c.render_image_heigh), Ok(3));
    s.image_width = 1;
    s.aspect_ratio = fx(4.0);
    assert_eq!(Camera::new(s).map(|c| c.render_image_heigh), Ok(0));
}

#[test]
fn camera_looking_sideways() {
    let mut s = setup();
    s.position = v3(0.0, 0.0, 0.0);
    s.look_at = v3(5.0, 0.0, 0.0);
    s.aspect_ratio = fx(1.0);
    s.focus_distance = fx(2.0);
    s.defocus_half_tan = fx(0.25);
    let camera = Camera::new(s).expect("the setup is sound");
    // w = (-1, 0, 0), u = up x w = (0, 0, 1), v = (0, 1, 0)
    assert!(close3(camera.pixel_delta_u, 0.0, 0.0, 4.0 / 100.0));
    assert!(close3(camera.pixel_delta_v, 0.0, -4.0 / 100.0, 0.0));
    assert!(close3(camera.pixel_00_loc, 2.0, 2.0 - 0.02, -2.0 + 0.02));
    assert!(close3(camera.defocus_disk_u, 0.0, 0.0, 0.5));
    assert!(close3(camera.defocus_disk_v, 0.0, 0.5, 0.0));
}

#[test]
fn rays_through_pixels() {
    let camera = Camera::new(setup()).expect("the setup is sound");
    let center = camera.center_ray(0, 0);
    assert_eq!(center.pos, camera.position);
    assert_eq!(center.dir, camera.pixel_00_loc - camera.position);
    let other = camera.center_ray(3, 2);
    assert_eq!(
        other.dir,
        camera.pixel_00_loc + fx(2.0) * camera.pixel_delta_v + fx(3.0) * camera.pixel_delta_u
            - camera.position
    );
    let still = PixelJitter { offset_x: fx(0.0), offset_y: fx(0.0), lens: v3(0.5, 0.5, 0.0) };
    // without a lens the jittered ray with no offset passes through the center
    let through = camera.ray_through(3, 2, &still);
    assert_eq!(through.pos, camera.position);
    assert!(close3(
        through.dir,
        to_f64(other.dir.x),
        to_f64(other.dir.y),
        to_f64(other.dir.z)
    ));
    let moved = PixelJitter { offset_x: fx(0.25), offset_y: fx(-0.5), lens: v3(0.0, 0.0, 0.0) };
    let jittered = camera.ray_through(3, 2, &moved);
    assert_eq!(
        jittered.dir,
        camera.pixel_00_loc + fx(3.25) * camera.pixel_delta_u + fx(1.5) * camera.pixel_delta_v
            - camera.position
    );
}

#[test]
fn rays_start_on_the_lens() {
    let mut s = setup();
    s.defocus_half_tan = fx(0.5);
    s.focus_distance = fx(2.0);
    let camera = Camera::new(s).expect("the setup is sound");
    // the lens has radius 1 and lies in the plane of u = x and v = y
    let jitter = PixelJitter { offset_x: fx(0.0), offset_y: fx(0.0), lens: v3(0.5, -0.25, 0.0) };
    let ray = camera.ray_through(7, 9, &jitter);
    assert_eq!(ray.pos, v3(0.5, -0.25, 0.0));
    let target = camera.pixel_00_loc + fx(7.0) * camera.pixel_delta_u + fx(9.0) * camera.pixel_delta_v;
    assert_eq!(ray.dir, target - ray.pos);
    for _ in 0..100 {
        let r = camera.get_random_ray(7, 9);
        assert!(r.pos.length_squared() < Fixed::one());
        assert_eq!(r.pos.z, Fixed::zero());
        let p = camera.defocus_disk_sample();
        assert!(p.length_squared() < Fixed::one());
    }
}

#[test]
fn random_rays_stay_within_their_pixel() {
    let camera = Camera::new(setup()).expect("the setup is sound");
    let center = camera.center_ray(10, 20);
    let du = to_f64(camera.pixel_delta_u.x);
    let dv = to_f64(camera.pixel_delta_v.y);
    let mut varied = false;
    let first = camera.get_random_ray(10, 20);
    for _ in 0..200 {
        let r = camera.get_random_ray(10, 20);
        assert_eq!(r.pos, camera.position);
        assert!((to_f64(r.dir.x) - to_f64(center.dir.x)).abs() <= du.abs() / 2.0 + 1e-6);
        assert!((to_f64(r.dir.y) - to_f64(center.dir.y)).abs() <= dv.abs() / 2.0 + 1e-6);
        if r != first {
            varied = true;
        }
    }
    assert!(varied);
}

#[test]
fn uniform_supersampling_is_black() {
    let mut s = setup();
    s.anti_aliasing = AntiAliasingMethod::UniformSuperSampling(4);
    s.image_width = 8;
    let camera = Camera::new(s).expect("the setup is sound");
    let world = two_spheres();
    assert_eq!(camera.pixel_color(&world, 0, 0), Vec3::zero());
    let image = camera.render(&world);
    assert!(image.iter().all(|p| *p == Rgb { r: 0, g: 0, b: 0 }));
}

#[test]
fn random_supersampling_of_the_sky_is_the_mean() {
    let mut s = setup();
    s.anti_aliasing = AntiAliasingMethod::RandomSuperSampling(16);
    s.image_width = 16;
    let camera = Camera::new(s).expect("the setup is sound");
    let world = World::new();
    // all samples of a pixel of empty sky are close to the color at its center
    let at_center = camera.center_ray(3, 4).ray_color(&world, 1);
    let mean = camera.pixel_color(&world, 3, 4);
    assert!((to_f64(mean.x) - to_f64(at_center.x)).abs() < 0.05);
    assert!((to_f64(mean.y) - to_f64(at_center.y)).abs() < 0.05);
    assert!((to_f64(mean.z) - to_f64(at_center.z)).abs() < 0.05);
}

#[test]
fn image_has_one_pixel_per_grid_point() {
    let mut s = setup();
    s.image_width = 16;
    let camera = Camera::new(s).expect("the setup is sound");
    let world = two_spheres();
    let image = camera.render(&world);
    assert_eq!(image.len(), 16 * 9);
    for y in 0..9 {
        let row = camera.render_row(&world, y);
        assert_eq!(row.len(), 16);
        assert_eq!(&image[(y as usize) * 16..(y as usize + 1) * 16], &row[..]);
        for x in 0..16 {
            let color = camera.pixel_color(&world, x, y);
            assert_eq!(row[x as usize], color_to_rgb(&color));
        }
    }
}

/// What the scene of two grey spheres looks like to a camera at the origin,
/// worked out in floating point.
fn expected_pixel(x: i32, y: i32) -> Option<[f64; 3]> {
    let width = 2.0 * 16.0 / 9.0;
    let dir = [
        -width / 2.0 + (x as f64 + 0.5) * width / 100.0,
        1.0 - (y as f64 + 0.5) * 2.0 / 56.0,
        -1.0,
    ];
    for (center, radius) in [([0.0, 0.0, -1.0], 0.5), ([0.0, -100.5, -1.0], 100.0)] {
        let a: f64 = dir.iter().map(|d| d * d).sum();
        let h: f64 = (0..3).map(|i| dir[i] * center[i]).sum();
        let c: f64 = center.iter().map(|c| c * c).sum::<f64>() - radius * radius;
        let disc = h * h - a * c;
        // pixels on a silhouette are left to the library
        if disc.abs() < 1e-3 * a {
            return None;
        }
        if disc > 0.0 && (h + disc.sqrt()) / a > 1e-6 {
            return Some([0.0, 0.0, 0.0]);
        }
    }
    let len = dir.iter().map(|d| d * d).sum::<f64>().sqrt();
    let t = 0.5 * (dir[1] / len + 1.0);
    Some([1.0 - t + t * 0.5, 1.0 - t + t * 0.7, 1.0])
}

#[test]
fn two_spheres_without_antialiasing() {
    let camera = Camera::new(setup()).expect("the setup is sound");
    let world = two_spheres();
    let image = camera.render(&world);
    assert_eq!(image.len(), 100 * 56);
    // the same grid comes out each time
    assert_eq!(camera.render(&world), image);

    let mut compared = 0;
    for y in 0..56 {
        for x in 0..100 {
            let got = image[(y * 100 + x) as usize];
            if let Some(color) = expected_pixel(x, y) {
                let level = |c: f64| (c.sqrt().min(0.999999) * 256.0) as i32;
                assert!((got.r as i32 - level(color[0])).abs() <= 1, "red at {} {}", x, y);
                assert!((got.g as i32 - level(color[1])).abs() <= 1, "green at {} {}", x, y);
                assert!((got.b as i32 - level(color[2])).abs() <= 1, "blue at {} {}", x, y);
                compared += 1;
            }
        }
    }
    assert!(compared > 5500);

    // the small sphere in the middle and the ground are black at one bounce
    assert_eq!(image[28 * 100 + 50], Rgb { r: 0, g: 0, b: 0 });
    assert_eq!(image[55 * 100 + 3], Rgb { r: 0, g: 0, b: 0 });
    // the sky in the corner
    assert_eq!(image[0], Rgb { r: 204, g: 226, b: 255 });
    assert_eq!(image[99], image[0]);
    assert_eq!(checksum(&image), 5909942425106639945);
}

#[test]
fn a_change_of_the_scene_changes_the_image() {
    let camera = Camera::new(setup()).expect("the setup is sound");
    let image = camera.render(&two_spheres());
    let grey = MaterialKind::Lambert(Lambert::new(v3(0.5, 0.5, 0.5)));
    let mut moved = World::new();
    moved.add_object(Shape::Sphere(Sphere::new(v3(0.2, 0.0, -1.0), fx(0.5), grey)));
    moved.add_object(Shape::Sphere(Sphere::new(v3(0.0, -100.5, -1.0), fx(100.0), grey)));
    assert!(checksum(&camera.render(&moved)) != checksum(&image));
    let mut ray = Ray::new(v3(0.0, 0.0, 0.0), v3(0.0, 1.0, 0.0));
    ray.ray_color = v3(0.0, 0.0, 0.0);
    assert_eq!(ray.sky(), v3(0.0, 0.0, 0.0));
}

#[test]
fn pixels_of_a_scene_that_conserves_light_are_no_brighter_than_white() {
    let mut s = setup();
    s.anti_aliasing = AntiAliasingMethod::RandomSuperSampling(8);
    s.max_ray_bounces = 8;
    s.image_width = 12;
    let camera = Camera::new(s).expect("the setup is sound");
    let world = two_spheres();
    for y in 0..camera.render_image_heigh {
        for x in 0..12 {
            let c = camera.pixel_color(&world, x, y);
            for channel in [c.x, c.y, c.z] {
                assert!(channel >= Fixed::zero() && channel <= Fixed::one());
            }
        }
    }
}

#[test]
fn a_scene_of_every_shape_and_material_renders() {
    let mut s = setup();
    s.image_width = 24;
    s.anti_aliasing = AntiAliasingMethod::RandomSuperSampling(4);
    s.max_ray_bounces = 12;
    s.position = v3(3.0, 2.0, 4.0);
    s.look_at = v3(0.0, 0.5, 0.0);
    s.vfov_half_tan = fx(0.4);
    s.focus_distance = fx(5.0);
    s.defocus_half_tan = fx(0.01);
    let camera = Camera::new(s).expect("the setup is sound");

    let mut world = World::new();
    let ground = MaterialKind::Lambert(Lambert::new(v3(0.5, 0.5, 0.5)));
    world.add_object(Shape::Plane(Plane::new(v3(0.0, 0.0, 0.0), ground)));
    let glass = MaterialKind::Dielectric(Dielectric::new(fx(1.5)));
    world.add_object(Shape::Sphere(Sphere::new(v3(0.0, 1.0, 0.0), fx(1.0), glass)));
    let metal = MaterialKind::Metallic(Metallic::new(v3(0.7, 0.6, 0.5), fx(0.2)));
    world.add_object(Shape::Sphere(Sphere::new(v3(2.0, 1.0, 0.0), fx(1.0), metal)));
    let shown = MaterialKind::Normal(NormalMaterial {});
    world.add_object(Shape::Sphere(Sphere::new(v3(-2.0, 1.0, 0.0), fx(1.0), shown)));

    let image = camera.render(&world);
    assert_eq!(image.len(), 24 * camera.render_image_heigh as usize);
    // something of the scene shows: the image is neither all black nor all one color
    assert!(image.iter().any(|p| *p != image[0]));
}

#[test]
fn pixel_grid_spans_the_viewport() {
    let camera = Camera::new(setup()).expect("the setup is sound");
    // 56 rows of pixel_delta_v make up the viewport height 2
    let down = to_f64(camera.pixel_delta_v.length()) * 56.0;
    assert!((down - 2.0).abs() < 1e-12);
    let rows = camera.pixel_delta_v * fx(56.0);
    assert!((rows.y + fx(2.0)).abs() < Fixed::from_raw(56));
    let across = camera.pixel_delta_u * fx(100.0);
    let width = fx(2.0) * Fixed::from_ratio(16, 9);
    assert!((across.x - width).abs() < Fixed::from_raw(100));
    // the steps are at right angles to each other and to the view axis
    assert_eq!(Vec3::dot(&camera.pixel_delta_u, &camera.pixel_delta_v), fx(0.0));
    let axis = camera.look_at - camera.position;
    assert_eq!(Vec3::dot(&camera.pixel_delta_u, &axis), fx(0.0));
    assert_eq!(Vec3::dot(&camera.pixel_delta_v, &axis), fx(0.0));
    // the grid is centred on the view axis
    let middle = camera.pixel_00_loc + camera.pixel_delta_u * fx(49.5)
        + camera.pixel_delta_v * fx(27.5);
    assert!(close3(middle, 0.0, 0.0, -1.0));
}
