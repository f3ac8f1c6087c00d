use raytracer::fixed::Fixed;
use raytracer::material::{Lambert, MaterialKind, Metallic, NormalMaterial};
use raytracer::objects::object::{HitRecord, Object};
use raytracer::objects::plane::Plane;
use raytracer::objects::sphere::Sphere;
use raytracer::ray::Ray;
use raytracer::utils::interval::Interval;
use raytracer::vec3::Vec3;
use raytracer::world::{Shape, World};

fn fx(v: f64) -> Fixed {
    Fixed::from_raw((v * 18446744073709551616.0) as i128)
}

fn to_f64(v: Fixed) -> f64 {
    v.raw() as f64 / 18446744073709551616.0
}

fn v3(x: f64, y: f64, z: f64) -> Vec3 {
    Vec3::new(fx(x), fx(y), fx(z))
}

fn grey() -> MaterialKind {
    MaterialKind::Lambert(Lambert::new(v3(0.5, 0.5, 0.5)))
}

fn mirror() -> MaterialKind {
    MaterialKind::Metallic(Metallic::default())
}

fn wide() -> Interval {
    Interval::new(fx(0.000001), Fixed::max_value())
}

fn close(a: Fixed, b: f64) -> bool {
    (to_f64(a) - b).abs() < 1e-9
}

#[test]
fn interval_membership() {
    let i = Interval::new(fx(1.0), fx(2.0));
    assert!(i.contains_including(fx(1.0)));
    assert!(i.contains_including(fx(1.5)));
    assert!(i.contains_including(fx(2.0)));
    assert!(!i.contains_including(fx(0.999)));
    assert!(!i.contains_including(fx(2.001)));
    assert!(!i.surrounds(fx(1.0)));
    assert!(i.surrounds(fx(1.5)));
    assert!(!i.surrounds(fx(2.0)));
    assert_eq!(i.min, fx(1.0));
    assert_eq!(i.max, fx(2.0));
}

#[test]
fn ray_aimed_at_center_hits_at_distance_minus_radius() {
    let sphere = Sphere::new(v3(0.0, 0.0, -5.0), fx(1.0), grey());
    let ray = Ray::new(v3(0.0, 0.0, 0.0), v3(0.0, 0.0, -1.0));
    let hit = sphere.hit(&ray, &wide()).expect("the ray is aimed at the sphere");
    assert_eq!(hit.ray_scalar, fx(4.0));
    assert_eq!(hit.point, v3(0.0, 0.0, -4.0));
    assert_eq!(hit.normal, v3(0.0, 0.0, 1.0));
    assert!(hit.front_face);
    assert_eq!(hit.material, grey());
    // the normal is (point - center) / radius, of length one
    assert_eq!(hit.normal, (hit.point - v3(0.0, 0.0, -5.0)) / fx(1.0));
    assert_eq!(hit.normal.length(), fx(1.0));
}

#[test]
fn ray_aimed_at_center_from_any_side() {
    let center = v3(3.0, -4.0, 12.0);
    let sphere = Sphere::new(center, fx(2.0), grey());
    // the center is 13 away from the origin
    let dir = center / fx(13.0);
    let ray = Ray::new(v3(0.0, 0.0, 0.0), dir);
    let hit = sphere.hit(&ray, &wide()).expect("the ray is aimed at the sphere");
    assert!(close(hit.ray_scalar, 11.0));
    assert!(close(hit.normal.length(), 1.0));
    assert!(close(hit.normal.x, -3.0 / 13.0));
    assert!(close(hit.normal.y, 4.0 / 13.0));
    assert!(close(hit.normal.z, -12.0 / 13.0));
    assert!(hit.front_face);
}

#[test]
fn ray_from_inside_hits_the_far_side() {
    let sphere = Sphere::new(v3(0.0, 0.0, 0.0), fx(2.0), grey());
    let ray = Ray::new(v3(0.0, 0.0, 0.0), v3(1.0, 0.0, 0.0));
    let hit = sphere.hit(&ray, &wide()).expect("a ray from inside must leave the sphere");
    assert_eq!(hit.ray_scalar, fx(2.0));
    assert_eq!(hit.point, v3(2.0, 0.0, 0.0));
    // the outward normal (1, 0, 0) is turned against the ray
    assert_eq!(hit.normal, v3(-1.0, 0.0, 0.0));
    assert!(!hit.front_face);
}

#[test]
fn ray_that_passes_by_misses() {
    let sphere = Sphere::new(v3(0.0, 0.0, -5.0), fx(1.0), grey());
    let ray = Ray::new(v3(0.0, 2.0, 0.0), v3(0.0, 0.0, -1.0));
    assert_eq!(sphere.hit(&ray, &wide()), None);
    let away = Ray::new(v3(0.0, 0.0, 0.0), v3(0.0, 0.0, 1.0));
    assert_eq!(sphere.hit(&away, &wide()), None);
}

#[test]
fn tangent_ray_has_one_root() {
    let sphere = Sphere::new(v3(0.0, 1.0, -5.0), fx(1.0), grey());
    let ray = Ray::new(v3(0.0, 0.0, 0.0), v3(0.0, 0.0, -1.0));
    let hit = sphere.hit(&ray, &wide()).expect("a tangent ray touches the sphere");
    assert_eq!(hit.ray_scalar, fx(5.0));
    assert_eq!(hit.point, v3(0.0, 0.0, -5.0));
    // the outward normal (0, -1, 0) is at a right angle to the ray, which
    // therefore counts as coming from inside
    assert!(!hit.front_face);
    assert_eq!(hit.normal, v3(0.0, 1.0, 0.0));
}

#[test]
fn roots_on_the_bounds_are_rejected() {
    let sphere = Sphere::new(v3(0.0, 0.0, -5.0), fx(1.0), grey());
    let ray = Ray::new(v3(0.0, 0.0, 0.0), v3(0.0, 0.0, -1.0));
    // the roots are 4 and 6
    let to_near = Interval::new(fx(0.0), fx(4.0));
    assert_eq!(sphere.hit(&ray, &to_near), None);
    let from_near = Interval::new(fx(4.0), fx(7.0));
    assert_eq!(sphere.hit(&ray, &from_near).map(|h| h.ray_scalar), Some(fx(6.0)));
    let between = Interval::new(fx(4.0), fx(6.0));
    assert_eq!(sphere.hit(&ray, &between), None);
    let around_near = Interval::new(fx(3.999), fx(4.001));
    assert_eq!(sphere.hit(&ray, &around_near).map(|h| h.ray_scalar), Some(fx(4.0)));
}

#[test]
fn ray_without_direction_hits_nothing() {
    let sphere = Sphere::new(v3(0.0, 0.0, 0.0), fx(1.0), grey());
    let ray = Ray::new(v3(0.0, 0.0, 0.0), v3(0.0, 0.0, 0.0));
    assert_eq!(sphere.hit(&ray, &Interval::new(fx(-1.0), fx(1.0))), None);
    let plane = Plane::new(v3(0.0, -1.0, 0.0), grey());
    assert_eq!(plane.hit(&ray, &wide()), None);
}

#[test]
fn plane_hit_from_above() {
    let plane = Plane::new(v3(0.0, -1.0, 0.0), grey());
    let ray = Ray::new(v3(0.0, 0.0, 0.0), v3(0.0, -1.0, 0.0));
    let hit = plane.hit(&ray, &wide()).expect("the ray points at the plane");
    assert_eq!(hit.ray_scalar, fx(1.0));
    assert_eq!(hit.point, v3(0.0, -1.0, 0.0));
    assert_eq!(hit.normal, v3(0.0, 1.0, 0.0));
    assert!(hit.front_face);
}

#[test]
fn plane_hit_from_below_turns_the_normal() {
    let plane = Plane::new(v3(0.0, -1.0, 0.0), grey());
    let ray = Ray::new(v3(3.0, -3.0, 0.0), v3(0.0, 2.0, 0.0));
    let hit = plane.hit(&ray, &wide()).expect("the ray points at the plane");
    assert_eq!(hit.ray_scalar, fx(1.0));
    assert_eq!(hit.point, v3(3.0, -1.0, 0.0));
    assert_eq!(hit.normal, v3(0.0, -1.0, 0.0));
    assert!(!hit.front_face);
}

#[test]
fn plane_parallel_ray_misses() {
    let plane = Plane::new(v3(0.0, -1.0, 0.0), grey());
    let ray = Ray::new(v3(0.0, 0.0, 0.0), v3(1.0, 0.0, 1.0));
    assert_eq!(plane.hit(&ray, &wide()), None);
    // a slope of less than a millionth counts as parallel
    let nearly = Ray::new(v3(0.0, 0.0, 0.0), v3(1.0, -0.0000005, 0.0));
    assert_eq!(plane.hit(&nearly, &wide()), None);
    let steeper = Ray::new(v3(0.0, 0.0, 0.0), v3(1.0, -0.001, 0.0));
    assert!(plane.hit(&steeper, &wide()).is_some());
}

#[test]
fn plane_behind_the_ray_misses() {
    let plane = Plane::new(v3(0.0, -1.0, 0.0), grey());
    let ray = Ray::new(v3(0.0, 0.0, 0.0), v3(0.0, 1.0, 0.0));
    assert_eq!(plane.hit(&ray, &wide()), None);
}

#[test]
fn face_normal_opposes_the_ray() {
    let mut record = HitRecord {
        point: v3(0.0, 0.0, 0.0),
        normal: v3(0.0, 0.0, 0.0),
        ray_scalar: fx(1.0),
        front_face: false,
        material: grey(),
    };
    let outward = v3(0.0, 1.0, 0.0);
    let down = Ray::new(v3(0.0, 1.0, 0.0), v3(0.3, -1.0, 0.2));
    let n = *record.set_face_normal(&down, &outward);
    assert!(record.front_face);
    assert_eq!(record.normal, outward);
    assert_eq!(n, outward);
    assert!(Vec3::dot(&down.dir, &record.normal) <= Fixed::zero());

    let up = Ray::new(v3(0.0, -1.0, 0.0), v3(0.3, 1.0, 0.2));
    let n = *record.set_face_normal(&up, &outward);
    assert!(!record.front_face);
    assert_eq!(record.normal, -outward);
    assert_eq!(n, -outward);
    assert!(Vec3::dot(&up.dir, &record.normal) <= Fixed::zero());

    // a grazing ray counts as coming from inside
    let along = Ray::new(v3(0.0, 0.0, 0.0), v3(1.0, 0.0, 0.0));
    record.set_face_normal(&along, &outward);
    assert!(!record.front_face);
    assert_eq!(record.normal, -outward);
    // the rest of the record is left alone
    assert_eq!(record.ray_scalar, fx(1.0));
    assert_eq!(record.material, grey());
}

#[test]
fn nearer_of_two_spheres_wins_in_either_order() {
    let far = Shape::Sphere(Sphere::new(v3(0.0, 0.0, -5.0), fx(1.0), grey()));
    let near = Shape::Sphere(Sphere::new(v3(0.0, 0.0, -4.0), fx(1.0), mirror()));
    let ray = Ray::new(v3(0.0, 0.0, 0.0), v3(0.0, 0.0, -1.0));

    let mut world = World::new();
    world.add_object(far);
    world.add_object(near);
    let hit = world.hit_objects(&ray, &wide()).expect("both spheres are on the ray");
    assert_eq!(hit.ray_scalar, fx(3.0));
    assert_eq!(hit.material, mirror());
    assert_eq!(Some(hit), near.hit(&ray, &wide()));

    let mut world = World::new();
    world.add_object(near);
    world.add_object(far);
    let hit = world.hit_objects(&ray, &wide()).expect("both spheres are on the ray");
    assert_eq!(hit.ray_scalar, fx(3.0));
    assert_eq!(hit.material, mirror());
}

#[test]
fn nearest_hit_is_the_minimum_over_all_shapes() {
    let ray = Ray::new(v3(0.0, 0.0, 0.0), v3(0.0, 0.0, -1.0));
    let shapes = [
        Shape::Sphere(Sphere::new(v3(0.0, 0.0, -9.0), fx(1.0), grey())),
        Shape::Sphere(Sphere::new(v3(0.0, 5.0, -2.0), fx(1.0), grey())),
        Shape::Sphere(Sphere::new(v3(0.0, 0.0, -6.5), fx(1.5), mirror())),
        Shape::Plane(Plane::new(v3(0.0, -1.0, 0.0), grey())),
        Shape::Sphere(Sphere::new(v3(0.0, 0.0, -7.0), fx(0.5), grey())),
    ];
    let mut world = World::new();
    for s in shapes {
        world.add_object(s);
    }
    let found = world.hit_objects(&ray, &wide()).expect("some spheres are on the ray");
    let mut least: Option<HitRecord> = None;
    for s in shapes {
        if let Some(h) = s.hit(&ray, &wide()) {
            assert!(found.ray_scalar <= h.ray_scalar);
            if least.map_or(true, |l| h.ray_scalar < l.ray_scalar) {
                least = Some(h);
            }
        }
    }
    assert_eq!(Some(found), least);
    assert_eq!(found.ray_scalar, fx(5.0));
    assert_eq!(found.material, mirror());
}

#[test]
fn first_shape_wins_a_tie() {
    let a = Shape::Sphere(Sphere::new(v3(0.0, 0.0, -5.0), fx(1.0), grey()));
    let b = Shape::Sphere(Sphere::new(v3(0.0, 0.0, -5.0), fx(1.0), mirror()));
    let ray = Ray::new(v3(0.0, 0.0, 0.0), v3(0.0, 0.0, -1.0));
    let mut world = World::new();
    world.add_object(a);
    world.add_object(b);
    assert_eq!(world.hit_objects(&ray, &wide()).map(|h| h.material), Some(grey()));
    let mut world = World::new();
    world.add_object(b);
    world.add_object(a);
    assert_eq!(world.hit_objects(&ray, &wide()).map(|h| h.material), Some(mirror()));
}

#[test]
fn empty_world_and_missed_world_give_nothing() {
    let ray = Ray::new(v3(0.0, 0.0, 0.0), v3(0.0, 0.0, -1.0));
    let mut world = World::new();
    assert_eq!(world.objects.len(), 0);
    assert_eq!(world.hit_objects(&ray, &wide()), None);
    world.add_object(Shape::Sphere(Sphere::new(v3(0.0, 9.0, -5.0), fx(1.0), grey())));
    assert_eq!(world.objects.len(), 1);
    assert_eq!(world.hit_objects(&ray, &wide()), None);
}

#[test]
fn world_respects_the_interval() {
    let ray = Ray::new(v3(0.0, 0.0, 0.0), v3(0.0, 0.0, -1.0));
    let mut world = World::new();
    world.add_object(Shape::Sphere(Sphere::new(v3(0.0, 0.0, -5.0), fx(1.0), grey())));
    world.add_object(Shape::Sphere(Sphere::new(v3(0.0, 0.0, -9.0), fx(1.0), mirror())));
    let beyond_first = Interval::new(fx(6.5), fx(100.0));
    let hit = world.hit_objects(&ray, &beyond_first).expect("the second sphere is in reach");
    assert_eq!(hit.ray_scalar, fx(8.0));
    assert_eq!(hit.material, mirror());
    assert_eq!(world.hit_objects(&ray, &Interval::new(fx(0.0), fx(3.0))), None);
}

#[test]
fn shape_dispatches_to_its_variant() {
    let ray = Ray::new(v3(0.0, 0.0, 0.0), v3(0.0, -1.0, 0.0));
    let plane = Plane::new(v3(0.0, -1.0, 0.0), MaterialKind::Normal(NormalMaterial {}));
    let sphere = Sphere::new(v3(0.0, -3.0, 0.0), fx(1.0), grey());
    assert_eq!(Shape::Plane(plane).hit(&ray, &wide()), plane.hit(&ray, &wide()));
    assert_eq!(Shape::Sphere(sphere).hit(&ray, &wide()), sphere.hit(&ray, &wide()));
    assert_eq!(plane.plane_up, v3(0.0, 1.0, 0.0));
    assert_eq!(plane.center, v3(0.0, -1.0, 0.0));
}

#[test]
fn small_sphere_is_hit_to_a_billionth() {
    let sphere = Sphere::new(v3(0.0, 0.0, -1.0), fx(0.001), grey());
    let ray = Ray::new(v3(0.0, 0.0, 0.0), v3(0.0, 0.0, -1.0));
    let hit = sphere.hit(&ray, &wide()).expect("the ray is aimed at the sphere");
    assert!((to_f64(hit.ray_scalar) - 0.999).abs() < 1e-12);
    assert_eq!(hit.point, ray.cast(hit.ray_scalar));
    assert!(hit.front_face);
    assert!((to_f64(hit.normal.z) - 1.0).abs() < 1e-9);
    assert_eq!(hit.normal.x, fx(0.0));
    assert_eq!(hit.normal.y, fx(0.0));
    assert!((to_f64(hit.normal.length()) - 1.0).abs() < 1e-9);
    // the point lies on the sphere
    let from_center = hit.point - v3(0.0, 0.0, -1.0);
    assert!((to_f64(from_center.length()) - 0.001).abs() < 1e-12);
}

#[test]
fn aimed_ray_hits_at_distance_minus_radius_from_afar() {
    for (dist, radius) in [(40000.0, 1.0), (1000000.0, 250.0), (3.0, 0.001), (1.0e8, 0.5)] {
        let sphere = Sphere::new(v3(0.0, 0.0, -dist), fx(radius), grey());
        let ray = Ray::new(v3(0.0, 0.0, 0.0), v3(0.0, 0.0, -1.0));
        let hit = sphere.hit(&ray, &wide()).expect("the ray is aimed at the sphere");
        assert!((to_f64(hit.ray_scalar) - (dist - radius)).abs() <= 1e-9 * dist);
        assert!((to_f64(hit.normal.z) - 1.0).abs() < 1e-9);
        assert!(hit.front_face);
    }
    // a sphere of a millionth: the step of the numbers shows in its normal
    let speck = Sphere::new(v3(0.0, 0.0, -3.0), fx(0.000001), grey());
    let ray = Ray::new(v3(0.0, 0.0, 0.0), v3(0.0, 0.0, -1.0));
    let hit = speck.hit(&ray, &wide()).expect("the ray is aimed at the sphere");
    assert!((to_f64(hit.ray_scalar) - (3.0 - 0.000001)).abs() < 1e-12);
    assert!((to_f64(hit.normal.z) - 1.0).abs() < 1e-6);
}

#[test]
fn aimed_ray_along_the_line_to_the_center() {
    // the direction is the whole way to the center, so the center lies at one
    let center = v3(3.0, -4.0, 12.0);
    let sphere = Sphere::new(center, fx(2.0), grey());
    let ray = Ray::new(v3(0.0, 0.0, 0.0), center);
    let hit = sphere.hit(&ray, &wide()).expect("the ray is aimed at the sphere");
    assert!((to_f64(hit.ray_scalar) - (1.0 - 2.0 / 13.0)).abs() < 1e-15);
    let from_center = hit.point - center;
    assert!((to_f64(from_center.length()) - 2.0).abs() < 1e-15);
    assert!((to_f64(hit.normal.length()) - 1.0).abs() < 1e-15);
}

#[test]
fn shapes_beyond_reach_are_not_hit() {
    let ray = Ray::new(v3(0.0, 0.0, 0.0), v3(0.0, 0.0, -1.0));
    // within reach the squared distance fits
    let near = Sphere::new(v3(0.0, 0.0, -1.0e9), fx(1.0), grey());
    let hit = near.hit(&ray, &wide()).expect("the sphere is within reach");
    assert!((to_f64(hit.ray_scalar) - (1.0e9 - 1.0)).abs() < 1.0e-6);
    // beyond, it would be clamped, and the sphere is not seen
    let far = Sphere::new(v3(0.0, 0.0, -2.0e9), fx(1.0), grey());
    assert_eq!(far.hit(&ray, &wide()), None);
    let huge = Sphere::new(v3(0.0, 0.0, -5.0), fx(2.0e9), grey());
    assert_eq!(huge.hit(&ray, &wide()), None);
    let swift = Ray::new(v3(0.0, 0.0, 0.0), v3(0.0, 0.0, -2.0e9));
    let ball = Sphere::new(v3(0.0, 0.0, -5.0), fx(1.0), grey());
    assert_eq!(ball.hit(&swift, &wide()), None);
    // a plane whose point cannot be reached in range
    let plane = Plane::new(Vec3::new(fx(0.0), -Fixed::max_value(), fx(0.0)), grey());
    let down = Ray::new(v3(0.0, 1.0, 0.0), v3(0.0, -1.0, 0.0));
    assert_eq!(plane.hit(&down, &wide()), None);
}

#[test]
fn plane_hit_lies_on_the_plane() {
    let plane = Plane::new(v3(0.0, 0.0, 0.0), grey());
    let ray = Ray::new(v3(0.0, 1.0, 0.0), v3(0.0, -1000.0, 0.0));
    let hit = plane.hit(&ray, &wide()).expect("the ray points at the plane");
    assert_eq!(hit.ray_scalar, fx(1.0) / fx(1000.0));
    assert!(to_f64(hit.point.y).abs() < 1e-15);
    assert!(hit.point.y.abs() <= Fixed::from_raw(1001));
    let slanted = Ray::new(v3(2.0, 7.0, -3.0), v3(0.3, -0.7, 0.1));
    let hit = plane.hit(&slanted, &wide()).expect("the ray points at the plane");
    assert!(hit.point.y.abs() <= Fixed::from_raw(1));
    assert_eq!(hit.point, slanted.cast(hit.ray_scalar));
}
