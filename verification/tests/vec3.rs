use raytracer::fixed::Fixed;
use raytracer::vec3::{Axis, Vec3, NEAR_ZERO_RAW};

fn fx(v: f64) -> Fixed {
    Fixed::from_raw((v * 18446744073709551616.0) as i128)
}

fn to_f64(v: Fixed) -> f64 {
    v.raw() as f64 / 18446744073709551616.0
}

fn v3(x: f64, y: f64, z: f64) -> Vec3 {
    Vec3::new(fx(x), fx(y), fx(z))
}

#[test]
fn add() {
    let a = v3(0.0, 1.0, 2.0);
    let b = v3(3.0, 4.0, 5.0);
    assert_eq!(&a + &b, v3(3.0, 5.0, 7.0));
    assert_eq!(a + &b, v3(3.0, 5.0, 7.0));
    assert_eq!(&a + b, v3(3.0, 5.0, 7.0));
    assert_eq!(a + b, v3(3.0, 5.0, 7.0));

    // Test for RHS value type
    {
        let mut c = Vec3::one();
        c += a;
        assert_eq!(c, v3(1.0, 2.0, 3.0));
    }

    // Test for RHS borrowed reference
    {
        let mut c = Vec3::one();
        c += &a;
        assert_eq!(c, v3(1.0, 2.0, 3.0));
    }
}

#[test]
fn subtract() {
    let a = v3(0.0, 1.0, 2.0);
    let b = v3(3.0, 4.0, 5.0);
    assert_eq!(&a - &b, v3(-3.0, -3.0, -3.0));
    assert_eq!(a - &b, v3(-3.0, -3.0, -3.0));
    assert_eq!(&a - b, v3(-3.0, -3.0, -3.0));
    assert_eq!(a - b, v3(-3.0, -3.0, -3.0));

    // Test for RHS value type
    {
        let mut c = Vec3::one();
        c -= a;
        assert_eq!(c, v3(1.0, 0.0, -1.0));
    }

    // Test for RHS borrowed reference
    {
        let mut c = Vec3::one();
        c -= &a;
        assert_eq!(c, v3(1.0, 0.0, -1.0));
    }
}

#[test]
fn multiply() {
    let a = v3(0.0, 1.0, 2.0);
    let b = v3(3.0, 4.0, 5.0);
    assert_eq!(&a * &b, v3(0.0, 4.0, 10.0));
    assert_eq!(a * &b, v3(0.0, 4.0, 10.0));
    assert_eq!(&a * b, v3(0.0, 4.0, 10.0));
    assert_eq!(a * b, v3(0.0, 4.0, 10.0));

    // Test for RHS value type
    {
        let mut c = Vec3::from_float(fx(2.0));
        c *= a;
        assert_eq!(c, fx(2.0) * a);
    }

    // Test for RHS borrowed reference
    {
        let mut c = Vec3::from_float(fx(2.0));
        c *= &a;
        assert_eq!(c, fx(2.0) * a);
    }
}

#[test]
fn divide() {
    let a = v3(1.0, 1.0, 2.0);
    let b = v3(3.0, 4.0, 5.0);
    let quotients = Vec3::new(fx(1.0) / fx(3.0), fx(1.0) / fx(4.0), fx(2.0) / fx(5.0));
    assert_eq!(&a / &b, quotients);
    assert_eq!(a / &b, quotients);
    assert_eq!(&a / b, quotients);
    assert_eq!(a / b, quotients);

    // Test for RHS value type
    {
        let mut c = Vec3::one();
        c /= a;
        assert_eq!(c, v3(1.0, 1.0, 0.5));
    }

    // Test for RHS borrowed reference
    {
        let mut c = Vec3::one();
        c /= &a;
        assert_eq!(c, v3(1.0, 1.0, 0.5));
    }
}

#[test]
fn dot() {
    let a = v3(2.0, 3.0, 5.0);
    let b = v3(7.0, 11.0, 13.0);
    assert_eq!(Vec3::dot(&a, &b), fx(2.0 * 7.0 + 3.0 * 11.0 + 5.0 * 13.0));
}

#[test]
fn cross() {
    let a = v3(1.0, 0.0, 0.0);
    let b = v3(0.0, 1.0, 0.0);
    assert_eq!(Vec3::cross(&a, &b), v3(0.0, 0.0, 1.0));
}

#[test]
fn length() {
    let a = v3(3.0, 2.0, 1.0);
    assert_eq!(a.length(), fx(3.0 * 3.0 + 2.0 * 2.0 + 1.0 * 1.0).sqrt());

    let b = Vec3::from_float(fx(0.0));
    assert_eq!(b.length(), fx(0.0));
}

#[test]
fn normalize() {
    let a = v3(3.0, 2.0, 1.0);
    let len = a.length();
    assert!((to_f64(a.normalize().length()) - 1.0).abs() < 0.01);
    assert!((to_f64(a.normalize().length()) - 1.0).abs() < 1e-15);
    assert_eq!(a.normalize(), a / len);
}

#[test]
fn component() {
    let a = v3(3.0, 2.0, 1.0);
    assert_eq!(a.component(Axis::X), a.x);
    assert_eq!(a.component(Axis::Y), a.y);
    assert_eq!(a.component(Axis::Z), a.z);
}

#[test]
fn set_component() {
    let mut a = v3(3.0, 2.0, 1.0);
    a.set_component(Axis::X, fx(4.0));
    assert_eq!(a, v3(4.0, 2.0, 1.0));

    a.set_component(Axis::Y, fx(5.0));
    assert_eq!(a, v3(4.0, 5.0, 1.0));

    a.set_component(Axis::Z, fx(6.0));
    assert_eq!(a, v3(4.0, 5.0, 6.0));
}

#[test]
fn min() {
    let tiny_x = v3(0.00001, 1000.0, 1000.0);
    let tiny_y = v3(1000.0, 0.00001, 1000.0);
    let tiny_z = v3(1000.0, 1000.0, 0.00001);
    assert_eq!(tiny_x.min(&tiny_y).min(&tiny_z), Vec3::from_float(fx(0.00001)));
}

#[test]
fn max() {
    let big_x = v3(1000.0, 0.00001, 0.00001);
    let big_y = v3(0.00001, 1000.0, 0.00001);
    let big_z = v3(0.00001, 0.00001, 1000.0);
    assert_eq!(big_x.max(&big_y).max(&big_z), Vec3::from_float(fx(1000.0)));
}

#[test]
fn index_reads_each_component() {
    let a = v3(3.0, 2.0, 1.0);
    assert_eq!(a[0], fx(3.0));
    assert_eq!(a[1], fx(2.0));
    assert_eq!(a[2], fx(1.0));
}

#[test]
fn index_mut_writes_one_component() {
    let mut a = v3(3.0, 2.0, 1.0);
    a[1] = fx(7.0);
    assert_eq!(a, v3(3.0, 7.0, 1.0));
    a[0] = fx(-1.0);
    a[2] = fx(0.5);
    assert_eq!(a, v3(-1.0, 7.0, 0.5));
}

#[test]
fn negation_flips_every_sign() {
    let a = v3(3.0, -2.0, 0.0);
    assert_eq!(-a, v3(-3.0, 2.0, 0.0));
    assert_eq!(-&a, v3(-3.0, 2.0, 0.0));
    assert_eq!(-(-a), a);
}

#[test]
fn scaling_by_a_number() {
    let a = v3(1.0, -2.0, 0.5);
    assert_eq!(a * fx(2.0), v3(2.0, -4.0, 1.0));
    assert_eq!(fx(2.0) * a, v3(2.0, -4.0, 1.0));
    assert_eq!(&a * fx(2.0), v3(2.0, -4.0, 1.0));
    assert_eq!(fx(2.0) * &a, v3(2.0, -4.0, 1.0));
    assert_eq!(a / fx(2.0), v3(0.5, -1.0, 0.25));
    assert_eq!(&a / fx(2.0), v3(0.5, -1.0, 0.25));
    let mut b = a;
    b *= fx(4.0);
    assert_eq!(b, v3(4.0, -8.0, 2.0));
    b /= fx(8.0);
    assert_eq!(b, v3(0.5, -1.0, 0.25));
}

#[test]
fn length_squared_is_the_dot_with_itself() {
    let a = v3(3.0, 2.0, 1.0);
    assert_eq!(a.length_squared(), fx(14.0));
    assert_eq!(a.length_squared(), Vec3::dot(&a, &a));
}

#[test]
fn cross_of_general_vectors() {
    let a = v3(1.0, 2.0, 3.0);
    let b = v3(4.0, 5.0, 6.0);
    assert_eq!(Vec3::cross(&a, &b), v3(-3.0, 6.0, -3.0));
    assert_eq!(Vec3::cross(&b, &a), v3(3.0, -6.0, 3.0));
}

#[test]
fn near_zero_looks_at_every_component() {
    assert!(Vec3::zero().near_zero());
    let edge = NEAR_ZERO_RAW;
    let inside = Fixed::from_raw(edge - 1);
    assert!(Vec3::new(inside, -inside, Fixed::from_raw(0)).near_zero());
    assert!(!Vec3::new(Fixed::from_raw(edge), Fixed::zero(), Fixed::zero()).near_zero());
    assert!(!Vec3::new(Fixed::zero(), Fixed::zero(), Fixed::from_raw(-edge)).near_zero());
    assert!(v3(0.0, 0.000000009, 0.0).near_zero());
    assert!(!v3(0.0, 0.000000011, 0.0).near_zero());
}

#[test]
fn default_is_the_zero_vector() {
    assert_eq!(Vec3::default(), v3(0.0, 0.0, 0.0));
    assert_eq!(Vec3::zero(), v3(0.0, 0.0, 0.0));
    assert_eq!(Vec3::one(), v3(1.0, 1.0, 1.0));
}

#[test]
fn random_vector_stays_in_its_box() {
    let lo = fx(-1.0);
    let hi = fx(1.0);
    let mut distinct = false;
    let first = Vec3::random(lo, hi);
    for _ in 0..200 {
        let v = Vec3::random(lo, hi);
        for c in [v.x, v.y, v.z] {
            assert!(c >= lo && c < hi);
        }
        if v != first {
            distinct = true;
        }
    }
    assert!(distinct);
}

#[test]
fn a_vector_is_clamped_if_a_component_is() {
    assert!(!v3(1.0, 2.0, 3.0).is_clamped());
    assert!(Vec3::new(fx(1.0), Fixed::max_value(), fx(3.0)).is_clamped());
    assert!(Vec3::new(fx(1.0), fx(2.0), -Fixed::max_value()).is_clamped());
    let far = Vec3::new(Fixed::max_value(), fx(0.0), fx(0.0));
    assert!((far + far).is_clamped());
}

#[test]
fn normalized_vectors_have_length_one() {
    for (x, y, z) in [(3.0, 2.0, 1.0), (1.0e-6, -2.0e-6, 3.0e-7), (1.0e8, 5.0e8, -3.0e8), (0.0, 0.0, -7.0)] {
        let unit = v3(x, y, z).normalize();
        let squared = to_f64(unit.x).powi(2) + to_f64(unit.y).powi(2) + to_f64(unit.z).powi(2);
        assert!((squared - 1.0).abs() < 1e-9);
        for c in [unit.x, unit.y, unit.z] {
            assert!(c.abs() <= Fixed::one());
        }
    }
    assert_eq!(v3(0.0, 0.0, 0.0).normalize(), v3(0.0, 0.0, 0.0));
}
