use terrain::math::vector::{vec2, vec3, vec4, Vec2, Vec3, Vec4, Vector};

#[test]
fn constructors_keep_the_components_in_order() {
    assert_eq!(vec2(1, 2).0, [1, 2]);
    assert_eq!(vec3(1, 2, 3).0, [1, 2, 3]);
    assert_eq!(vec4(1, 2, 3, 4).0, [1, 2, 3, 4]);
    assert_eq!(Vec2::new(5u8, 6).0, [5, 6]);
    assert_eq!(Vec3::new(-1i64, 0, 1).0, [-1, 0, 1]);
    assert_eq!(Vec4::new(1.5f32, 2.5, 3.5, 4.5).0, [1.5, 2.5, 3.5, 4.5]);
}

#[test]
fn from_array_and_array_are_inverse() {
    let v = Vec3::from_array([7i32, 8, 9]);
    assert_eq!(v.array(), &[7, 8, 9]);
    let w = Vec4::from_array([1u16, 2, 3, 4]);
    assert_eq!(w.array(), &[1, 2, 3, 4]);
    assert_eq!(Vec2::from_array([3i8, -3]).0, [3, -3]);
}

#[test]
fn vec2_cross_is_the_determinant() {
    assert_eq!(Vec2::new(1, 0).cross(&Vec2::new(0, 1)), 1);
    assert_eq!(Vec2::new(0, 1).cross(&Vec2::new(1, 0)), -1);
    assert_eq!(Vec2::new(3, 4).cross(&Vec2::new(5, 6)), 3 * 6 - 4 * 5);
    assert_eq!(Vec2::new(-7i64, 2).cross(&Vec2::new(4, 8)), -7 * 8 - 2 * 4);
}

#[test]
fn vec2_normal_is_a_quarter_turn() {
    assert_eq!(Vec2::new(3, 4).normal().0, [-4, 3]);
    assert_eq!(Vec2::new(1i8, 0).normal().0, [0, 1]);
    let v = Vec2::new(7i64, -2);
    assert_eq!(v.dot(&v.normal()), 0);
}

#[test]
fn vec2_swap_exchanges_the_components() {
    let mut v = Vec2::new(1, 2);
    v.swap();
    assert_eq!(v.0, [2, 1]);
    v.swap();
    assert_eq!(v.0, [1, 2]);
}

#[test]
fn vec3_cross_of_the_axes() {
    let x = Vec3::new(1i64, 0, 0);
    let y = Vec3::new(0i64, 1, 0);
    let z = Vec3::new(0i64, 0, 1);
    assert_eq!(x.cross(&y).0, [0, 0, 1]);
    assert_eq!(y.cross(&z).0, [1, 0, 0]);
    assert_eq!(z.cross(&x).0, [0, 1, 0]);
    assert_eq!(y.cross(&x).0, [0, 0, -1]);
}

#[test]
fn vec3_cross_of_two_vectors() {
    let a = Vec3::new(2i64, 3, 4);
    let b = Vec3::new(5i64, 6, 7);
    let c = a.cross(&b);
    assert_eq!(c.0, [3 * 7 - 4 * 6, 4 * 5 - 2 * 7, 2 * 6 - 3 * 5]);
    assert_eq!(c.dot(&a), 0);
    assert_eq!(c.dot(&b), 0);
}

#[test]
fn vec3_difference_is_componentwise() {
    let a = Vec3::new(2i32, 3, 4);
    let b = Vec3::new(5i32, 1, 4);
    assert_eq!(a.difference(&b).0, [-3, 2, 0]);
}

#[test]
fn vec4_xyz_drops_the_last_component() {
    assert_eq!(Vec4::new(1, 2, 3, 4).xyz().0, [1, 2, 3]);
}

#[test]
fn dot_and_squared_norm() {
    assert_eq!(Vec2::new(1, 2).dot(&Vec2::new(3, 4)), 11);
    assert_eq!(Vec3::new(1, 2, 3).dot(&Vec3::new(4, 5, 6)), 32);
    assert_eq!(Vec4::new(1, 2, 3, 4).dot(&Vec4::new(5, 6, 7, 8)), 70);
    assert_eq!(Vec3::new(3i64, 4, 12).squared_norm(), 169);
    assert_eq!(Vec2::new(20u16, 21).squared_norm(), 841);
}
