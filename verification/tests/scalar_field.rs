use terrain::math::scalar_field::{ScalarField, SquareField};

#[test]
fn square_field_is_the_squared_distance_from_the_origin() {
    let field = SquareField;
    assert_eq!(field.value_at(0i64, 0, 0), 0);
    assert_eq!(field.value_at(1i64, 2, 3), 14);
    assert_eq!(field.value_at(-3i32, 4, 0), 25);
    assert_eq!(field.value_at(255u32, 255, 255), 3 * 255 * 255);
}

#[test]
fn gradient_is_the_central_difference_over_the_distance() {
    let field = SquareField;
    // ((x + e)^2 - (x - e)^2) / (2 e) = 2 x
    assert_eq!(field.gradient_at(1i64, 0, 0, 1), [2, 0, 0]);
    assert_eq!(field.gradient_at(3i64, -2, 5, 1), [6, -4, 10]);
    assert_eq!(field.gradient_at(3i64, -2, 5, 2), [6, -4, 10]);
    assert_eq!(field.gradient_at(0i64, 0, 0, 7), [0, 0, 0]);
    assert_eq!(field.gradient_at(-1000i32, 1000, 0, 10), [-2000, 2000, 0]);
}
