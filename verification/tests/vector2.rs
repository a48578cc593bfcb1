use gameplay::vector2::{Abs, Vector2};

#[test]
fn test_construct_vector2() {
    // Standard integer vector
    let vector = Vector2::new(5, 9);
    assert_eq!(vector.x, 5);
    assert_eq!(vector.y, 9);

    // Both X and Y set to the same value
    let vector = Vector2::new(7, 7);
    assert_eq!(vector.x, 7);
    assert_eq!(vector.y, 7);

    // A default vector of the given type
    assert_eq!(Vector2::default(), Vector2::new(0, 0));

    // I have no clue why you would do this, but hey, more power to you
    let vector = Vector2::new('a', 'b');
    assert_eq!(vector.x, 'a');
    assert_eq!(vector.y, 'b');
}

#[test]
fn test_get_area() {
    assert_eq!(Vector2::new(5, 9).area(), 45);
}

#[test]
fn test_mul() {
    assert_eq!(Vector2::new(5, 9) * Vector2::new(9, 5), Vector2::new(45, 45));
    assert_eq!(Vector2::new(5, 9) * 9, Vector2::new(45, 81));
}

#[test]
fn test_lerp() {
    let vector = Vector2::new(2., -10.).lerp(Vector2::new(10., 10.), 0.5);
    assert_eq!(vector, Vector2::new(6., 0.));
}

#[test]
fn test_vec2cast() {
    let small = Vector2::new(20u8, 20u8);
    assert_eq!(Vector2::new(20i16, 20i16), Vector2::new(small.x as i16, small.y as i16))
}

#[test]
fn vector_transpose_swaps_components() {
    assert_eq!(Vector2::new(3, 8).transpose(), Vector2::new(8, 3));
}

#[test]
fn vector_operators_work_component_by_component() {
    assert_eq!(Vector2::new(5, 9) + Vector2::new(1, 2), Vector2::new(6, 11));
    assert_eq!(Vector2::new(5, 9) - Vector2::new(1, 2), Vector2::new(4, 7));
    assert_eq!(Vector2::new(8, 9) / Vector2::new(2, 3), Vector2::new(4, 3));
    assert_eq!(Vector2::new(5, 9) + 1, Vector2::new(6, 10));
    assert_eq!(Vector2::new(5, 9) - 1, Vector2::new(4, 8));
    assert_eq!(Vector2::new(8, 6) / 2, Vector2::new(4, 3));
    assert_eq!(-Vector2::new(5, -9), Vector2::new(-5, 9));
}

#[test]
fn vector_sums_and_products() {
    assert_eq!(Vector2::new(5, 9).sum(), 14);
    assert_eq!(Vector2::new(5, 9).squared(), Vector2::new(25, 81));
    assert_eq!(Vector2::new(3, 4).mag2(), 25);
    assert_eq!(Vector2::new(1, 2).dot(Vector2::new(3, 4)), 11);
    assert_eq!(Vector2::new(1, 2).cross(Vector2::new(3, 4)), -2);
    assert_eq!(Vector2::new(2, -10).lerp(Vector2::new(10, 10), 2), Vector2::new(18, 30));
}

#[test]
fn vector_perp_turns_a_quarter() {
    assert_eq!(Vector2::new(3, 4).perp(), Vector2::new(-4, 3));
}

#[test]
fn vector_min_and_max_go_by_component() {
    assert_eq!(Vector2::new(1, 9).min(Vector2::new(4, 2)), Vector2::new(1, 2));
    assert_eq!(Vector2::new(1, 9).max(Vector2::new(4, 2)), Vector2::new(4, 9));
    assert_eq!(
        Vector2::new(1, 9).clamp(Vector2::new(2, 2), Vector2::new(5, 5)),
        Vector2::new(2, 5)
    );
    assert_eq!(
        Vector2::new(3, 4).clamp(Vector2::new(2, 2), Vector2::new(5, 5)),
        Vector2::new(3, 4)
    );
}

#[test]
fn abs_of_integers_and_vectors() {
    assert_eq!(Abs::abs(-5i32), 5);
    assert_eq!(Abs::abs(5i64), 5);
    assert_eq!(Abs::abs(-7i8), 7);
    assert_eq!(Abs::abs(-7i16), 7);
    assert_eq!(Abs::abs(-7i128), 7);
    assert_eq!(Abs::abs(-7isize), 7);
    assert_eq!(Abs::abs(Vector2::new(-3, 4)), Vector2::new(3, 4));
}

#[test]
fn vector_operators_in_place() {
    let mut vector = Vector2::new(5, 9);
    vector += Vector2::new(1, 2);
    assert_eq!(vector, Vector2::new(6, 11));
    vector -= Vector2::new(2, 1);
    assert_eq!(vector, Vector2::new(4, 10));
    vector *= Vector2::new(2, 3);
    assert_eq!(vector, Vector2::new(8, 30));
    vector /= Vector2::new(4, 10);
    assert_eq!(vector, Vector2::new(2, 3));
    vector += 1;
    assert_eq!(vector, Vector2::new(3, 4));
    vector -= 2;
    assert_eq!(vector, Vector2::new(1, 2));
    vector *= 6;
    assert_eq!(vector, Vector2::new(6, 12));
    vector /= 3;
    assert_eq!(vector, Vector2::new(2, 4));
}
