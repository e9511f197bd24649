use breakout_core::geometry::Circle;
use breakout_core::geometry::Collision;
use breakout_core::geometry::FPoint;
use breakout_core::geometry::FVector2d;
use breakout_core::geometry::Rectangle;
use breakout_core::geometry::circle_rectangle_collision;
use breakout_core::geometry::new_vector_after_circle_collision;

#[test]
fn circle_rectangle_collision_no_collision() {
    let circle = Circle::new(FPoint::new(100, 100), 10);
    let rect = Rectangle::make_by_coords(10, 10, 20, 20);

    assert_eq!(circle_rectangle_collision(&circle, &rect).is_some(), false);
}

#[test]
fn circle_rectangle_collision_flat_collisions() {
    let rect = Rectangle::make_by_coords(0, 0, 100, 100);
    let tests = vec![
        ("Top collistion", Circle::new(FPoint::new(50, 110), 11), FPoint::new(50, 100)),
        ("Bottom collision", Circle::new(FPoint::new(50, -10), 11), FPoint::new(50, 0)),
        ("Left collision", Circle::new(FPoint::new(-10, 50), 11), FPoint::new(0, 50)),
        ("Right collision", Circle::new(FPoint::new(110, 50), 11), FPoint::new(100, 50)),
    ];

    for (test_name, circle, expected_collision_point) in tests.iter() {
        let result = circle_rectangle_collision(circle, &rect);

        assert!(
            matches!(&result, Some(Collision { point, .. }) if point.is_same(expected_collision_point, 1)),
            "Test failed {:?}. Expected: {:?}. Actual: {:?}",
            test_name,
            expected_collision_point,
            result
        );
    }
}

#[test]
fn circle_rectangle_collision_corner_collisions() {
    let rect = Rectangle::make_by_coords(0, 0, 100, 100);
    let tests = vec![
        ("TopLeft collistion", Circle::new(FPoint::new(-7, 107), 11), FPoint::new(0, 100)),
        ("TopRight collision", Circle::new(FPoint::new(107, 107), 11), FPoint::new(100, 100)),
        ("BottomLeft collision", Circle::new(FPoint::new(-7, -7), 11), FPoint::new(0, 0)),
        ("BottomRight collision", Circle::new(FPoint::new(107, -7), 11), FPoint::new(100, 0)),
    ];

    for (test_name, circle, expected_collision_point) in tests.iter() {
        let result = circle_rectangle_collision(circle, &rect);

        assert!(
            matches!(&result, Some(Collision { point, .. }) if point.is_same(expected_collision_point, 1)),
            "Test failed {:?}. Expected: {:?}. Actual: {:?}",
            test_name,
            expected_collision_point,
            result
        );
    }
}

#[test]
fn collision_normal_points_to_circle_center() {
    let rect = Rectangle::make_by_coords(0, 0, 100, 100);
    let circle = Circle::new(FPoint::new(50, 110), 11);
    let collision = circle_rectangle_collision(&circle, &rect).unwrap();
    assert_eq!(collision.point, FPoint::new(50, 100));
    assert_eq!(collision.normal, FVector2d::new(0, 10));
}

#[test]
fn rectangle_accessors_tolerate_swapped_corners() {
    let rect = Rectangle::make_by_coords(5, 9, 1, 2);
    assert_eq!(rect.left(), 1);
    assert_eq!(rect.right(), 5);
    assert_eq!(rect.bottom(), 2);
    assert_eq!(rect.top(), 9);
    assert_eq!(rect.top_left(), FPoint::new(1, 9));
    assert_eq!(rect.top_right(), FPoint::new(5, 9));
    assert_eq!(rect.bottom_left(), FPoint::new(1, 2));
    assert_eq!(rect.bottom_right(), FPoint::new(5, 2));
}

#[test]
fn rectangle_make_by_size_and_advance() {
    let rect = Rectangle::make_by_size(10, 20, 30, 40);
    assert_eq!((rect.x1, rect.y1, rect.x2, rect.y2), (10, 20, 40, 60));
    let moved = rect.advance(&FVector2d::new(5, -5));
    assert_eq!((moved.x1, moved.y1, moved.x2, moved.y2), (15, 15, 45, 55));
}

#[test]
fn rectangle_grow_swaps_vertical_corners() {
    let rect = Rectangle::make_by_coords(0, 0, 10, 20);
    let grown = rect.grow(3);
    assert_eq!((grown.x1, grown.y1, grown.x2, grown.y2), (-3, 23, 13, -3));
    assert_eq!(grown.left(), -3);
    assert_eq!(grown.right(), 13);
    assert_eq!(grown.bottom(), -3);
    assert_eq!(grown.top(), 23);
}

#[test]
fn rectangle_translation_keeps_width() {
    let rect = Rectangle::make_by_coords(2, 0, 10, 5);
    let at_left = rect.with_left_at(7);
    assert_eq!((at_left.x1, at_left.y1, at_left.x2, at_left.y2), (7, 0, 15, 5));
    let at_right = rect.with_right_at(30);
    assert_eq!((at_right.x1, at_right.y1, at_right.x2, at_right.y2), (22, 0, 30, 5));
}

#[test]
fn vector_algebra_basics() {
    let v = FVector2d::new(3, -4);
    assert_eq!(v.length_square(), 25);
    assert_eq!(v.length(), 5);
    assert_eq!(FVector2d::new(1, 1).length(), 1);
    assert_eq!(v.invert(), FVector2d::new(-3, 4));
    assert_eq!(v.plus(&FVector2d::new(1, 1)), FVector2d::new(4, -3));
    assert_eq!(v.minus(&FVector2d::new(1, 1)), FVector2d::new(2, -5));
    assert_eq!(v.mul_scalar(3), FVector2d::new(9, -12));
    assert_eq!(v.dot_product(&FVector2d::new(2, 2)), -2);
    assert_eq!(v.get_normal(), FVector2d::new(-4, -3));
    assert_eq!(FVector2d::between(&FPoint::new(1, 2), &FPoint::new(4, 6)), FVector2d::new(3, 4));
    assert!(FVector2d::zero().is_zero());
    assert!(!v.is_zero());
    assert_eq!(FPoint::new(1, 2).add(FVector2d::new(10, 20)), FPoint::new(11, 22));
    assert_eq!(FPoint::sq_dist(&FPoint::new(1, 2), &FPoint::new(4, 6)), 25);
}

#[test]
fn normalize_scales_down_by_length() {
    assert_eq!(FVector2d::new(5, 0).normalize(), FVector2d::new(1, 0));
    assert_eq!(FVector2d::new(-5, 0).normalize(), FVector2d::new(-1, 0));
    assert_eq!(FVector2d::new(0, 0).normalize(), FVector2d::new(0, 0));
    assert_eq!(FVector2d::new(3, 4).normalize(), FVector2d::new(0, 0));
}

#[test]
fn reflection_is_idempotent_on_axis_normal() {
    let v = FVector2d::new(3, -4);
    let normal = FVector2d::new(0, 5);
    let once = FVector2d::reflect(&v, &normal);
    assert_eq!(once, FVector2d::new(3, 4));
    let twice = FVector2d::reflect(&once, &normal);
    assert_eq!(twice, v);
}

#[test]
fn reflection_is_idempotent_on_diagonal_normal() {
    let v = FVector2d::new(1, 1);
    let normal = FVector2d::new(1, 1);
    let once = FVector2d::reflect(&v, &normal);
    assert_eq!(once, FVector2d::new(-1, -1));
    let twice = FVector2d::reflect(&once, &normal);
    assert_eq!(twice, v);
}

#[test]
fn reflection_of_zero_normal_deflects_nothing() {
    let v = FVector2d::new(7, 9);
    assert_eq!(FVector2d::reflect(&v, &FVector2d::new(0, 0)), v);
}

#[test]
fn response_absorbs_other_velocity_when_moving_away() {
    let v = FVector2d::new(1, 2);
    let collision = Collision { point: FPoint::new(0, 0), normal: FVector2d::new(0, 1) };
    let other = FVector2d::new(5, 7);
    assert_eq!(new_vector_after_circle_collision(&v, &collision, &other), FVector2d::new(6, 9));
}

#[test]
fn response_mirrors_approach_when_moving_in() {
    let v = FVector2d::new(3, -4);
    let collision = Collision { point: FPoint::new(0, 0), normal: FVector2d::new(0, 2) };
    let other = FVector2d::new(100, 100);
    let result = new_vector_after_circle_collision(&v, &collision, &other);
    assert_eq!(result, FVector2d::new(3, 4));
    assert_eq!(
        result.dot_product(&collision.normal),
        -v.dot_product(&collision.normal),
    );
}

#[test]
fn response_with_zero_normal_absorbs() {
    let v = FVector2d::new(3, -4);
    let collision = Collision { point: FPoint::new(0, 0), normal: FVector2d::new(0, 0) };
    assert_eq!(
        new_vector_after_circle_collision(&v, &collision, &FVector2d::new(1, 1)),
        FVector2d::new(4, -3),
    );
}

#[test]
fn rotation_by_zero_is_identity() {
    assert_eq!(FVector2d::new(123, 456).rotate_clockwise(0), FVector2d::new(123, 456));
}

#[test]
fn rotation_by_eighth_pi_matches_fixed_point_series() {
    let up = FVector2d::new(0, 1_000_000);
    assert_eq!(up.rotate_clockwise(392_699), FVector2d::new(382_683, 923_884));
    assert_eq!(up.rotate_clockwise(-392_699), FVector2d::new(-382_683, 923_884));
}
