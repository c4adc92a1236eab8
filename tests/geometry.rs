use ants::geometry::{distance, distance_squared, isqrt, normalize, rotate_raw, within_segment, Turn, Vec2, SCALE};

const S: i64 = SCALE;

#[test]
fn integer_square_roots() {
    assert_eq!(isqrt(0), 0);
    assert_eq!(isqrt(1), 1);
    assert_eq!(isqrt(15), 3);
    assert_eq!(isqrt(16), 4);
    assert_eq!(isqrt(u128::MAX), u64::MAX as u128);
}

#[test]
fn normalize_three_four_five() {
    let f = Vec2 { x: 1, y: 1 };
    assert_eq!(normalize(Vec2 { x: 3, y: 4 }, f), Vec2 { x: 39321, y: 52428 });
    assert_eq!(normalize(Vec2 { x: -3, y: -4 }, f), Vec2 { x: -39321, y: -52428 });
    assert_eq!(normalize(Vec2 { x: 0, y: -7 }, f), Vec2 { x: 0, y: -S });
}

#[test]
fn normalize_zero_gives_fallback() {
    let f = Vec2 { x: 5, y: 6 };
    assert_eq!(normalize(Vec2 { x: 0, y: 0 }, f), f);
}

#[test]
fn rotation_by_quarter_turn() {
    let r = rotate_raw(Vec2 { x: S, y: 0 }, Turn { cos: 0, sin: S });
    assert_eq!(r, Vec2 { x: 0, y: S * S });
}

#[test]
fn squared_distance() {
    assert_eq!(distance_squared(Vec2 { x: 0, y: 0 }, Vec2 { x: 3, y: 4 }), 25);
    assert_eq!(distance(Vec2 { x: 0, y: 0 }, Vec2 { x: 3 * SCALE, y: 4 * SCALE }), 5 * SCALE as u128);
    assert_eq!(distance(Vec2 { x: 1, y: 1 }, Vec2 { x: 3, y: 4 }), 3);
}

#[test]
fn segment_distance_cases() {
    let a = Vec2 { x: 0, y: 0 };
    let b = Vec2 { x: 10 * S, y: 0 };
    // Beside the middle.
    assert!(within_segment(a, b, Vec2 { x: 5 * S, y: 2 * S }, 2 * S));
    assert!(!within_segment(a, b, Vec2 { x: 5 * S, y: 2 * S + 1 }, 2 * S));
    // Behind the start: distance to the start point.
    assert!(!within_segment(a, b, Vec2 { x: -2 * S, y: S }, 2 * S));
    assert!(within_segment(a, b, Vec2 { x: -S, y: S }, 2 * S));
    // Beyond the end: distance to the end point.
    assert!(!within_segment(a, b, Vec2 { x: 12 * S, y: S }, 2 * S));
    assert!(within_segment(a, b, Vec2 { x: 11 * S, y: S }, 2 * S));
    // A segment of length zero is a point.
    assert!(within_segment(a, a, Vec2 { x: S, y: S }, 2 * S));
}
