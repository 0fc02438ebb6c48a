use mimizu::{tangents_similarity, Ratio, Vec2, UNIT};

const EX: Vec2 = Vec2 { x: UNIT, y: 0 };
const EY: Vec2 = Vec2 { x: 0, y: UNIT };

/// A penalty in units squared.
fn pen(p: f64) -> i64 {
    (p * (UNIT * UNIT) as f64) as i64
}

fn value(r: Ratio) -> f64 {
    r.num as f64 / r.den as f64
}

fn sim(a: &[Vec2], b: &[Vec2], p: f64) -> f64 {
    value(tangents_similarity(a, b, pen(p)))
}

#[test]
fn tests_test_tangents_similarity() {
    let ex = EX;
    let ey = EY;
    assert_eq!(sim(&[ex], &[ex], 1.0), 1.0);
    assert_eq!(sim(&[ex], &[ey], 1.0), 0.0);
    assert_eq!(sim(&[ex, ey], &[ex, ex], 1.0), 1.0 / 2.0);
    assert_eq!(sim(&[ex, ey], &[ey, ey], 1.0), 1.0 / 2.0);
    assert_eq!(sim(&[ex, ey], &[ex, ex], 0.0), 5.0 / 8.0);
    assert_eq!(sim(&[ex, ey], &[ey, ey], 0.0), 5.0 / 8.0);
    assert_eq!(sim(&[ex, ex, ey], &[ex, ey, ey], 0.0), 1.0);
    assert_eq!(sim(&[ex, ex, ex, ey], &[ex, ey, ey, ey], 0.0), 1.0);
    assert_eq!(sim(&[ex, ex, ey], &[ex, ey, ey], 1.0), 2.0 / 3.0);
    assert_eq!(sim(&[ex, ex, ey], &[ex, ey, ey], 0.25), 2.5 / 3.0);
}

#[test]
fn similarity_exact_ratios() {
    let r = tangents_similarity(&[EX, EX, EY], &[EX, EY, EY], pen(0.25));
    assert_eq!(r.den, 4 * UNIT * UNIT * 3);
    assert_eq!(r.num * 6, r.den * 5);
    let r = tangents_similarity(&[EX, EY], &[EX, EX], pen(0.0));
    assert_eq!(r.num * 8, r.den * 5);
}

#[test]
fn similarity_self_is_one() {
    let d = Vec2 { x: 2457, y: 3276 }; // just under 0.6, 0.8 of a unit
    let a = [EX, EY, Vec2 { x: -UNIT, y: 0 }, EX];
    for p in [0.0, 0.25, 1.0, 3.0] {
        assert_eq!(sim(&a, &a, p), 1.0);
    }
    let r = tangents_similarity(&[d, EX], &[d, EX], 0);
    assert!(r.num <= r.den);
}

#[test]
fn similarity_is_symmetric() {
    let a = [EX, EY, EY, Vec2 { x: 0, y: -UNIT }];
    let b = [EY, EX];
    for p in [0.0, 0.25, 1.0] {
        assert_eq!(
            tangents_similarity(&a, &b, pen(p)),
            tangents_similarity(&b, &a, pen(p))
        );
    }
}

#[test]
fn similarity_bounded() {
    let a = [EX, EY, Vec2 { x: -UNIT, y: 0 }];
    let b = [Vec2 { x: -UNIT, y: 0 }, Vec2 { x: 0, y: -UNIT }, EX, EX];
    for p in [0.0, 0.25, 0.5] {
        let v = sim(&a, &b, p);
        assert!((-1.0..=1.0).contains(&v));
    }
    // Opposite profiles of equal length score exactly minus one.
    assert_eq!(sim(&[EX, EX], &[Vec2 { x: -UNIT, y: 0 }; 2], 1.0), -1.0);
}

#[test]
fn similarity_bound_fails_for_large_penalty() {
    // Unequal lengths and a penalty above half a unit squared can leave
    // [-1, 1].
    let v = sim(&[EX], &[Vec2 { x: -UNIT, y: 0 }; 3], 1.0);
    assert_eq!(v, -4.0 / 3.0);
}

#[test]
fn similarity_penalty_monotone() {
    let a = [EX, EX, EY];
    let b = [EX, EY];
    let mut last = f64::INFINITY;
    for p in [0.0, 0.1, 0.25, 0.5, 1.0, 2.0] {
        let v = sim(&a, &b, p);
        assert!(v <= last);
        last = v;
    }
    assert!(sim(&a, &b, 1.0) < sim(&a, &b, 0.0));
}
