use mimizu::{stroke_len, tangents_from_stroke, Vec2, UNIT};

const S: i64 = 1024;

fn p(x: i64, y: i64) -> Vec2 {
    Vec2 { x: x * S, y: y * S }
}

fn t(x: i64, y: i64) -> Vec2 {
    Vec2 { x, y }
}

#[test]
fn test_tangents_from_stroke() {
    let e00 = p(0, 0);
    let e10 = p(1, 0);
    let e11 = p(1, 1);
    let m10 = p(-1, 0);
    let ux = t(UNIT, 0);
    let uy = t(0, UNIT);
    assert_eq!(tangents_from_stroke(&[e00, e10], 1), vec![ux; 1]);
    assert_eq!(tangents_from_stroke(&[e00, e10], 2), vec![ux; 2]);
    assert_eq!(tangents_from_stroke(&[e00, e10], 4), vec![ux; 4]);
    assert_eq!(tangents_from_stroke(&[m10, e00, e10], 1), vec![ux; 1]);
    assert_eq!(tangents_from_stroke(&[m10, e00, e10], 2), vec![ux; 2]);
    assert_eq!(tangents_from_stroke(&[m10, e00, e10], 4), vec![ux; 4]);
    let line = [e00, e10, p(2, 0), p(3, 0)];
    assert_eq!(tangents_from_stroke(&line, 1), vec![ux; 1]);
    assert_eq!(tangents_from_stroke(&line, 2), vec![ux; 2]);
    assert_eq!(tangents_from_stroke(&line, 4), vec![ux; 4]);
    assert_eq!(tangents_from_stroke(&[e00, e10, e11], 1), vec![uy]);
    assert_eq!(tangents_from_stroke(&[e00, e10, e11], 2), vec![ux, uy]);
    assert_eq!(tangents_from_stroke(&[e00, e10, e11], 4), vec![ux, ux, uy, uy]);
}

#[test]
fn resample_straight_segment() {
    assert_eq!(tangents_from_stroke(&[p(0, 0), p(1, 0)], 2), vec![t(UNIT, 0); 2]);
}

#[test]
fn resample_corner() {
    assert_eq!(
        tangents_from_stroke(&[p(0, 0), p(1, 0), p(1, 1)], 2),
        vec![t(UNIT, 0), t(0, UNIT)]
    );
}

#[test]
fn resample_has_n_entries() {
    let s = [p(0, 0), p(3, 4), p(3, 9), p(-2, 9)];
    for n in [1, 2, 3, 7, 64] {
        assert_eq!(tangents_from_stroke(&s, n).len(), n);
    }
    assert_eq!(tangents_from_stroke(&s, 0).len(), 0);
}

#[test]
fn resample_degenerate_is_empty() {
    assert!(tangents_from_stroke(&[], 64).is_empty());
    assert!(tangents_from_stroke(&[p(2, 3)], 64).is_empty());
    assert!(tangents_from_stroke(&[p(2, 3), p(2, 3), p(2, 3)], 64).is_empty());
}

#[test]
fn resample_doubled_density() {
    // Every segment has an exact length, so inserting midpoints changes
    // nothing.
    let s = [p(0, 0), p(6, 8), p(6, 0), p(0, 0)];
    let d = [
        p(0, 0),
        p(3, 4),
        p(6, 8),
        p(6, 4),
        p(6, 0),
        p(3, 0),
        p(0, 0),
    ];
    for n in [1, 5, 16, 64] {
        assert_eq!(tangents_from_stroke(&s, n), tangents_from_stroke(&d, n));
    }
}

#[test]
fn stroke_length_values() {
    assert_eq!(stroke_len(&[]), 0);
    assert_eq!(stroke_len(&[p(1, 1)]), 0);
    assert_eq!(stroke_len(&[p(0, 0), p(3, 4), p(3, 0)]), 9 * S as u64);
    // Segments are measured to a fine fraction of a unit before summing.
    assert_eq!(stroke_len(&[t(0, 0), t(1, 1)]), 1);
    assert_eq!(stroke_len(&[t(0, 0), t(1, 1), t(2, 2), t(3, 3)]), 4);
    assert_eq!(stroke_len(&[t(0, 0), t(1, 1), t(2, 2), t(3, 3), t(4, 4), t(5, 5), t(6, 6)]), 8);
}

#[test]
fn tangents_are_unit_directions() {
    // A diagonal step of length five (3, 4) gives the direction (0.6, 0.8).
    let s = [p(0, 0), p(3, 4)];
    assert_eq!(tangents_from_stroke(&s, 3), vec![t(2457, 3276); 3]);
    // A step whose length is not whole is scaled by its length rounded up.
    for v in tangents_from_stroke(&[p(0, 0), p(7, 3), p(-5, 11)], 16) {
        assert!(v.x * v.x + v.y * v.y <= UNIT * UNIT);
        assert!(v.x * v.x + v.y * v.y > (UNIT - 2) * (UNIT - 2));
    }
}

#[test]
fn profile_ignores_size_and_position() {
    let small = tangents_from_stroke(&[t(0, 0), t(1, 1)], 1);
    assert_eq!(small, vec![t(2896, 2896)]);
    assert_eq!(tangents_from_stroke(&[t(0, 0), t(4, 4)], 1), small);
    assert_eq!(tangents_from_stroke(&[t(7, -3), t(11, 1)], 1), small);
    assert_eq!(tangents_from_stroke(&[p(0, 0), p(1, 1)], 1), small);
}

#[test]
fn checkpoints_at_interval_midpoints() {
    // Three quarters of the length lie in the first segment.
    let s = [p(0, 0), p(3, 0), p(3, 1)];
    assert_eq!(tangents_from_stroke(&s, 3), vec![t(UNIT, 0), t(UNIT, 0), t(0, UNIT)]);
    // A checkpoint at the very end of a segment belongs to the next one.
    assert_eq!(tangents_from_stroke(&s, 2), vec![t(UNIT, 0), t(0, UNIT)]);
    assert_eq!(tangents_from_stroke(&s, 4), vec![t(UNIT, 0), t(UNIT, 0), t(UNIT, 0), t(0, UNIT)]);
}
