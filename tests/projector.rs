use mimizu::model::{translate, CharClass};
use mimizu::projector::{StrokeProjector, Sym3, Vec3};
use mimizu::{Vec2, UNIT};

fn v(x: i64, y: i64, z: i64) -> Vec3 {
    Vec3 { x, y, z }
}

fn projector(points: &[Vec3]) -> StrokeProjector {
    let mut p = StrokeProjector::new();
    for &q in points {
        p.feed(q, v(0, 2 * UNIT, 0), v(0, 0, 3 * UNIT));
    }
    p
}

#[test]
fn scatter_about_mean() {
    let p = projector(&[v(0, 0, 5), v(2, 0, 5), v(2, 2, 5)]);
    assert_eq!(p.len(), 3);
    assert_eq!(p.scatter(), Sym3 { xx: 8, xy: 4, xz: 0, yy: 8, yz: 0, zz: 0 });
}

#[test]
fn plane_matrix_steadied_across_front() {
    let p = projector(&[v(0, 0, 5), v(2, 0, 5), v(2, 2, 5)]);
    let u2 = (UNIT * UNIT) as i128;
    assert_eq!(
        p.plane_matrix(),
        Sym3 { xx: 400 * u2, xy: 192 * u2, xz: 0, yy: 400 * u2, yz: 0, zz: 0 }
    );
}

#[test]
fn straight_stroke_gets_full_rank_matrix() {
    // A straight stroke alone leaves two zero eigenvalues; the front hint
    // lifts the in-plane one.
    let p = projector(&[v(0, 0, 0), v(4, 0, 0), v(8, 0, 0)]);
    let m = p.plane_matrix();
    assert!(m.yy > 0 && m.xx > m.yy);
    assert_eq!(m.zz, 0);
}

#[test]
fn projection_onto_plane() {
    let m = 65536;
    let p = projector(&[v(0, 0, 7), v(m, 0, 7), v(m, m, 7)]);
    let expected = vec![Vec2 { x: 0, y: 0 }, Vec2 { x: m, y: 0 }, Vec2 { x: m, y: m }];
    assert_eq!(p.stroke(v(0, 0, UNIT)), expected);
    // The normal is turned away from the front hint first.
    assert_eq!(p.stroke(v(0, 0, -UNIT)), expected);
    // A normal along the up hint falls back to the x axis crossed with it.
    assert_eq!(
        p.stroke(v(0, UNIT, 0)),
        vec![Vec2 { x: 7, y: 0 }, Vec2 { x: 7, y: m }, Vec2 { x: 7, y: m }]
    );
}

#[test]
fn clear_forgets_everything() {
    let mut p = projector(&[v(1, 2, 3), v(4, 5, 6)]);
    p.clear();
    assert_eq!(p.len(), 0);
    assert_eq!(p.scatter(), Sym3 { xx: 0, xy: 0, xz: 0, yy: 0, yz: 0, zz: 0 });
}

#[test]
fn hiragana_display() {
    let ka: Vec<char> = "ka".chars().collect();
    assert_eq!(translate(CharClass::Latin, &ka), ka);
    assert_eq!(translate(CharClass::Hiragana, &ka), vec!['\u{304b}']);
    assert!(translate(CharClass::Hiragana, &[]).is_empty());
    // A halfwidth sound mark keeps the text as it is.
    let mark = vec!['k', 'a', '\u{ff9e}'];
    assert_eq!(translate(CharClass::Hiragana, &mark), mark);
}
