use mimizu::graffiti::to_ascii_upper;
use mimizu::{
    stroke_from_bytes, Glyph, GraffitiMode, GraffitiModifier, GraffitiRecognizer, Recognizer,
    Vec2,
};

const GRID: i64 = 1024;

/// A glyph byte: high nibble x, low nibble y.
fn b(x: u8, y: u8) -> u8 {
    (x << 4) | y
}

fn glyph(label: char, points: &[(u8, u8)]) -> Glyph {
    Glyph { label, stroke: points.iter().map(|&(x, y)| b(x, y)).collect() }
}

fn stroke(points: &[(u8, u8)]) -> Vec<Vec2> {
    stroke_from_bytes(&points.iter().map(|&(x, y)| b(x, y)).collect::<Vec<u8>>())
}

const RIGHT: [(u8, u8); 2] = [(0, 8), (15, 8)];
const LEFT: [(u8, u8); 2] = [(15, 8), (0, 8)];
const DOWN: [(u8, u8); 2] = [(8, 0), (8, 15)];
const UP: [(u8, u8); 2] = [(8, 15), (8, 0)];
const CORNER: [(u8, u8); 3] = [(15, 15), (0, 15), (0, 0)];

/// Letters: 'a' is a stroke to the right, 'N' (to number mode) a stroke up,
/// 'C' (caps) a stroke left then up. Digits: '1' is a stroke down, 'A' (to letter mode) a
/// stroke to the left. Symbols: '!' is a stroke down.
fn recognizer() -> GraffitiRecognizer {
    let alphabets = vec![glyph('a', &RIGHT), glyph('N', &UP), glyph('C', &CORNER)];
    let numbers = vec![glyph('1', &DOWN), glyph('A', &LEFT)];
    let symbols = vec![glyph('!', &DOWN)];
    GraffitiRecognizer::new(100, &alphabets, &numbers, &symbols)
}

#[test]
fn decode_glyph_bytes() {
    assert_eq!(
        stroke_from_bytes(&[0x00, 0xf3, 0x1e]),
        vec![
            Vec2 { x: 0, y: 0 },
            Vec2 { x: 15 * GRID, y: 3 * GRID },
            Vec2 { x: GRID, y: 14 * GRID }
        ]
    );
    assert!(stroke_from_bytes(&[]).is_empty());
}

#[test]
fn end_to_end_modes() {
    let mut g = recognizer();
    assert_eq!(g.mode(), GraffitiMode::Alphabet);
    // The digit stroke means nothing among letters.
    assert_eq!(g.recognize(&stroke(&DOWN)), None);
    assert_eq!(g.modifier(), GraffitiModifier::Plain);
    assert_eq!(g.recognize(&stroke(&UP)), None);
    assert_eq!(g.mode(), GraffitiMode::Number);
    assert_eq!(g.modifier(), GraffitiModifier::Plain);
    assert_eq!(g.recognize(&stroke(&DOWN)), Some('1'));
    assert_eq!(g.modifier(), GraffitiModifier::Plain);
    assert_eq!(g.recognize(&stroke(&LEFT)), None);
    assert_eq!(g.mode(), GraffitiMode::Alphabet);
    assert_eq!(g.recognize(&stroke(&RIGHT)), Some('a'));
    assert_eq!(g.modifier(), GraffitiModifier::Plain);
}

#[test]
fn tap_then_tap_emits_one_period() {
    let mut g = recognizer();
    let tap = [Vec2 { x: 500, y: 500 }, Vec2 { x: 530, y: 540 }];
    assert_eq!(g.recognize(&tap), None);
    assert_eq!(g.modifier(), GraffitiModifier::Symbol);
    assert_eq!(g.recognize(&tap), Some('.'));
    assert_eq!(g.modifier(), GraffitiModifier::Plain);
    assert_eq!(g.recognize(&tap), None);
    assert_eq!(g.modifier(), GraffitiModifier::Symbol);
}

#[test]
fn symbol_escape_uses_symbols() {
    let mut g = recognizer();
    assert_eq!(g.recognize(&[Vec2 { x: 0, y: 0 }]), None);
    assert_eq!(g.modifier(), GraffitiModifier::Symbol);
    assert_eq!(g.recognize(&stroke(&DOWN)), Some('!'));
    assert_eq!(g.modifier(), GraffitiModifier::Plain);
    assert_eq!(g.mode(), GraffitiMode::Alphabet);
}

#[test]
fn empty_stroke_changes_nothing() {
    let mut g = recognizer();
    assert_eq!(g.recognize(&[]), None);
    assert_eq!(g.modifier(), GraffitiModifier::Plain);
    assert_eq!(g.mode(), GraffitiMode::Alphabet);
}

#[test]
fn caps_toggles_and_capitalizes_once() {
    let mut g = recognizer();
    assert_eq!(g.recognize(&stroke(&CORNER)), None);
    assert_eq!(g.modifier(), GraffitiModifier::Caps);
    assert_eq!(g.recognize(&stroke(&CORNER)), None);
    assert_eq!(g.modifier(), GraffitiModifier::Plain);
    assert_eq!(g.recognize(&stroke(&CORNER)), None);
    assert_eq!(g.recognize(&stroke(&RIGHT)), Some('A'));
    assert_eq!(g.modifier(), GraffitiModifier::Plain);
    assert_eq!(g.recognize(&stroke(&RIGHT)), Some('a'));
}

#[test]
fn no_match_keeps_state() {
    let mut g = recognizer();
    assert_eq!(g.recognize(&stroke(&DOWN)), None);
    assert_eq!(g.mode(), GraffitiMode::Alphabet);
    assert_eq!(g.modifier(), GraffitiModifier::Plain);
}

#[test]
fn ascii_upper_values() {
    assert_eq!(to_ascii_upper('a'), 'A');
    assert_eq!(to_ascii_upper('z'), 'Z');
    assert_eq!(to_ascii_upper('Q'), 'Q');
    assert_eq!(to_ascii_upper('1'), '1');
}

#[test]
fn recognizer_picks_best_and_first_on_ties() {
    let mut r = Recognizer::new(16);
    r.add_template(&stroke(&RIGHT));
    r.add_template(&stroke(&DOWN));
    r.add_template(&stroke(&RIGHT));
    assert_eq!(r.recognize(&stroke(&RIGHT)), Some(0));
    assert_eq!(r.recognize(&stroke(&DOWN)), Some(1));
    assert_eq!(r.recognize(&stroke(&LEFT)), None);
    assert_eq!(r.recognize(&[]), None);
    let all = r.recognize_all(&stroke(&RIGHT));
    assert_eq!(all.len(), 3);
    assert_eq!(all[0].num, all[0].den);
    assert_eq!(all[1].num, 0);
    let none = r.recognize_all(&[Vec2 { x: 3, y: 3 }]);
    assert!(none.iter().all(|s| s.num == -1 && s.den == 1));
}

#[test]
fn own_stroke_matches_its_template() {
    let mut r = Recognizer::new(1);
    let a = [Vec2 { x: 0, y: 0 }, Vec2 { x: 1, y: 1 }];
    let b = [Vec2 { x: 0, y: 0 }, Vec2 { x: 4, y: 4 }];
    r.add_template(&a);
    r.add_template(&b);
    assert_eq!(r.recognize(&a), Some(0));
    let all = r.recognize_all(&a);
    assert_eq!(all[0], all[1]);
    assert!(all[0].num * 1000 > all[0].den * 999);
}
