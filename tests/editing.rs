use mimizu::chatbox::osc_str;
use mimizu::keyboard::{emulate_key, KeyEvent, KEYEVENTF_KEYUP, KEYEVENTF_UNICODE, VK_BACK};
use mimizu::model::{CharClass, Model, TextBuffer};
use mimizu::tracking::{
    hand_step, pressed_count, toggles_activation, GateStep, HandAction, VrGate,
};
use mimizu::ui::Ui;
use mimizu::{stroke_from_bytes, Glyph, GraffitiMode, GraffitiRecognizer, Vec2};

#[test]
fn osc_strings_are_padded() {
    let mut buf = Vec::new();
    osc_str(&mut buf, b"/chatbox/input");
    assert_eq!(buf, b"/chatbox/input\0\0".to_vec());
    osc_str(&mut buf, b",sT");
    assert_eq!(buf.len(), 20);
    assert_eq!(&buf[16..], b",sT\0");
    let mut b2 = Vec::new();
    osc_str(&mut b2, b"abcd");
    assert_eq!(b2, b"abcd\0\0\0\0".to_vec());
}

#[test]
fn key_events() {
    let (d, u) = emulate_key('\u{8}');
    assert_eq!(d, KeyEvent { vk: VK_BACK, scan: 0, flags: 0 });
    assert_eq!(u.flags, KEYEVENTF_KEYUP);
    let (d, u) = emulate_key('x');
    assert_eq!(d, KeyEvent { vk: 0, scan: 'x' as u16, flags: KEYEVENTF_UNICODE });
    assert_eq!(u.flags, KEYEVENTF_UNICODE | KEYEVENTF_KEYUP);
    assert_eq!(emulate_key('\u{2190}').0.vk, 37);
    assert_eq!(emulate_key('\n').0.vk, 13);
}

#[test]
fn text_editing() {
    let mut t = TextBuffer::new();
    for c in "abc".chars() {
        t.type_char(c);
    }
    t.type_char('\u{2190}');
    t.type_char('X');
    assert_eq!(t.text_l(), vec!['a', 'b', 'X']);
    assert_eq!(t.text_r(), vec!['c']);
    t.type_char('\u{8}');
    t.type_char('\u{8}');
    assert_eq!(t.text_l(), vec!['a']);
    t.type_char('\u{2192}');
    t.type_char('\u{2192}');
    t.type_char('\u{2192}');
    assert_eq!(t.text_l(), vec!['a', 'c']);
    assert!(t.text_r().is_empty());
    t.type_char('\n');
    assert!(t.text_l().is_empty() && t.text_r().is_empty());
    t.type_char('\u{8}');
    t.type_char('\u{2190}');
    assert!(t.text_l().is_empty());
}

#[test]
fn controller_gating() {
    assert_eq!(pressed_count(0), 0);
    assert_eq!(pressed_count(1 << 2), 1);
    assert_eq!(pressed_count((1 << 2) | (1 << 33) | 1), 2);
    assert!(toggles_activation((2, 1), (2, 2)));
    assert!(!toggles_activation((2, 2), (2, 2)));
    assert_eq!(
        hand_step(0, 1, None),
        (HandAction::Start(GraffitiMode::Alphabet), Some(GraffitiMode::Alphabet))
    );
    assert_eq!(
        hand_step(1, 2, Some(GraffitiMode::Alphabet)),
        (HandAction::Start(GraffitiMode::Number), Some(GraffitiMode::Number))
    );
    assert_eq!(
        hand_step(2, 2, Some(GraffitiMode::Number)),
        (HandAction::Extend, Some(GraffitiMode::Number))
    );
    assert_eq!(
        hand_step(2, 0, Some(GraffitiMode::Number)),
        (HandAction::Finish(GraffitiMode::Number), None)
    );
    assert_eq!(hand_step(1, 0, None), (HandAction::Idle, None));
}

#[test]
fn indicator_marks() {
    let mut g = GraffitiRecognizer::new(100, &[], &[], &[]);
    let ui = Ui::new();
    assert_eq!(ui.indicator(&g), ' ');
    g.recognize(&[Vec2 { x: 0, y: 0 }]);
    assert_eq!(ui.indicator(&g), '.');
}

#[test]
fn model_feeds_text() {
    let right = vec![0x08u8, 0xf8];
    let g = GraffitiRecognizer::new(
        100,
        &[Glyph { label: 'k', stroke: right.clone() }],
        &[],
        &[],
    );
    let mut m = Model::new(g);
    let s = stroke_from_bytes(&right);
    m.feed_stroke(&s);
    m.feed_stroke(&[Vec2 { x: 0, y: 0 }]);
    m.feed_stroke(&s);
    assert_eq!(m.new_chars, vec!['k']);
    assert_eq!(m.text_l(), vec!['k']);
    m.feed_stroke(&stroke_from_bytes(&[0x00, 0x07, 0x70, 0x77]));
    assert_eq!(m.text_l(), vec!['k']);
    m.char_class = CharClass::Hiragana;
    assert!(m.text_r().is_empty());
}

#[test]
fn gating_both_hands() {
    let grip = 1u64 << 2;
    let both = (1u64 << 2) | (1u64 << 33);
    let mut gate = VrGate::new();
    let r = gate.update((both, both), false);
    assert_eq!(r, GateStep { active: true, left: HandAction::Discard, right: HandAction::Discard });
    // Still holding everything does not toggle again.
    let r = gate.update((both, both), true);
    assert_eq!(r.active, true);
    assert_eq!(r.left, HandAction::Idle);
    let r = gate.update((0, 0), true);
    assert_eq!(r.left, HandAction::Idle);
    let r = gate.update((grip, 0), true);
    assert_eq!(r.left, HandAction::Start(GraffitiMode::Alphabet));
    assert_eq!(r.right, HandAction::Idle);
    let r = gate.update((grip, 0), true);
    assert_eq!(r.left, HandAction::Extend);
    let r = gate.update((0, 0), true);
    assert_eq!(r.left, HandAction::Finish(GraffitiMode::Alphabet));
    let r = gate.update((grip, grip), false);
    assert_eq!(r, GateStep { active: false, left: HandAction::Idle, right: HandAction::Idle });
}
