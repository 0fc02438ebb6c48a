//! Key events that type a recognized character.
use vstd::prelude::*;

verus! {

/// Virtual-key code of backspace.
pub const VK_BACK: u16 = 8;

/// Virtual-key code of return.
pub const VK_RETURN: u16 = 13;

/// Virtual-key code of the left arrow.
pub const VK_LEFT: u16 = 37;

/// Virtual-key code of the right arrow.
pub const VK_RIGHT: u16 = 39;

/// Event flag of a key release.
pub const KEYEVENTF_KEYUP: u32 = 2;

/// Event flag of a key given by its UTF-16 code unit.
pub const KEYEVENTF_UNICODE: u32 = 4;

/// Backspace, as emitted by the recognizer.
pub const BACKSPACE: char = '\u{8}';

/// Line feed, as emitted by the recognizer.
pub const NEWLINE: char = '\n';

/// Cursor left, as emitted by the recognizer.
pub const CURSOR_LEFT: char = '\u{2190}';

/// Cursor right, as emitted by the recognizer.
pub const CURSOR_RIGHT: char = '\u{2192}';

/// One keyboard event: a virtual key, or a UTF-16 code unit with the
/// unicode flag.
#[derive(Clone, Copy, PartialEq, Eq, Debug, Structural)]
pub struct KeyEvent {
    pub vk: u16,
    pub scan: u16,
    pub flags: u32,
}

/// The key press that types `ch`: a virtual key for the editing characters,
/// else the character's code unit.
pub open spec fn key_press(ch: char) -> KeyEvent {
    if ch == BACKSPACE {
        KeyEvent { vk: VK_BACK, scan: 0, flags: 0 }
    } else if ch == NEWLINE {
        KeyEvent { vk: VK_RETURN, scan: 0, flags: 0 }
    } else if ch == CURSOR_LEFT {
        KeyEvent { vk: VK_LEFT, scan: 0, flags: 0 }
    } else if ch == CURSOR_RIGHT {
        KeyEvent { vk: VK_RIGHT, scan: 0, flags: 0 }
    } else {
        KeyEvent { vk: 0, scan: ch as u16, flags: KEYEVENTF_UNICODE }
    }
}

/// The press and release events that type `ch`, a character of the basic
/// multilingual plane.
pub fn emulate_key(ch: char) -> (r: (KeyEvent, KeyEvent))
    requires
        (ch as u32) < 65536,
    ensures
        r.0 == key_press(ch),
        r.1 == (KeyEvent { flags: key_press(ch).flags | KEYEVENTF_KEYUP, ..key_press(ch) }),
{
    let down = if ch == BACKSPACE {
        KeyEvent { vk: VK_BACK, scan: 0, flags: 0 }
    } else if ch == NEWLINE {
        KeyEvent { vk: VK_RETURN, scan: 0, flags: 0 }
    } else if ch == CURSOR_LEFT {
        KeyEvent { vk: VK_LEFT, scan: 0, flags: 0 }
    } else if ch == CURSOR_RIGHT {
        KeyEvent { vk: VK_RIGHT, scan: 0, flags: 0 }
    } else {
        KeyEvent { vk: 0, scan: ch as u16, flags: KEYEVENTF_UNICODE }
    };
    let up = KeyEvent { vk: down.vk, scan: down.scan, flags: down.flags | KEYEVENTF_KEYUP };
    (down, up)
}

} // verus!
