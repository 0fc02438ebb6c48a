//! Values exchanged with the tracking runtime, and the controller-button
//! gating that decides when a hand starts, extends and finishes a stroke.
use vstd::prelude::*;
use crate::graffiti::GraffitiMode;

verus! {

/// Button bit of the grip.
pub const BUTTON_MASK_GRIP: u64 = 4;

/// Button bit of the trigger.
pub const BUTTON_MASK_TRIGGER: u64 = 8589934592;

/// Overlay flag telling the runtime that the texture has premultiplied alpha.
pub const OVERLAY_FLAGS_IS_PREMULTIPLIED: u32 = 2097152;

/// Kind of application registered with the runtime.
#[derive(Clone, Copy, PartialEq, Eq, Debug, Structural)]
pub enum ApplicationType {
    Overlay,
}

impl ApplicationType {
    /// The value the runtime expects.
    pub fn code(self) -> (r: i32)
        ensures
            r == 2,
    {
        match self {
            ApplicationType::Overlay => 2,
        }
    }
}

/// Origin of the tracking space.
#[derive(Clone, Copy, PartialEq, Eq, Debug, Structural)]
pub enum TrackingUniverseOrigin {
    Standing,
}

impl TrackingUniverseOrigin {
    /// The value the runtime expects.
    pub fn code(self) -> (r: i32)
        ensures
            r == 1,
    {
        match self {
            TrackingUniverseOrigin::Standing => 1,
        }
    }
}

/// Which hand a controller is held in.
#[derive(Clone, Copy, PartialEq, Eq, Debug, Structural)]
pub enum TrackedControllerRole {
    LeftHand,
    RightHand,
}

impl TrackedControllerRole {
    /// The value the runtime expects.
    pub fn code(self) -> (r: i32)
        ensures
            r == (match self {
                TrackedControllerRole::LeftHand => 1i32,
                TrackedControllerRole::RightHand => 2i32,
            }),
    {
        match self {
            TrackedControllerRole::LeftHand => 1,
            TrackedControllerRole::RightHand => 2,
        }
    }
}

/// Graphics interface a texture belongs to.
#[derive(Clone, Copy, PartialEq, Eq, Debug, Structural)]
pub enum TextureType {
    OpenGL,
}

impl TextureType {
    /// The value the runtime expects.
    pub fn code(self) -> (r: i32)
        ensures
            r == 1,
    {
        match self {
            TextureType::OpenGL => 1,
        }
    }
}

/// Color space of a texture.
#[derive(Clone, Copy, PartialEq, Eq, Debug, Structural)]
pub enum ColorSpace {
    Auto,
}

impl ColorSpace {
    /// The value the runtime expects.
    pub fn code(self) -> (r: i32)
        ensures
            r == 0,
    {
        match self {
            ColorSpace::Auto => 0,
        }
    }
}

/// A texture handed to an overlay.
#[derive(Clone, Copy, PartialEq, Eq, Debug, Structural)]
pub struct Texture {
    pub handle: usize,
    pub type_: TextureType,
    pub color_space: ColorSpace,
}

/// How many of the grip and the trigger a button state holds pressed.
pub open spec fn pressed_spec(buttons: u64) -> int {
    (if buttons & BUTTON_MASK_GRIP != 0 { 1int } else { 0int }) + (if buttons & BUTTON_MASK_TRIGGER
        != 0 {
        1int
    } else {
        0int
    })
}

/// How many of the grip and the trigger are pressed.
pub fn pressed_count(buttons: u64) -> (r: u32)
    ensures
        r == pressed_spec(buttons),
        r <= 2,
{
    let grip: u32 = if buttons & BUTTON_MASK_GRIP != 0 { 1 } else { 0 };
    let trigger: u32 = if buttons & BUTTON_MASK_TRIGGER != 0 { 1 } else { 0 };
    grip + trigger
}

/// Whether pressing everything on both hands toggles recognition on or
/// off: both hands now press grip and trigger, and one of them did not
/// before.
pub fn toggles_activation(prev: (u32, u32), now: (u32, u32)) -> (r: bool)
    ensures
        r == (now.0 == 2 && now.1 == 2 && (prev.0 < 2 || prev.1 < 2)),
{
    now.0 == 2 && now.1 == 2 && (prev.0 < 2 || prev.1 < 2)
}

/// What one hand does with its stroke on a frame.
#[derive(Clone, Copy, PartialEq, Eq, Debug, Structural)]
pub enum HandAction {
    /// Nothing is drawn.
    Idle,
    /// A new stroke starts in the given mode from the pose at the press.
    Start(GraffitiMode),
    /// The stroke goes on with the current pose.
    Extend,
    /// The stroke ends with the pose at the release and is recognized in the
    /// given mode.
    Finish(GraffitiMode),
    /// The stroke in progress, if any, is dropped.
    Discard,
}

/// The action of one hand and its stroke mode afterwards, from the number of
/// buttons pressed before and now, and the mode of the stroke in progress.
///
/// Pressing more buttons starts a stroke, in letter mode for one button and
/// in number mode for two; releasing one finishes the stroke in progress;
/// holding them extends it.
pub open spec fn hand_step_spec(prev: u32, now: u32, mode: Option<GraffitiMode>) -> (
    HandAction,
    Option<GraffitiMode>,
) {
    if now < prev {
        match mode {
            Some(m) => (HandAction::Finish(m), None),
            None => (HandAction::Idle, None),
        }
    } else if now > prev {
        let m = if now == 1 {
            GraffitiMode::Alphabet
        } else {
            GraffitiMode::Number
        };
        (HandAction::Start(m), Some(m))
    } else {
        match mode {
            Some(m) => (HandAction::Extend, Some(m)),
            None => (HandAction::Idle, None),
        }
    }
}

/// One hand's step of the stroke gating.
pub fn hand_step(prev: u32, now: u32, mode: Option<GraffitiMode>) -> (r: (
    HandAction,
    Option<GraffitiMode>,
))
    requires
        now <= 2,
    ensures
        r == hand_step_spec(prev, now, mode),
{
    if now < prev {
        match mode {
            Some(m) => (HandAction::Finish(m), None),
            None => (HandAction::Idle, None),
        }
    } else if now > prev {
        let m = if now == 1 {
            GraffitiMode::Alphabet
        } else {
            GraffitiMode::Number
        };
        (HandAction::Start(m), Some(m))
    } else {
        match mode {
            Some(m) => (HandAction::Extend, Some(m)),
            None => (HandAction::Idle, None),
        }
    }
}

/// The buttons a hand held on the last frame and the mode of its stroke in
/// progress.
#[derive(Clone, Copy, PartialEq, Eq, Debug, Structural)]
pub struct HandState {
    pub buttons: u32,
    pub mode: Option<GraffitiMode>,
}

/// Result of one frame of the gating: whether recognition is active
/// afterwards, and the action of each hand.
#[derive(Clone, Copy, PartialEq, Eq, Debug, Structural)]
pub struct GateStep {
    pub active: bool,
    pub left: HandAction,
    pub right: HandAction,
}

/// One frame of the gating of both hands, from their states, the buttons
/// they press now (at most two each) and whether recognition is active.
///
/// Pressing everything on both hands toggles recognition and drops both
/// strokes; otherwise, while active, each hand steps on its own. Every hand
/// remembers its buttons.
pub open spec fn gate_spec(left: HandState, right: HandState, now: (u32, u32), active: bool) -> (
    GateStep,
    HandState,
    HandState,
) {
    if now.0 == 2 && now.1 == 2 && (left.buttons < 2 || right.buttons < 2) {
        (
            GateStep { active: !active, left: HandAction::Discard, right: HandAction::Discard },
            HandState { buttons: now.0, mode: None },
            HandState { buttons: now.1, mode: None },
        )
    } else if active {
        let (la, lm) = hand_step_spec(left.buttons, now.0, left.mode);
        let (ra, rm) = hand_step_spec(right.buttons, now.1, right.mode);
        (
            GateStep { active, left: la, right: ra },
            HandState { buttons: now.0, mode: lm },
            HandState { buttons: now.1, mode: rm },
        )
    } else {
        (
            GateStep { active, left: HandAction::Idle, right: HandAction::Idle },
            HandState { buttons: now.0, mode: left.mode },
            HandState { buttons: now.1, mode: right.mode },
        )
    }
}

/// The gating state of both hands.
pub struct VrGate {
    pub left: HandState,
    pub right: HandState,
}

impl VrGate {
    /// Both hands released, with no stroke in progress.
    pub fn new() -> (r: Self)
        ensures
            r.left == (HandState { buttons: 0, mode: None }),
            r.right == (HandState { buttons: 0, mode: None }),
    {
        VrGate {
            left: HandState { buttons: 0, mode: None },
            right: HandState { buttons: 0, mode: None },
        }
    }

    /// Steps the gating with the button states of both controllers.
    pub fn update(&mut self, buttons: (u64, u64), active: bool) -> (r: GateStep)
        ensures
            (r, final(self).left, final(self).right) == gate_spec(
                old(self).left,
                old(self).right,
                (pressed_spec(buttons.0) as u32, pressed_spec(buttons.1) as u32),
                active,
            ),
    {
        let nl = pressed_count(buttons.0);
        let nr = pressed_count(buttons.1);
        if toggles_activation((self.left.buttons, self.right.buttons), (nl, nr)) {
            self.left = HandState { buttons: nl, mode: None };
            self.right = HandState { buttons: nr, mode: None };
            GateStep { active: !active, left: HandAction::Discard, right: HandAction::Discard }
        } else if active {
            let (la, lm) = hand_step(self.left.buttons, nl, self.left.mode);
            let (ra, rm) = hand_step(self.right.buttons, nr, self.right.mode);
            self.left = HandState { buttons: nl, mode: lm };
            self.right = HandState { buttons: nr, mode: rm };
            GateStep { active, left: la, right: ra }
        } else {
            self.left = HandState { buttons: nl, mode: self.left.mode };
            self.right = HandState { buttons: nr, mode: self.right.mode };
            GateStep { active, left: HandAction::Idle, right: HandAction::Idle }
        }
    }
}

} // verus!
