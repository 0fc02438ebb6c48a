//! Single-stroke gesture recognition over fixed-point strokes: tangent
//! profiles, an elastic similarity score, template matching and the
//! letter/number input state machine.
use vstd::prelude::*;

pub mod chatbox;
pub mod geometry;
pub mod graffiti;
pub mod keyboard;
pub mod model;
pub mod profile;
pub mod projector;
pub mod recognizer;
pub mod similarity;
pub mod tracking;
pub mod ui;

pub use crate::geometry::{Vec2, UNIT};
pub use crate::graffiti::{
    stroke_from_bytes, Glyph, GraffitiMode, GraffitiModifier, GraffitiRecognizer,
};
pub use crate::profile::{stroke_len, tangents_from_stroke};
pub use crate::recognizer::Recognizer;
pub use crate::similarity::{tangents_similarity, Ratio};

verus! {

} // verus!
