//! What the text display shows besides the text.
use vstd::prelude::*;
use crate::graffiti::{GraffitiMode, GraffitiModifier, GraffitiRecognizer};

verus! {

/// The display of the typed text.
pub struct Ui {}

/// The mark shown at the cursor for a mode and modifier: a period while a
/// symbol escape is pending, a caret while a capital is, a hash in number
/// mode, else a space.
pub open spec fn indicator_spec(mode: GraffitiMode, modifier: GraffitiModifier) -> char {
    match modifier {
        GraffitiModifier::Symbol => '.',
        GraffitiModifier::Caps => '^',
        GraffitiModifier::Plain => match mode {
            GraffitiMode::Number => '#',
            GraffitiMode::Alphabet => ' ',
        },
    }
}

impl Ui {
    pub fn new() -> (r: Self) {
        Ui {  }
    }

    /// The mark for the recognizer's current mode and modifier.
    pub fn indicator(&self, recognizer: &GraffitiRecognizer) -> (r: char)
        ensures
            r == indicator_spec(recognizer.mode_spec(), recognizer.modifier_spec()),
    {
        match recognizer.modifier() {
            GraffitiModifier::Symbol => '.',
            GraffitiModifier::Caps => '^',
            GraffitiModifier::Plain => match recognizer.mode() {
                GraffitiMode::Number => '#',
                GraffitiMode::Alphabet => ' ',
            },
        }
    }
}

} // verus!
