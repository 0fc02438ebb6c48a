//! The input state machine: letter and number modes, the symbol escape and
//! the one-shot capital.
use vstd::prelude::*;
use crate::geometry::Vec2;
use crate::profile::{length_in_units, resample, stroke_len, valid_stroke, MAX_POINTS};
use crate::recognizer::{is_best, Recognizer};

verus! {

/// Which template set an ordinary stroke is matched against.
#[derive(Clone, Copy, PartialEq, Eq, Debug, Structural)]
pub enum GraffitiMode {
    Alphabet,
    Number,
}

/// A transient state that changes how the next stroke is read.
#[derive(Clone, Copy, PartialEq, Eq, Debug, Structural)]
pub enum GraffitiModifier {
    Plain,
    Symbol,
    Caps,
}

/// Label of the gesture that switches to number mode.
pub const SWITCH_TO_NUMBER: char = 'N';

/// Label of the gesture that switches to letter mode.
pub const SWITCH_TO_ALPHABET: char = 'A';

/// Label of the gesture that toggles the one-shot capital.
pub const TOGGLE_CAPS: char = 'C';

/// Character emitted by a tap that completes a symbol escape.
pub const PERIOD: char = '.';

/// `c` with an ASCII lower-case letter turned into upper case.
pub open spec fn ascii_upper(c: char) -> char {
    if 'a' <= c <= 'z' {
        ((c as u32) - 32) as char
    } else {
        c
    }
}

/// `c` in upper case where it is an ASCII lower-case letter.
pub fn to_ascii_upper(c: char) -> (r: char)
    ensures
        r == ascii_upper(c),
{
    if 'a' <= c && c <= 'z' {
        ((c as u32 - 32) as u8) as char
    } else {
        c
    }
}

/// Mode, modifier and emitted character after a tap.
///
/// A tap completes a pending symbol escape as a period; otherwise it starts
/// one.
pub open spec fn tap_step(mode: GraffitiMode, modifier: GraffitiModifier) -> (
    GraffitiMode,
    GraffitiModifier,
    Option<char>,
) {
    match modifier {
        GraffitiModifier::Symbol => (mode, GraffitiModifier::Plain, Some(PERIOD)),
        _ => (mode, GraffitiModifier::Symbol, None),
    }
}

/// Mode, modifier and emitted character after a stroke recognized as
/// `label`.
pub open spec fn label_step(mode: GraffitiMode, modifier: GraffitiModifier, label: char) -> (
    GraffitiMode,
    GraffitiModifier,
    Option<char>,
) {
    if label == SWITCH_TO_NUMBER {
        (GraffitiMode::Number, GraffitiModifier::Plain, None)
    } else if label == SWITCH_TO_ALPHABET {
        (GraffitiMode::Alphabet, GraffitiModifier::Plain, None)
    } else if label == TOGGLE_CAPS {
        (
            mode,
            if modifier == GraffitiModifier::Caps {
                GraffitiModifier::Plain
            } else {
                GraffitiModifier::Caps
            },
            None,
        )
    } else if modifier == GraffitiModifier::Caps {
        (mode, GraffitiModifier::Plain, Some(ascii_upper(label)))
    } else {
        (mode, GraffitiModifier::Plain, Some(label))
    }
}

/// The transition on a tap.
pub fn apply_tap(mode: GraffitiMode, modifier: GraffitiModifier) -> (r: (
    GraffitiMode,
    GraffitiModifier,
    Option<char>,
))
    ensures
        r == tap_step(mode, modifier),
{
    match modifier {
        GraffitiModifier::Symbol => (mode, GraffitiModifier::Plain, Some(PERIOD)),
        _ => (mode, GraffitiModifier::Symbol, None),
    }
}

/// The transition on a recognized label.
pub fn apply_label(mode: GraffitiMode, modifier: GraffitiModifier, label: char) -> (r: (
    GraffitiMode,
    GraffitiModifier,
    Option<char>,
))
    ensures
        r == label_step(mode, modifier, label),
{
    if label == SWITCH_TO_NUMBER {
        (GraffitiMode::Number, GraffitiModifier::Plain, None)
    } else if label == SWITCH_TO_ALPHABET {
        (GraffitiMode::Alphabet, GraffitiModifier::Plain, None)
    } else if label == TOGGLE_CAPS {
        let next = match modifier {
            GraffitiModifier::Caps => GraffitiModifier::Plain,
            _ => GraffitiModifier::Caps,
        };
        (mode, next, None)
    } else {
        match modifier {
            GraffitiModifier::Caps => (mode, GraffitiModifier::Plain, Some(to_ascii_upper(label))),
            _ => (mode, GraffitiModifier::Plain, Some(label)),
        }
    }
}

/// Only the caps toggle leaves a modifier pending after a label: every
/// other label clears it.
pub proof fn lemma_label_clears_modifier(mode: GraffitiMode, modifier: GraffitiModifier, label: char)
    requires
        label != TOGGLE_CAPS,
    ensures
        label_step(mode, modifier, label).1 == GraffitiModifier::Plain,
{
}

/// Two taps in a row, from any state without a pending symbol escape, emit
/// exactly one period and leave no modifier pending.
pub proof fn lemma_double_tap_period(mode: GraffitiMode, modifier: GraffitiModifier)
    requires
        modifier != GraffitiModifier::Symbol,
    ensures
        tap_step(mode, modifier).2 == None::<char>,
        tap_step(mode, tap_step(mode, modifier).1).2 == Some(PERIOD),
        tap_step(mode, tap_step(mode, modifier).1).1 == GraffitiModifier::Plain,
{
}

/// Scale of a glyph grid step in stroke coordinates.
pub const GLYPH_GRID: i64 = 1024;

/// The point that one byte of a glyph encodes: the high nibble is `x`, the
/// low nibble `y`, each in grid steps.
pub open spec fn glyph_point(b: u8) -> Vec2 {
    Vec2 { x: ((b / 16) * 1024) as i64, y: ((b % 16) * 1024) as i64 }
}

/// Decodes a glyph: one point per byte.
pub fn stroke_from_bytes(bytes: &[u8]) -> (r: Vec<Vec2>)
    ensures
        r@.len() == bytes@.len(),
        forall|k: int| 0 <= k < bytes@.len() ==> #[trigger] r@[k] == glyph_point(bytes@[k]),
{
    let mut dst: Vec<Vec2> = Vec::new();
    let mut k: usize = 0;
    while k < bytes.len()
        invariant
            k <= bytes@.len(),
            dst@.len() == k,
            forall|m: int| 0 <= m < k ==> #[trigger] dst@[m] == glyph_point(bytes@[m]),
        decreases bytes@.len() - k,
    {
        let b = bytes[k];
        dst.push(Vec2 { x: (b / 16) as i64 * GLYPH_GRID, y: (b % 16) as i64 * GLYPH_GRID });
        k = k + 1;
    }
    dst
}

/// A labelled glyph of the template library.
#[derive(Debug)]
pub struct Glyph {
    pub label: char,
    pub stroke: Vec<u8>,
}

/// The stroke a glyph decodes to.
pub open spec fn glyph_stroke(g: Glyph) -> Seq<Vec2> {
    Seq::new(g.stroke@.len(), |k: int| glyph_point(g.stroke@[k]))
}

/// Every glyph decodes to a stroke that the profiler accepts.
pub open spec fn valid_glyphs(glyphs: Seq<Glyph>) -> bool {
    forall|k: int| 0 <= k < glyphs.len() ==> (#[trigger] glyphs[k]).stroke@.len() <= MAX_POINTS
}

/// Templates for one category: a recognizer and the label of each template.
pub struct Category {
    recognizer: Recognizer,
    labels: Vec<char>,
}

impl Category {
    pub closed spec fn recognizer(self) -> Recognizer {
        self.recognizer
    }

    pub closed spec fn labels(self) -> Seq<char> {
        self.labels@
    }

    /// The recognizer is well formed with `SAMPLES` tangents per profile,
    /// and every template has a label.
    pub open spec fn wf(self) -> bool {
        &&& self.recognizer().wf()
        &&& self.recognizer().samples() == SAMPLES
        &&& self.labels().len() == self.recognizer().profiles().len()
    }

    /// The category holds the label and the profile of each glyph, in order.
    pub open spec fn holds_glyphs(self, glyphs: Seq<Glyph>) -> bool {
        &&& self.labels().len() == glyphs.len()
        &&& self.recognizer().profiles().len() == glyphs.len()
        &&& forall|k: int| 0 <= k < glyphs.len() ==> #[trigger] self.labels()[k] == glyphs[k].label
        &&& forall|k: int|
            0 <= k < glyphs.len() ==> #[trigger] self.recognizer().profiles()[k] == resample(
                glyph_stroke(glyphs[k]),
                SAMPLES as int,
            )
    }

    /// A category holding the profile of each glyph, in order.
    pub fn new(glyphs: &[Glyph]) -> (r: Self)
        requires
            valid_glyphs(glyphs@),
        ensures
            r.wf(),
            r.holds_glyphs(glyphs@),
    {
        let mut recognizer = Recognizer::new(SAMPLES);
        let mut labels: Vec<char> = Vec::new();
        let mut k: usize = 0;
        while k < glyphs.len()
            invariant
                valid_glyphs(glyphs@),
                k <= glyphs@.len(),
                recognizer.wf(),
                recognizer.samples() == SAMPLES,
                labels@.len() == k,
                recognizer.profiles().len() == k,
                forall|m: int| 0 <= m < k ==> #[trigger] labels@[m] == glyphs@[m].label,
                forall|m: int|
                    0 <= m < k ==> #[trigger] recognizer.profiles()[m] == resample(
                        glyph_stroke(glyphs@[m]),
                        SAMPLES as int,
                    ),
            decreases glyphs@.len() - k,
        {
            let stroke = stroke_from_bytes(&glyphs[k].stroke);
            proof {
                assert(glyphs@[k as int].stroke@.len() <= MAX_POINTS);
                assert forall|m: int| 0 <= m < stroke@.len() implies (#[trigger] stroke@[m]).in_range() by {
                    let b = glyphs@[k as int].stroke@[m];
                    assert(stroke@[m] == glyph_point(b));
                }
                assert(stroke@ =~= glyph_stroke(glyphs@[k as int]));
            }
            recognizer.add_template(&stroke);
            labels.push(glyphs[k].label);
            k = k + 1;
        }
        Category { recognizer, labels }
    }
}

/// Recognizes Graffiti-style single strokes and turns them into characters.
pub struct GraffitiRecognizer {
    alphabets: Category,
    numbers: Category,
    symbols: Category,
    tap_tolerance: u64,
    mode: GraffitiMode,
    modifier: GraffitiModifier,
}

/// Outcome of one stroke: the recognizer's mode, modifier and emitted
/// character move from `before` to `after`.
///
/// An empty stroke changes nothing; a stroke no longer than the tap
/// tolerance is a tap; any other stroke is matched against the active
/// category, and the best template's label is applied, or nothing changes
/// when no template scores above zero.
pub open spec fn stroke_outcome(
    g: GraffitiRecognizer,
    stroke: Seq<Vec2>,
    after: (GraffitiMode, GraffitiModifier, Option<char>),
) -> bool {
    let (mode, modifier) = (g.mode_spec(), g.modifier_spec());
    if stroke.len() == 0 {
        after == (mode, modifier, None::<char>)
    } else if length_in_units(stroke) <= g.tap_tolerance_spec() {
        after == tap_step(mode, modifier)
    } else {
        let cat = g.active(modifier, mode);
        exists|best: Option<usize>|
            is_best(cat.recognizer().scores(stroke), best) && match best {
                None => after == (mode, modifier, None::<char>),
                Some(i) => after == label_step(mode, modifier, cat.labels()[i as int]),
            }
    }
}

impl GraffitiRecognizer {
    pub closed spec fn mode_spec(self) -> GraffitiMode {
        self.mode
    }

    pub closed spec fn modifier_spec(self) -> GraffitiModifier {
        self.modifier
    }

    pub closed spec fn tap_tolerance_spec(self) -> int {
        self.tap_tolerance as int
    }

    /// The categories of letters, digits and symbols.
    pub closed spec fn categories(self) -> (Category, Category, Category) {
        (self.alphabets, self.numbers, self.symbols)
    }

    /// The category a stroke is matched against: symbols while an escape is
    /// pending, else the one of the mode.
    pub open spec fn active(self, modifier: GraffitiModifier, mode: GraffitiMode) -> Category {
        if modifier == GraffitiModifier::Symbol {
            self.categories().2
        } else if mode == GraffitiMode::Number {
            self.categories().1
        } else {
            self.categories().0
        }
    }

    /// Every category is well formed.
    pub open spec fn wf(self) -> bool {
        self.categories().0.wf() && self.categories().1.wf() && self.categories().2.wf()
    }

    /// A recognizer in letter mode with no modifier, holding the given glyph
    /// libraries.
    pub fn new(tap_tolerance: u64, alphabets: &[Glyph], numbers: &[Glyph], symbols: &[Glyph]) -> (r:
        Self)
        requires
            valid_glyphs(alphabets@),
            valid_glyphs(numbers@),
            valid_glyphs(symbols@),
        ensures
            r.wf(),
            r.mode_spec() == GraffitiMode::Alphabet,
            r.modifier_spec() == GraffitiModifier::Plain,
            r.tap_tolerance_spec() == tap_tolerance,
            r.categories().0.holds_glyphs(alphabets@),
            r.categories().1.holds_glyphs(numbers@),
            r.categories().2.holds_glyphs(symbols@),
    {
        GraffitiRecognizer {
            alphabets: Category::new(alphabets),
            numbers: Category::new(numbers),
            symbols: Category::new(symbols),
            tap_tolerance,
            mode: GraffitiMode::Alphabet,
            modifier: GraffitiModifier::Plain,
        }
    }

    /// Reads one stroke: returns the character it emits, if any, and
    /// updates the mode and modifier.
    pub fn recognize(&mut self, stroke: &[Vec2]) -> (r: Option<char>)
        requires
            old(self).wf(),
            valid_stroke(stroke@),
        ensures
            final(self).wf(),
            final(self).categories() == old(self).categories(),
            final(self).tap_tolerance_spec() == old(self).tap_tolerance_spec(),
            stroke_outcome(
                *old(self),
                stroke@,
                (final(self).mode_spec(), final(self).modifier_spec(), r),
            ),
    {
        if stroke.len() == 0 {
            return None;
        }
        if stroke_len(stroke) <= self.tap_tolerance {
            let (mode, modifier, out) = apply_tap(self.mode, self.modifier);
            self.mode = mode;
            self.modifier = modifier;
            return out;
        }
        let cat = match self.modifier {
            GraffitiModifier::Symbol => &self.symbols,
            _ => match self.mode {
                GraffitiMode::Alphabet => &self.alphabets,
                GraffitiMode::Number => &self.numbers,
            },
        };
        assert(*cat == old(self).active(old(self).modifier_spec(), old(self).mode_spec()));
        let best = cat.recognizer.recognize(stroke);
        let ghost scores = cat.recognizer().scores(stroke@);
        match best {
            None => {
                assert(is_best(scores, best) && best is None);
                None
            },
            Some(i) => {
                let label = cat.labels[i];
                let (mode, modifier, out) = apply_label(self.mode, self.modifier, label);
                self.mode = mode;
                self.modifier = modifier;
                assert(is_best(scores, best) && (mode, modifier, out) == label_step(
                    old(self).mode_spec(),
                    old(self).modifier_spec(),
                    cat.labels()[i as int],
                ));
                out
            },
        }
    }

    /// The current mode.
    pub fn mode(&self) -> (r: GraffitiMode)
        ensures
            r == self.mode_spec(),
    {
        self.mode
    }

    /// The current modifier.
    pub fn modifier(&self) -> (r: GraffitiModifier)
        ensures
            r == self.modifier_spec(),
    {
        self.modifier
    }
}

/// Number of tangents in every profile.
pub const SAMPLES: usize = 64;

} // verus!
