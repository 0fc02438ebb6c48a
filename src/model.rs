//! The text being typed: characters and a cursor, edited by recognized
//! characters.
use vstd::prelude::*;
use crate::geometry::Vec2;
use crate::graffiti::{stroke_outcome, GraffitiRecognizer};
use crate::keyboard::{BACKSPACE, CURSOR_LEFT, CURSOR_RIGHT, NEWLINE};
use crate::profile::valid_stroke;

verus! {

/// Script the text is displayed in.
#[derive(Clone, Copy, PartialEq, Eq, Debug, Structural)]
pub enum CharClass {
    Latin,
    Hiragana,
}

/// The hiragana rendering of a text.
pub uninterp spec fn hiragana_of(s: Seq<char>) -> Seq<char>;

/// Halfwidth voiced sound mark.
pub const HALFWIDTH_VOICED_MARK: char = '\u{ff9e}';

/// Halfwidth semi-voiced sound mark.
pub const HALFWIDTH_SEMI_VOICED_MARK: char = '\u{ff9f}';

/// The text holds neither halfwidth sound mark: the hiragana conversion
/// fails on a mark that follows no kana, so texts with one are not handed
/// to it.
pub open spec fn kana_convertible(s: Seq<char>) -> bool {
    forall|k: int|
        0 <= k < s.len() ==> #[trigger] s[k] != HALFWIDTH_VOICED_MARK && s[k]
            != HALFWIDTH_SEMI_VOICED_MARK
}

/// Whether the text holds neither halfwidth sound mark.
pub fn is_kana_convertible(s: &[char]) -> (r: bool)
    ensures
        r == kana_convertible(s@),
{
    let mut k: usize = 0;
    while k < s.len()
        invariant
            k <= s@.len(),
            forall|m: int|
                0 <= m < k ==> #[trigger] s@[m] != HALFWIDTH_VOICED_MARK && s@[m]
                    != HALFWIDTH_SEMI_VOICED_MARK,
        decreases s@.len() - k,
    {
        if s[k] == HALFWIDTH_VOICED_MARK || s[k] == HALFWIDTH_SEMI_VOICED_MARK {
            return false;
        }
        k = k + 1;
    }
    true
}

/// Relies on wana_kana's `ConvertJapanese::to_hiragana` for `&str`: romaji
/// and katakana become hiragana, and the result depends on the text alone.
/// It is not called on a halfwidth sound mark, on which it fails.
#[verifier::external_body]
fn to_hiragana(s: &[char]) -> (r: Vec<char>)
    requires
        kana_convertible(s@),
    ensures
        r@ == hiragana_of(s@),
{
    let text: String = s.iter().collect();
    wana_kana::ConvertJapanese::to_hiragana(text.as_str()).chars().collect()
}

/// A copy of `s`.
fn copy_chars(s: &[char]) -> (r: Vec<char>)
    ensures
        r@ == s@,
{
    let mut out: Vec<char> = Vec::new();
    let mut k: usize = 0;
    while k < s.len()
        invariant
            k <= s@.len(),
            out@ == s@.subrange(0, k as int),
        decreases s@.len() - k,
    {
        out.push(s[k]);
        assert(s@.subrange(0, k + 1) =~= s@.subrange(0, k as int).push(s@[k as int]));
        k = k + 1;
    }
    assert(s@.subrange(0, s@.len() as int) =~= s@);
    out
}

/// The text as displayed in a script: unchanged in Latin, rendered in
/// hiragana otherwise, except that a text holding a halfwidth sound mark is
/// shown unchanged.
pub open spec fn displayed(class: CharClass, s: Seq<char>) -> Seq<char> {
    match class {
        CharClass::Latin => s,
        CharClass::Hiragana => if kana_convertible(s) {
            hiragana_of(s)
        } else {
            s
        },
    }
}

/// The text as displayed in a script.
pub fn translate(class: CharClass, s: &[char]) -> (r: Vec<char>)
    ensures
        r@ == displayed(class, s@),
{
    match class {
        CharClass::Latin => copy_chars(s),
        CharClass::Hiragana => if is_kana_convertible(s) {
            to_hiragana(s)
        } else {
            copy_chars(s)
        },
    }
}

/// Text and cursor after typing `c`.
///
/// Backspace deletes the character before the cursor, the arrows move the
/// cursor within the text, a newline clears the text, and any other
/// character is inserted at the cursor.
pub open spec fn edit_step(text: Seq<char>, cursor: int, c: char) -> (Seq<char>, int) {
    if c == BACKSPACE {
        if cursor > 0 {
            (text.remove(cursor - 1), cursor - 1)
        } else {
            (text, cursor)
        }
    } else if c == CURSOR_LEFT {
        (text, if cursor > 0 { cursor - 1 } else { 0 })
    } else if c == CURSOR_RIGHT {
        (text, if cursor < text.len() { cursor + 1 } else { text.len() as int })
    } else if c == NEWLINE {
        (Seq::empty(), 0)
    } else {
        (text.insert(cursor, c), cursor + 1)
    }
}

/// Typed text with a cursor inside it.
pub struct TextBuffer {
    text: Vec<char>,
    cursor: usize,
}

impl TextBuffer {
    pub closed spec fn text(self) -> Seq<char> {
        self.text@
    }

    pub closed spec fn cursor(self) -> int {
        self.cursor as int
    }

    /// The cursor lies within the text.
    pub open spec fn wf(self) -> bool {
        self.cursor() <= self.text().len()
    }

    /// An empty text.
    pub fn new() -> (r: Self)
        ensures
            r.wf(),
            r.text() == Seq::<char>::empty(),
            r.cursor() == 0,
    {
        TextBuffer { text: Vec::new(), cursor: 0 }
    }

    /// Types one recognized character.
    pub fn type_char(&mut self, c: char)
        requires
            old(self).wf(),
            old(self).text().len() < usize::MAX,
        ensures
            final(self).wf(),
            (final(self).text(), final(self).cursor()) == edit_step(
                old(self).text(),
                old(self).cursor(),
                c,
            ),
    {
        if c == BACKSPACE {
            if self.cursor > 0 {
                self.cursor = self.cursor - 1;
                self.text.remove(self.cursor);
            }
        } else if c == CURSOR_LEFT {
            if self.cursor > 0 {
                self.cursor = self.cursor - 1;
            }
        } else if c == CURSOR_RIGHT {
            if self.cursor < self.text.len() {
                self.cursor = self.cursor + 1;
            }
        } else if c == NEWLINE {
            self.text.clear();
            self.cursor = 0;
        } else {
            self.text.insert(self.cursor, c);
            self.cursor = self.cursor + 1;
        }
    }

    /// The characters before the cursor.
    pub fn text_l(&self) -> (r: Vec<char>)
        requires
            self.wf(),
        ensures
            r@ == self.text().subrange(0, self.cursor()),
    {
        let mut out: Vec<char> = Vec::new();
        let mut k: usize = 0;
        while k < self.cursor
            invariant
                self.wf(),
                k <= self.cursor,
                out@ == self.text@.subrange(0, k as int),
            decreases self.cursor - k,
        {
            out.push(self.text[k]);
            assert(self.text@.subrange(0, k + 1) =~= self.text@.subrange(0, k as int).push(
                self.text@[k as int],
            ));
            k = k + 1;
        }
        out
    }

    /// The characters from the cursor on.
    pub fn text_r(&self) -> (r: Vec<char>)
        requires
            self.wf(),
        ensures
            r@ == self.text().subrange(self.cursor(), self.text().len() as int),
    {
        let mut out: Vec<char> = Vec::new();
        let mut k: usize = self.cursor;
        while k < self.text.len()
            invariant
                self.wf(),
                self.cursor <= k <= self.text@.len(),
                out@ == self.text@.subrange(self.cursor as int, k as int),
            decreases self.text@.len() - k,
        {
            out.push(self.text[k]);
            assert(self.text@.subrange(self.cursor as int, k + 1) =~= self.text@.subrange(
                self.cursor as int,
                k as int,
            ).push(self.text@[k as int]));
            k = k + 1;
        }
        out
    }
}

/// The typing session: recognizer, text, the characters not yet passed on,
/// and the user's settings.
pub struct Model {
    pub recognizer: GraffitiRecognizer,
    pub text: TextBuffer,
    pub new_chars: Vec<char>,
    pub is_active: bool,
    pub use_chatbox: bool,
    pub use_key_emulation: bool,
    pub char_class: CharClass,
}

impl Model {
    pub open spec fn wf(self) -> bool {
        self.recognizer.wf() && self.text.wf()
    }

    /// An inactive session with empty text, sending to the chat box, in
    /// Latin script.
    pub fn new(recognizer: GraffitiRecognizer) -> (r: Self)
        requires
            recognizer.wf(),
        ensures
            r.wf(),
            r.recognizer == recognizer,
            r.text.text() == Seq::<char>::empty(),
            r.new_chars@ == Seq::<char>::empty(),
            !r.is_active,
            r.use_chatbox,
            !r.use_key_emulation,
            r.char_class == CharClass::Latin,
    {
        Model {
            recognizer,
            text: TextBuffer::new(),
            new_chars: Vec::new(),
            is_active: false,
            use_chatbox: true,
            use_key_emulation: false,
            char_class: CharClass::Latin,
        }
    }

    /// Recognizes a stroke; a character it emits edits the text and is kept
    /// among the new characters.
    pub fn feed_stroke(&mut self, stroke: &[Vec2])
        requires
            old(self).wf(),
            valid_stroke(stroke@),
            old(self).text.text().len() < usize::MAX,
        ensures
            final(self).wf(),
            exists|c: Option<char>|
                stroke_outcome(
                    old(self).recognizer,
                    stroke@,
                    (final(self).recognizer.mode_spec(), final(self).recognizer.modifier_spec(), c),
                ) && match c {
                    None => final(self).text == old(self).text && final(self).new_chars@ == old(
                        self,
                    ).new_chars@,
                    Some(ch) => (final(self).text.text(), final(self).text.cursor()) == edit_step(
                        old(self).text.text(),
                        old(self).text.cursor(),
                        ch,
                    ) && final(self).new_chars@ == old(self).new_chars@.push(ch),
                },
            final(self).char_class == old(self).char_class,
            final(self).recognizer.categories() == old(self).recognizer.categories(),
            final(self).recognizer.tap_tolerance_spec() == old(self).recognizer.tap_tolerance_spec(),
    {
        let c = self.recognizer.recognize(stroke);
        match c {
            None => {},
            Some(ch) => {
                self.text.type_char(ch);
                self.new_chars.push(ch);
            },
        }
    }

    /// The text before the cursor, in the chosen script.
    pub fn text_l(&self) -> (r: Vec<char>)
        requires
            self.wf(),
        ensures
            r@ == displayed(self.char_class, self.text.text().subrange(0, self.text.cursor())),
    {
        let l = self.text.text_l();
        translate(self.char_class, &l)
    }

    /// The text from the cursor on, in the chosen script.
    pub fn text_r(&self) -> (r: Vec<char>)
        requires
            self.wf(),
        ensures
            r@ == displayed(
                self.char_class,
                self.text.text().subrange(self.text.cursor(), self.text.text().len() as int),
            ),
    {
        let r = self.text.text_r();
        translate(self.char_class, &r)
    }
}

} // verus!
