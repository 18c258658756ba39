//! The one-line text field of the add, edit and estimate dialogs: its text and
//! a cursor counted in characters, and the keys that edit it.
use vstd::prelude::*;
use crate::numbers::{parse_u32, spec_parse_u32};
use crate::text::{chars_of, string_of, trim, trim_bounds};
use crate::grammar::copy_range;

verus! {

/// A line of text being typed, with the cursor between two characters.
pub struct TextInput {
    chars: Vec<char>,
    cursor: usize,
}

/// The field as text and cursor position.
pub open spec fn field(text: Seq<char>, cursor: nat) -> (Seq<char>, nat) {
    (text, cursor)
}

/// A field is valid when the cursor lies within the text.
pub open spec fn valid_field(f: (Seq<char>, nat)) -> bool {
    f.1 <= f.0.len()
}

/// Typing a character puts it at the cursor and moves the cursor past it.
pub open spec fn edit_insert(f: (Seq<char>, nat), c: char) -> (Seq<char>, nat) {
    (f.0.insert(f.1 as int, c), f.1 + 1)
}

/// Backspace removes the character before the cursor, if any.
pub open spec fn edit_backspace(f: (Seq<char>, nat)) -> (Seq<char>, nat) {
    if f.1 > 0 {
        (f.0.remove(f.1 - 1), (f.1 - 1) as nat)
    } else {
        f
    }
}

/// Delete removes the character after the cursor, if any.
pub open spec fn edit_delete(f: (Seq<char>, nat)) -> (Seq<char>, nat) {
    if f.1 < f.0.len() {
        (f.0.remove(f.1 as int), f.1)
    } else {
        f
    }
}

pub open spec fn edit_left(f: (Seq<char>, nat)) -> (Seq<char>, nat) {
    (f.0, if f.1 > 0 { (f.1 - 1) as nat } else { 0 })
}

pub open spec fn edit_right(f: (Seq<char>, nat)) -> (Seq<char>, nat) {
    (f.0, if f.1 + 1 <= f.0.len() { f.1 + 1 } else { f.0.len() })
}

impl View for TextInput {
    type V = (Seq<char>, nat);

    closed spec fn view(&self) -> (Seq<char>, nat) {
        (self.chars@, self.cursor as nat)
    }
}

impl TextInput {
    #[verifier::type_invariant]
    closed spec fn cursor_in_text(self) -> bool {
        self.cursor <= self.chars@.len()
    }

    /// An empty field.
    pub fn new() -> (r: TextInput)
        ensures
            r@ == field(Seq::empty(), 0),
    {
        TextInput { chars: Vec::new(), cursor: 0 }
    }

    /// A field holding `text` with the cursor at its end.
    pub fn with_text(text: &str) -> (r: TextInput)
        ensures
            r@ == field(text@, text@.len()),
    {
        let chars = chars_of(text);
        let cursor = chars.len();
        TextInput { chars, cursor }
    }

    /// A field holding `text` with the cursor at `cursor`, or at the end of
    /// the text when that lies before it.
    pub fn restored(text: &str, cursor: usize) -> (r: TextInput)
        ensures
            r@ == field(text@, if cursor <= text@.len() { cursor as nat } else { text@.len() }),
    {
        let chars = chars_of(text);
        let cursor = if cursor <= chars.len() {
            cursor
        } else {
            chars.len()
        };
        TextInput { chars, cursor }
    }

    pub fn text(&self) -> (s: String)
        ensures
            s@ == self@.0,
    {
        string_of(&self.chars)
    }

    pub fn cursor(&self) -> (c: usize)
        ensures
            c == self@.1,
            valid_field(self@),
    {
        proof {
            use_type_invariant(self);
        }
        self.cursor
    }

    pub fn insert(&mut self, c: char)
        ensures
            final(self)@ == edit_insert(old(self)@, c),
    {
        proof {
            use_type_invariant(&*self);
        }
        let at = self.cursor;
        let mut chars = copy_range(&self.chars, 0, self.chars.len());
        proof {
            assert(chars@ =~= self.chars@);
        }
        chars.insert(at, c);
        let n = chars.len();
        assert(at < n);
        self.chars = chars;
        self.cursor = at + 1;
    }

    pub fn backspace(&mut self)
        ensures
            final(self)@ == edit_backspace(old(self)@),
    {
        proof {
            use_type_invariant(&*self);
        }
        if self.cursor > 0 {
            let at = self.cursor - 1;
            let mut chars = copy_range(&self.chars, 0, self.chars.len());
            proof {
                assert(chars@ =~= self.chars@);
            }
            chars.remove(at);
            self.cursor = at;
            self.chars = chars;
        }
    }

    pub fn delete(&mut self)
        ensures
            final(self)@ == edit_delete(old(self)@),
    {
        proof {
            use_type_invariant(&*self);
        }
        if self.cursor < self.chars.len() {
            let at = self.cursor;
            let mut chars = copy_range(&self.chars, 0, self.chars.len());
            proof {
                assert(chars@ =~= self.chars@);
            }
            chars.remove(at);
            self.chars = chars;
        }
    }

    pub fn left(&mut self)
        ensures
            final(self)@ == edit_left(old(self)@),
    {
        proof {
            use_type_invariant(&*self);
        }
        if self.cursor > 0 {
            self.cursor = self.cursor - 1;
        }
    }

    pub fn right(&mut self)
        ensures
            final(self)@ == edit_right(old(self)@),
    {
        proof {
            use_type_invariant(&*self);
        }
        if self.cursor < self.chars.len() {
            self.cursor = self.cursor + 1;
        }
    }

    pub fn home(&mut self)
        ensures
            final(self)@ == field(old(self)@.0, 0),
    {
        self.cursor = 0;
    }

    pub fn end(&mut self)
        ensures
            final(self)@ == field(old(self)@.0, old(self)@.0.len()),
    {
        self.cursor = self.chars.len();
    }

    /// Clears the field (Control-U).
    pub fn clear(&mut self)
        ensures
            final(self)@ == field(Seq::empty(), 0),
    {
        self.cursor = 0;
        self.chars = Vec::new();
    }

    /// The field holds only whitespace.
    pub fn is_blank(&self) -> (b: bool)
        ensures
            b == (trim(self@.0).len() == 0),
    {
        let (a, z) = trim_bounds(&self.chars, 0, self.chars.len());
        proof {
            assert(self.chars@.subrange(0, self.chars@.len() as int) =~= self.chars@);
        }
        a == z
    }
}

/// Every edit keeps the cursor within the text.
pub proof fn law_edits_keep_cursor(f: (Seq<char>, nat), c: char)
    requires
        valid_field(f),
    ensures
        valid_field(edit_insert(f, c)),
        valid_field(edit_backspace(f)),
        valid_field(edit_delete(f)),
        valid_field(edit_left(f)),
        valid_field(edit_right(f)),
{
}

/// Typing a character and then pressing backspace gives back the field.
pub proof fn law_backspace_undoes_insert(f: (Seq<char>, nat), c: char)
    requires
        valid_field(f),
    ensures
        edit_backspace(edit_insert(f, c)) == f,
{
    assert(f.0.insert(f.1 as int, c).remove(f.1 as int) =~= f.0);
}

/// Typing a character, moving left over it and pressing delete gives back
/// the field.
pub proof fn law_delete_undoes_insert(f: (Seq<char>, nat), c: char)
    requires
        valid_field(f),
    ensures
        edit_delete(edit_left(edit_insert(f, c))) == f,
{
    assert(f.0.insert(f.1 as int, c).remove(f.1 as int) =~= f.0);
}

/// What an estimate dialog's text asks for.
#[derive(Debug, Clone, Copy, PartialEq, Eq, Structural)]
pub enum EstimateInput {
    /// An empty text or `0` clears the estimate.
    Clear,
    /// A positive number of Pomodoros.
    Estimate(u32),
    /// Anything else is refused.
    Invalid,
}

pub open spec fn spec_parse_estimate(text: Seq<char>) -> EstimateInput {
    let t = trim(text);
    if t.len() == 0 || t == seq!['0'] {
        EstimateInput::Clear
    } else {
        match spec_parse_u32(t) {
            Some(v) => if v > 0 {
                EstimateInput::Estimate(v)
            } else {
                EstimateInput::Invalid
            },
            None => EstimateInput::Invalid,
        }
    }
}

/// Reads the text of the estimate dialog.
pub fn parse_estimate(text: &str) -> (r: EstimateInput)
    ensures
        r == spec_parse_estimate(text@),
{
    let chars = chars_of(text);
    let (a, z) = trim_bounds(&chars, 0, chars.len());
    proof {
        assert(chars@.subrange(0, chars@.len() as int) =~= chars@);
    }
    let t = copy_range(&chars, a, z);
    if t.len() == 0 || (t.len() == 1 && t[0] == '0') {
        proof {
            if t@.len() == 1 && t@[0] == '0' {
                assert(t@ =~= seq!['0']);
            }
        }
        return EstimateInput::Clear;
    }
    proof {
        if t@ == seq!['0'] {
            assert(t@.len() == 1 && t@[0] == '0');
        }
    }
    match parse_u32(&t) {
        Some(v) => if v > 0 {
            EstimateInput::Estimate(v)
        } else {
            EstimateInput::Invalid
        },
        None => EstimateInput::Invalid,
    }
}

} // verus!
