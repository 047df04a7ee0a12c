//! Keyboard events and the search field that they edit.
//!
//! Editing is done by tui-input, which takes crossterm key events: the
//! wrappers here build those events from the library's own key type.
use vstd::prelude::*;

use crossterm::event::KeyCode as TermKeyCode;
use crossterm::event::{Event as TermEvent, KeyEvent, KeyModifiers};
use tui_input::backend::crossterm::EventHandler;
use tui_input::Input;

verus! {

/// The keys that the browser and its search field tell apart.
#[derive(Debug, Clone, Copy, PartialEq, Eq, Structural)]
pub enum KeyCode {
    Char(char),
    Backspace,
    Delete,
    Enter,
    Esc,
    Tab,
    Left,
    Right,
    Up,
    Down,
    Home,
    End,
    PageUp,
    PageDown,
    /// Any other key.
    Other,
}

/// Whether a key went down, repeated, or came up.
#[derive(Debug, Clone, Copy, PartialEq, Eq, Structural)]
pub enum KeyKind {
    Press,
    Repeat,
    Release,
}

/// The bit of `KeyPress::modifiers` that marks the control key.
pub const MODIFIER_CONTROL: u8 = 2;

/// A key event. `modifiers` holds the modifier bits (shift 1, control 2,
/// alt 4, super 8, hyper 16, meta 32).
#[derive(Debug, Clone, Copy, PartialEq, Eq, Structural)]
pub struct KeyPress {
    pub code: KeyCode,
    pub modifiers: u8,
    pub kind: KeyKind,
}

/// A terminal event: a key, or anything else (mouse, resize, focus, paste).
#[derive(Debug, Clone, Copy, PartialEq, Eq, Structural)]
pub enum Event {
    Key(KeyPress),
    Other,
}

/// The control modifier is held.
pub open spec fn has_control(modifiers: u8) -> bool {
    modifiers & MODIFIER_CONTROL == MODIFIER_CONTROL
}

/// What tui-input's `Input` holds, as text and cursor, after it handles a press
/// of `code` with `modifiers`, starting from `value` with the cursor at `cursor`.
pub uninterp spec fn edited_by_key(value: Seq<char>, cursor: nat, code: KeyCode, modifiers: u8) -> (
    Seq<char>,
    nat,
);

/// The cursor as tui-input keeps it: at most the text's length.
pub open spec fn clamped_cursor(value: Seq<char>, cursor: nat) -> nat {
    if cursor <= value.len() { cursor } else { value.len() }
}

/// `ch` put in at the cursor, and the cursor after it.
pub open spec fn inserted_at_cursor(value: Seq<char>, cursor: nat, ch: char) -> (Seq<char>, nat) {
    let at = clamped_cursor(value, cursor);
    (value.take(at as int) + seq![ch] + value.skip(at as int), at + 1)
}

/// The character before the cursor taken out, and the cursor moved back onto
/// its place; nothing changes at the start.
pub open spec fn deleted_before_cursor(value: Seq<char>, cursor: nat) -> (Seq<char>, nat) {
    let at = clamped_cursor(value, cursor);
    if at == 0 {
        (value, 0)
    } else {
        (value.remove(at - 1), (at - 1) as nat)
    }
}

/// A character key with no modifier but shift: tui-input inserts it.
pub open spec fn is_typed_char(code: KeyCode, modifiers: u8) -> bool {
    code is Char && (modifiers == 0 || modifiers == 1)
}

/// tui-input's `Input::visual_cursor` for this text and cursor.
pub uninterp spec fn visual_cursor_of(value: Seq<char>, cursor: nat) -> nat;

/// tui-input's `Input::visual_scroll` for this text, cursor and width.
pub uninterp spec fn visual_scroll_of(value: Seq<char>, cursor: nat, width: nat) -> nat;

/// Builds a tui-input `Input` from `value` and `cursor`, has it handle a crossterm
/// key press of `code` with `modifiers`, and returns its text and cursor: the
/// result is named `edited_by_key`. As tui-input's source shows, a character
/// with no modifier but shift is inserted at the cursor, and Backspace with no
/// modifier deletes the character before it; other keys are left to the name.
#[verifier::external_body]
fn tui_edit(value: &str, cursor: usize, code: KeyCode, modifiers: u8) -> (r: (String, usize))
    ensures
        (r.0@, r.1 as nat) == edited_by_key(value@, cursor as nat, code, modifiers),
        is_typed_char(code, modifiers) ==> (r.0@, r.1 as nat) == inserted_at_cursor(
            value@,
            cursor as nat,
            code->Char_0,
        ),
        code == KeyCode::Backspace && modifiers == 0 ==> (r.0@, r.1 as nat) == deleted_before_cursor(
            value@,
            cursor as nat,
        ),
{
    let key = KeyEvent::new(match code {
        KeyCode::Char(c) => TermKeyCode::Char(c), KeyCode::Backspace => TermKeyCode::Backspace,
        KeyCode::Delete => TermKeyCode::Delete, KeyCode::Enter => TermKeyCode::Enter,
        KeyCode::Esc => TermKeyCode::Esc, KeyCode::Tab => TermKeyCode::Tab,
        KeyCode::Left => TermKeyCode::Left, KeyCode::Right => TermKeyCode::Right,
        KeyCode::Up => TermKeyCode::Up, KeyCode::Down => TermKeyCode::Down,
        KeyCode::Home => TermKeyCode::Home, KeyCode::End => TermKeyCode::End,
        KeyCode::PageUp => TermKeyCode::PageUp, KeyCode::PageDown => TermKeyCode::PageDown,
        KeyCode::Other => TermKeyCode::Null,
    }, KeyModifiers::from_bits_retain(modifiers));
    let mut input = Input::new(value.to_string()).with_cursor(cursor);
    input.handle_event(&TermEvent::Key(key));
    (input.value().to_string(), input.cursor())
}

/// Calls tui-input's `Input::visual_cursor`: the display width of the text
/// before the cursor. The result is named `visual_cursor_of`.
#[verifier::external_body]
fn tui_visual_cursor(value: &str, cursor: usize) -> (r: usize)
    ensures
        r as nat == visual_cursor_of(value@, cursor as nat),
{
    Input::new(value.to_string()).with_cursor(cursor).visual_cursor()
}

/// Calls tui-input's `Input::visual_scroll`: how far the text must scroll for
/// the cursor to show in `width` columns. The result is named `visual_scroll_of`.
#[verifier::external_body]
fn tui_visual_scroll(value: &str, cursor: usize, width: usize) -> (r: usize)
    ensures
        r as nat == visual_scroll_of(value@, cursor as nat, width as nat),
{
    Input::new(value.to_string()).with_cursor(cursor).visual_scroll(width)
}

/// A one-line text field with a cursor, counted in characters.
#[derive(Debug)]
pub struct SearchInput {
    pub value: String,
    pub cursor: usize,
}

impl SearchInput {
    /// An empty field.
    pub fn new() -> (r: SearchInput)
        ensures
            r.value@ == Seq::<char>::empty(),
            r.cursor == 0,
    {
        SearchInput { value: String::new(), cursor: 0 }
    }

    /// The text in the field.
    pub fn value(&self) -> (r: &str)
        ensures
            r@ == self.value@,
    {
        self.value.as_str()
    }

    /// The cursor's position, in characters from the start.
    pub fn cursor(&self) -> (r: usize)
        ensures
            r == self.cursor,
    {
        self.cursor
    }

    /// Empties the field.
    pub fn reset(&mut self)
        ensures
            final(self).value@ == Seq::<char>::empty(),
            final(self).cursor == 0,
    {
        self.value = String::new();
        self.cursor = 0;
    }

    /// Edits the field as tui-input does for a press of `code` with `modifiers`.
    pub fn handle_key(&mut self, code: KeyCode, modifiers: u8)
        ensures
            (final(self).value@, final(self).cursor as nat) == edited_by_key(
                old(self).value@,
                old(self).cursor as nat,
                code,
                modifiers,
            ),
            is_typed_char(code, modifiers) ==> (final(self).value@, final(self).cursor as nat)
                == inserted_at_cursor(old(self).value@, old(self).cursor as nat, code->Char_0),
            code == KeyCode::Backspace && modifiers == 0 ==> (final(self).value@, final(self).cursor as nat)
                == deleted_before_cursor(old(self).value@, old(self).cursor as nat),
    {
        let (value, cursor) = tui_edit(self.value.as_str(), self.cursor, code, modifiers);
        self.value = value;
        self.cursor = cursor;
    }

    /// The display width of the text before the cursor.
    pub fn visual_cursor(&self) -> (r: usize)
        ensures
            r as nat == visual_cursor_of(self.value@, self.cursor as nat),
    {
        tui_visual_cursor(self.value.as_str(), self.cursor)
    }

    /// How far the text scrolls for the cursor to show in `width` columns.
    pub fn visual_scroll(&self, width: usize) -> (r: usize)
        ensures
            r as nat == visual_scroll_of(self.value@, self.cursor as nat, width as nat),
    {
        tui_visual_scroll(self.value.as_str(), self.cursor, width)
    }
}

} // verus!
