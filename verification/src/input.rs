//! Key presses: the event that the terminal sends for each, and what it does to the line that is
//! being typed.
use crate::wire::{read_u16, read_u32, u16_at, u32_at};
use vstd::prelude::*;
use vstd::string::*;
use vstd::utf8::{char_is_scalar, char_u32_cast, is_scalar};

verus! {

pub const EVENT_KIND_KEY: u16 = 1;

pub const FLAG_PRESS: u16 = 1;

pub const KEY_ESCAPE: u16 = 1;

pub const KEY_BACKSPACE: u16 = 2;

pub const KEY_TAB: u16 = 3;

pub const KEY_ENTER: u16 = 4;

pub const KEY_A: u16 = 32;

pub const KEY_N: u16 = 45;

pub const KEY_S: u16 = 50;

pub const KEY_U: u16 = 52;

pub const KEY_Y: u16 = 56;

/// The length of an event in a message.
pub const INPUT_EVENT_SIZE: usize = 32;

/// An event of the keyboard or of a pointer.
#[derive(Clone, Copy, Debug, PartialEq, Eq, Structural)]
pub struct InputEvent {
    pub kind: u16,
    pub flags: u16,
    pub keycode: u16,
    pub detail: u16,
    pub codepoint: u32,
    pub value_x: i32,
    pub value_y: i32,
    pub value_z: i32,
    pub modifiers: u32,
    pub reserved: u32,
}

impl Default for InputEvent {
    fn default() -> (r: InputEvent)
        ensures
            r == (InputEvent {
                kind: 0,
                flags: 0,
                keycode: 0,
                detail: 0,
                codepoint: 0,
                value_x: 0,
                value_y: 0,
                value_z: 0,
                modifiers: 0,
                reserved: 0,
            }),
    {
        InputEvent {
            kind: 0,
            flags: 0,
            keycode: 0,
            detail: 0,
            codepoint: 0,
            value_x: 0,
            value_y: 0,
            value_z: 0,
            modifiers: 0,
            reserved: 0,
        }
    }
}

/// The event in the first bytes of a message: the fields in order, without gaps.
pub open spec fn event_at(b: Seq<u8>) -> InputEvent {
    InputEvent {
        kind: u16_at(b, 0),
        flags: u16_at(b, 2),
        keycode: u16_at(b, 4),
        detail: u16_at(b, 6),
        codepoint: u32_at(b, 8),
        value_x: u32_at(b, 12) as i32,
        value_y: u32_at(b, 16) as i32,
        value_z: u32_at(b, 20) as i32,
        modifiers: u32_at(b, 24),
        reserved: u32_at(b, 28),
    }
}

/// Reads the event in the first bytes of a message.
pub fn parse_input_event(buf: &[u8]) -> (r: InputEvent)
    requires
        buf@.len() >= INPUT_EVENT_SIZE,
    ensures
        r == event_at(buf@),
{
    InputEvent {
        kind: read_u16(buf, 0),
        flags: read_u16(buf, 2),
        keycode: read_u16(buf, 4),
        detail: read_u16(buf, 6),
        codepoint: read_u32(buf, 8),
        value_x: #[verifier::truncate] (read_u32(buf, 12) as i32),
        value_y: #[verifier::truncate] (read_u32(buf, 16) as i32),
        value_z: #[verifier::truncate] (read_u32(buf, 20) as i32),
        modifiers: read_u32(buf, 24),
        reserved: read_u32(buf, 28),
    }
}

impl InputEvent {
    /// Whether the event is the press of a key.
    pub open spec fn is_key_press(self) -> bool {
        self.kind == EVENT_KIND_KEY && self.flags & FLAG_PRESS != 0
    }

    /// Whether the event is the press of a key.
    pub fn key_pressed(&self) -> (r: bool)
        ensures
            r == self.is_key_press(),
    {
        self.kind == EVENT_KIND_KEY && (self.flags & FLAG_PRESS) != 0
    }
}

/// What the terminal shows after a key press.
#[derive(Clone, Debug, PartialEq, Eq)]
pub enum KeyAction {
    /// Nothing changes.
    Nothing,
    /// The text is printed behind the line.
    Print(String),
    /// The prompt and the line are printed anew.
    Redraw,
    /// The line is finished and the next one begins empty.
    Completed(String),
}

/// What a [`KeyAction`] says.
#[verifier::ext_equal]
pub enum KeyActionView {
    Nothing,
    Print(Seq<char>),
    Redraw,
    Completed(Seq<char>),
}

impl View for KeyAction {
    type V = KeyActionView;

    open spec fn view(&self) -> KeyActionView {
        match self {
            KeyAction::Nothing => KeyActionView::Nothing,
            KeyAction::Print(text) => KeyActionView::Print(text@),
            KeyAction::Redraw => KeyActionView::Redraw,
            KeyAction::Completed(line) => KeyActionView::Completed(line@),
        }
    }
}

/// The line after an event, and what the terminal shows.
///
/// A key with a character adds it; one with a number that is no character does nothing. Among
/// the others, backspace takes the last character off, enter finishes the line and tab adds four
/// spaces.
pub open spec fn key_outcome(line: Seq<char>, event: InputEvent) -> (Seq<char>, KeyActionView) {
    if !event.is_key_press() {
        (line, KeyActionView::Nothing)
    } else if event.codepoint != 0 {
        if is_scalar(event.codepoint) {
            let c = event.codepoint as char;
            (line.push(c), KeyActionView::Print(seq![c]))
        } else {
            (line, KeyActionView::Nothing)
        }
    } else if event.keycode == KEY_BACKSPACE {
        if line.len() > 0 {
            (line.drop_last(), KeyActionView::Redraw)
        } else {
            (line, KeyActionView::Nothing)
        }
    } else if event.keycode == KEY_ENTER {
        (seq![], KeyActionView::Completed(line))
    } else if event.keycode == KEY_TAB {
        (line + "    "@, KeyActionView::Print("    "@))
    } else {
        (line, KeyActionView::Nothing)
    }
}

/// Applies an event to the line that is being typed.
pub fn handle_key_event(line: &mut String, event: InputEvent) -> (r: KeyAction)
    ensures
        (final(line)@, r@) == key_outcome(old(line)@, event),
{
    if !event.key_pressed() {
        return KeyAction::Nothing;
    }
    if event.codepoint != 0 {
        return match char::from_u32(event.codepoint) {
            Some(c) => {
                line.push(c);
                let mut text = String::new();
                text.push(c);
                assert(text@ =~= seq![c]);
                KeyAction::Print(text)
            },
            None => KeyAction::Nothing,
        };
    }
    if event.keycode == KEY_BACKSPACE {
        match line.pop() {
            Some(_) => KeyAction::Redraw,
            None => KeyAction::Nothing,
        }
    } else if event.keycode == KEY_ENTER {
        let mut completed = String::new();
        core::mem::swap(&mut completed, line);
        KeyAction::Completed(completed)
    } else if event.keycode == KEY_TAB {
        line.append("    ");
        KeyAction::Print("    ".to_string())
    } else {
        KeyAction::Nothing
    }
}

/// The prompt in the given directory.
pub open spec fn prompt_text(cwd: Seq<char>) -> Seq<char> {
    cwd + " $ "@
}

/// The prompt in the given directory.
pub fn prompt_string(cwd: &str) -> (r: String)
    ensures
        r@ == prompt_text(cwd@),
{
    cwd.to_string().concat(" $ ")
}

/// What is printed to show the prompt and the line anew.
pub fn redraw_line(cwd: &str, line: &str) -> (r: String)
    ensures
        r@ == "\n"@ + prompt_text(cwd@) + line@,
{
    "\n".to_string().concat(prompt_string(cwd).as_str()).concat(line)
}

/// Backspace takes back the character that was typed last: the line is again what it was.
pub proof fn backspace_undoes_a_character(line: Seq<char>, typed: InputEvent, back: InputEvent)
    requires
        typed.is_key_press(),
        typed.codepoint != 0,
        is_scalar(typed.codepoint),
        back.is_key_press(),
        back.codepoint == 0,
        back.keycode == KEY_BACKSPACE,
    ensures
        key_outcome(key_outcome(line, typed).0, back).0 == line,
{
    assert(line.push(typed.codepoint as char).drop_last() =~= line);
}

/// A line is handed on only by enter, as it stood, and the next one begins empty.
pub proof fn only_enter_completes(line: Seq<char>, event: InputEvent)
    ensures
        key_outcome(line, event).1 is Completed <==> event.is_key_press() && event.codepoint == 0
            && event.keycode == KEY_ENTER,
        key_outcome(line, event).1 matches KeyActionView::Completed(done) ==> done == line
            && key_outcome(line, event).0 == Seq::<char>::empty(),
{
}

/// The line after a series of events.
pub open spec fn line_after(line: Seq<char>, events: Seq<InputEvent>) -> Seq<char>
    decreases events.len(),
{
    if events.len() == 0 {
        line
    } else {
        key_outcome(line_after(line, events.drop_last()), events.last()).0
    }
}

/// Whether the event is the press of a key with the given character.
pub open spec fn types_char(event: InputEvent, c: char) -> bool {
    event.is_key_press() && event.codepoint == c as u32 && c != '\0'
}

/// Typed characters stand in the line in the order in which they were typed, and enter hands on
/// exactly them.
pub proof fn typed_text_is_handed_on(
    line: Seq<char>,
    text: Seq<char>,
    events: Seq<InputEvent>,
    enter: InputEvent,
)
    requires
        events.len() == text.len(),
        forall|i: int| 0 <= i < text.len() ==> types_char(#[trigger] events[i], text[i]),
        enter.is_key_press(),
        enter.codepoint == 0,
        enter.keycode == KEY_ENTER,
    ensures
        line_after(line, events) == line + text,
        key_outcome(line_after(line, events), enter).1 == KeyActionView::Completed(line + text),
    decreases text.len(),
{
    if text.len() == 0 {
        assert(line + text =~= line);
    } else {
        let n = text.len() - 1;
        let c = text[n];
        assert forall|i: int| 0 <= i < n implies types_char(
            #[trigger] events.drop_last()[i],
            text.drop_last()[i],
        ) by {
            assert(types_char(events[i], text[i]));
        }
        typed_text_is_handed_on(line, text.drop_last(), events.drop_last(), enter);
        assert(types_char(events[n], c));
        char_is_scalar(c);
        char_u32_cast(c, events[n].codepoint);
        assert(events.last() == events[n]);
        assert((line + text.drop_last()).push(c) =~= line + text);
    }
}

} // verus!
