//! What holds of every key press: which bytes it is read from, and what it does to the line.
use crate::input::{
    event_at, handle_key_event, key_outcome, parse_input_event, prompt_string, redraw_line,
    InputEvent, KeyAction, KeyActionView,
};
use crate::wire::{le16, le32, u16_reads_back, u32_reads_back};
use vstd::prelude::*;
use vstd::string::*;
use vstd::utf8::is_scalar;

verus! {

/// The bytes of an event: its fields in order, without gaps.
pub open spec fn event_bytes(e: InputEvent) -> Seq<u8> {
    le16(e.kind) + le16(e.flags) + le16(e.keycode) + le16(e.detail) + le32(e.codepoint) + le32(
        e.value_x as u32,
    ) + le32(e.value_y as u32) + le32(e.value_z as u32) + le32(e.modifiers) + le32(e.reserved)
}

/// An event is read from its bytes, whatever follows them.
pub proof fn event_is_read_from_its_bytes(
    buf: &[u8],
    r: InputEvent,
    e: InputEvent,
    rest: Seq<u8>,
)
    requires
        call_ensures(parse_input_event, (buf,), r),
        buf@ == event_bytes(e) + rest,
    ensures
        event_bytes(e).len() == 32,
        r == e,
        event_at(buf@) == e,
{
    lemma_event(buf@, e, rest);
}

proof fn lemma_event(b: Seq<u8>, e: InputEvent, rest: Seq<u8>)
    requires
        b == event_bytes(e) + rest,
    ensures
        event_bytes(e).len() == 32,
        event_at(b) == e,
{
    assert(b.subrange(0, 2) =~= le16(e.kind));
    assert(b.subrange(2, 4) =~= le16(e.flags));
    assert(b.subrange(4, 6) =~= le16(e.keycode));
    assert(b.subrange(6, 8) =~= le16(e.detail));
    assert(b.subrange(8, 12) =~= le32(e.codepoint));
    assert(b.subrange(12, 16) =~= le32(e.value_x as u32));
    assert(b.subrange(16, 20) =~= le32(e.value_y as u32));
    assert(b.subrange(20, 24) =~= le32(e.value_z as u32));
    assert(b.subrange(24, 28) =~= le32(e.modifiers));
    assert(b.subrange(28, 32) =~= le32(e.reserved));
    u16_reads_back(e.kind, b, 0);
    u16_reads_back(e.flags, b, 2);
    u16_reads_back(e.keycode, b, 4);
    u16_reads_back(e.detail, b, 6);
    u32_reads_back(e.codepoint, b, 8);
    u32_reads_back(e.value_x as u32, b, 12);
    u32_reads_back(e.value_y as u32, b, 16);
    u32_reads_back(e.value_z as u32, b, 20);
    u32_reads_back(e.modifiers, b, 24);
    u32_reads_back(e.reserved, b, 28);
    lemma_sign(e.value_x);
    lemma_sign(e.value_y);
    lemma_sign(e.value_z);
}

proof fn lemma_sign(x: i32)
    ensures
        (x as u32) as i32 == x,
{
    assert((x as u32) as i32 == x) by (bit_vector);
}

/// An event without anything in it is all zeros.
pub proof fn empty_event_is_zeros(e: InputEvent)
    requires
        call_ensures(InputEvent::default, (), e),
    ensures
        e.kind == 0 && e.flags == 0 && e.keycode == 0 && e.detail == 0 && e.codepoint == 0,
        e.value_x == 0 && e.value_y == 0 && e.value_z == 0 && e.modifiers == 0 && e.reserved == 0,
{
}

/// A key press is an event of kind one whose lowest flag is set; the other flags do not matter.
pub proof fn key_press_is_kind_and_flag(e: InputEvent, r: bool)
    requires
        call_ensures(InputEvent::key_pressed, (&e,), r),
    ensures
        r <==> e.kind == 1 && e.flags % 2 == 1,
        e.is_key_press() == r,
{
    let flags = e.flags;
    assert((flags & 1 != 0) <==> flags % 2 == 1) by (bit_vector);
}

/// What a key does to the line: a character is added, whatever the key; without one, backspace
/// (2) takes the last character off, tab (3) adds four spaces and enter (4) hands the line on.
/// Nothing else changes the line.
pub proof fn keys_edit_the_line(line: &mut String, event: InputEvent, r: KeyAction)
    requires
        call_ensures(handle_key_event, (line, event), r),
    ensures
        !event.is_key_press() ==> final(line)@ == old(line)@ && r is Nothing,
        event.is_key_press() && event.codepoint != 0 && is_scalar(event.codepoint) ==> {
            &&& final(line)@ == old(line)@.push(event.codepoint as char)
            &&& r matches KeyAction::Print(text) && text@ == seq![event.codepoint as char]
        },
        event.is_key_press() && event.codepoint != 0 && !is_scalar(event.codepoint) ==> {
            final(line)@ == old(line)@ && r is Nothing
        },
        event.is_key_press() && event.codepoint == 0 && event.keycode == 2 && old(line)@.len() > 0
            ==> final(line)@.push(old(line)@.last()) == old(line)@ && r is Redraw,
        event.is_key_press() && event.codepoint == 0 && event.keycode == 2 && old(line)@.len()
            == 0 ==> final(line)@.len() == 0 && r is Nothing,
        event.is_key_press() && event.codepoint == 0 && event.keycode == 3 ==> {
            &&& final(line)@ == old(line)@ + seq![' ', ' ', ' ', ' ']
            &&& r matches KeyAction::Print(text) && text@ == seq![' ', ' ', ' ', ' ']
        },
        event.is_key_press() && event.codepoint == 0 && event.keycode == 4 ==> {
            &&& final(line)@.len() == 0
            &&& r matches KeyAction::Completed(done) && done@ == old(line)@
        },
        event.is_key_press() && event.codepoint == 0 && event.keycode != 2 && event.keycode != 3
            && event.keycode != 4 ==> final(line)@ == old(line)@ && r is Nothing,
{
    reveal_strlit("    ");
    assert("    "@ =~= seq![' ', ' ', ' ', ' ']);
    if old(line)@.len() > 0 {
        assert(old(line)@.drop_last().push(old(line)@.last()) =~= old(line)@);
    }
}

/// The line and what is shown depend on the event and the line alone, as the outcome says.
pub proof fn outcome_is_what_happens(line: &mut String, event: InputEvent, r: KeyAction)
    requires
        call_ensures(handle_key_event, (line, event), r),
    ensures
        key_outcome(old(line)@, event).0 == final(line)@,
        match key_outcome(old(line)@, event).1 {
            KeyActionView::Nothing => r is Nothing,
            KeyActionView::Print(text) => r matches KeyAction::Print(t) && t@ == text,
            KeyActionView::Redraw => r is Redraw,
            KeyActionView::Completed(text) => r matches KeyAction::Completed(t) && t@ == text,
        },
{
}

/// The prompt is the directory with a dollar sign behind it, and a line that is shown anew stands
/// behind the prompt on a line of its own.
pub proof fn prompt_shows_the_directory(cwd: &str, line: &str, prompt: String, shown: String)
    requires
        call_ensures(prompt_string, (cwd,), prompt),
        call_ensures(redraw_line, (cwd, line), shown),
    ensures
        prompt@ == cwd@ + seq![' ', '$', ' '],
        shown@ == seq!['\n'] + prompt@ + line@,
{
    reveal_strlit(" $ ");
    reveal_strlit("\n");
    assert(" $ "@ =~= seq![' ', '$', ' ']);
    assert("\n"@ =~= seq!['\n']);
}

} // verus!
