//! Character input and output: which byte a key event stands for, when a key
//! event ends the process, and how a byte is shown.

use vstd::prelude::*;
use crossterm::event::KeyModifiers;

verus! {

/// The key of a key event, as far as input distinguishes keys.
#[derive(Clone, Copy, Debug, PartialEq, Eq, Structural)]
pub enum Key {
    /// A character key.
    Char(char),
    Backspace,
    Enter,
    Tab,
    /// Tab together with Shift.
    BackTab,
    Esc,
    /// Any other key.
    Other,
}

/// Whether the key went down, is held down, or came up.
#[derive(Clone, Copy, Debug, PartialEq, Eq, Structural)]
pub enum KeyKind {
    Press,
    Repeat,
    Release,
}

/// A key event: the key, the modifiers held with it, and the kind of event.
/// The modifiers are the raw bits of crossterm's `KeyModifiers`, one bit for
/// each modifier.
#[derive(Clone, Copy, Debug, PartialEq, Eq, Structural)]
pub struct KeyStroke {
    pub key: Key,
    pub modifiers: u8,
    pub kind: KeyKind,
}

/// An event from the terminal.
#[derive(Clone, Copy, Debug, PartialEq, Eq, Structural)]
pub enum TerminalEvent {
    Key(KeyStroke),
    /// Anything that is no key event.
    Other,
}

/// What the wait for an input byte does with an event.
#[derive(Clone, Copy, Debug, PartialEq, Eq, Structural)]
pub enum Reading {
    /// Ignore the event and go on waiting.
    Wait,
    /// End the process: the interrupt chord was pressed.
    Quit,
    /// The wait is over: this is the byte.
    Byte(u8),
}

/// How an output byte is shown.
#[derive(Clone, Copy, Debug, PartialEq, Eq, Structural)]
pub enum Glyph {
    /// The line break of the platform.
    LineBreak,
    /// The character with the byte's value as its code.
    Char(char),
}

/// The low eight bits of a character's code.
pub open spec fn low_byte(c: char) -> u8 {
    (c as u32 % 256) as u8
}

/// The byte that a key stands for: a character key gives its code (the low
/// eight bits of it), Backspace 8, Tab with or without Shift 9, Enter 10 and
/// Esc 27. No other key stands for a byte.
pub open spec fn key_byte(key: Key) -> Option<u8> {
    match key {
        Key::Char(c) => Some(low_byte(c)),
        Key::Backspace => Some(8u8),
        Key::Enter => Some(10u8),
        Key::Tab => Some(9u8),
        Key::BackTab => Some(9u8),
        Key::Esc => Some(27u8),
        Key::Other => None,
    }
}

/// Whether the Control bit is set among raw modifier bits.
pub open spec fn control_held(modifiers: u8) -> bool {
    modifiers & 0b0000_0010 == 0b0000_0010
}

/// The interrupt chord: Control held with the key `c` or `C`.
pub open spec fn is_quit_chord(stroke: KeyStroke) -> bool {
    control_held(stroke.modifiers) && (stroke.key == Key::Char('c') || stroke.key == Key::Char('C'))
}

/// What the wait for an input byte does with `event`: a key that came up
/// and an event that is no key event are ignored, the interrupt chord ends
/// the process, a key that stands for a byte yields that byte, and any other
/// key is ignored.
pub open spec fn reading(event: TerminalEvent) -> Reading {
    match event {
        TerminalEvent::Other => Reading::Wait,
        TerminalEvent::Key(stroke) => if stroke.kind == KeyKind::Release {
            Reading::Wait
        } else if is_quit_chord(stroke) {
            Reading::Quit
        } else {
            match key_byte(stroke.key) {
                Some(byte) => Reading::Byte(byte),
                None => Reading::Wait,
            }
        },
    }
}

/// How `byte` is shown: 10 as a line break, any other value as the character
/// with that code.
pub open spec fn glyph(byte: u8) -> Glyph {
    if byte == 10 {
        Glyph::LineBreak
    } else {
        Glyph::Char(byte as char)
    }
}

/// Asks crossterm whether modifier bits hold Control.
///
/// Calls `KeyModifiers::contains` with `KeyModifiers::CONTROL` on the
/// `KeyModifiers` value that `from_bits_retain` makes of `modifiers`. The
/// contract claims that this is the bit test of `control_held`: `CONTROL` is
/// the flag with the bits `0b0000_0010`, `from_bits_retain` keeps every
/// bit, and `contains` says whether every bit of the flag is set.
#[verifier::external_body]
fn modifiers_hold_control(modifiers: u8) -> (held: bool)
    ensures
        held == control_held(modifiers),
{
    KeyModifiers::from_bits_retain(modifiers).contains(KeyModifiers::CONTROL)
}

/// The byte that `key` stands for, if it stands for one.
pub fn key_code_to_ascii(key: Key) -> (byte: Option<u8>)
    ensures
        byte == key_byte(key),
{
    match key {
        Key::Char(c) => Some((c as u32 % 256) as u8),
        Key::Backspace => Some(8),
        Key::Enter => Some(10),
        Key::Tab => Some(9),
        Key::BackTab => Some(9),
        Key::Esc => Some(27),
        Key::Other => None,
    }
}

/// Whether `stroke` is the interrupt chord, on which the process ends.
pub fn check_key_event_quit(stroke: &KeyStroke) -> (quit: bool)
    ensures
        quit == is_quit_chord(*stroke),
{
    let on_c: bool = match stroke.key {
        Key::Char(c) => c == 'c' || c == 'C',
        _ => false,
    };
    on_c && modifiers_hold_control(stroke.modifiers)
}

/// What the wait for an input byte does with `event`.
pub fn read_event(event: &TerminalEvent) -> (outcome: Reading)
    ensures
        outcome == reading(*event),
{
    match event {
        TerminalEvent::Other => Reading::Wait,
        TerminalEvent::Key(stroke) => {
            match stroke.kind {
                KeyKind::Release => Reading::Wait,
                _ => {
                    if check_key_event_quit(stroke) {
                        Reading::Quit
                    } else {
                        match key_code_to_ascii(stroke.key) {
                            Some(byte) => Reading::Byte(byte),
                            None => Reading::Wait,
                        }
                    }
                },
            }
        },
    }
}

/// How the output shows `byte`.
pub fn write_glyph(byte: u8) -> (shown: Glyph)
    ensures
        shown == glyph(byte),
{
    if byte == 10 {
        Glyph::LineBreak
    } else {
        Glyph::Char(byte as char)
    }
}

} // verus!
