//! Raw terminal input, and the event that each input means.

use crate::session::{Click, Event};
use vstd::prelude::*;

verus! {

/// The key of a key press.
#[derive(Clone, Copy, Debug, PartialEq, Eq)]
pub enum KeyCode {
    Char(char),
    Escape,
    Enter,
    Up,
    Down,
    Home,
    End,
    PageUp,
    PageDown,
    Backspace,
    Left,
    Right,
    Other,
}

/// A key press: the key, and whether Control was held with it.
#[derive(Clone, Copy, Debug, PartialEq, Eq)]
pub struct Key {
    pub code: KeyCode,
    pub control: bool,
}

/// What the mouse did.
#[derive(Clone, Copy, Debug, PartialEq, Eq)]
pub enum MouseKind {
    Press,
    ScrollUp,
    ScrollDown,
    Other,
}

/// A mouse report: what the mouse did, and the screen cell under it.
#[derive(Clone, Copy, Debug, PartialEq, Eq)]
pub struct Mouse {
    pub kind: MouseKind,
    pub column: u16,
    pub row: u16,
}

/// One input: from the terminal, or a request from outside to stop.
#[derive(Clone, Copy, Debug, PartialEq, Eq)]
pub enum Input {
    Key(Key),
    Mouse(Mouse),
    /// A signal asked the program to stop.
    Interrupted,
    Other,
}

/// The event that a key press means.
///
/// Escape, Control-C and Control-D cancel. Enter confirms. The arrows move
/// the highlight and the cursor; Home and Page Up jump to the top of the
/// window, End and Page Down to its bottom. Backspace and Control-H delete.
/// Any other character typed without Control goes into the query. Nothing
/// else means anything.
pub open spec fn event_of_key(key: Key) -> Option<Event> {
    match key.code {
        KeyCode::Char(c) => if key.control {
            if c == 'c' || c == 'd' {
                Some(Event::Cancel)
            } else if c == 'h' {
                Some(Event::Backspace)
            } else {
                None
            }
        } else {
            Some(Event::Insert(c))
        },
        KeyCode::Escape => Some(Event::Cancel),
        KeyCode::Enter => Some(Event::Confirm),
        KeyCode::Up => Some(Event::Up),
        KeyCode::Down => Some(Event::Down),
        KeyCode::Home | KeyCode::PageUp => Some(Event::JumpTop),
        KeyCode::End | KeyCode::PageDown => Some(Event::JumpBottom),
        KeyCode::Backspace => Some(Event::Backspace),
        KeyCode::Left => Some(Event::CursorLeft),
        KeyCode::Right => Some(Event::CursorRight),
        KeyCode::Other => None,
    }
}

/// The event that a mouse report taken at time `now` means: the wheel moves
/// the highlight, and a press is a click at `now`.
pub open spec fn event_of_mouse(mouse: Mouse, now: u64) -> Option<Event> {
    match mouse.kind {
        MouseKind::Press => Some(
            Event::Click(Click { at: now, column: mouse.column, row: mouse.row }),
        ),
        MouseKind::ScrollUp => Some(Event::Up),
        MouseKind::ScrollDown => Some(Event::Down),
        MouseKind::Other => None,
    }
}

/// The event that `input`, taken at time `now`, means. A request to stop
/// cancels, as the interrupt keys do.
pub open spec fn event_of(input: Input, now: u64) -> Option<Event> {
    match input {
        Input::Key(key) => event_of_key(key),
        Input::Mouse(mouse) => event_of_mouse(mouse, now),
        Input::Interrupted => Some(Event::Cancel),
        Input::Other => None,
    }
}

/// The event that `input` means, if it means one. `now` is the time at
/// which the input was taken, in milliseconds.
pub fn interpret(input: Input, now: u64) -> (event: Option<Event>)
    ensures
        event == event_of(input, now),
{
    match input {
        Input::Key(key) => match key.code {
            KeyCode::Char(c) => {
                if !key.control {
                    Some(Event::Insert(c))
                } else if c == 'c' || c == 'd' {
                    Some(Event::Cancel)
                } else if c == 'h' {
                    Some(Event::Backspace)
                } else {
                    None
                }
            },
            KeyCode::Escape => Some(Event::Cancel),
            KeyCode::Enter => Some(Event::Confirm),
            KeyCode::Up => Some(Event::Up),
            KeyCode::Down => Some(Event::Down),
            KeyCode::Home => Some(Event::JumpTop),
            KeyCode::PageUp => Some(Event::JumpTop),
            KeyCode::End => Some(Event::JumpBottom),
            KeyCode::PageDown => Some(Event::JumpBottom),
            KeyCode::Backspace => Some(Event::Backspace),
            KeyCode::Left => Some(Event::CursorLeft),
            KeyCode::Right => Some(Event::CursorRight),
            KeyCode::Other => None,
        },
        Input::Mouse(mouse) => match mouse.kind {
            MouseKind::Press => Some(
                Event::Click(Click { at: now, column: mouse.column, row: mouse.row }),
            ),
            MouseKind::ScrollUp => Some(Event::Up),
            MouseKind::ScrollDown => Some(Event::Down),
            MouseKind::Other => None,
        },
        Input::Interrupted => Some(Event::Cancel),
        Input::Other => None,
    }
}

} // verus!
