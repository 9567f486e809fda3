//! What the dashboard reacts to: key presses and animation ticks.

use vstd::prelude::*;

verus! {

/// A key, as far as the dashboard tells keys apart.
#[derive(Clone, Copy, Debug, PartialEq, Eq, Structural)]
pub enum Key {
    Char(char),
    Up,
    Down,
    Enter,
    Esc,
    Home,
    End,
    Other,
}

/// One input to the dashboard.
#[derive(Clone, Copy, Debug, PartialEq, Eq, Structural)]
pub enum AppEvent {
    /// A key was pressed; the flag tells whether Control was held.
    Key(Key, bool),
    /// No key arrived within the poll's timeout.
    Tick,
}

/// What a poll of the terminal came back with.
#[derive(Clone, Copy, Debug, PartialEq, Eq, Structural)]
pub enum Polled {
    /// Polling or reading failed.
    Failed,
    /// Nothing arrived within the timeout.
    Nothing,
    /// A key event; `pressed` is false for releases and repeats.
    Key { key: Key, control: bool, pressed: bool },
    /// Some other terminal event.
    Other,
}

/// The input a poll result stands for. Only key presses count as keys;
/// everything else that arrives, or nothing at all, is a tick. A failed poll
/// gives no input.
pub open spec fn input_of(polled: Polled) -> Option<AppEvent> {
    match polled {
        Polled::Failed => None,
        Polled::Key { key, control, pressed } => if pressed {
            Some(AppEvent::Key(key, control))
        } else {
            Some(AppEvent::Tick)
        },
        _ => Some(AppEvent::Tick),
    }
}

/// Turns a poll result into the dashboard's input.
pub fn classify(polled: Polled) -> (input: Option<AppEvent>)
    ensures
        input == input_of(polled),
{
    match polled {
        Polled::Failed => None,
        Polled::Key { key, control, pressed } => if pressed {
            Some(AppEvent::Key(key, control))
        } else {
            Some(AppEvent::Tick)
        },
        _ => Some(AppEvent::Tick),
    }
}

} // verus!
