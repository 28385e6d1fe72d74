//! Turning key presses and the passage of time into viewer events.
//!
//! The terminal is polled by the caller; these functions decide, from what the
//! poll reports, which event to deliver or how long to wait for the next key.

use vstd::prelude::*;

use crate::config::Config;
use crate::tabs::TabBar;

verus! {

/// What the viewer reacts to.
#[derive(Debug, Clone, Copy, PartialEq, Eq, Structural)]
pub enum Event {
    Exit,
    NextTab,
    PreviousTab,
    Tick,
}

/// The key of a key event, as far as the viewer distinguishes keys.
#[derive(Debug, Clone, Copy, PartialEq, Eq, Structural)]
pub enum Key {
    Left,
    Right,
    Esc,
    Char(char),
    Other,
}

/// Whether a key event reports a press, an auto-repeat or a release.
#[derive(Debug, Clone, Copy, PartialEq, Eq, Structural)]
pub enum KeyKind {
    Press,
    Repeat,
    Release,
}

/// One input read from the terminal.
#[derive(Debug, Clone, Copy, PartialEq, Eq, Structural)]
pub enum Input {
    /// A key event; `control` tells whether Control was held.
    Key { key: Key, control: bool, kind: KeyKind },
    /// Any other terminal event (mouse, resize, focus, paste).
    Other,
}

/// The event a terminal input stands for: presses and repeats of Left and
/// Right switch tabs; `q`, Esc and Control-C quit; everything else (releases,
/// other keys, other inputs) is ignored.
pub open spec fn input_event(input: Input) -> Option<Event> {
    match input {
        Input::Key { key, control, kind } => if kind == KeyKind::Press || kind == KeyKind::Repeat {
            match key {
                Key::Left => Some(Event::PreviousTab),
                Key::Right => Some(Event::NextTab),
                Key::Char(c) => if c == 'q' || (c == 'c' && control) {
                    Some(Event::Exit)
                } else {
                    None
                },
                Key::Esc => Some(Event::Exit),
                Key::Other => None,
            }
        } else {
            None
        },
        Input::Other => None,
    }
}

/// What to do next: deliver an event, or wait for input at most the given
/// number of nanoseconds.
#[derive(Debug, Clone, Copy, PartialEq, Eq, Structural)]
pub enum Step {
    Deliver(Event),
    Wait(u128),
}

/// Decides the viewer's events from the tick period.
#[derive(Debug, Clone, Copy)]
pub struct EventHandler {
    /// Time between two ticks, in nanoseconds.
    pub tick_nanos: u128,
}

impl EventHandler {
    /// A handler that ticks once per configured delay.
    pub fn from_config(config: &Config) -> (r: EventHandler)
        ensures
            r.tick_nanos == config.delay_secs() as int * 1_000_000_000,
            r.tick_nanos >= 1_000_000_000,
    {
        EventHandler { tick_nanos: config.delay() as u128 * 1_000_000_000 }
    }

    /// The next step, given whether an interrupt (SIGINT) arrived and how many
    /// nanoseconds passed since the last tick: an interrupt quits; once a full
    /// period has passed, a tick is due (the caller then restarts the period);
    /// otherwise wait for input for the rest of the period.
    pub fn next(&self, interrupted: bool, elapsed_nanos: u128) -> (r: Step)
        ensures
            interrupted ==> r == Step::Deliver(Event::Exit),
            !interrupted && elapsed_nanos >= self.tick_nanos ==> r == Step::Deliver(Event::Tick),
            !interrupted && elapsed_nanos < self.tick_nanos ==> r == Step::Wait(
                (self.tick_nanos - elapsed_nanos) as u128,
            ),
            r matches Step::Wait(n) ==> 0 < n <= self.tick_nanos,
    {
        if interrupted {
            Step::Deliver(Event::Exit)
        } else if elapsed_nanos >= self.tick_nanos {
            Step::Deliver(Event::Tick)
        } else {
            Step::Wait(self.tick_nanos - elapsed_nanos)
        }
    }

    /// The event that a terminal input stands for, if any.
    pub fn on_input(&self, input: Input) -> (r: Option<Event>)
        ensures
            r == input_event(input),
    {
        match input {
            Input::Key { key, control, kind } => {
                if kind == KeyKind::Press || kind == KeyKind::Repeat {
                    match key {
                        Key::Left => Some(Event::PreviousTab),
                        Key::Right => Some(Event::NextTab),
                        Key::Char(c) => if c == 'q' || (c == 'c' && control) {
                            Some(Event::Exit)
                        } else {
                            None
                        },
                        Key::Esc => Some(Event::Exit),
                        Key::Other => None,
                    }
                } else {
                    None
                }
            },
            Input::Other => None,
        }
    }
}

} // verus!

verus! {

/// What the viewer does after an event.
#[derive(Debug, Clone, Copy, PartialEq, Eq, Structural)]
pub enum Action {
    /// Stop: the user asked to quit.
    Quit,
    /// Draw again: the selected tab changed.
    Redraw,
    /// Refresh every battery's readings, then draw again.
    Refresh,
}

/// Applies an event to the tab selection and says what follows: quitting
/// leaves the tabs as they are; Left and Right move the selection back or
/// forth, wrapping around; a tick asks for fresh readings.
pub fn apply_event(tabs: &mut TabBar, event: Event) -> (a: Action)
    ensures
        final(tabs).title_texts() == old(tabs).title_texts(),
        event == Event::Exit ==> a == Action::Quit && final(tabs).selected() == old(tabs).selected(),
        event == Event::Tick ==> a == Action::Refresh && final(tabs).selected() == old(tabs).selected(),
        event == Event::NextTab ==> a == Action::Redraw && (old(tabs).title_texts().len() > 0
            ==> final(tabs).selected() == (old(tabs).selected() + 1) % old(tabs).title_texts().len()),
        event == Event::PreviousTab ==> a == Action::Redraw && (old(tabs).title_texts().len() > 0
            ==> final(tabs).selected() as int == (old(tabs).selected() + old(tabs).title_texts().len()
            - 1) % (old(tabs).title_texts().len() as int)),
{
    match event {
        Event::Exit => Action::Quit,
        Event::PreviousTab => {
            tabs.previous();
            Action::Redraw
        },
        Event::NextTab => {
            tabs.next();
            Action::Redraw
        },
        Event::Tick => Action::Refresh,
    }
}

} // verus!
