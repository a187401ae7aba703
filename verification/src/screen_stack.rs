use vstd::prelude::*;
use crate::action::{Action, Screen};
use crate::keys::Key;

verus! {

/// What the program does with an input event.
pub enum Input {
    /// Ctrl-X: clear the display and stop, whatever page is shown.
    Quit,
    /// A key for the page on top.
    Press(Key),
    /// No key within the wait: the page on top gets a tick.
    Tick,
}

/// The input an event gives: Ctrl-X stops the program, another key goes to
/// the page on top, no key makes a tick.
pub open spec fn routed(event: Option<Key>) -> Input {
    match event {
        Some(k) => if k == Key::Ctrl('x') {
            Input::Quit
        } else {
            Input::Press(k)
        },
        None => Input::Tick,
    }
}

/// The input an event gives; see `routed`.
pub fn route(event: Option<Key>) -> (i: Input)
    ensures
        i == routed(event),
        match event {
            Some(k) => if k == Key::Ctrl('x') {
                i is Quit
            } else {
                i == Input::Press(k)
            },
            None => i is Tick,
        },
{
    match event {
        Some(k) => {
            if k == Key::Ctrl('x') {
                Input::Quit
            } else {
                Input::Press(k)
            }
        },
        None => Input::Tick,
    }
}

/// Each wait for a key gives the program exactly one thing to do: a key
/// other than Ctrl-X is pressed on the page on top, with no tick; no key
/// ticks it, with no key press; Ctrl-X does neither and stops.
pub proof fn lemma_one_input_per_wait(event: Option<Key>)
    ensures
        (routed(event) is Press) == (event is Some && event != Some(Key::Ctrl('x'))),
        routed(event) is Press ==> event == Some(routed(event)->Press_0),
        (routed(event) is Tick) == (event is None),
        (routed(event) is Quit) == (event == Some(Key::Ctrl('x'))),
{
}

/// What becomes of the stack of pages.
pub enum StackChange {
    Stay,
    Push(Screen),
    Pop,
    Replace(Screen),
}

/// What the program does after a page's action: change the stack, draw
/// again or not, stop or go on.
pub struct Outcome {
    pub change: StackChange,
    pub render: bool,
    pub stop: bool,
}

/// The outcome of `action`, given by a page that got a key (`keyed`) or a
/// tick, with `depth` pages on the stack: a key always draws again, a tick
/// only when it asks for something; a change of the stack draws again; the
/// program stops on `Exit` or when the last page leaves.
pub fn settle(action: Action, keyed: bool, depth: usize) -> (out: Outcome)
    requires
        depth >= 1,
    ensures
        match action {
            Action::Push(s) => out.change == StackChange::Push(s) && out.render && !out.stop,
            Action::Pop => out.change is Pop && out.render && out.stop == (depth == 1),
            Action::Replace(s) => out.change == StackChange::Replace(s) && out.render && !out.stop,
            Action::Redraw => out.change is Stay && out.render && !out.stop,
            Action::Exit => out.change is Stay && out.stop,
            Action::Nothing => out.change is Stay && out.render == keyed && !out.stop,
        },
{
    match action {
        Action::Push(s) => Outcome { change: StackChange::Push(s), render: true, stop: false },
        Action::Pop => Outcome { change: StackChange::Pop, render: true, stop: depth == 1 },
        Action::Replace(s) => Outcome { change: StackChange::Replace(s), render: true, stop: false },
        Action::Redraw => Outcome { change: StackChange::Stay, render: true, stop: false },
        Action::Exit => Outcome { change: StackChange::Stay, render: keyed, stop: true },
        Action::Nothing => Outcome { change: StackChange::Stay, render: keyed, stop: false },
    }
}

} // verus!
