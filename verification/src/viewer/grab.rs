//! Grabbing the input: whether keys and pointer belong to the guest.

use vstd::prelude::*;

use crate::viewer::input::MouseMode;

verus! {

/// Whether the guest is meant to have the input.
#[derive(Debug)]
pub struct InputGrabState {
    active: bool,
}

impl View for InputGrabState {
    type V = bool;

    closed spec fn view(&self) -> bool {
        self.active
    }
}

/// Whether to ask for the host's shortcuts: while the grab is on and the window has the focus,
/// and the windowing system says that they still go to the host. `inhibited` is what it says, or
/// nothing where there is no window on screen.
pub open spec fn asks_for_shortcuts(
    active: bool,
    window_is_active: bool,
    inhibited: Option<bool>,
) -> bool {
    active && window_is_active && inhibited == Some(false)
}

/// No grab.
pub fn new_state() -> (r: InputGrabState)
    ensures
        !r@,
{
    InputGrabState { active: false }
}

/// Whether the guest is meant to have the input.
pub fn is_active(state: &InputGrabState) -> (r: bool)
    ensures
        r == state@,
{
    state.active
}

/// Turns the grab on after a click. Tells whether that changed anything, and whether to ask the
/// windowing system for the host's shortcuts. The latter does not depend on the former: the state
/// only records what is meant, and the windowing system may have dropped the shortcuts or never
/// given them, so every click asks again.
pub fn activate(
    state: &mut InputGrabState,
    window_is_active: bool,
    inhibited: Option<bool>,
) -> (r: (bool, bool))
    ensures
        final(state)@,
        r.0 == !old(state)@,
        r.1 == asks_for_shortcuts(true, window_is_active, inhibited),
{
    let changed: bool = if state.active {
        false
    } else {
        state.active = true;
        true
    };
    let ask: bool = ensure_inhibited(state, window_is_active, inhibited);
    (changed, ask)
}

/// Whether to ask the windowing system for the host's shortcuts now.
pub fn ensure_inhibited(
    state: &InputGrabState,
    window_is_active: bool,
    inhibited: Option<bool>,
) -> (ask: bool)
    ensures
        ask == asks_for_shortcuts(state@, window_is_active, inhibited),
{
    if !state.active || !window_is_active {
        return false;
    }
    match inhibited {
        Some(inhibited) => !inhibited,
        None => false,
    }
}

/// Turns the grab off, and tells whether that changed anything; the shortcuts go back to the host
/// where it did.
pub fn release(state: &mut InputGrabState) -> (changed: bool)
    ensures
        !final(state)@,
        changed == old(state)@,
{
    if !state.active {
        false
    } else {
        state.active = false;
        true
    }
}

/// Whether the pointer is hidden because the guest has captured it.
pub fn capture_hidden(state: &InputGrabState, mouse_mode: MouseMode) -> (r: bool)
    ensures
        r == (state@ && mouse_mode == MouseMode::Relative),
{
    state.active && mouse_mode == MouseMode::Relative
}

/// The host's shortcuts are asked for exactly where the grab is on, the window has the focus, and
/// the windowing system says that they go to the host; never where it says nothing.
pub proof fn law_shortcuts_are_asked_for_while_they_are_missing(
    active: bool,
    window_is_active: bool,
    inhibited: bool,
)
    ensures
        asks_for_shortcuts(true, true, Some(false)),
        asks_for_shortcuts(active, window_is_active, Some(inhibited)) ==> active
            && window_is_active && !inhibited,
        !asks_for_shortcuts(active, window_is_active, None),
{
}

} // verus!
