//! "Start with Windows": what a toggle of the setting does, and the
//! NUL-terminated UTF-16 text that the registry calls take.

use vstd::prelude::*;
use crate::text;

verus! {

/// The change a toggle makes to the auto-start registration.
#[derive(Debug, Clone, Copy, PartialEq, Eq, Structural)]
pub enum AutostartAction {
    /// Write the executable's path to the Run key.
    Enable,
    /// Remove the value from the Run key.
    Disable,
}

/// The change a toggle makes when auto-start is `enabled_now`.
pub open spec fn toggle_spec(enabled_now: bool) -> AutostartAction {
    if enabled_now {
        AutostartAction::Disable
    } else {
        AutostartAction::Enable
    }
}

/// The state reached after `action` was tried from `enabled_now`: the
/// action's state when it `succeeded`, else the state before.
pub open spec fn state_after_spec(enabled_now: bool, action: AutostartAction, succeeded: bool) -> bool {
    if succeeded {
        action == AutostartAction::Enable
    } else {
        enabled_now
    }
}

/// Toggle auto-start, given whether it is enabled now: the change to make.
pub fn toggle(enabled_now: bool) -> (r: AutostartAction)
    ensures
        r == toggle_spec(enabled_now),
{
    if enabled_now {
        AutostartAction::Disable
    } else {
        AutostartAction::Enable
    }
}

/// The new state that a toggle reports: the one the change reached, or the
/// old one when the registry refused the change.
pub fn state_after(enabled_now: bool, action: AutostartAction, succeeded: bool) -> (r: bool)
    ensures
        r == state_after_spec(enabled_now, action, succeeded),
{
    if succeeded {
        match action {
            AutostartAction::Enable => true,
            AutostartAction::Disable => false,
        }
    } else {
        enabled_now
    }
}

/// A successful toggle reports the opposite state; a second successful
/// toggle undoes the first one's change and reports the state it started
/// from; a failed toggle reports the state unchanged.
pub proof fn lemma_toggle_twice(enabled_now: bool)
    ensures
        state_after_spec(enabled_now, toggle_spec(enabled_now), true) == !enabled_now,
        toggle_spec(state_after_spec(enabled_now, toggle_spec(enabled_now), true)) != toggle_spec(
            enabled_now,
        ),
        state_after_spec(
            !enabled_now,
            toggle_spec(state_after_spec(enabled_now, toggle_spec(enabled_now), true)),
            true,
        ) == enabled_now,
        state_after_spec(enabled_now, toggle_spec(enabled_now), false) == enabled_now,
{
}

/// `s` as UTF-16 code units followed by a terminating zero.
pub fn to_wide(s: &str) -> (r: Vec<u16>)
    ensures
        r@ == text::utf16(s@).push(0u16),
{
    let chars = text::chars_of(s);
    let mut r = text::utf16_units(&chars);
    r.push(0);
    r
}

} // verus!
