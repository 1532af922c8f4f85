//! The floating status pill: which state it shows, in which colour, with
//! which label.

use vstd::prelude::*;

verus! {

/// Commands sent to the overlay.
#[derive(Debug, Clone, Copy, PartialEq, Eq, Structural)]
pub enum OverlayState {
    Recording,
    Processing,
    Done,
    Hidden,
}

/// Colour while recording (BGR).
pub const COLOR_RED: u32 = 0x003030E0;

/// Colour while processing (BGR).
pub const COLOR_YELLOW: u32 = 0x0020C8E8;

/// Colour when done (BGR).
pub const COLOR_GREEN: u32 = 0x0040B840;

/// The number the window procedure stores for a state.
pub open spec fn state_code(s: OverlayState) -> u8 {
    match s {
        OverlayState::Recording => 1,
        OverlayState::Processing => 2,
        OverlayState::Done => 3,
        OverlayState::Hidden => 0,
    }
}

/// The number the window procedure stores for a state.
pub fn state_to_u8(s: OverlayState) -> (r: u8)
    ensures
        r == state_code(s),
{
    match s {
        OverlayState::Recording => 1,
        OverlayState::Processing => 2,
        OverlayState::Done => 3,
        OverlayState::Hidden => 0,
    }
}

/// What the overlay window does when it is given a new state: any pending
/// auto-hide is cancelled first, the window is shown unless the state is
/// `Hidden`, and `Done` arms an auto-hide after `auto_hide_ms`.
#[derive(Debug, Clone, Copy, PartialEq, Eq, Structural)]
pub struct OverlayChange {
    /// The stored state code.
    pub code: u8,
    /// Whether the window is shown.
    pub visible: bool,
    /// When to hide the window again, if at all.
    pub auto_hide_ms: Option<u32>,
}

/// How the window changes for the state `s`: shown unless `Hidden`, and
/// hidden again one second after `Done`.
pub fn overlay_change(s: OverlayState) -> (r: OverlayChange)
    ensures
        r.code == state_code(s),
        r.visible == (s != OverlayState::Hidden),
        r.auto_hide_ms == (if s == OverlayState::Done {
            Some(1000u32)
        } else {
            None::<u32>
        }),
{
    let code = state_to_u8(s);
    match s {
        OverlayState::Done => OverlayChange { code, visible: true, auto_hide_ms: Some(1000) },
        OverlayState::Hidden => OverlayChange { code, visible: false, auto_hide_ms: None },
        _ => OverlayChange { code, visible: true, auto_hide_ms: None },
    }
}

/// The fill colour for a stored state.
pub fn state_color(val: u8) -> (r: u32)
    ensures
        r == (if val == 1 {
            COLOR_RED
        } else if val == 2 {
            COLOR_YELLOW
        } else if val == 3 {
            COLOR_GREEN
        } else {
            0
        }),
{
    match val {
        1 => COLOR_RED,
        2 => COLOR_YELLOW,
        3 => COLOR_GREEN,
        _ => 0,
    }
}

/// The label for a stored state.
pub fn state_text(val: u8) -> (r: &'static str)
    ensures
        val == 1 ==> r@ == "  \u{25CF}  Recording..."@,
        val == 2 ==> r@ == "  \u{23F3}  Processing..."@,
        val == 3 ==> r@ == "  \u{2713}  Done"@,
        val != 1 && val != 2 && val != 3 ==> r@ == ""@,
        r@.len() == 0 <==> !(1 <= val <= 3),
{
    proof {
        reveal_strlit("  \u{25CF}  Recording...");
        reveal_strlit("  \u{23F3}  Processing...");
        reveal_strlit("  \u{2713}  Done");
        reveal_strlit("");
    }
    match val {
        1 => "  \u{25CF}  Recording...",
        2 => "  \u{23F3}  Processing...",
        3 => "  \u{2713}  Done",
        _ => "",
    }
}

/// Every state but `Hidden` is drawn with a colour; `Hidden` is not drawn.
pub proof fn lemma_only_hidden_is_blank(s: OverlayState)
    ensures
        (state_code(s) == 0) <==> (s == OverlayState::Hidden),
        1 <= state_code(s) <= 3 || s == OverlayState::Hidden,
{
}

} // verus!
