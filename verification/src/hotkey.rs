//! Push-to-talk detection: what the low-level keyboard hook decides for each
//! key message, given the configured key and whether Ctrl is held.

use vstd::prelude::*;

verus! {

/// Events emitted by the hotkey system.
#[derive(Debug, Clone, Copy, PartialEq, Eq, Structural)]
pub enum HotkeyEvent {
    /// User pressed the push-to-talk keys → start recording.
    PushDown,
    /// User released the push-to-talk keys → stop recording & transcribe.
    PushUp,
}

/// `WM_KEYDOWN`
pub const WM_KEYDOWN: u32 = 0x0100;

/// `WM_KEYUP`
pub const WM_KEYUP: u32 = 0x0101;

/// `WM_SYSKEYDOWN`
pub const WM_SYSKEYDOWN: u32 = 0x0104;

/// `WM_SYSKEYUP`
pub const WM_SYSKEYUP: u32 = 0x0105;

/// A key-press message.
pub open spec fn is_key_down(msg: u32) -> bool {
    msg == WM_KEYDOWN || msg == WM_SYSKEYDOWN
}

/// A key-release message.
pub open spec fn is_key_up(msg: u32) -> bool {
    msg == WM_KEYUP || msg == WM_SYSKEYUP
}

/// The hook's decision for the key `vk` and message `msg`: the event to
/// send, if any, and whether the push-to-talk key is now held. A press of the
/// configured key (with Ctrl when required) sends `PushDown` once, ignoring
/// auto-repeat; a release of the key sends `PushUp` when a press was sent,
/// whether or not Ctrl is still held, and the key is no longer held.
pub open spec fn hook_step_spec(
    vk_code: u32,
    require_ctrl: bool,
    vk: u32,
    msg: u32,
    ctrl_down: bool,
    is_down: bool,
) -> (Option<HotkeyEvent>, bool) {
    let target = vk == vk_code;
    let ctrl_ok = !require_ctrl || ctrl_down;
    if target && is_key_down(msg) && ctrl_ok {
        (if is_down {
            None
        } else {
            Some(HotkeyEvent::PushDown)
        }, true)
    } else if target && is_key_up(msg) {
        (if is_down {
            Some(HotkeyEvent::PushUp)
        } else {
            None
        }, false)
    } else {
        (None, is_down)
    }
}

/// Decides one keyboard message (see `hook_step_spec`).
pub fn hook_step(
    vk_code: u32,
    require_ctrl: bool,
    vk: u32,
    msg: u32,
    ctrl_down: bool,
    is_down: bool,
) -> (r: (Option<HotkeyEvent>, bool))
    ensures
        r == hook_step_spec(vk_code, require_ctrl, vk, msg, ctrl_down, is_down),
{
    let is_target_key = vk == vk_code;
    let ctrl_ok = if require_ctrl {
        ctrl_down
    } else {
        true
    };
    if is_target_key && (msg == WM_KEYDOWN || msg == WM_SYSKEYDOWN) && ctrl_ok {
        if is_down {
            (None, true)
        } else {
            (Some(HotkeyEvent::PushDown), true)
        }
    } else if is_target_key && (msg == WM_KEYUP || msg == WM_SYSKEYUP) {
        if is_down {
            (Some(HotkeyEvent::PushUp), false)
        } else {
            (None, false)
        }
    } else {
        (None, is_down)
    }
}

/// The events sent for the messages `inputs` (key, message, Ctrl held),
/// starting with the key not held, and whether it is held at the end.
pub open spec fn hook_run(vk_code: u32, require_ctrl: bool, inputs: Seq<(u32, u32, bool)>) -> (
    Seq<HotkeyEvent>,
    bool,
)
    decreases inputs.len(),
{
    if inputs.len() == 0 {
        (Seq::empty(), false)
    } else {
        let (evs, held) = hook_run(vk_code, require_ctrl, inputs.drop_last());
        let (vk, msg, ctrl) = inputs.last();
        let (ev, held2) = hook_step_spec(vk_code, require_ctrl, vk, msg, ctrl, held);
        (
            match ev {
                Some(e) => evs.push(e),
                None => evs,
            },
            held2,
        )
    }
}

/// Over any run of keyboard messages the events alternate: `PushDown`,
/// `PushUp`, `PushDown`, ... starting with `PushDown`, and the key is held
/// exactly when the last event sent was `PushDown`.
pub proof fn lemma_events_alternate(vk_code: u32, require_ctrl: bool, inputs: Seq<(u32, u32, bool)>)
    ensures
        forall|i: int|
            0 <= i < hook_run(vk_code, require_ctrl, inputs).0.len() ==> #[trigger] hook_run(
                vk_code,
                require_ctrl,
                inputs,
            ).0[i] == (if i % 2 == 0 {
                HotkeyEvent::PushDown
            } else {
                HotkeyEvent::PushUp
            }),
        hook_run(vk_code, require_ctrl, inputs).1 <==> hook_run(vk_code, require_ctrl, inputs).0.len()
            % 2 == 1,
    decreases inputs.len(),
{
    if inputs.len() > 0 {
        let prev = inputs.drop_last();
        lemma_events_alternate(vk_code, require_ctrl, prev);
        let evs = hook_run(vk_code, require_ctrl, prev).0;
        let out = hook_run(vk_code, require_ctrl, inputs).0;
        assert forall|i: int| 0 <= i < out.len() implies #[trigger] out[i] == (if i % 2 == 0 {
            HotkeyEvent::PushDown
        } else {
            HotkeyEvent::PushUp
        }) by {
            if i < evs.len() {
                assert(out[i] == evs[i]);
            }
        }
    }
}

/// While the key is held, further presses (auto-repeat) send nothing.
pub proof fn lemma_repeat_is_silent(vk_code: u32, require_ctrl: bool, vk: u32, msg: u32, ctrl_down: bool)
    requires
        is_key_down(msg),
    ensures
        hook_step_spec(vk_code, require_ctrl, vk, msg, ctrl_down, true).0 is None,
{
}

} // verus!
