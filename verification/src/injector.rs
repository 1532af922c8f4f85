//! Putting the transcript at the cursor: the plan for either strategy, and
//! the key events each one sends.
//!
//! 1. **Clipboard** (default) – copies text to clipboard, sends Ctrl+V,
//!    then restores the previous clipboard contents.
//! 2. **SendInput** – simulates one Unicode key press and release for each
//!    UTF-16 unit of the text.

use vstd::prelude::*;
use crate::text;

verus! {

/// Virtual-key code of Ctrl.
pub const VK_CONTROL: u16 = 0x11;

/// Virtual-key code of left Ctrl.
pub const VK_LCONTROL: u16 = 0xA2;

/// Virtual-key code of right Ctrl.
pub const VK_RCONTROL: u16 = 0xA3;

/// Virtual-key code of Shift.
pub const VK_SHIFT: u16 = 0x10;

/// Virtual-key code of Alt.
pub const VK_MENU: u16 = 0x12;

/// Virtual-key code of V.
pub const VK_V: u16 = 0x56;

/// One synthetic keyboard event.
#[derive(Debug, Clone, Copy, PartialEq, Eq, Structural)]
pub struct KeyStroke {
    /// Virtual-key code (0 for a Unicode event).
    pub vk: u16,
    /// UTF-16 unit of a Unicode event (0 otherwise).
    pub scan: u16,
    /// A release rather than a press.
    pub key_up: bool,
    /// A Unicode event.
    pub unicode: bool,
}

/// What to do to put a text at the cursor.
#[derive(Debug)]
pub enum InjectionPlan {
    /// Nothing to insert.
    Nothing,
    /// Send these key events.
    SendInput { keystrokes: Vec<KeyStroke> },
    /// Save the clipboard, send `release`, wait 50 ms, put `text_utf16` on the
    /// clipboard, wait 30 ms, send `paste`, wait `paste_wait_ms`, restore the
    /// old clipboard.
    Clipboard {
        text_utf16: Vec<u16>,
        release: Vec<KeyStroke>,
        paste: Vec<KeyStroke>,
        paste_wait_ms: u64,
    },
}

/// A press or release of the virtual key `vk`.
pub open spec fn vk_stroke(vk: u16, key_up: bool) -> KeyStroke {
    KeyStroke { vk, scan: 0, key_up, unicode: false }
}

/// A press or release of the virtual key `vk`.
pub fn make_key_input(vk: u16, key_up: bool) -> (r: KeyStroke)
    ensures
        r == vk_stroke(vk, key_up),
{
    KeyStroke { vk, scan: 0, key_up, unicode: false }
}

/// Releases of Ctrl, left Ctrl, right Ctrl, Shift and Alt, so that held
/// modifiers do not interfere with the paste.
pub open spec fn release_spec() -> Seq<KeyStroke> {
    seq![
        vk_stroke(VK_CONTROL, true),
        vk_stroke(VK_LCONTROL, true),
        vk_stroke(VK_RCONTROL, true),
        vk_stroke(VK_SHIFT, true),
        vk_stroke(VK_MENU, true),
    ]
}

/// Ctrl down, V down, V up, Ctrl up.
pub open spec fn ctrl_v_spec() -> Seq<KeyStroke> {
    seq![
        vk_stroke(VK_CONTROL, false),
        vk_stroke(VK_V, false),
        vk_stroke(VK_V, true),
        vk_stroke(VK_CONTROL, true),
    ]
}

/// Release Ctrl, Alt, Shift modifier keys so they don't interfere with paste.
pub fn release_modifiers() -> (r: Vec<KeyStroke>)
    ensures
        r@ == release_spec(),
{
    let mut r: Vec<KeyStroke> = Vec::new();
    r.push(make_key_input(VK_CONTROL, true));
    r.push(make_key_input(VK_LCONTROL, true));
    r.push(make_key_input(VK_RCONTROL, true));
    r.push(make_key_input(VK_SHIFT, true));
    r.push(make_key_input(VK_MENU, true));
    assert(r@ =~= release_spec());
    r
}

/// The key events of Ctrl+V.
pub fn send_ctrl_v() -> (r: Vec<KeyStroke>)
    ensures
        r@ == ctrl_v_spec(),
{
    let mut r: Vec<KeyStroke> = Vec::new();
    r.push(make_key_input(VK_CONTROL, false));
    r.push(make_key_input(VK_V, false));
    r.push(make_key_input(VK_V, true));
    r.push(make_key_input(VK_CONTROL, true));
    assert(r@ =~= ctrl_v_spec());
    r
}

/// A Unicode press or release of the UTF-16 unit `u`.
pub open spec fn unicode_stroke(u: u16, key_up: bool) -> KeyStroke {
    KeyStroke { vk: 0, scan: u, key_up, unicode: true }
}

/// A press and a release for each of the units `us`.
pub open spec fn unicode_strokes(us: Seq<u16>) -> Seq<KeyStroke>
    decreases us.len(),
{
    if us.len() == 0 {
        Seq::empty()
    } else {
        unicode_strokes(us.drop_last()) + seq![
            unicode_stroke(us.last(), false),
            unicode_stroke(us.last(), true),
        ]
    }
}

/// The Unicode key events that type `text`.
pub fn unicode_keystrokes(text: &str) -> (r: Vec<KeyStroke>)
    ensures
        r@ == unicode_strokes(text::utf16(text@)),
{
    let chars = text::chars_of(text);
    let units = text::utf16_units(&chars);
    let mut r: Vec<KeyStroke> = Vec::new();
    let mut i: usize = 0;
    while i < units.len()
        invariant
            i <= units.len(),
            r@ == unicode_strokes(units@.take(i as int)),
        decreases units.len() - i,
    {
        let u = units[i];
        r.push(KeyStroke { vk: 0, scan: u, key_up: false, unicode: true });
        r.push(KeyStroke { vk: 0, scan: u, key_up: true, unicode: true });
        proof {
            assert(units@.take(i + 1).drop_last() =~= units@.take(i as int));
            assert(units@.take(i + 1).last() == u);
        }
        assert(r@ =~= unicode_strokes(units@.take(i + 1)));
        i = i + 1;
    }
    assert(units@.take(units.len() as int) =~= units@);
    r
}

/// Whether `method` names the key-event strategy.
pub open spec fn is_sendinput(method: Seq<char>) -> bool {
    method == "sendinput"@
}

/// Whether `p` is the plan for inserting `text` at the cursor with the chosen
/// method: nothing for an empty text, key events for `"sendinput"`, the
/// clipboard otherwise, waiting at least 100 ms after the paste.
pub open spec fn planned(p: InjectionPlan, text: Seq<char>, method: Seq<char>, restore_delay_ms: u64) -> bool {
    &&& text.len() == 0 ==> p is Nothing
    &&& text.len() > 0 && is_sendinput(method) ==> (p matches InjectionPlan::SendInput { keystrokes }
        && keystrokes@ == unicode_strokes(text::utf16(text)))
    &&& text.len() > 0 && !is_sendinput(method) ==> (p matches InjectionPlan::Clipboard {
        text_utf16,
        release,
        paste,
        paste_wait_ms,
    } && text_utf16@ == text::utf16(text).push(0u16) && release@ == release_spec() && paste@
        == ctrl_v_spec() && paste_wait_ms == (if restore_delay_ms > 100 {
        restore_delay_ms
    } else {
        100
    }))
}

/// Plan how to insert `text` at the cursor with the chosen method: nothing
/// for an empty text, key events for `"sendinput"`, the clipboard otherwise,
/// waiting at least 100 ms after the paste.
pub fn inject(text: &str, method: &str, restore_delay_ms: u64) -> (r: InjectionPlan)
    ensures
        planned(r, text@, method@, restore_delay_ms),
{
    if text.is_empty() {
        return InjectionPlan::Nothing;
    }
    let m = text::chars_of(method);
    let send = text::chars_of("sendinput");
    if crate::order::chars_equal(&m, &send) {
        InjectionPlan::SendInput { keystrokes: unicode_keystrokes(text) }
    } else {
        let wide = crate::autostart::to_wide(text);
        let wait = if restore_delay_ms > 100 {
            restore_delay_ms
        } else {
            100
        };
        InjectionPlan::Clipboard {
            text_utf16: wide,
            release: release_modifiers(),
            paste: send_ctrl_v(),
            paste_wait_ms: wait,
        }
    }
}

} // verus!
