//! The tray menu's commands and the tray icon's pixels.

use vstd::prelude::*;
use crate::text;

verus! {

/// Commands the tray menu can emit.
#[derive(Debug, Clone, Copy, PartialEq, Eq, Structural)]
pub enum TrayCommand {
    ReloadConfig,
    OpenConfigFolder,
    ToggleAutostart,
    About,
    Quit,
}

/// The command that a click on the menu's clickable item number `index`
/// (counted from 0, separators left out) emits: reload, open folder,
/// autostart, about, quit.
pub fn command_for_item(index: usize) -> (r: Option<TrayCommand>)
    ensures
        index == 0 ==> r == Some(TrayCommand::ReloadConfig),
        index == 1 ==> r == Some(TrayCommand::OpenConfigFolder),
        index == 2 ==> r == Some(TrayCommand::ToggleAutostart),
        index == 3 ==> r == Some(TrayCommand::About),
        index == 4 ==> r == Some(TrayCommand::Quit),
        index >= 5 ==> r is None,
{
    if index == 0 {
        Some(TrayCommand::ReloadConfig)
    } else if index == 1 {
        Some(TrayCommand::OpenConfigFolder)
    } else if index == 2 {
        Some(TrayCommand::ToggleAutostart)
    } else if index == 3 {
        Some(TrayCommand::About)
    } else if index == 4 {
        Some(TrayCommand::Quit)
    } else {
        None
    }
}

/// The command of the clickable menu item number `i`.
pub open spec fn item_command(i: int) -> Option<TrayCommand> {
    if i == 0 {
        Some(TrayCommand::ReloadConfig)
    } else if i == 1 {
        Some(TrayCommand::OpenConfigFolder)
    } else if i == 2 {
        Some(TrayCommand::ToggleAutostart)
    } else if i == 3 {
        Some(TrayCommand::About)
    } else if i == 4 {
        Some(TrayCommand::Quit)
    } else {
        None
    }
}

/// The command that a menu event with id `clicked` emits, where `ids` are
/// the ids of the clickable items in menu order: that of the first item
/// with this id, or none for an event of no item.
pub fn command_for_id(ids: &Vec<String>, clicked: &str) -> (r: Option<TrayCommand>)
    ensures
        forall|i: int|
            0 <= i < ids@.len() && ids@[i]@ == clicked@ && (forall|j: int| 0 <= j < i ==> ids@[j]@ != clicked@)
                ==> r == item_command(i),
        (forall|j: int| 0 <= j < ids@.len() ==> ids@[j]@ != clicked@) ==> r is None,
{
    let c = text::chars_of(clicked);
    let mut i: usize = 0;
    while i < ids.len()
        invariant
            i <= ids.len(),
            c@ == clicked@,
            forall|j: int| 0 <= j < i ==> ids@[j]@ != clicked@,
        decreases ids.len() - i,
    {
        let a = text::chars_of(ids[i].as_str());
        if crate::order::chars_equal(&a, &c) {
            return command_for_item(i);
        }
        i = i + 1;
    }
    None
}

/// The RGBA colour of the icon's pixel at column `x`, row `y`: a transparent
/// two-pixel border around a green square.
pub open spec fn icon_pixel(x: int, y: int) -> Seq<u8> {
    if x < 2 || x >= 30 || y < 2 || y >= 30 {
        seq![0u8, 0u8, 0u8, 0u8]
    } else {
        seq![46u8, 204u8, 113u8, 255u8]
    }
}

/// The 32×32 RGBA pixels of the default tray icon, row by row.
pub fn default_icon_rgba() -> (r: Vec<u8>)
    ensures
        r@.len() == 32 * 32 * 4,
        forall|y: int, x: int, c: int|
            0 <= y < 32 && 0 <= x < 32 && 0 <= c < 4 ==> r@[(y * 32 + x) * 4 + c] == #[trigger] icon_pixel(
                x,
                y,
            )[c],
{
    let size: u32 = 32;
    let mut rgba: Vec<u8> = Vec::new();
    let mut y: u32 = 0;
    while y < size
        invariant
            size == 32,
            y <= size,
            rgba@.len() == y * 32 * 4,
            forall|yy: int, x: int, c: int|
                0 <= yy < y && 0 <= x < 32 && 0 <= c < 4 ==> rgba@[(yy * 32 + x) * 4 + c]
                    == #[trigger] icon_pixel(x, yy)[c],
        decreases size - y,
    {
        let mut x: u32 = 0;
        while x < size
            invariant
                size == 32,
                y < size,
                x <= size,
                rgba@.len() == (y * 32 + x) * 4,
                forall|yy: int, xx: int, c: int|
                    0 <= yy < y && 0 <= xx < 32 && 0 <= c < 4 ==> rgba@[(yy * 32 + xx) * 4 + c]
                        == #[trigger] icon_pixel(xx, yy)[c],
                forall|xx: int, c: int|
                    0 <= xx < x && 0 <= c < 4 ==> rgba@[(y * 32 + xx) * 4 + c]
                        == #[trigger] icon_pixel(xx, y as int)[c],
            decreases size - x,
        {
            let in_border = x < 2 || x >= size - 2 || y < 2 || y >= size - 2;
            let px: [u8; 4] = if in_border {
                [0, 0, 0, 0]
            } else {
                [46, 204, 113, 255]
            };
            let ghost before = rgba@;
            let mut c: usize = 0;
            while c < 4
                invariant
                    c <= 4,
                    rgba@.len() == before.len() + c,
                    forall|k: int| 0 <= k < before.len() ==> rgba@[k] == before[k],
                    forall|k: int| 0 <= k < c ==> rgba@[before.len() + k] == px@[k],
                decreases 4 - c,
            {
                rgba.push(px[c]);
                c = c + 1;
            }
            proof {
                assert(px@ =~= icon_pixel(x as int, y as int));
                assert forall|yy: int, xx: int, cc: int|
                    0 <= yy < y && 0 <= xx < 32 && 0 <= cc < 4 implies rgba@[(yy * 32 + xx) * 4 + cc]
                    == #[trigger] icon_pixel(xx, yy)[cc] by {
                    assert(rgba@[(yy * 32 + xx) * 4 + cc] == before[(yy * 32 + xx) * 4 + cc]);
                }
                assert forall|xx: int, cc: int|
                    0 <= xx < x + 1 && 0 <= cc < 4 implies rgba@[(y * 32 + xx) * 4 + cc]
                    == #[trigger] icon_pixel(xx, y as int)[cc] by {
                    if xx < x {
                        assert(rgba@[(y * 32 + xx) * 4 + cc] == before[(y * 32 + xx) * 4 + cc]);
                    } else {
                        assert(rgba@[before.len() + cc] == px@[cc]);
                    }
                }
            }
            x = x + 1;
        }
        y = y + 1;
    }
    rgba
}

} // verus!
