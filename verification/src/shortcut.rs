//! The Start Menu shortcut: the PowerShell script that creates it, with the
//! paths quoted for single-quoted PowerShell strings.

use vstd::prelude::*;
use crate::text;

verus! {

/// `s` with every `'` doubled, as a single-quoted PowerShell string needs.
pub open spec fn ps_quote(s: Seq<char>) -> Seq<char>
    decreases s.len(),
{
    if s.len() == 0 {
        s
    } else {
        ps_quote(s.drop_last()) + if s.last() == '\'' {
            seq!['\'', '\'']
        } else {
            seq![s.last()]
        }
    }
}

fn quote(s: &str) -> (r: String)
    ensures
        r@ == ps_quote(s@),
{
    let chars = text::chars_of(s);
    let mut out: Vec<char> = Vec::new();
    let mut i: usize = 0;
    while i < chars.len()
        invariant
            i <= chars.len(),
            out@ == ps_quote(chars@.take(i as int)),
        decreases chars.len() - i,
    {
        assert(chars@.take(i + 1).drop_last() =~= chars@.take(i as int));
        assert(chars@.take(i + 1).last() == chars@[i as int]);
        if chars[i] == '\'' {
            out.push('\'');
            out.push('\'');
        } else {
            out.push(chars[i]);
        }
        assert(out@ =~= ps_quote(chars@.take(i + 1)));
        i = i + 1;
    }
    assert(chars@.take(chars.len() as int) =~= chars@);
    text::string_from_chars(&out)
}

/// Script text before the link path.
pub const SCRIPT_1: &'static str = "$ws = New-Object -ComObject WScript.Shell; $s = $ws.CreateShortcut('";

/// Script text between the link path and the target.
pub const SCRIPT_2: &'static str = "'); $s.TargetPath = '";

/// Script text between the target and the working directory.
pub const SCRIPT_3: &'static str = "'; $s.WorkingDirectory = '";

/// Script text after the working directory.
pub const SCRIPT_4: &'static str = "'; $s.Description = 'WisprFree - Local voice-to-text'; $s.Save()";

/// The PowerShell script that creates the shortcut `lnk` to `exe`, started in
/// `work_dir`.
pub fn shortcut_script(lnk: &str, exe: &str, work_dir: &str) -> (r: String)
    ensures
        r@ == SCRIPT_1@ + ps_quote(lnk@) + SCRIPT_2@ + ps_quote(exe@) + SCRIPT_3@ + ps_quote(work_dir@)
            + SCRIPT_4@,
{
    let a = quote(lnk);
    let b = quote(exe);
    let c = quote(work_dir);
    let mut out = String::from_str(SCRIPT_1);
    out.append(a.as_str());
    out.append(SCRIPT_2);
    out.append(b.as_str());
    out.append(SCRIPT_3);
    out.append(c.as_str());
    out.append(SCRIPT_4);
    out
}

/// Ensure a Start Menu shortcut exists pointing to the current exe: nothing
/// to do when the link `lnk` exists and its target (`link_target`, `None`
/// when there is no link) is `exe`; otherwise the script that (re)creates it.
pub fn ensure_shortcut(link_target: Option<String>, lnk: &str, exe: &str, work_dir: &str) -> (r: Option<String>)
    ensures
        (link_target matches Some(t) && t@ == exe@) ==> r is None,
        !(link_target matches Some(t) && t@ == exe@) ==> (r matches Some(s) && s@ == SCRIPT_1@ + ps_quote(
            lnk@,
        ) + SCRIPT_2@ + ps_quote(exe@) + SCRIPT_3@ + ps_quote(work_dir@) + SCRIPT_4@),
{
    let current = match link_target {
        Some(t) => {
            let a = text::chars_of(t.as_str());
            let b = text::chars_of(exe);
            crate::order::chars_equal(&a, &b)
        },
        None => false,
    };
    if current {
        None
    } else {
        Some(shortcut_script(lnk, exe, work_dir))
    }
}

} // verus!
