//! Single-instance handling: which running process is an older copy of the
//! program that may be ended.

use vstd::prelude::*;

verus! {

/// ASCII lowercase of `c`.
pub open spec fn ascii_lower(c: char) -> char {
    if 'A' <= c <= 'Z' {
        ((c as u32) + 32) as char
    } else {
        c
    }
}

/// `a` and `b` are equal ignoring ASCII case.
pub open spec fn eq_ignore_ascii_case(a: Seq<char>, b: Seq<char>) -> bool {
    a.len() == b.len() && forall|i: int| 0 <= i < a.len() ==> ascii_lower(#[trigger] a[i]) == ascii_lower(b[i])
}

/// The name in a process entry's file-name field: the units before the first
/// zero, each truncated to a byte and read as a character.
pub open spec fn exe_name(units: Seq<u16>) -> Seq<char>
    decreases units.len(),
{
    if units.len() == 0 || units[0] == 0 {
        Seq::empty()
    } else {
        seq![(units[0] as u8) as char] + exe_name(units.drop_first())
    }
}

fn lower(c: char) -> (r: char)
    ensures
        r == ascii_lower(c),
{
    if 'A' <= c && c <= 'Z' {
        ((c as u8) + 32) as char
    } else {
        c
    }
}

/// A process entry (file-name field `exe_file`, process id `pid`) is another
/// running copy of this program, which runs as `our_pid`.
pub fn is_stale_instance(exe_file: &Vec<u16>, pid: u32, our_pid: u32) -> (r: bool)
    ensures
        r == (eq_ignore_ascii_case(exe_name(exe_file@), "wisprfree.exe"@) && pid != our_pid),
{
    let mut name: Vec<char> = Vec::new();
    let mut i: usize = 0;
    assert(exe_file@.skip(0) =~= exe_file@);
    assert(name@ + exe_name(exe_file@) =~= exe_name(exe_file@));
    while i < exe_file.len() && exe_file[i] != 0
        invariant
            i <= exe_file.len(),
            exe_name(exe_file@) == name@ + exe_name(exe_file@.skip(i as int)),
        decreases exe_file.len() - i,
    {
        proof {
            let rest = exe_file@.skip(i as int);
            assert(rest[0] == exe_file@[i as int]);
            assert(rest.drop_first() =~= exe_file@.skip(i + 1));
        }
        let b: u8 = #[verifier::truncate] (exe_file[i] as u8);
        name.push(b as char);
        assert(name@ + exe_name(exe_file@.skip(i + 1)) =~= name@.drop_last() + exe_name(exe_file@.skip(i as int)));
        i = i + 1;
    }
    proof {
        let rest = exe_file@.skip(i as int);
        if i < exe_file.len() {
            assert(rest[0] == exe_file@[i as int]);
        }
        assert(exe_name(rest) =~= Seq::<char>::empty());
        assert(name@ =~= exe_name(exe_file@));
    }
    let target = crate::text::chars_of("wisprfree.exe");
    if name.len() != target.len() {
        return false;
    }
    let mut k: usize = 0;
    while k < name.len()
        invariant
            k <= name.len(),
            name.len() == target.len(),
            target@ == "wisprfree.exe"@,
            name@ == exe_name(exe_file@),
            forall|j: int| 0 <= j < k ==> ascii_lower(#[trigger] name@[j]) == ascii_lower(target@[j]),
        decreases name.len() - k,
    {
        if lower(name[k]) != lower(target[k]) {
            return false;
        }
        k = k + 1;
    }
    pid != our_pid
}

/// What the start-up does about the single-instance lock.
#[derive(Debug, Clone, Copy, PartialEq, Eq, Structural)]
pub enum LockDecision {
    /// The lock is ours: go on starting.
    Proceed,
    /// Another copy holds it: ask whether to replace that copy.
    AskToReplace,
    /// End the other copies, wait, and try the lock once more.
    ReplaceAndRetry,
    /// Keep the other copy and quit quietly.
    KeepOld,
    /// The lock is still held after replacing: tell the user and quit with a failure.
    GiveUp,
}

/// After trying to take the lock (`retry` for the second try) and learning
/// whether another process already held it.
pub fn after_lock_attempt(retry: bool, already_held: bool) -> (r: LockDecision)
    ensures
        !already_held ==> r == LockDecision::Proceed,
        already_held && !retry ==> r == LockDecision::AskToReplace,
        already_held && retry ==> r == LockDecision::GiveUp,
{
    if !already_held {
        LockDecision::Proceed
    } else if retry {
        LockDecision::GiveUp
    } else {
        LockDecision::AskToReplace
    }
}

/// After the user answered whether to replace the running copy.
pub fn after_replace_answer(yes: bool) -> (r: LockDecision)
    ensures
        r == (if yes {
            LockDecision::ReplaceAndRetry
        } else {
            LockDecision::KeepOld
        }),
{
    if yes {
        LockDecision::ReplaceAndRetry
    } else {
        LockDecision::KeepOld
    }
}

} // verus!
