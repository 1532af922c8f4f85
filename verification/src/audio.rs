//! Choosing the input device: the first one whose name contains the wanted
//! name, ignoring case.

use vstd::prelude::*;
use crate::text;

verus! {

/// The device name `name` contains `wanted`, compared in lowercase.
pub open spec fn name_matches(name: Seq<char>, wanted: Seq<char>) -> bool {
    text::find_from(text::lower_of(name), text::lower_of(wanted), 0) is Some
}

/// Entry `i` of `names` is a readable name that matches `wanted`.
pub open spec fn device_fits(names: Seq<Option<String>>, wanted: Seq<char>, i: int) -> bool {
    names[i] is Some && name_matches(names[i]->0@, wanted)
}

/// The first device among `names` (`None` where a name could not be read)
/// whose name contains `wanted`, ignoring case.
pub fn find_device_index(names: &Vec<Option<String>>, wanted: &str) -> (r: Option<usize>)
    ensures
        r matches Some(i) ==> i < names@.len() && device_fits(names@, wanted@, i as int) && forall|j: int|
            0 <= j < i ==> !device_fits(names@, wanted@, j),
        r is None ==> forall|j: int| 0 <= j < names@.len() ==> !device_fits(names@, wanted@, j),
{
    let want_s = text::str_to_lowercase(wanted);
    let want = text::chars_of(want_s.as_str());
    let mut i: usize = 0;
    while i < names.len()
        invariant
            i <= names.len(),
            want@ == text::lower_of(wanted@),
            forall|j: int| 0 <= j < i ==> !device_fits(names@, wanted@, j),
        decreases names.len() - i,
    {
        match &names[i] {
            Some(n) => {
                let low_s = text::str_to_lowercase(n.as_str());
                let low = text::chars_of(low_s.as_str());
                if text::find_chars(&low, &want, 0).is_some() {
                    return Some(i);
                }
            },
            None => {},
        }
        i = i + 1;
    }
    None
}

} // verus!
