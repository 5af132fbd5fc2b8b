//! The session's deduplicated warning list.
use vstd::prelude::*;

verus! {

pub open spec fn strings_view(s: Seq<String>) -> Seq<Seq<char>> {
    s.map_values(|w: String| w@)
}

/// `warnings` with `w` appended unless an equal warning is already present.
pub open spec fn with_warning(warnings: Seq<Seq<char>>, w: Seq<char>) -> Seq<Seq<char>> {
    if warnings.contains(w) {
        warnings
    } else {
        warnings.push(w)
    }
}

/// Append `warning` unless the same text is already listed.
pub fn push_warning_once(warnings: &mut Vec<String>, warning: String)
    ensures
        strings_view(final(warnings)@) == with_warning(strings_view(old(warnings)@), warning@),
{
    let ghost before = strings_view(warnings@);
    let mut i: usize = 0;
    while i < warnings.len()
        invariant
            i <= warnings@.len(),
            before == strings_view(warnings@),
            forall|k: int| 0 <= k < i ==> before[k] != warning@,
        decreases warnings.len() - i,
    {
        if warnings[i] == warning {
            assert(before[i as int] == warning@);
            assert(before.contains(warning@));
            return ;
        }
        i = i + 1;
    }
    assert(!before.contains(warning@)) by {
        if before.contains(warning@) {
            let k = choose|k: int| 0 <= k < before.len() && before[k] == warning@;
            assert(before[k] != warning@);
        }
    }
    warnings.push(warning);
    assert(strings_view(warnings@) =~= before.push(warning@));
}

} // verus!
