//! Numeric profile index mapping, shared by directory-based profile
//! listings and the Arc container graph so that both resolve an index
//! the same way.

use vstd::prelude::*;

use crate::text::{name_leq, names_of, sort_strings, sorted_names};

verus! {

/// Maps a 1-based profile index to the corresponding profile name.
///
/// Indices address the alphabetically sorted profile names: index 1 is
/// the first name in sorted order, index 2 the second, and so on. Index
/// 0 (reserved by callers for "all profiles") and indices past the end
/// resolve to nothing.
pub fn map_numeric_profile_to_name(available_profiles: &Vec<String>, profile_index: u32) -> (r:
    Option<String>)
    ensures
        match r {
            Some(name) => 1 <= profile_index <= available_profiles@.len() && name@ == sorted_names(
                names_of(available_profiles@),
            )[profile_index - 1],
            None => profile_index == 0 || profile_index > available_profiles@.len(),
        },
{
    if profile_index == 0 {
        return None;
    }
    if profile_index as u64 > available_profiles.len() as u64 {
        return None;
    }
    let cloned_profiles = available_profiles.clone();
    proof {
        assert forall|i: int| 0 <= i < available_profiles@.len() implies cloned_profiles@[i]
            == available_profiles@[i] by {
            assert(cloned(available_profiles@[i], cloned_profiles@[i]));
        }
        assert(cloned_profiles@ =~= available_profiles@);
    }
    let sorted = sort_strings(cloned_profiles);
    proof {
        let orig = names_of(available_profiles@);
        crate::text::lemma_name_leq_total_ordering();
        orig.lemma_sort_by_ensures(name_leq());
        orig.to_multiset_ensures();
        orig.sort_by(name_leq()).to_multiset_ensures();
        assert(names_of(sorted@).len() == orig.len());
    }
    let i: usize = (profile_index - 1) as usize;
    let name = sorted[i].clone();
    proof {
        assert(names_of(sorted@)[i as int] == sorted@[i as int]@);
    }
    Some(name)
}

} // verus!
