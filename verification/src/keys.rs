//! Ordering facts for the integer keys of the project's maps and sets.

use vstd::prelude::*;

verus! {

/// `u128` keys are totally ordered the way `BTreeMap` and `BTreeSet`
/// expect.
pub open spec fn u128_keys_ordered() -> bool {
    vstd::laws_cmp::obeys_cmp::<u128>()
}

pub proof fn lemma_u128_keys_ordered()
    ensures
        u128_keys_ordered(),
{
    broadcast use vstd::laws_cmp::group_laws_cmp;
}

} // verus!
