//! The boundary to the `itertools` crate.

use crate::topology::cyc_next;
use itertools::Itertools;
use vstd::prelude::*;

verus! {

/// `Itertools::circular_tuple_windows` on the items of a slice, for windows
/// of two: each item with the one that follows it, the last item with the
/// first. There are as many windows as items. This is believed, not
/// proved.
#[verifier::external_body]
pub(crate) fn circular_pairs<T: Copy>(items: &[T]) -> (pairs: Vec<(T, T)>)
    ensures
        pairs@.len() == items@.len(),
        forall|i: int|
            0 <= i < items@.len() ==> (#[trigger] pairs@[i]).0 == items@[i] && pairs@[i].1
                == items@[cyc_next(i, items@.len() as int)],
{
    items.iter().copied().circular_tuple_windows().collect()
}

} // verus!
