//! Lists of which a part may not be readable.
use vstd::prelude::*;

verus! {

broadcast use vstd::seq_lib::group_seq_properties;

/// What stands before the first item that cannot be read.
pub open spec fn readable<T>(items: Seq<Option<T>>) -> Seq<T>
    decreases items.len(),
{
    if items.len() == 0 || items[0] is None {
        seq![]
    } else {
        seq![items[0]->0] + readable(items.skip(1))
    }
}

/// Whether every item can be read.
pub open spec fn all_readable<T>(items: Seq<Option<T>>) -> bool {
    forall|i: int| 0 <= i < items.len() ==> (#[trigger] items[i]) is Some
}

/// Where every item can be read, the readable part is the whole.
pub proof fn readable_is_whole<T>(items: Seq<Option<T>>)
    requires
        all_readable(items),
    ensures
        readable(items).len() == items.len(),
        forall|i: int| 0 <= i < items.len() ==> items[i] == Some(#[trigger] readable(items)[i]),
    decreases items.len(),
{
    if items.len() > 0 {
        assert forall|i: int| 0 <= i < items.skip(1).len() implies (#[trigger] items.skip(1)[i]) is Some by {
            assert(items.skip(1)[i] == items[i + 1]);
        }
        readable_is_whole(items.skip(1));
        assert forall|i: int| 0 <= i < items.len() implies items[i] == Some(
            #[trigger] readable(items)[i],
        ) by {
            if i > 0 {
                assert(readable(items)[i] == readable(items.skip(1))[i - 1]);
                assert(items.skip(1)[i - 1] == items[i]);
            }
        }
    }
}

} // verus!
