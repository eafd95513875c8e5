//! How the deep view of a vector follows the vector.

use vstd::prelude::*;

verus! {

/// Pushing an entry onto a vector pushes the deep view of the entry onto the
/// deep view of the vector.
pub proof fn lemma_push_deep_view<T: DeepView>(before: Vec<T>, after: Vec<T>, item: T)
    requires
        after@ == before@.push(item),
    ensures
        after.deep_view() == before.deep_view().push(item.deep_view()),
{
    assert forall|i: int| 0 <= i < after.len() implies #[trigger] after.deep_view()[i]
        == before.deep_view().push(item.deep_view())[i] by {
        if i < before.len() {
            assert(after@[i] == before@[i]);
        } else {
            assert(after@[i] == item);
        }
    }
    assert(after.deep_view() =~= before.deep_view().push(item.deep_view()));
}

} // verus!
