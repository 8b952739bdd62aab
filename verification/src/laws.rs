use vstd::prelude::*;

use crate::store::{complete_in, has_id};
use crate::tasks::TaskM;

verus! {

/// Id monotonicity. `add_task` hands out the counter's current value and
/// moves the counter up by one, and no operation lowers the counter
/// (`complete_task`, `delete_task` and `save` keep it as it is, their
/// contracts say). So over any sequence of operations, a later add's id is
/// strictly greater than an earlier add's, even when deletions — of the most
/// recent id too — come in between.
pub proof fn lemma_add_ids_strictly_increase(
    earlier_id: int,
    counter_after_earlier: int,
    counter_at_later: int,
)
    requires
        counter_after_earlier == earlier_id + 1,
        counter_at_later >= counter_after_earlier,
    ensures
        counter_at_later > earlier_id,
{
}

/// No id reuse. Every id in the collection sits strictly below the counter
/// (`TodoList::inv`), so a deleted id did at deletion time; the counter never
/// goes down, and an add returns the counter's value, so no add after the
/// deletion ever returns the deleted id.
pub proof fn lemma_deleted_id_never_reissued(
    deleted_id: int,
    counter_at_delete: int,
    counter_later: int,
)
    requires
        deleted_id < counter_at_delete,
        counter_at_delete <= counter_later,
    ensures
        counter_later != deleted_id,
{
}

/// Completion is idempotent: marking an id completed a second time changes
/// nothing, the task stays completed — and no operation puts a task back to
/// uncompleted.
pub proof fn lemma_complete_idempotent(s: Seq<TaskM>, id: int)
    ensures
        complete_in(complete_in(s, id), id) == complete_in(s, id),
{
    assert(complete_in(complete_in(s, id), id) =~= complete_in(s, id));
}

/// Completing a task moves no identifier, so an id present before a
/// completion is present after it: in particular, a second `complete_task`
/// on the same id succeeds again, as its contract owes success exactly to
/// the ids present.
pub proof fn lemma_complete_keeps_ids(s: Seq<TaskM>, id: int, other: int)
    ensures
        has_id(complete_in(s, id), other) == has_id(s, other),
{
    assert(complete_in(s, id).len() == s.len());
    if has_id(s, other) {
        let i = choose|i: int| 0 <= i < s.len() && s[i].id == other;
        assert(complete_in(s, id)[i].id == other);
    }
    if has_id(complete_in(s, id), other) {
        let i = choose|i: int| 0 <= i < complete_in(s, id).len() && complete_in(s, id)[i].id
            == other;
        assert(s[i].id == other);
    }
}

/// Round trip. A successful `Storage::save` makes the stored collection
/// exactly the saved one, and a successful `Storage::load` yields exactly
/// the stored collection; a load after a successful save on the same
/// provider therefore reproduces the saved collection — the same ids, the
/// same descriptions, the same completion flags.
pub proof fn lemma_save_load_round_trip(saved: Seq<TaskM>, stored: Seq<TaskM>, loaded: Seq<TaskM>)
    requires
        stored == saved,
        loaded == stored,
    ensures
        loaded.len() == saved.len(),
        forall|i: int| 0 <= i < saved.len() ==> loaded[i] == saved[i],
{
}

} // verus!

