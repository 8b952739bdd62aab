use vstd::prelude::*;
use vstd::multiset::Multiset;

use crate::errors::TodoError;
use crate::storage::Storage;
use crate::tasks::{Task, TaskDescription, TaskId, TaskM, copy_tasks, seq_model, valid_description};

verus! {

/// Whether some task in `s` carries the identifier `id`.
pub open spec fn has_id(s: Seq<TaskM>, id: int) -> bool {
    exists|i: int| 0 <= i < s.len() && s[i].id == id
}

/// The position of the task carrying `id`; meaningful when `has_id(s, id)`
/// holds and the identifiers of `s` are distinct.
pub open spec fn idx_of(s: Seq<TaskM>, id: int) -> int {
    choose|i: int| 0 <= i < s.len() && s[i].id == id
}

/// Identifiers strictly ascending from front to back (which also makes them
/// pairwise distinct).
pub open spec fn sorted_by_id(s: Seq<TaskM>) -> bool {
    forall|i: int, j: int| 0 <= i < j < s.len() ==> s[i].id < s[j].id
}

/// Every identifier is positive and below `bound`.
pub open spec fn ids_below(s: Seq<TaskM>, bound: int) -> bool {
    forall|i: int| 0 <= i < s.len() ==> 0 < #[trigger] s[i].id < bound
}

/// `s` with the task carrying `id` (if any) marked completed, and every other
/// task unchanged.
pub open spec fn complete_in(s: Seq<TaskM>, id: int) -> Seq<TaskM> {
    Seq::new(
        s.len(),
        |i: int|
            if s[i].id == id {
                TaskM { id: s[i].id, description: s[i].description, completed: true }
            } else {
                s[i]
            },
    )
}

/// The greatest identifier occurring in `s`, or `0` when `s` is empty.
pub open spec fn max_id(s: Seq<TaskM>) -> int
    decreases s.len(),
{
    if s.len() == 0 {
        0
    } else {
        let rest = max_id(s.drop_last());
        if s.last().id > rest {
            s.last().id
        } else {
            rest
        }
    }
}

/// The counter value a store derives from a loaded collection: one more than
/// the greatest identifier present, or `1` for an empty collection.
pub open spec fn next_id_for(s: Seq<TaskM>) -> int {
    max_id(s) + 1
}

/// A stored collection a store can be built from: identifiers pairwise
/// distinct, each positive, and each small enough that the derived counter
/// still fits in `usize`.
pub open spec fn loadable(s: Seq<TaskM>) -> bool {
    &&& forall|i: int, j: int| 0 <= i < j < s.len() ==> s[i].id != s[j].id
    &&& forall|i: int| 0 <= i < s.len() ==> 0 < #[trigger] s[i].id < usize::MAX as int
}

/// The position of the task carrying `id` in `tasks`, if any.
fn find_index(tasks: &Vec<Task>, id: usize) -> (r: Option<usize>)
    ensures
        r matches Some(i) ==> i < tasks@.len() && seq_model(tasks@)[i as int].id == id as int,
        r is None ==> !has_id(seq_model(tasks@), id as int),
{
    let n = tasks.len();
    let mut i: usize = 0;
    while i < n
        invariant
            n == tasks@.len(),
            i <= n,
            forall|j: int| 0 <= j < i ==> seq_model(tasks@)[j].id != id as int,
        decreases n - i,
    {
        if tasks[i].id.0 == id {
            return Some(i);
        }
        i += 1;
    }
    None
}

/// Sorts a collection by id, front to back nondecreasing, holding exactly the
/// tasks given (the same multiset of values).
fn sort_tasks(tasks: Vec<Task>) -> (r: Vec<Task>)
    ensures
        seq_model(r@).to_multiset() == seq_model(tasks@).to_multiset(),
        r@.len() == tasks@.len(),
        forall|i: int, j: int|
            0 <= i < j < r@.len() ==> seq_model(r@)[i].id <= seq_model(r@)[j].id,
{
    broadcast use vstd::seq_lib::group_to_multiset_ensures;
    broadcast use vstd::multiset::group_multiset_axioms;

    let mut rest = tasks;
    let mut out: Vec<Task> = Vec::new();
    proof {
        assert(seq_model(out@).to_multiset().add(seq_model(rest@).to_multiset()) =~= seq_model(
            tasks@,
        ).to_multiset());
    }
    while rest.len() > 0
        invariant
            out@.len() + rest@.len() == tasks@.len(),
            seq_model(out@).to_multiset().add(seq_model(rest@).to_multiset()) == seq_model(
                tasks@,
            ).to_multiset(),
            forall|i: int, j: int|
                0 <= i < j < out@.len() ==> seq_model(out@)[i].id <= seq_model(out@)[j].id,
            forall|i: int, j: int|
                0 <= i < out@.len() && 0 <= j < rest@.len() ==> seq_model(out@)[i].id <= seq_model(
                    rest@,
                )[j].id,
        decreases rest@.len(),
    {
        let mut min_i: usize = 0;
        let mut k: usize = 1;
        while k < rest.len()
            invariant
                min_i < k <= rest@.len(),
                rest@.len() > 0,
                forall|j: int|
                    0 <= j < k ==> seq_model(rest@)[min_i as int].id <= seq_model(rest@)[j].id,
            decreases rest@.len() - k,
        {
            if rest[k].id.0 < rest[min_i].id.0 {
                min_i = k;
            }
            k += 1;
        }
        let ghost rest_pre = rest@;
        let ghost out_pre = out@;
        let ghost picked = rest@[min_i as int]@;
        let t = rest.remove(min_i);
        out.push(t);
        proof {
            assert(seq_model(rest@) =~= seq_model(rest_pre).remove(min_i as int));
            assert(seq_model(out@) =~= seq_model(out_pre).push(picked));
            assert(seq_model(rest_pre)[min_i as int] == picked);
            vstd::seq_lib::to_multiset_remove(seq_model(rest_pre), min_i as int);
            vstd::seq_lib::to_multiset_build(seq_model(out_pre), picked);
            vstd::seq_lib::to_multiset_contains(seq_model(rest_pre), picked);
            assert(seq_model(rest_pre).contains(picked));
            assert(seq_model(rest_pre).to_multiset().count(picked) > 0);
            assert(seq_model(out@).to_multiset().add(seq_model(rest@).to_multiset()) =~= seq_model(
                out_pre,
            ).to_multiset().add(seq_model(rest_pre).to_multiset()));
            assert forall|i: int, j: int|
                0 <= i < out@.len() && 0 <= j < rest@.len() implies seq_model(out@)[i].id
                <= seq_model(rest@)[j].id by {
                assert(seq_model(rest@)[j] == if j < min_i {
                    seq_model(rest_pre)[j]
                } else {
                    seq_model(rest_pre)[j + 1]
                });
            }
        }
    }
    proof {
        assert(seq_model(rest@).to_multiset() =~= Multiset::<TaskM>::empty());
        assert(seq_model(out@).to_multiset().add(Multiset::<TaskM>::empty()) =~= seq_model(
            out@,
        ).to_multiset());
    }
    out
}

/// The task store: the single authority over task identity, validation, and
/// mutation. It owns the in-memory collection, kept ascending by id, assigns
/// identifiers from a counter that only grows, and rewrites the persisted
/// collection after every successful mutation.
pub struct TodoList<S: Storage> {
    pub tasks: Vec<Task>,
    pub storage: S,
    pub next_id: usize,
}

/// A collection holding the same multiset of tasks as `stored` cannot hold a
/// task whose id is zero or too large for the counter when `stored` is
/// loadable: the very same task would sit in `stored` too.
proof fn lemma_member_id_bad(m: Seq<TaskM>, stored: Seq<TaskM>, i: int)
    requires
        m.to_multiset() == stored.to_multiset(),
        0 <= i < m.len(),
        m[i].id <= 0 || m[i].id >= usize::MAX as int,
    ensures
        !loadable(stored),
{
    let x = m[i];
    assert(m.contains(x));
    vstd::seq_lib::to_multiset_contains(m, x);
    vstd::seq_lib::to_multiset_contains(stored, x);
    assert(stored.contains(x));
    if loadable(stored) {
        let j = choose|j: int| 0 <= j < stored.len() && stored[j] == x;
        assert(0 < stored[j].id < usize::MAX as int);
        assert(false);
    }
}

/// Two adjacent tasks with one id, in a nondecreasing arrangement of the
/// tasks of `stored`, mean `stored` itself carries a duplicate id, so it is
/// not loadable.
proof fn lemma_adjacent_duplicate_id(m: Seq<TaskM>, stored: Seq<TaskM>, i: int)
    requires
        m.to_multiset() == stored.to_multiset(),
        0 < i < m.len(),
        m[i - 1].id >= m[i].id,
        forall|j: int, k: int| 0 <= j < k < m.len() ==> m[j].id <= m[k].id,
    ensures
        !loadable(stored),
{
    broadcast use vstd::multiset::group_multiset_axioms;

    if loadable(stored) {
        let v1 = m[i - 1];
        let v2 = m[i];
        assert(v1.id == v2.id);
        if v1 == v2 {
            let s0 = m.subrange(0, i);
            let s1 = m.subrange(i, m.len() as int);
            assert(m =~= s0 + s1);
            vstd::seq_lib::lemma_multiset_commutative(s0, s1);
            assert(s0[i - 1] == v1);
            assert(s0.contains(v1));
            assert(s1[0] == v1);
            assert(s1.contains(v1));
            vstd::seq_lib::to_multiset_contains(s0, v1);
            vstd::seq_lib::to_multiset_contains(s1, v1);
            assert(m.to_multiset().count(v1) >= 2);
            assert(stored.no_duplicates()) by {
                assert forall|a: int, b: int|
                    0 <= a < stored.len() && 0 <= b < stored.len() && a != b implies stored[a]
                    != stored[b] by {
                    if a < b {
                        assert(stored[a].id != stored[b].id);
                    } else {
                        assert(stored[b].id != stored[a].id);
                    }
                }
            }
            stored.lemma_multiset_has_no_duplicates();
            assert(stored.to_multiset().count(v1) >= 2);
            assert(stored.to_multiset().contains(v1));
            assert(false);
        } else {
            assert(m.contains(v1));
            assert(m.contains(v2));
            vstd::seq_lib::to_multiset_contains(m, v1);
            vstd::seq_lib::to_multiset_contains(m, v2);
            vstd::seq_lib::to_multiset_contains(stored, v1);
            vstd::seq_lib::to_multiset_contains(stored, v2);
            assert(stored.contains(v1));
            assert(stored.contains(v2));
            let j1 = choose|j: int| 0 <= j < stored.len() && stored[j] == v1;
            let j2 = choose|j: int| 0 <= j < stored.len() && stored[j] == v2;
            assert(j1 != j2);
            if j1 < j2 {
                assert(stored[j1].id != stored[j2].id);
            } else {
                assert(stored[j2].id != stored[j1].id);
            }
            assert(false);
        }
    }
}

/// In a collection whose identifiers never decrease from front to back, the
/// greatest identifier is the last one.
proof fn lemma_max_id_sorted(s: Seq<TaskM>)
    requires
        s.len() > 0,
        forall|i: int| 0 <= i < s.len() ==> #[trigger] s[i].id >= 0,
        forall|i: int, j: int| 0 <= i < j < s.len() ==> s[i].id <= s[j].id,
    ensures
        max_id(s) == s.last().id,
    decreases s.len(),
{
    if s.len() > 1 {
        lemma_max_id_sorted(s.drop_last());
        assert(s.drop_last().last() == s[s.len() - 2]);
        assert(s[s.len() - 2].id <= s[s.len() - 1].id);
    } else {
        assert(max_id(s.drop_last()) == 0);
        assert(s.last().id >= 0);
    }
}

impl<S: Storage> TodoList<S> {
    /// The mathematical value of the in-memory collection, ascending by id.
    pub open spec fn model(&self) -> Seq<TaskM> {
        seq_model(self.tasks@)
    }

    /// Well-formedness: the provider is well formed, the collection is
    /// ascending by id, and every identifier is positive and below the
    /// counter, so the counter's next value is fresh.
    pub open spec fn inv(&self) -> bool {
        &&& self.storage.inv()
        &&& sorted_by_id(self.model())
        &&& ids_below(self.model(), self.next_id as int)
        &&& self.next_id >= 1
    }

    /// Builds a ready store over the given provider: loads the full
    /// collection (an empty one is the expected first-run state), arranges it
    /// ascending by id, and derives the counter as one more than the greatest
    /// identifier present, or `1` for an empty collection. The in-memory
    /// collection holds exactly the tasks the provider held. Fails with
    /// `StorageError` when the provider's read fails, or when the stored
    /// contents are ones no store state can represent: a duplicate id, an id
    /// of zero, or an id too large for the counter to move past.
    pub fn new(storage: S) -> (r: Result<TodoList<S>, TodoError>)
        requires
            storage.inv(),
        ensures
            r matches Ok(list) ==> {
                &&& list.inv()
                &&& list.storage == storage
                &&& list.model().to_multiset() == storage.stored().to_multiset()
                &&& list.model().len() == storage.stored().len()
                &&& list.next_id as int == next_id_for(list.model())
            },
            r is Err ==> r == Err::<TodoList<S>, TodoError>(TodoError::StorageError),
            storage.reads_ok() && loadable(storage.stored()) ==> r is Ok,
    {
        let loaded = match storage.load() {
            Ok(v) => v,
            Err(e) => {
                return Err(TodoError::StorageError);
            },
        };
        let ghost stored = storage.stored();
        let tasks = sort_tasks(loaded);
        let n = tasks.len();
        let mut i: usize = 0;
        while i < n
            invariant
                n == tasks@.len(),
                i <= n,
                stored == storage.stored(),
                seq_model(tasks@).to_multiset() == stored.to_multiset(),
                forall|j: int, k: int|
                    0 <= j < k < tasks@.len() ==> seq_model(tasks@)[j].id <= seq_model(
                        tasks@,
                    )[k].id,
                forall|j: int| 0 <= j < i ==> 0 < #[trigger] seq_model(tasks@)[j].id < usize::MAX
                    as int,
                forall|j: int, k: int|
                    0 <= j < k < i ==> seq_model(tasks@)[j].id < seq_model(tasks@)[k].id,
            decreases n - i,
        {
            let idv = tasks[i].id.0;
            if idv == 0 || idv == usize::MAX {
                proof {
                    lemma_member_id_bad(seq_model(tasks@), stored, i as int);
                }
                return Err(TodoError::StorageError);
            }
            if i > 0 {
                if tasks[i - 1].id.0 >= idv {
                    proof {
                        lemma_adjacent_duplicate_id(seq_model(tasks@), stored, i as int);
                    }
                    return Err(TodoError::StorageError);
                }
            }
            proof {
                assert forall|j: int| 0 <= j < i implies seq_model(tasks@)[j].id < seq_model(
                    tasks@,
                )[i as int].id by {
                    if j < i - 1 {
                        assert(seq_model(tasks@)[j].id < seq_model(tasks@)[i - 1].id);
                    }
                }
            }
            i += 1;
        }
        proof {
            if n > 0 {
                assert(seq_model(tasks@)[n - 1].id == tasks@[n - 1].id.0 as int);
            }
        }
        let next = if n == 0 {
            1
        } else {
            tasks[n - 1].id.0 + 1
        };
        proof {
            if n > 0 {
                lemma_max_id_sorted(seq_model(tasks@));
                assert(seq_model(tasks@).last() == seq_model(tasks@)[n - 1 as int]);
            } else {
                assert(seq_model(tasks@) =~= Seq::<TaskM>::empty());
            }
            assert(ids_below(seq_model(tasks@), next as int));
        }
        Ok(TodoList { tasks, storage, next_id: next })
    }

    /// Writes the full in-memory collection to the persistence provider.
    pub fn save(&mut self) -> (r: Result<(), TodoError>)
        requires
            old(self).inv(),
        ensures
            final(self).inv(),
            final(self).tasks == old(self).tasks,
            final(self).next_id == old(self).next_id,
            old(self).storage.writes_ok() ==> r is Ok,
            r matches Ok(u) ==> final(self).storage.stored() == old(self).model(),
            r is Err ==> r == Err::<(), TodoError>(TodoError::StorageError),
            r is Err ==> final(self).storage.stored() == old(self).storage.stored(),
    {
        self.storage.save(&self.tasks)
    }

    /// The full collection, ascending by id; an empty collection yields an
    /// empty sequence.
    pub fn list_tasks(&self) -> (r: Vec<Task>)
        requires
            self.inv(),
        ensures
            seq_model(r@) == self.model(),
            sorted_by_id(seq_model(r@)),
    {
        copy_tasks(&self.tasks)
    }

    /// Adds a task. Exactly the descriptions that are empty after trimming
    /// are rejected, with `ValidationError` and no change anywhere. An
    /// accepted task gets the current counter value as its id — strictly
    /// above every id ever present, so ids grow strictly across adds and a
    /// deleted id is never reissued — the counter moves up by one, and the
    /// grown collection is persisted. If persisting fails, the in-memory
    /// insertion is rolled back, so the operation either fully succeeds or
    /// changes nothing in memory.
    pub fn add_task(&mut self, description: String) -> (r: Result<usize, TodoError>)
        requires
            old(self).inv(),
            old(self).next_id < usize::MAX,
        ensures
            final(self).inv(),
            r matches Ok(id) ==> {
                &&& valid_description(description@)
                &&& id == old(self).next_id
                &&& final(self).next_id == old(self).next_id + 1
                &&& final(self).model() == old(self).model().push(
                    TaskM { id: id as int, description: description@, completed: false },
                )
                &&& final(self).storage.stored() == final(self).model()
            },
            r == Err::<usize, TodoError>(TodoError::ValidationError) <==> !valid_description(
                description@,
            ),
            valid_description(description@) ==> (r matches Ok(id) || r == Err::<usize,
                TodoError>(TodoError::StorageError)),
            valid_description(description@) && old(self).storage.writes_ok() ==> r is Ok,
            r is Err ==> final(self).model() == old(self).model() && final(self).next_id == old(self).next_id,
            r == Err::<usize, TodoError>(TodoError::ValidationError) ==> final(self).storage == old(self).storage,
            r == Err::<usize, TodoError>(TodoError::StorageError) ==> final(self).storage.stored()
                == old(self).storage.stored(),
    {
        let ghost pre = *old(self);
        let desc = match TaskDescription::new(description) {
            Ok(d) => d,
            Err(e) => {
                return Err(e);
            },
        };
        let id = self.next_id;
        let task = Task { id: TaskId(id), description: desc, completed: false };
        proof {
            assert(seq_model(pre.tasks@.push(task)) =~= pre.model().push(task@));
            assert(sorted_by_id(pre.model().push(task@)));
            assert(ids_below(pre.model().push(task@), id + 1 as int));
        }
        self.tasks.push(task);
        self.next_id = id + 1;
        match self.storage.save(&self.tasks) {
            Ok(u) => Ok(id),
            Err(e) => {
                self.tasks.pop();
                self.next_id = id;
                proof {
                    assert(self.tasks@ =~= pre.tasks@);
                }
                Err(e)
            },
        }
    }

    /// Marks the task carrying `id` completed. Exactly the ids not present
    /// are rejected, with `NotFoundError` and no change anywhere; whether the
    /// task was already completed does not matter, so completing twice
    /// succeeds and leaves the task completed (there is no way back to
    /// uncompleted). On success the changed collection is persisted; if
    /// persisting fails, the in-memory change is rolled back.
    pub fn complete_task(&mut self, id: usize) -> (r: Result<(), TodoError>)
        requires
            old(self).inv(),
        ensures
            final(self).inv(),
            final(self).next_id == old(self).next_id,
            r == Err::<(), TodoError>(TodoError::NotFoundError) <==> !has_id(
                old(self).model(),
                id as int,
            ),
            r matches Ok(u) ==> final(self).model() == complete_in(old(self).model(), id as int)
                && final(self).storage.stored() == final(self).model(),
            has_id(old(self).model(), id as int) ==> (r matches Ok(u) || r == Err::<(),
                TodoError>(TodoError::StorageError)),
            has_id(old(self).model(), id as int) && old(self).storage.writes_ok() ==> r is Ok,
            r is Err ==> final(self).model() == old(self).model(),
            r == Err::<(), TodoError>(TodoError::NotFoundError) ==> final(self).storage == old(self).storage,
            r == Err::<(), TodoError>(TodoError::StorageError) ==> final(self).storage.stored()
                == old(self).storage.stored(),
    {
        let ghost pre = *old(self);
        match find_index(&self.tasks, id) {
            None => Err(TodoError::NotFoundError),
            Some(i) => {
                let ghost before = pre.tasks@[i as int];
                let mut t = self.tasks.remove(i);
                let prev = t.completed;
                t.completed = true;
                self.tasks.insert(i, t);
                proof {
                    assert(self.tasks@ =~= pre.tasks@.update(i as int, t));
                    assert forall|k: int| 0 <= k < pre.model().len() && k != i implies pre.model()[k].id
                        != id as int by {
                        assert(sorted_by_id(pre.model()));
                    }
                    assert(seq_model(self.tasks@) =~= complete_in(pre.model(), id as int));
                    assert(sorted_by_id(self.model()));
                    assert(ids_below(self.model(), self.next_id as int));
                }
                match self.storage.save(&self.tasks) {
                    Ok(u) => Ok(()),
                    Err(e) => {
                        let mut back = self.tasks.remove(i);
                        back.completed = prev;
                        self.tasks.insert(i, back);
                        proof {
                            assert(back == before);
                            assert(self.tasks@ =~= pre.tasks@);
                        }
                        Err(e)
                    },
                }
            },
        }
    }

    /// Removes the task carrying `id`. Exactly the ids not present are
    /// rejected, with `NotFoundError` and no change anywhere. On success the
    /// entry is gone, the counter is untouched — a deleted id is never
    /// reissued — and the shrunk collection is persisted; if persisting
    /// fails, the in-memory removal is rolled back.
    pub fn delete_task(&mut self, id: usize) -> (r: Result<(), TodoError>)
        requires
            old(self).inv(),
        ensures
            final(self).inv(),
            final(self).next_id == old(self).next_id,
            r == Err::<(), TodoError>(TodoError::NotFoundError) <==> !has_id(
                old(self).model(),
                id as int,
            ),
            r matches Ok(u) ==> final(self).model() == old(self).model().remove(
                idx_of(old(self).model(), id as int),
            ) && !has_id(final(self).model(), id as int) && final(self).storage.stored() == final(self).model(),
            has_id(old(self).model(), id as int) ==> (r matches Ok(u) || r == Err::<(),
                TodoError>(TodoError::StorageError)),
            has_id(old(self).model(), id as int) && old(self).storage.writes_ok() ==> r is Ok,
            r is Err ==> final(self).model() == old(self).model(),
            r == Err::<(), TodoError>(TodoError::NotFoundError) ==> final(self).storage == old(self).storage,
            r == Err::<(), TodoError>(TodoError::StorageError) ==> final(self).storage.stored()
                == old(self).storage.stored(),
    {
        let ghost pre = *old(self);
        match find_index(&self.tasks, id) {
            None => Err(TodoError::NotFoundError),
            Some(i) => {
                let t = self.tasks.remove(i);
                proof {
                    assert forall|k: int| 0 <= k < pre.model().len() && k != i implies pre.model()[k].id
                        != id as int by {
                        assert(sorted_by_id(pre.model()));
                    }
                    assert(idx_of(pre.model(), id as int) == i as int);
                    assert(seq_model(self.tasks@) =~= pre.model().remove(i as int));
                    assert(sorted_by_id(self.model()));
                    assert(ids_below(self.model(), self.next_id as int));
                    assert(!has_id(self.model(), id as int));
                }
                match self.storage.save(&self.tasks) {
                    Ok(u) => Ok(()),
                    Err(e) => {
                        self.tasks.insert(i, t);
                        proof {
                            assert(self.tasks@ =~= pre.tasks@);
                        }
                        Err(e)
                    },
                }
            },
        }
    }
}

} // verus!
