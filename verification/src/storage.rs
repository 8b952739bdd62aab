use vstd::prelude::*;

use crate::errors::TodoError;
use crate::tasks::{Task, TaskM, copy_tasks, seq_model};

verus! {

/// A persistence provider: durable storage of the whole task collection as
/// one atomic unit. The store depends only on this capability interface, so
/// alternate backends (an in-memory provider for tests, a file on disk) are
/// drop-in substitutes.
///
/// `stored` is the collection the provider currently holds. A successful
/// `save` replaces it with exactly the saved collection, and `load` yields a
/// collection with exactly the stored contents, which together give the
/// round-trip guarantee: a `load` after a successful `save` reproduces the
/// saved collection, id for id, text for text, flag for flag. A failed `save`
/// must leave the stored contents as they were (providers must replace the
/// contents atomically).
pub trait Storage: Sized {
    /// The collection the provider currently holds.
    spec fn stored(&self) -> Seq<TaskM>;

    /// The provider's own well-formedness condition.
    spec fn inv(&self) -> bool;

    /// Whether a read of this provider is certain to succeed. An in-memory
    /// provider always reads; a provider behind real I/O cannot promise.
    spec fn reads_ok(&self) -> bool;

    /// Whether a write to this provider is certain to succeed.
    spec fn writes_ok(&self) -> bool;

    /// Replaces the stored contents with the full collection given.
    fn save(&mut self, tasks: &Vec<Task>) -> (r: Result<(), TodoError>)
        requires
            old(self).inv(),
        ensures
            final(self).inv(),
            old(self).writes_ok() ==> r is Ok,
            r matches Ok(u) ==> final(self).stored() == seq_model(tasks@),
            r is Err ==> r == Err::<(), TodoError>(TodoError::StorageError),
            r is Err ==> final(self).stored() == old(self).stored(),
    ;

    /// Reads the stored contents back out.
    fn load(&self) -> (r: Result<Vec<Task>, TodoError>)
        requires
            self.inv(),
        ensures
            self.reads_ok() ==> r is Ok,
            r matches Ok(v) ==> seq_model(v@) == self.stored(),
            r is Err ==> r == Err::<Vec<Task>, TodoError>(TodoError::StorageError),
    ;
}

/// An in-memory persistence provider. It starts empty (the first-run state:
/// loading before any save yields an empty collection, not an error), or from
/// a given collection, and can be told to refuse saves so that callers'
/// handling of `StorageError` can be exercised.
pub struct MemoryStorage {
    pub contents: Vec<Task>,
    pub fail_saves: bool,
}

impl MemoryStorage {
    /// A fresh provider holding nothing yet.
    pub fn new() -> (r: MemoryStorage)
        ensures
            r.inv(),
            r.stored() == Seq::<TaskM>::empty(),
            !r.fail_saves,
    {
        MemoryStorage { contents: Vec::new(), fail_saves: false }
    }

    /// A provider already holding the given collection, in the given order.
    pub fn from_tasks(tasks: Vec<Task>) -> (r: MemoryStorage)
        ensures
            r.inv(),
            r.stored() == seq_model(tasks@),
            !r.fail_saves,
    {
        MemoryStorage { contents: tasks, fail_saves: false }
    }

    /// Makes every following `save` fail (or succeed again) without touching
    /// the stored contents.
    pub fn set_fail_saves(&mut self, fail: bool)
        ensures
            final(self).inv(),
            final(self).stored() == old(self).stored(),
            final(self).fail_saves == fail,
    {
        self.fail_saves = fail;
    }
}

impl Storage for MemoryStorage {
    open spec fn stored(&self) -> Seq<TaskM> {
        seq_model(self.contents@)
    }

    open spec fn inv(&self) -> bool {
        true
    }

    open spec fn reads_ok(&self) -> bool {
        true
    }

    open spec fn writes_ok(&self) -> bool {
        !self.fail_saves
    }

    fn save(&mut self, tasks: &Vec<Task>) -> (r: Result<(), TodoError>)
        ensures
            r is Ok <==> !old(self).fail_saves,
            final(self).fail_saves == old(self).fail_saves,
    {
        if self.fail_saves {
            Err(TodoError::StorageError)
        } else {
            self.contents = copy_tasks(tasks);
            Ok(())
        }
    }

    fn load(&self) -> (r: Result<Vec<Task>, TodoError>)
        ensures
            r is Ok,
    {
        Ok(copy_tasks(&self.contents))
    }
}

/// The configuration of a file-backed persistence provider: the location the
/// collection is kept at. Reading and writing that location is I/O and lives
/// in the unverified shell around this library, which serializes the
/// collection it is handed and hands loaded values back.
#[derive(Debug)]
pub struct FileStorage {
    pub filename: String,
}

impl FileStorage {
    /// A configuration pointing at the given storage location.
    pub fn new(filename: String) -> (r: FileStorage)
        ensures
            r.filename@ == filename@,
    {
        FileStorage { filename }
    }
}

} // verus!
