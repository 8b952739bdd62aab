use vstd::prelude::*;

verus! {

/// The error kinds a store operation can report.
///
/// Callers branch on the kind rather than on message text:
/// `ValidationError` for rejected input, `NotFoundError` for a missing id,
/// `StorageError` for a persistence failure.
#[derive(Clone, Copy, Debug, PartialEq, Eq)]
pub enum TodoError {
    ValidationError,
    NotFoundError,
    StorageError,
}

impl TodoError {
    /// Descriptive text for the error, for the calling layer to display.
    pub fn message(&self) -> (r: &'static str)
        ensures
            *self == TodoError::ValidationError ==> r@ == "description cannot be empty"@,
            *self == TodoError::NotFoundError ==> r@ == "task not found"@,
            *self == TodoError::StorageError ==> r@ == "storage failure"@,
    {
        match self {
            TodoError::ValidationError => "description cannot be empty",
            TodoError::NotFoundError => "task not found",
            TodoError::StorageError => "storage failure",
        }
    }
}

} // verus!
