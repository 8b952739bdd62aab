use vstd::prelude::*;

use crate::errors::TodoError;

verus! {

/// The characters with the Unicode `White_Space` property, the same set that
/// `str::trim` strips from either end of a string.
pub open spec fn is_whitespace(c: char) -> bool {
    ||| c == '\u{0009}'
    ||| c == '\u{000a}'
    ||| c == '\u{000b}'
    ||| c == '\u{000c}'
    ||| c == '\u{000d}'
    ||| c == ' '
    ||| c == '\u{0085}'
    ||| c == '\u{00a0}'
    ||| c == '\u{1680}'
    ||| c == '\u{2000}'
    ||| c == '\u{2001}'
    ||| c == '\u{2002}'
    ||| c == '\u{2003}'
    ||| c == '\u{2004}'
    ||| c == '\u{2005}'
    ||| c == '\u{2006}'
    ||| c == '\u{2007}'
    ||| c == '\u{2008}'
    ||| c == '\u{2009}'
    ||| c == '\u{200a}'
    ||| c == '\u{2028}'
    ||| c == '\u{2029}'
    ||| c == '\u{202f}'
    ||| c == '\u{205f}'
    ||| c == '\u{3000}'
}

/// Decides `is_whitespace` executably.
pub fn char_is_whitespace(c: char) -> (r: bool)
    ensures
        r == is_whitespace(c),
{
    c == '\u{0009}' || c == '\u{000a}' || c == '\u{000b}' || c == '\u{000c}' || c == '\u{000d}'
        || c == ' ' || c == '\u{0085}' || c == '\u{00a0}' || c == '\u{1680}' || c == '\u{2000}'
        || c == '\u{2001}' || c == '\u{2002}' || c == '\u{2003}' || c == '\u{2004}'
        || c == '\u{2005}' || c == '\u{2006}' || c == '\u{2007}' || c == '\u{2008}'
        || c == '\u{2009}' || c == '\u{200a}' || c == '\u{2028}' || c == '\u{2029}'
        || c == '\u{202f}' || c == '\u{205f}' || c == '\u{3000}'
}

/// A description is acceptable exactly when it is non-empty after trimming
/// whitespace, that is, when some character of it is not whitespace.
pub open spec fn valid_description(s: Seq<char>) -> bool {
    exists|i: int| 0 <= i < s.len() && !is_whitespace(s[i])
}

/// A task identifier: a positive integer, unique within a store, never reused.
#[derive(Debug)]
pub struct TaskId(pub usize);

/// The text of a task, created through [`TaskDescription::new`], which
/// rejects text that is empty after trimming whitespace.
#[derive(Debug)]
pub struct TaskDescription(pub String);

impl View for TaskDescription {
    type V = Seq<char>;

    open spec fn view(&self) -> Seq<char> {
        self.0@
    }
}

impl TaskDescription {
    /// Accepts exactly the descriptions with some non-whitespace character,
    /// and keeps the text as given (untrimmed).
    pub fn new(description: String) -> (r: Result<TaskDescription, TodoError>)
        ensures
            r matches Ok(d) ==> valid_description(description@) && d@ == description@,
            r is Err ==> !valid_description(description@) && r == Err::<TaskDescription,
                TodoError>(TodoError::ValidationError),
    {
        let text = description.as_str();
        let len = text.unicode_len();
        let mut i: usize = 0;
        while i < len
            invariant
                len == description@.len(),
                i <= len,
                text@ == description@,
                forall|j: int| 0 <= j < i ==> is_whitespace(description@[j]),
            decreases len - i,
        {
            if !char_is_whitespace(text.get_char(i)) {
                return Ok(TaskDescription(description));
            }
            i += 1;
        }
        Err(TodoError::ValidationError)
    }

    /// The stored text.
    pub fn get(&self) -> (r: &str)
        ensures
            r@ == self@,
    {
        self.0.as_str()
    }
}

/// The mathematical value of a task: its id, its text, and whether it is done.
pub struct TaskM {
    pub id: int,
    pub description: Seq<char>,
    pub completed: bool,
}

/// A single to-do item.
#[derive(Debug)]
pub struct Task {
    pub id: TaskId,
    pub description: TaskDescription,
    pub completed: bool,
}

impl View for Task {
    type V = TaskM;

    open spec fn view(&self) -> TaskM {
        TaskM { id: self.id.0 as int, description: self.description@, completed: self.completed }
    }
}

impl Task {
    /// An owned copy equal to `self`.
    pub fn duplicate(&self) -> (r: Task)
        ensures
            r == *self,
    {
        Task {
            id: TaskId(self.id.0),
            description: TaskDescription(self.description.0.clone()),
            completed: self.completed,
        }
    }
}

/// The mathematical value of a sequence of tasks, element by element.
pub open spec fn seq_model(tasks: Seq<Task>) -> Seq<TaskM> {
    tasks.map_values(|t: Task| t@)
}

/// An owned copy of a task vector, equal element by element.
pub fn copy_tasks(tasks: &Vec<Task>) -> (r: Vec<Task>)
    ensures
        r@ == tasks@,
{
    let mut out: Vec<Task> = Vec::new();
    let mut i: usize = 0;
    while i < tasks.len()
        invariant
            i <= tasks@.len(),
            out@ == tasks@.take(i as int),
        decreases tasks@.len() - i,
    {
        out.push(tasks[i].duplicate());
        proof {
            assert(tasks@.take(i + 1 as int) =~= tasks@.take(i as int).push(tasks@[i as int]));
        }
        i += 1;
    }
    proof {
        assert(tasks@.take(tasks@.len() as int) =~= tasks@);
    }
    out
}

} // verus!
