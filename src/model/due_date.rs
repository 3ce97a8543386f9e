//! When a task is due.

use vstd::prelude::*;

verus! {

/// A due date or recurrence, as the server describes it. The synchronisation
/// logic carries it along unread.
#[derive(Debug, PartialEq, Eq)]
pub struct Due {
    /// The date (or date and time) of the next occurrence.
    pub date: String,
    /// Whether the task comes back after it is completed.
    pub is_recurring: bool,
}

impl Clone for Due {
    fn clone(&self) -> (r: Self)
        ensures
            r == *self,
    {
        Due { date: self.date.clone(), is_recurring: self.is_recurring }
    }
}

} // verus!
