//! A task.

use vstd::prelude::*;

use crate::ident::{is_v4, random_uuid, uuid_text};
use crate::model::due_date::Due;

verus! {

/// A task. Its `id` is either the server's identifier or, for a task created
/// offline and not yet acknowledged, the text of a locally drawn UUID.
#[derive(Debug, PartialEq, Eq)]
pub struct Item {
    pub id: String,
    pub project_id: String,
    pub content: String,
    pub checked: bool,
    pub due: Option<Due>,
}

impl Clone for Item {
    fn clone(&self) -> (r: Self)
        ensures
            r == *self,
    {
        let due = match &self.due {
            Some(d) => Some(d.clone()),
            None => None,
        };
        Item {
            id: self.id.clone(),
            project_id: self.project_id.clone(),
            content: self.content.clone(),
            checked: self.checked,
            due,
        }
    }
}

impl Item {
    /// A new open task with the given content in the given project, with no
    /// due date, identified by the text of a freshly drawn random
    /// (version 4) UUID.
    pub fn new(content: String, project_id: String) -> (r: Item)
        ensures
            r.content == content,
            r.project_id == project_id,
            !r.checked,
            r.due is None,
            exists|u: u128| is_v4(u) && #[trigger] uuid_text(u) == r.id@,
    {
        let u = random_uuid();
        let id = u.text();
        Item { id, project_id, content, checked: false, due: None }
    }

    /// Sets the completion flag to `complete`, leaving every other field as
    /// it was.
    pub fn mark_complete(&mut self, complete: bool)
        ensures
            *final(self) == (Item { checked: complete, ..*old(self) }),
    {
        self.checked = complete;
    }
}

} // verus!
