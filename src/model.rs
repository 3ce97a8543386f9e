//! The entities of the local model.

pub mod due_date;
pub mod item;
