use vstd::prelude::*;

use crate::text::{trim, trimmed};

verus! {

/// A task as the database stores it.
#[derive(Debug, Clone)]
pub struct TaskRow {
    pub id: i64,
    pub parent_id: Option<i64>,
    pub name: String,
    pub is_project: bool,
    pub is_payable: bool,
    pub is_archived: bool,
    pub notes: String,
    pub created_at: i64,
}

/// A stretch of tracked time as the database stores it.
#[derive(Debug, Clone)]
pub struct TimePeriodRow {
    pub id: i64,
    pub task_id: i64,
    pub begin_time: i64,
    pub end_time: Option<i64>,
    pub duration_seconds: i64,
    pub is_payable: bool,
}

impl TaskRow {
    /// The row read from the columns of the `tasks` table; the notes lose their surrounding
    /// white space.
    pub fn from_columns(
        id: i64,
        parent_id: Option<i64>,
        name: String,
        is_project: bool,
        is_payable: bool,
        is_archived: bool,
        notes: &str,
        created_at: i64,
    ) -> (r: TaskRow)
        ensures
            r.id == id,
            r.parent_id == parent_id,
            r.name@ == name@,
            r.is_project == is_project,
            r.is_payable == is_payable,
            r.is_archived == is_archived,
            r.notes@ == trimmed(notes@),
            r.created_at == created_at,
    {
        TaskRow {
            id,
            parent_id,
            name,
            is_project,
            is_payable,
            is_archived,
            notes: trim(notes).to_owned(),
            created_at,
        }
    }
}

} // verus!
