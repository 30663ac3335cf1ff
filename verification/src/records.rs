//! Plain records that the shell reads from the task store or hands to the
//! front end, and the description of a document to recognise.
use vstd::prelude::*;

use crate::history::SessionTask;
use crate::model::ServiceId;

verus! {

/// A document to recognise.
#[derive(Debug, Clone)]
pub struct InputDoc {
    pub path: String,
}

/// Options of a recognition request.
#[derive(Debug, Clone, Default)]
pub struct ParseOptions {
    pub lang: Option<String>,
}

/// The tasks created by one request of the front end.
#[derive(Debug, Clone)]
pub struct CreatedBatch {
    pub batch_id: String,
    pub task_ids: Vec<String>,
}

/// A task as the task store lists it.
#[derive(Debug, Clone)]
pub struct TaskRow {
    pub id: String,
    pub service: ServiceId,
    pub status: String,
    pub input_path: String,
    pub options_json: String,
    pub progress_page: u32,
    pub total_pages: u32,
    pub error_kind: Option<String>,
    pub error_msg: Option<String>,
    pub created_at: i64,
}

/// A hit of the full-text history search.
#[derive(Debug, Clone)]
pub struct HistoryRow {
    pub task_id: String,
    pub file_name: String,
    pub snippet: String,
    pub created_at: i64,
}

/// Pages recognised by one service on one day.
#[derive(Debug, Clone)]
pub struct UsageRow {
    pub date: String,
    pub service: ServiceId,
    pub pages: u32,
}

/// What the history list needs of a task row.
pub fn session_task(row: &TaskRow) -> (task: SessionTask)
    ensures
        task.service == row.service,
        task.input_path@ == row.input_path@,
        task.created_at == row.created_at,
{
    SessionTask { service: row.service, input_path: row.input_path.clone(), created_at: row.created_at }
}

} // verus!
