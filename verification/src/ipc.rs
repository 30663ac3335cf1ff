//! What the desktop front end is told about tasks and usage.
use vstd::prelude::*;

use crate::model::{ErrorView, OcrError};
use crate::queue::QueueEvent;
use crate::records::UsageRow;

verus! {

/// The kind of an error as the front end names it.
pub open spec fn ipc_kind_of(e: ErrorView) -> Seq<char> {
    match e {
        ErrorView::Auth => "Auth"@,
        ErrorView::Quota => "Quota"@,
        ErrorView::RateLimited(_) => "RateLimited"@,
        ErrorView::InvalidInput(_) => "InvalidInput"@,
        ErrorView::Network(_) => "Network"@,
        ErrorView::Server(_) => "Server"@,
        ErrorView::Internal(_) => "Internal"@,
        ErrorView::Parse(_) => "Parse"@,
    }
}

/// The message of an error as the front end shows it: the error's detail, empty
/// for the kinds that carry none.
pub open spec fn ipc_message_of(e: ErrorView) -> Seq<char> {
    match e {
        ErrorView::Auth => Seq::empty(),
        ErrorView::Quota => Seq::empty(),
        ErrorView::RateLimited(m) => m,
        ErrorView::InvalidInput(m) => m,
        ErrorView::Network(m) => m,
        ErrorView::Server(m) => m,
        ErrorView::Internal(m) => m,
        ErrorView::Parse(m) => m,
    }
}

pub fn ipc_error_kind(error: &OcrError) -> (kind: &'static str)
    ensures
        kind@ == ipc_kind_of(error@),
{
    match error {
        OcrError::Auth => "Auth",
        OcrError::Quota => "Quota",
        OcrError::RateLimited(_) => "RateLimited",
        OcrError::InvalidInput(_) => "InvalidInput",
        OcrError::Network(_) => "Network",
        OcrError::Server(_) => "Server",
        OcrError::Internal(_) => "Internal",
        OcrError::Parse(_) => "Parse",
    }
}

pub fn ipc_error_message(error: &OcrError) -> (message: &str)
    ensures
        message@ == ipc_message_of(error@),
{
    proof {
        reveal_strlit("");
    }
    match error {
        OcrError::Auth | OcrError::Quota => "",
        OcrError::RateLimited(m) | OcrError::InvalidInput(m) | OcrError::Network(m) | OcrError::Server(m)
        | OcrError::Internal(m) | OcrError::Parse(m) => m.as_str(),
    }
}

/// The front-end event name of a queue event.
pub open spec fn event_name_of(event: QueueEvent) -> Seq<char> {
    match event {
        QueueEvent::Progress { .. } => "task:progress"@,
        QueueEvent::Done { .. } => "task:done"@,
        QueueEvent::Failed { .. } => "task:failed"@,
        QueueEvent::Canceled { .. } => "task:canceled"@,
    }
}

pub fn task_event_name(event: &QueueEvent) -> (name: &'static str)
    ensures
        name@ == event_name_of(*event),
{
    match event {
        QueueEvent::Progress { .. } => "task:progress",
        QueueEvent::Done { .. } => "task:done",
        QueueEvent::Failed { .. } => "task:failed",
        QueueEvent::Canceled { .. } => "task:canceled",
    }
}

/// A finished task changes today's usage, which the front end is told next.
pub fn updates_usage(event: &QueueEvent) -> (r: bool)
    ensures
        r == (*event is Done),
{
    match event {
        QueueEvent::Done { .. } => true,
        _ => false,
    }
}

/// A failure of the bridge that forwards queue events to the front end.
#[derive(Debug, Clone, Copy, PartialEq, Eq, Structural)]
pub enum BridgeDiagnostic {
    TaskEmit,
    UsageLock,
    UsageQuery,
    UsageEmit,
}

impl BridgeDiagnostic {
    pub fn message(self) -> (m: &'static str)
        ensures
            m@ == match self {
                BridgeDiagnostic::TaskEmit => "task event emit failed"@,
                BridgeDiagnostic::UsageLock => "usage store lock failed"@,
                BridgeDiagnostic::UsageQuery => "usage query failed"@,
                BridgeDiagnostic::UsageEmit => "usage event emit failed"@,
            },
    {
        match self {
            BridgeDiagnostic::TaskEmit => "task event emit failed",
            BridgeDiagnostic::UsageLock => "usage store lock failed",
            BridgeDiagnostic::UsageQuery => "usage query failed",
            BridgeDiagnostic::UsageEmit => "usage event emit failed",
        }
    }
}

/// The sum of `pages`, capped at `u32::MAX`.
pub open spec fn capped_sum(pages: Seq<u32>) -> nat
    decreases pages.len(),
{
    if pages.len() == 0 {
        0
    } else {
        let s = capped_sum(pages.drop_last()) + pages.last();
        if s > u32::MAX {
            u32::MAX as nat
        } else {
            s as nat
        }
    }
}

pub open spec fn row_pages(rows: Seq<UsageRow>) -> Seq<u32> {
    rows.map_values(|r: UsageRow| r.pages)
}

/// Today's pages across services: the pages of today's usage rows added with
/// saturation.
pub fn today_pages(rows: &Vec<UsageRow>) -> (total: u32)
    ensures
        total == capped_sum(row_pages(rows@)),
{
    let mut total: u32 = 0;
    let mut i: usize = 0;
    while i < rows.len()
        invariant
            0 <= i <= rows.len(),
            total == capped_sum(row_pages(rows@.take(i as int))),
        decreases rows.len() - i,
    {
        assert(row_pages(rows@.take(i + 1)).drop_last() =~= row_pages(rows@.take(i as int)));
        total = total.saturating_add(rows[i].pages);
        i = i + 1;
    }
    assert(rows@.take(rows.len() as int) =~= rows@);
    total
}

} // verus!
