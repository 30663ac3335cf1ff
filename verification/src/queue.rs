//! The task queue's bookkeeping and decisions: which tasks have a running
//! worker, when a failed parse is tried again, and which event closes a task.
//!
//! The shell runs the workers; each decision it takes goes through here.
use vstd::prelude::*;

use crate::model::{ErrorView, OcrError, ServiceId};
use crate::text::{chars_of, push_str, seq_eq, string_from_chars};

verus! {

/// Attempts after the first one before a failing parse is given up.
pub const MAX_RETRIES: u32 = 3;

/// A task as it is submitted.
#[derive(Debug, Clone)]
pub struct NewTask {
    pub id: String,
    pub service: ServiceId,
    pub input_path: String,
    pub options_json: String,
}

/// A task admitted to the queue, with the history policy it was admitted under.
#[derive(Debug, Clone)]
pub struct AdmittedTask {
    pub task: NewTask,
    pub persist_result: bool,
}

/// What the queue reports about a task.
#[derive(Debug, Clone)]
pub enum QueueEvent {
    Progress { id: String, stage: String, page: u32, total: u32 },
    Done { id: String },
    Failed { id: String, error: OcrError },
    Canceled { id: String },
}

// ---------------------------------------------------------------------------
// Tasks with a running worker
// ---------------------------------------------------------------------------

pub open spec fn id_views(ids: Seq<String>) -> Seq<Seq<char>> {
    ids.map_values(|s: String| s@)
}

/// The ids of the tasks that have a worker. An id occurs at most once.
pub struct ActiveSet {
    ids: Vec<String>,
}

impl View for ActiveSet {
    type V = Set<Seq<char>>;

    closed spec fn view(&self) -> Set<Seq<char>> {
        id_views(self.ids@).to_set()
    }
}

impl ActiveSet {
    #[verifier::type_invariant]
    spec fn distinct(&self) -> bool {
        id_views(self.ids@).no_duplicates()
    }

    pub fn new() -> (s: Self)
        ensures
            s@ == Set::<Seq<char>>::empty(),
    {
        let s = ActiveSet { ids: Vec::new() };
        assert(id_views(s.ids@).to_set() =~= Set::<Seq<char>>::empty());
        s
    }

    fn index_of(&self, id: &str) -> (r: Option<usize>)
        ensures
            match r {
                Some(i) => i < self.ids.len() && self.ids@[i as int]@ == id@,
                None => !self@.contains(id@),
            },
    {
        let idv = chars_of(id);
        let mut i: usize = 0;
        while i < self.ids.len()
            invariant
                0 <= i <= self.ids.len(),
                idv@ == id@,
                forall|k: int| 0 <= k < i ==> self.ids@[k]@ != id@,
            decreases self.ids.len() - i,
        {
            let cur = chars_of(self.ids[i].as_str());
            if seq_eq(&cur, &idv) {
                return Some(i);
            }
            i = i + 1;
        }
        proof {
            if id_views(self.ids@).to_set().contains(id@) {
                let k = id_views(self.ids@).index_of(id@);
                assert(self.ids@[k]@ == id@);
            }
        }
        None
    }

    /// Whether the task has a worker.
    pub fn contains(&self, id: &str) -> (r: bool)
        ensures
            r == self@.contains(id@),
    {
        match self.index_of(id) {
            Some(i) => {
                assert(id_views(self.ids@)[i as int] == id@);
                true
            },
            None => false,
        }
    }

    /// Records that the task gets a worker; `false`, and nothing changes, when it
    /// already has one.
    pub fn register(&mut self, id: &str) -> (added: bool)
        ensures
            added == !old(self)@.contains(id@),
            final(self)@ == old(self)@.insert(id@),
    {
        proof {
            use_type_invariant(&*self);
        }
        if self.contains(id) {
            assert(self@.insert(id@) =~= self@);
            return false;
        }
        let mut ids: Vec<String> = Vec::new();
        std::mem::swap(&mut ids, &mut self.ids);
        let ghost before = ids@;
        ids.push(crate::text::owned(id));
        assert(id_views(ids@) =~= id_views(before).push(id@));
        proof {
            assert(!id_views(before).contains(id@));
            assert forall|a: int, b: int|
                0 <= a < b < id_views(ids@).len() implies id_views(ids@)[a] != id_views(ids@)[b] by {
                if b == id_views(before).len() {
                    assert(id_views(before).contains(id_views(ids@)[a]));
                }
            }
            id_views(before).lemma_push_to_set_commute(id@);
            assert(id_views(ids@).to_set() =~= id_views(before).to_set().insert(id@));
        }
        self.ids = ids;
        true
    }

    /// Records that the task's worker ended.
    pub fn release(&mut self, id: &str)
        ensures
            final(self)@ == old(self)@.remove(id@),
    {
        proof {
            use_type_invariant(&*self);
        }
        match self.index_of(id) {
            None => {
                assert(self@.remove(id@) =~= self@);
            },
            Some(i) => {
                assert(id_views(self.ids@).no_duplicates());
                assert(id_views(self.ids@)[i as int] == id@);
                let mut ids: Vec<String> = Vec::new();
                std::mem::swap(&mut ids, &mut self.ids);
                let ghost before = id_views(ids@);
                ids.remove(i);
                proof {
                    assert(id_views(ids@) =~= before.remove(i as int));
                    assert forall|x: Seq<char>| #[trigger] id_views(ids@).to_set().contains(x) <==> before.to_set().remove(id@).contains(x) by {
                        if id_views(ids@).contains(x) {
                            let k = id_views(ids@).index_of(x);
                            if k < i {
                                assert(before[k] == x);
                                assert(before[k] != before[i as int]);
                            } else {
                                assert(before[k + 1] == x);
                                assert(before[k + 1] != before[i as int]);
                            }
                        }
                        if before.contains(x) && x != id@ {
                            let k = before.index_of(x);
                            if k < i {
                                assert(id_views(ids@)[k] == x);
                            } else {
                                assert(k != i);
                                assert(id_views(ids@)[k - 1] == x);
                            }
                        }
                    }
                    assert(id_views(ids@).to_set() =~= before.to_set().remove(id@));
                }
                self.ids = ids;
            },
        }
    }
}

/// The tasks that a resume starts: in order, every task whose id neither had a
/// worker nor was started earlier in the list.
pub open spec fn claimed(active: Set<Seq<char>>, tasks: Seq<AdmittedTask>) -> Seq<AdmittedTask>
    decreases tasks.len(),
{
    if tasks.len() == 0 {
        Seq::empty()
    } else if active.contains(tasks[0].task.id@) {
        claimed(active, tasks.drop_first())
    } else {
        seq![tasks[0]] + claimed(active.insert(tasks[0].task.id@), tasks.drop_first())
    }
}

/// The ids of `tasks`.
pub open spec fn task_ids(tasks: Seq<AdmittedTask>) -> Set<Seq<char>> {
    tasks.map_values(|t: AdmittedTask| t.task.id@).to_set()
}

/// Registers the unfinished tasks of a resume and returns those that need a
/// worker.
pub fn claim(active: &mut ActiveSet, tasks: Vec<AdmittedTask>) -> (started: Vec<AdmittedTask>)
    ensures
        started@ == claimed(old(active)@, tasks@),
        final(active)@ == old(active)@ + task_ids(tasks@),
{
    let ghost all = tasks@;
    let mut rest = tasks;
    let mut started: Vec<AdmittedTask> = Vec::new();
    let ghost a0 = active@;
    assert(all.skip(0) =~= all);
    assert(task_ids(all.take(0)) =~= Set::<Seq<char>>::empty());
    assert(a0 + Set::<Seq<char>>::empty() =~= a0);
    while rest.len() > 0
        invariant
            rest@.len() <= all.len(),
            rest@ == all.skip(all.len() - rest@.len()),
            active@ == a0 + task_ids(all.take(all.len() - rest@.len())),
            started@ + claimed(active@, rest@) == claimed(a0, all),
        decreases rest.len(),
    {
        let ghost i = all.len() - rest@.len();
        let ghost suffix = rest@;
        let t = rest.remove(0);
        assert(suffix[0] == t);
        assert(t == all[i]);
        assert(rest@ =~= suffix.drop_first());
        assert(rest@ =~= all.skip(i + 1));
        assert(all.take(i + 1) =~= all.take(i).push(t));
        let ghost ids_i = all.take(i).map_values(|x: AdmittedTask| x.task.id@);
        assert(all.take(i + 1).map_values(|x: AdmittedTask| x.task.id@) =~= ids_i.push(t.task.id@));
        proof {
            ids_i.lemma_push_to_set_commute(t.task.id@);
        }
        assert(task_ids(all.take(i + 1)) =~= task_ids(all.take(i)).insert(t.task.id@));
        let ghost before_active = active@;
        let added = active.register(t.task.id.as_str());
        if !added {
            assert(active@ =~= before_active);
        }
        if added {
            let ghost prev = started@;
            started.push(t);
            assert(started@ =~= prev + seq![t]);
        }
    }
    assert(all.take(all.len() as int) =~= all);
    started
}

/// A resume starts a worker only for tasks that had none, and never two
/// workers for one task, however often a task occurs in the list.
pub proof fn lemma_claim_starts_each_task_once(active: Set<Seq<char>>, tasks: Seq<AdmittedTask>)
    ensures
        forall|i: int|
            0 <= i < claimed(active, tasks).len() ==> !active.contains(
                #[trigger] claimed(active, tasks)[i].task.id@,
            ),
        forall|i: int, j: int|
            0 <= i < j < claimed(active, tasks).len() ==> #[trigger] claimed(active, tasks)[i].task.id@
                != #[trigger] claimed(active, tasks)[j].task.id@,
    decreases tasks.len(),
{
    if tasks.len() > 0 {
        let id0 = tasks[0].task.id@;
        if active.contains(id0) {
            lemma_claim_starts_each_task_once(active, tasks.drop_first());
        } else {
            let grown = active.insert(id0);
            lemma_claim_starts_each_task_once(grown, tasks.drop_first());
            let rest = claimed(grown, tasks.drop_first());
            let all = claimed(active, tasks);
            assert(all == seq![tasks[0]] + rest);
            assert forall|i: int| 0 <= i < all.len() implies !active.contains(
                #[trigger] all[i].task.id@,
            ) by {
                if i > 0 {
                    assert(all[i] == rest[i - 1]);
                    assert(!grown.contains(rest[i - 1].task.id@));
                }
            }
            assert forall|i: int, j: int| 0 <= i < j < all.len() implies #[trigger] all[i].task.id@
                != #[trigger] all[j].task.id@ by {
                assert(all[j] == rest[j - 1]);
                assert(!grown.contains(rest[j - 1].task.id@));
                if i > 0 {
                    assert(all[i] == rest[i - 1]);
                }
            }
        }
    }
}

// ---------------------------------------------------------------------------
// Retries
// ---------------------------------------------------------------------------

/// Authentication and quota failures cannot be cured by trying again.
pub open spec fn retryable(e: ErrorView) -> bool {
    !(e is Auth || e is Quota)
}

pub fn is_retryable(error: &OcrError) -> (r: bool)
    ensures
        r == retryable(error@),
{
    match error {
        OcrError::Auth | OcrError::Quota => false,
        _ => true,
    }
}

/// Only authentication and quota failures are final; every other kind of
/// failure, a rate limit included, is worth trying again.
pub proof fn lemma_only_auth_and_quota_are_final(e: ErrorView)
    ensures
        !retryable(e) <==> (e is Auth || e is Quota),
        forall|m: Seq<char>| #[trigger] retryable(ErrorView::RateLimited(m)),
        forall|m: Seq<char>| #[trigger] retryable(ErrorView::Network(m)),
        forall|m: Seq<char>| #[trigger] retryable(ErrorView::Server(m)),
        forall|m: Seq<char>| #[trigger] retryable(ErrorView::InvalidInput(m)),
        forall|m: Seq<char>| #[trigger] retryable(ErrorView::Internal(m)),
        forall|m: Seq<char>| #[trigger] retryable(ErrorView::Parse(m)),
{
}

/// What to do after attempt `attempt` (from 0) of a parse failed.
pub enum RetryDecision {
    GiveUp,
    /// Try again after this many milliseconds.
    RetryAfter(u64),
}

/// The back-off before attempt `attempt + 1`: the base delay doubled per
/// attempt, saturating.
pub open spec fn backoff_ms(base_ms: u64, attempt: nat) -> u64 {
    let d = base_ms * vstd::arithmetic::power2::pow2(attempt);
    if d > u64::MAX {
        u64::MAX
    } else {
        d as u64
    }
}

/// The first retry waits the base delay, and each further retry waits twice
/// as long as the one before, until the delay saturates.
pub proof fn lemma_backoff_doubles(base_ms: u64, attempt: nat)
    ensures
        backoff_ms(base_ms, 0) == base_ms,
        backoff_ms(base_ms, attempt + 1) == (if 2 * backoff_ms(base_ms, attempt) > u64::MAX {
            u64::MAX as int
        } else {
            2 * backoff_ms(base_ms, attempt)
        }),
{
    vstd::arithmetic::power2::lemma2_to64();
    vstd::arithmetic::power2::lemma_pow2_unfold(attempt + 1);
    let p = vstd::arithmetic::power2::pow2(attempt);
    assert(base_ms * (2 * p) == 2 * (base_ms * p)) by (nonlinear_arith);
    assert(base_ms * p >= 0) by (nonlinear_arith);
}

/// A failure is given up when it is not retryable or when the retries are spent.
pub fn after_failed_attempt(attempt: u32, error: &OcrError, retry_base_ms: u64) -> (d: RetryDecision)
    requires
        attempt <= MAX_RETRIES,
    ensures
        !retryable(error@) || attempt == MAX_RETRIES ==> d is GiveUp,
        retryable(error@) && attempt < MAX_RETRIES ==> d == RetryDecision::RetryAfter(
            backoff_ms(retry_base_ms, attempt as nat),
        ),
        error@ is Auth || error@ is Quota ==> d is GiveUp,
        !(error@ is Auth) && !(error@ is Quota) && attempt < MAX_RETRIES ==> d
            == RetryDecision::RetryAfter(backoff_ms(retry_base_ms, attempt as nat)),
{
    if !is_retryable(error) || attempt == MAX_RETRIES {
        return RetryDecision::GiveUp;
    }
    let factor: u64 = if attempt == 0 {
        1
    } else if attempt == 1 {
        2
    } else {
        4
    };
    proof {
        vstd::arithmetic::power2::lemma2_to64();
    }
    let delay: u64 = if retry_base_ms > u64::MAX / factor {
        u64::MAX
    } else {
        retry_base_ms * factor
    };
    assert(delay == backoff_ms(retry_base_ms, attempt as nat)) by (nonlinear_arith)
        requires
            delay == (if retry_base_ms > u64::MAX / factor {
                u64::MAX as int
            } else {
                retry_base_ms * factor
            }),
            factor > 0,
            factor == vstd::arithmetic::power2::pow2(attempt as nat),
            backoff_ms(retry_base_ms, attempt as nat) == (if retry_base_ms * vstd::arithmetic::power2::pow2(attempt as nat) > u64::MAX {
                u64::MAX as int
            } else {
                retry_base_ms * vstd::arithmetic::power2::pow2(attempt as nat)
            }),
    ;
    RetryDecision::RetryAfter(delay)
}

// ---------------------------------------------------------------------------
// Events that close a task
// ---------------------------------------------------------------------------

pub open spec fn storage_error_of(detail: Seq<char>) -> ErrorView {
    ErrorView::Parse("storage error: "@ + detail)
}

/// A failure of the task store, reported as a task error.
pub fn storage_error(detail: &str) -> (e: OcrError)
    ensures
        e@ == storage_error_of(detail@),
{
    let mut m = chars_of("storage error: ");
    push_str(&mut m, detail);
    OcrError::Parse(string_from_chars(&m))
}

/// The store keeps a task changeable while it is neither done nor canceled.
pub open spec fn is_active_status(status: Seq<char>) -> bool {
    status != "done"@ && status != "canceled"@
}

/// The rule of the store's conditional writes (progress, completion, failure
/// and cancel alike): a write applies only to an active task, and the store
/// answers whether it applied. That answer is the `bool` that
/// `progress_event`, `completion`, `failure_event` and `cancel_event` take.
pub open spec fn conditional_write(status: Seq<char>, to: Seq<char>) -> (Seq<char>, bool) {
    if is_active_status(status) {
        (to, true)
    } else {
        (status, false)
    }
}

/// The status after conditional writes to `to[0]`, `to[1]`, ... in turn, and
/// whether any of them applied.
pub open spec fn after_writes(status: Seq<char>, to: Seq<Seq<char>>) -> (Seq<char>, bool)
    decreases to.len(),
{
    if to.len() == 0 {
        (status, false)
    } else {
        let before = after_writes(status, to.drop_last());
        let w = conditional_write(before.0, to.last());
        (w.0, before.1 || w.1)
    }
}

/// Cancel is terminal: a cancel of an active task applies and leaves it
/// canceled, and no write after it applies, so the worker's later progress,
/// completion or failure each get the answer `false`, which the queue's
/// decisions turn into no event.
pub proof fn lemma_cancel_is_terminal(status: Seq<char>, later: Seq<Seq<char>>)
    requires
        is_active_status(status),
    ensures
        conditional_write(status, "canceled"@) == ("canceled"@, true),
        after_writes("canceled"@, later) == ("canceled"@, false),
    decreases later.len(),
{
    reveal_strlit("done");
    reveal_strlit("canceled");
    assert("canceled"@.len() == 8);
    assert("done"@.len() == 4);
    assert("canceled"@ != "done"@);
    if later.len() > 0 {
        lemma_cancel_is_terminal(status, later.drop_last());
    }
}

/// A task that the store refused to admit fails with the store's message as
/// an internal error.
pub fn admission_error(detail: &str) -> (e: OcrError)
    ensures
        e@ == ErrorView::Internal(detail@),
{
    OcrError::Internal(crate::text::owned(detail))
}

/// Progress is reported only for a task that the store still holds active.
pub fn progress_event(id: &str, stage: &str, page: u32, total: u32, updated: bool) -> (e: Option<QueueEvent>)
    ensures
        updated ==> (e matches Some(QueueEvent::Progress { id: i, stage: s, page: p, total: t }) && i@ == id@
            && s@ == stage@ && p == page && t == total),
        !updated ==> e is None,
{
    if updated {
        Some(
            QueueEvent::Progress {
                id: crate::text::owned(id),
                stage: crate::text::owned(stage),
                page,
                total,
            },
        )
    } else {
        None
    }
}

/// What follows the store's answer to completing a task.
pub enum Completion {
    /// The task is done.
    Done(QueueEvent),
    /// The task had ended before (canceled): nothing is reported.
    Ignored,
    /// Storing the result failed: the task fails with this error.
    Fail(OcrError),
}

/// A task is done only when the store recorded its completion; a task that was
/// canceled meanwhile stays canceled.
pub fn completion(id: &str, stored: Result<bool, OcrError>) -> (c: Completion)
    ensures
        match stored {
            Ok(true) => c matches Completion::Done(QueueEvent::Done { id: i }) && i@ == id@,
            Ok(false) => c is Ignored,
            Err(e) => c matches Completion::Fail(x) && x@ == e@,
        },
{
    match stored {
        Ok(true) => Completion::Done(QueueEvent::Done { id: crate::text::owned(id) }),
        Ok(false) => Completion::Ignored,
        Err(e) => Completion::Fail(e),
    }
}

/// The event for a failed task after the store's answer to recording the
/// failure: none when the task had already ended; the store's own error when it
/// could not record it.
pub fn failure_event(id: &str, error: OcrError, stored: Result<bool, OcrError>) -> (e: Option<QueueEvent>)
    ensures
        match stored {
            Ok(true) => e matches Some(QueueEvent::Failed { id: i, error: x }) && i@ == id@ && x@ == error@,
            Ok(false) => e is None,
            Err(s) => e matches Some(QueueEvent::Failed { id: i, error: x }) && i@ == id@ && x@ == s@,
        },
{
    match stored {
        Ok(true) => Some(QueueEvent::Failed { id: crate::text::owned(id), error }),
        Ok(false) => None,
        Err(s) => Some(QueueEvent::Failed { id: crate::text::owned(id), error: s }),
    }
}

/// The event for a cancel request after the store's answer: canceled only when
/// the task was still active.
pub fn cancel_event(id: &str, stored: Result<bool, OcrError>) -> (e: Option<QueueEvent>)
    ensures
        match stored {
            Ok(true) => e matches Some(QueueEvent::Canceled { id: i }) && i@ == id@,
            Ok(false) => e is None,
            Err(s) => e matches Some(QueueEvent::Failed { id: i, error: x }) && i@ == id@ && x@ == s@,
        },
{
    match stored {
        Ok(true) => Some(QueueEvent::Canceled { id: crate::text::owned(id) }),
        Ok(false) => None,
        Err(s) => Some(QueueEvent::Failed { id: crate::text::owned(id), error: s }),
    }
}

/// A manual retry needs a failed task.
pub fn retry_admission(found: Option<AdmittedTask>) -> (r: Result<AdmittedTask, OcrError>)
    ensures
        match found {
            Some(t) => r == Ok::<AdmittedTask, OcrError>(t),
            None => r matches Err(e) && e@ == ErrorView::Parse("task is not failed or does not exist"@),
        },
{
    match found {
        Some(t) => Ok(t),
        None => Err(OcrError::Parse(crate::text::owned("task is not failed or does not exist"))),
    }
}

/// The message of a failed submission of a captured image, with the
/// failure of removing the capture appended when that failed too.
pub fn submission_failure_message(message: String, cleanup: Result<bool, String>) -> (out: String)
    ensures
        out@ == match cleanup {
            Ok(_) => message@,
            Err(e) => message@ + "; capture cleanup failed: "@ + e@,
        },
{
    match cleanup {
        Ok(_) => message,
        Err(error) => {
            let mut out = chars_of(message.as_str());
            push_str(&mut out, "; capture cleanup failed: ");
            push_str(&mut out, error.as_str());
            string_from_chars(&out)
        },
    }
}

} // verus!
