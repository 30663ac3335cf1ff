use paddledesk::model::{OcrError, ServiceId};
use paddledesk::queue::{
    after_failed_attempt, cancel_event, claim, completion, failure_event, is_retryable,
    progress_event, retry_admission, storage_error, ActiveSet, AdmittedTask, Completion, NewTask,
    QueueEvent, RetryDecision, MAX_RETRIES,
};

fn task(id: &str) -> AdmittedTask {
    AdmittedTask {
        task: NewTask {
            id: id.into(),
            service: ServiceId::PpOcrV6,
            input_path: format!("{id}.png"),
            options_json: "{}".into(),
        },
        persist_result: true,
    }
}

#[test]
fn network_errors_retry_three_times_with_growing_delays() {
    let offline = OcrError::Network("offline".into());
    let mut delays = Vec::new();
    let mut attempt = 0;
    loop {
        match after_failed_attempt(attempt, &offline, 100) {
            RetryDecision::RetryAfter(delay) => delays.push(delay),
            RetryDecision::GiveUp => break,
        }
        attempt += 1;
    }
    assert_eq!(attempt, MAX_RETRIES);
    assert_eq!(delays, vec![100, 200, 400]);
}

#[test]
fn auth_and_quota_errors_are_not_retried() {
    assert!(matches!(
        after_failed_attempt(0, &OcrError::Auth, 100),
        RetryDecision::GiveUp
    ));
    assert!(matches!(
        after_failed_attempt(0, &OcrError::Quota, 100),
        RetryDecision::GiveUp
    ));
    assert!(!is_retryable(&OcrError::Auth));
    assert!(is_retryable(&OcrError::Server("503".into())));
}

#[test]
fn retry_delays_saturate() {
    assert!(matches!(
        after_failed_attempt(2, &OcrError::Server("x".into()), u64::MAX / 2),
        RetryDecision::RetryAfter(u64::MAX)
    ));
}

#[test]
fn resume_starts_one_worker_per_task() {
    let mut active = ActiveSet::new();
    assert!(active.register("running"));
    assert!(!active.register("running"));
    let started = claim(
        &mut active,
        vec![task("running"), task("old"), task("old"), task("new")],
    );
    let ids: Vec<&str> = started.iter().map(|t| t.task.id.as_str()).collect();
    assert_eq!(ids, vec!["old", "new"]);
    assert!(active.contains("old"));
    assert!(active.contains("new"));
    assert!(claim(&mut active, vec![task("old")]).is_empty());
    active.release("old");
    assert!(!active.contains("old"));
    assert_eq!(claim(&mut active, vec![task("old")]).len(), 1);
}

#[test]
fn progress_is_reported_only_for_active_tasks() {
    assert!(matches!(
        progress_event("a", "uploading", 0, 3, true),
        Some(QueueEvent::Progress { id, stage, page: 0, total: 3 }) if id == "a" && stage == "uploading"
    ));
    assert!(progress_event("a", "uploading", 0, 3, false).is_none());
}

#[test]
fn completion_depends_on_what_the_store_recorded() {
    assert!(matches!(
        completion("a", Ok(true)),
        Completion::Done(QueueEvent::Done { id }) if id == "a"
    ));
    assert!(matches!(completion("a", Ok(false)), Completion::Ignored));
    assert!(matches!(
        completion("a", Err(storage_error("disk full"))),
        Completion::Fail(OcrError::Parse(m)) if m == "storage error: disk full"
    ));
}

#[test]
fn canceled_tasks_are_not_overwritten() {
    assert!(failure_event("a", OcrError::Auth, Ok(false)).is_none());
    assert!(matches!(
        failure_event("a", OcrError::Auth, Ok(true)),
        Some(QueueEvent::Failed { id, error: OcrError::Auth }) if id == "a"
    ));
    assert!(matches!(
        cancel_event("a", Ok(true)),
        Some(QueueEvent::Canceled { id }) if id == "a"
    ));
    assert!(cancel_event("a", Ok(false)).is_none());
    assert!(matches!(
        cancel_event("a", Err(OcrError::Internal("lock".into()))),
        Some(QueueEvent::Failed { error: OcrError::Internal(_), .. })
    ));
}

#[test]
fn manual_retry_needs_a_failed_task() {
    assert_eq!(retry_admission(Some(task("x"))).unwrap().task.id, "x");
    assert!(matches!(
        retry_admission(None),
        Err(OcrError::Parse(m)) if m == "task is not failed or does not exist"
    ));
}

#[test]
fn refused_admissions_fail_as_internal_errors() {
    assert_eq!(
        paddledesk::queue::admission_error("forced task insert failure"),
        OcrError::Internal("forced task insert failure".into())
    );
}
