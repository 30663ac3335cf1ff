use paddledesk::ipc::{
    ipc_error_kind, ipc_error_message, task_event_name, today_pages, updates_usage,
    BridgeDiagnostic,
};
use paddledesk::model::{error_fields, service_from_name, service_name, OcrError, ServiceId};
use paddledesk::queue::QueueEvent;
use paddledesk::records::UsageRow;

#[test]
fn task_payloads_match_ipc_contract_exactly() {
    let events = [
        (
            QueueEvent::Progress {
                id: "1".into(),
                stage: "uploading".into(),
                page: 0,
                total: 0,
            },
            "task:progress",
        ),
        (QueueEvent::Done { id: "1".into() }, "task:done"),
        (
            QueueEvent::Failed {
                id: "1".into(),
                error: OcrError::Auth,
            },
            "task:failed",
        ),
        (QueueEvent::Canceled { id: "1".into() }, "task:canceled"),
    ];
    for (event, expected_name) in events {
        assert_eq!(task_event_name(&event), expected_name);
    }
    assert_eq!(ipc_error_kind(&OcrError::Auth), "Auth");
    assert_eq!(ipc_error_message(&OcrError::Auth), "");
}

#[test]
fn failed_payload_maps_every_error_kind_exactly() {
    let errors = [
        (OcrError::Auth, "Auth", ""),
        (OcrError::Quota, "Quota", ""),
        (
            OcrError::RateLimited("slow down".into()),
            "RateLimited",
            "slow down",
        ),
        (
            OcrError::InvalidInput("bad file".into()),
            "InvalidInput",
            "bad file",
        ),
        (OcrError::Network("offline".into()), "Network", "offline"),
        (OcrError::Server("503".into()), "Server", "503"),
        (OcrError::Parse("bad json".into()), "Parse", "bad json"),
        (OcrError::Internal("disk".into()), "Internal", "disk"),
    ];
    for (error, kind, message) in errors {
        assert_eq!(ipc_error_kind(&error), kind);
        assert_eq!(ipc_error_message(&error), message);
    }
}

#[test]
fn only_finished_tasks_update_usage() {
    assert!(updates_usage(&QueueEvent::Done { id: "1".into() }));
    assert!(!updates_usage(&QueueEvent::Canceled { id: "1".into() }));
    assert!(!updates_usage(&QueueEvent::Failed {
        id: "1".into(),
        error: OcrError::Quota,
    }));
}

#[test]
fn bridge_diagnostics_have_fixed_messages() {
    assert_eq!(BridgeDiagnostic::TaskEmit.message(), "task event emit failed");
    assert_eq!(BridgeDiagnostic::UsageLock.message(), "usage store lock failed");
    assert_eq!(BridgeDiagnostic::UsageQuery.message(), "usage query failed");
    assert_eq!(BridgeDiagnostic::UsageEmit.message(), "usage event emit failed");
}

fn usage(pages: &[u32]) -> Vec<UsageRow> {
    pages
        .iter()
        .map(|&pages| UsageRow {
            date: "2026-07-10".into(),
            service: ServiceId::Vl16,
            pages,
        })
        .collect()
}

#[test]
fn today_pages_add_up_and_saturate() {
    assert_eq!(today_pages(&usage(&[])), 0);
    assert_eq!(today_pages(&usage(&[3, 4])), 7);
    assert_eq!(today_pages(&usage(&[u32::MAX, 1, 2])), u32::MAX);
}

#[test]
fn error_messages_follow_their_kind() {
    assert_eq!(OcrError::Auth.message(), "authentication failed");
    assert_eq!(OcrError::Quota.message(), "daily quota exhausted");
    assert_eq!(
        OcrError::Network("offline".into()).message(),
        "network error: offline"
    );
    assert_eq!(
        OcrError::Parse("bad".into()).message(),
        "response parse failed: bad"
    );
    let (kind, text) = error_fields(&OcrError::RateLimited("slow".into()));
    assert_eq!(kind, "rate_limited");
    assert_eq!(text, "rate limited: slow");
}

#[test]
fn service_names_round_trip() {
    for service in [ServiceId::Vl16, ServiceId::PpOcrV6, ServiceId::StructureV3] {
        assert_eq!(service_from_name(service_name(service)), Some(service));
    }
    assert_eq!(service_name(ServiceId::PpOcrV6), "pp_ocr_v6");
    assert_eq!(service_from_name("ppocr"), None);
}
