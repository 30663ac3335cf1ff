use paddledesk::history::{
    file_name_of, merge_results, search_needle, session_entries, session_summary,
    sort_newest_first, temporary_task_ids, ResultSummary, SessionResult, SessionTask,
};
use paddledesk::model::ServiceId;

fn stored(task_id: &str, created_at: i64) -> ResultSummary {
    ResultSummary {
        task_id: task_id.into(),
        service: ServiceId::Vl16,
        file_name: format!("{task_id}.pdf"),
        snippet: String::new(),
        created_at,
        temporary: false,
    }
}

fn session(task_id: &str, service: ServiceId, path: &str, created_at: i64, markdown: &str) -> SessionResult {
    SessionResult {
        task_id: task_id.into(),
        task: Some(SessionTask {
            service,
            input_path: path.into(),
            created_at,
        }),
        markdown: markdown.into(),
    }
}

fn ids(results: &[ResultSummary]) -> Vec<&str> {
    results.iter().map(|r| r.task_id.as_str()).collect()
}

#[test]
fn history_is_sorted_newest_first_and_stable() {
    let sorted = sort_newest_first(vec![
        stored("a", 1),
        stored("b", 3),
        stored("c", 1),
        stored("d", 3),
        stored("e", 2),
    ]);
    assert_eq!(ids(&sorted), vec!["b", "d", "e", "a", "c"]);
    assert!(sort_newest_first(Vec::new()).is_empty());
}

#[test]
fn search_needles_are_trimmed_and_lowercased() {
    assert_eq!(search_needle("  Ünïcode QUERY \n"), "ünïcode query");
    assert_eq!(search_needle("   "), "");
}

#[test]
fn file_names_come_from_the_input_path() {
    assert_eq!(file_name_of("/tmp/captures/shot.png"), "shot.png");
    assert_eq!(file_name_of("plain.pdf"), "plain.pdf");
}

#[test]
fn session_entries_match_service_and_query() {
    let entry = session("t1", ServiceId::Vl16, "/tmp/Lecture.pdf", 5, "# Convolution basics");
    let hit = session_summary(ServiceId::Vl16, "lecture", &entry, "Lecture.pdf".into()).unwrap();
    assert!(hit.temporary);
    assert_eq!(hit.file_name, "Lecture.pdf");
    assert_eq!(hit.snippet, "# Convolution basics");
    assert_eq!(hit.created_at, 5);
    assert!(session_summary(ServiceId::Vl16, "convolution", &entry, "Lecture.pdf".into()).is_some());
    assert!(session_summary(ServiceId::Vl16, "missing", &entry, "Lecture.pdf".into()).is_none());
    assert!(session_summary(ServiceId::PpOcrV6, "", &entry, "Lecture.pdf".into()).is_none());
    let orphan = SessionResult {
        task_id: "gone".into(),
        task: None,
        markdown: "text".into(),
    };
    assert!(session_summary(ServiceId::Vl16, "", &orphan, "x".into()).is_none());
}

#[test]
fn snippets_keep_the_first_160_characters() {
    let long = "字".repeat(200);
    let entry = session("t", ServiceId::Vl16, "a.png", 0, &long);
    let summary = session_summary(ServiceId::Vl16, "", &entry, "a.png".into()).unwrap();
    assert_eq!(summary.snippet.chars().count(), 160);
}

#[test]
fn stored_and_session_results_are_merged_newest_first() {
    let entries = vec![
        session("s1", ServiceId::Vl16, "/captures/new.png", 10, "fresh"),
        session("s2", ServiceId::PpOcrV6, "/captures/other.png", 20, "other service"),
        session("s3", ServiceId::Vl16, "/captures/old.png", 1, "older"),
    ];
    let merged = merge_results(
        ServiceId::Vl16,
        "",
        vec![stored("db1", 5), stored("db2", 1)],
        &entries,
    );
    assert_eq!(ids(&merged), vec!["s1", "db1", "db2", "s3"]);
    assert_eq!(temporary_task_ids(&merged), vec!["s1", "s3"]);

    let filtered = merge_results(ServiceId::Vl16, " FRESH ", vec![stored("db1", 5)], &entries);
    assert_eq!(ids(&filtered), vec!["s1", "db1"]);
    assert_eq!(
        ids(&session_entries(ServiceId::Vl16, "old", &entries)),
        vec!["s3"]
    );
}

#[test]
fn task_rows_give_the_session_record() {
    let row = paddledesk::records::TaskRow {
        id: "t".into(),
        service: ServiceId::StructureV3,
        status: "done".into(),
        input_path: "/docs/a.pdf".into(),
        options_json: "{}".into(),
        progress_page: 3,
        total_pages: 3,
        error_kind: None,
        error_msg: None,
        created_at: 42,
    };
    let task = paddledesk::records::session_task(&row);
    assert_eq!(task.service, ServiceId::StructureV3);
    assert_eq!(task.input_path, "/docs/a.pdf");
    assert_eq!(task.created_at, 42);
}

#[test]
fn file_names_ignore_the_folders() {
    assert_eq!(file_name_of("C:/Users/me/lecture notes/ch1.pdf"), "ch1.pdf");
    assert_eq!(file_name_of("./scan.png"), "scan.png");
}

#[test]
fn session_search_does_not_match_folder_names() {
    let entries = vec![session(
        "s1",
        ServiceId::Vl16,
        "/home/lecture/capture.png",
        3,
        "body",
    )];
    assert!(session_entries(ServiceId::Vl16, "lecture", &entries).is_empty());
    assert_eq!(ids(&session_entries(ServiceId::Vl16, "capture", &entries)), vec!["s1"]);
}
