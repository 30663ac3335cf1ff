use paddledesk::model::{Block, BlockKind, OcrError, Page, RecognitionResult, ServiceId};
use paddledesk::paddle::{
    api_result, append_result, check_token, is_pdf_extension, checkpoint_job_id, download_result, integer, job_url,
    jobs_url, map_failure, model_name, number, optional_payload, page_ranges, poll_step,
    probe_result, probe_url, redact, response_detail, save_job_id, segments_for, ApiFailure,
    ApiReply, JsonScalar, PaddleOcr, ParseAction, ParseEvent, ParseRun, PollOutcome, PollReply,
    PollStep, Segment, BASE_URL, JOBS_PATH,
};

fn one_page(markdown: &str) -> RecognitionResult {
    RecognitionResult {
        markdown: markdown.into(),
        page_count: 1,
        pages: vec![Page {
            width: 1200.0f32.to_bits(),
            height: 800.0f32.to_bits(),
            blocks: vec![Block {
                id: "p0-text-0".into(),
                kind: BlockKind::Text,
                bbox: None,
                content: markdown.into(),
            }],
        }],
    }
}

fn image_segments() -> Vec<Segment> {
    vec![Segment {
        range: None,
        pages: 1,
    }]
}

#[test]
fn splits_large_pdfs_into_deterministic_ranges() {
    assert_eq!(page_ranges(201), vec!["1-100", "101-200", "201"]);
}

#[test]
fn maps_documented_failures() {
    assert!(matches!(
        map_failure(403, Some(12001), "quota".into()),
        OcrError::Quota
    ));
    assert!(matches!(
        map_failure(200, Some(10010), "busy".into()),
        OcrError::RateLimited(_)
    ));
    assert!(matches!(
        map_failure(400, Some(10003), "large".into()),
        OcrError::InvalidInput(_)
    ));
    assert!(matches!(map_failure(401, None, String::new()), OcrError::Auth));
    assert!(matches!(
        map_failure(500, None, "upstream".into()),
        OcrError::Server(_)
    ));
}

#[test]
fn failure_codes_win_over_http_status() {
    assert_eq!(
        map_failure(500, Some(11002), "expired".into()),
        OcrError::Parse("expired".into())
    );
    assert_eq!(
        map_failure(200, Some(12002), "slow".into()),
        OcrError::RateLimited("slow".into())
    );
    assert_eq!(map_failure(429, None, "x".into()), OcrError::RateLimited("x".into()));
    assert_eq!(map_failure(413, None, "big".into()), OcrError::InvalidInput("big".into()));
    assert_eq!(map_failure(403, Some(99), "".into()), OcrError::Auth);
}

#[test]
fn page_ranges_cover_short_and_exact_documents() {
    assert_eq!(page_ranges(1), vec!["1"]);
    assert_eq!(page_ranges(100), vec!["1-100"]);
    assert_eq!(page_ranges(101), vec!["1-100", "101"]);
    assert_eq!(page_ranges(250), vec!["1-100", "101-200", "201-250"]);
}

#[test]
fn segments_split_pdfs_and_keep_images_whole() {
    let image = segments_for(None).unwrap();
    assert_eq!(image.len(), 1);
    assert_eq!(image[0].range, None);
    assert_eq!(image[0].pages, 1);

    let pdf = segments_for(Some(150)).unwrap();
    assert_eq!(pdf.len(), 2);
    assert_eq!(pdf[0].range.as_deref(), Some("1-100"));
    assert_eq!(pdf[0].pages, 100);
    assert_eq!(pdf[1].range.as_deref(), Some("101-150"));
    assert_eq!(pdf[1].pages, 50);

    assert!(matches!(
        segments_for(Some(0)),
        Err(OcrError::InvalidInput(message)) if message == "PDF contains no pages"
    ));
}

#[test]
fn endpoints_are_built_below_the_base_url() {
    assert_eq!(jobs_url("http://host/"), format!("http://host{JOBS_PATH}"));
    assert_eq!(
        job_url("http://host//", "job-1"),
        format!("http://host{JOBS_PATH}/job-1")
    );
    assert_eq!(
        probe_url(BASE_URL),
        format!("{BASE_URL}{JOBS_PATH}/paddledesk-token-validation")
    );
}

#[test]
fn jobs_name_their_model_and_switch_off_preprocessing() {
    assert_eq!(model_name(ServiceId::PpOcrV6), "PP-OCRv6");
    assert_eq!(model_name(ServiceId::Vl16), "PaddleOCR-VL-1.6");
    assert_eq!(model_name(ServiceId::StructureV3), "PP-StructureV3");
    let payload: serde_json::Value =
        serde_json::from_str(optional_payload(ServiceId::PpOcrV6)).unwrap();
    assert_eq!(payload["useTextlineOrientation"], serde_json::Value::Bool(false));
    let payload: serde_json::Value =
        serde_json::from_str(optional_payload(ServiceId::Vl16)).unwrap();
    assert_eq!(payload["useChartRecognition"], serde_json::Value::Bool(false));
}

#[test]
fn client_defaults_to_the_public_endpoint() {
    let client = PaddleOcr::new(ServiceId::PpOcrV6, "token", "proxy");
    assert_eq!(client.id(), ServiceId::PpOcrV6);
    assert_eq!(client.base_url(), BASE_URL);
    assert_eq!(client.poll_interval_ms(), 5000);
    assert_eq!(*client.token_provider(), "token");
    let custom =
        PaddleOcr::with_endpoint(ServiceId::Vl16, 1u8, 2u8, "http://127.0.0.1:1".into(), 1);
    assert_eq!(custom.base_url(), "http://127.0.0.1:1");
    assert_eq!(custom.poll_interval_ms(), 1);
    assert_eq!(*custom.proxy_provider(), 2);
}

#[test]
fn redaction_removes_every_token_occurrence() {
    assert_eq!(
        redact("bad token test-token, again test-token".into(), "test-token"),
        "bad token [redacted], again [redacted]"
    );
    assert_eq!(redact("unchanged".into(), ""), "unchanged");
}

#[test]
fn error_codes_are_read_from_numbers_and_strings() {
    assert_eq!(integer(Some(&JsonScalar::Unsigned(11002))), Some(11002));
    assert_eq!(integer(Some(&JsonScalar::Negative(-1))), Some(-1));
    assert_eq!(integer(Some(&JsonScalar::Text("12001".into()))), Some(12001));
    assert_eq!(integer(Some(&JsonScalar::Text("x".into()))), None);
    assert_eq!(integer(Some(&JsonScalar::Unsigned(u64::MAX))), None);
    assert_eq!(integer(None), None);
    assert_eq!(number(&JsonScalar::Unsigned(7)), Some(7));
    assert_eq!(number(&JsonScalar::Text("42".into())), Some(42));
    assert_eq!(number(&JsonScalar::Negative(-3)), None);
    assert_eq!(number(&JsonScalar::Unsigned(1 << 40)), None);
}

#[test]
fn response_detail_prefers_the_data_error_message() {
    let reply = ApiReply {
        code: None,
        data_error_msg: Some(JsonScalar::Text("inner".into())),
        msg: Some(JsonScalar::Text("outer".into())),
        has_data: true,
    };
    assert_eq!(response_detail(&reply).as_deref(), Some("inner"));
    let reply = ApiReply {
        code: None,
        data_error_msg: None,
        msg: Some(JsonScalar::Text(String::new())),
        has_data: false,
    };
    assert_eq!(response_detail(&reply), None);
}

#[test]
fn api_replies_map_to_codes_or_failures() {
    let ok = ApiReply {
        code: Some(JsonScalar::Unsigned(0)),
        data_error_msg: None,
        msg: None,
        has_data: true,
    };
    assert_eq!(api_result(200, "{}".into(), "t", Ok(ok)).ok(), Some(Some(0)));

    let expired = ApiReply {
        code: Some(JsonScalar::Unsigned(11002)),
        data_error_msg: None,
        msg: Some(JsonScalar::Text("expired".into())),
        has_data: false,
    };
    let failure = api_result(400, "{}".into(), "t", Ok(expired)).unwrap_err();
    assert_eq!(failure.code, Some(11002));
    assert_eq!(failure.error, OcrError::Parse("expired".into()));

    let failure = api_result(401, "bad secret-token".into(), "secret-token", Err("eof".into()))
        .unwrap_err();
    assert_eq!(failure.code, None);
    assert_eq!(failure.error, OcrError::Auth);

    let failure =
        api_result(500, "boom secret-token".into(), "secret-token", Err("eof".into())).unwrap_err();
    assert_eq!(failure.error, OcrError::Server("boom [redacted]".into()));

    let failure = api_result(200, "garbage".into(), "t", Err("expected value".into())).unwrap_err();
    assert_eq!(
        failure.error,
        OcrError::Parse("invalid API response: expected value".into())
    );

    let no_data = ApiReply {
        code: None,
        data_error_msg: None,
        msg: None,
        has_data: false,
    };
    let failure = api_result(200, "{}".into(), "t", Ok(no_data)).unwrap_err();
    assert_eq!(failure.error, OcrError::Parse("API response is missing data".into()));
}

#[test]
fn downloads_need_a_successful_status() {
    assert_eq!(download_result(200, "body".into()).unwrap(), "body");
    assert_eq!(
        download_result(503, "busy".into()).unwrap_err(),
        OcrError::Server("busy".into())
    );
}

#[test]
fn token_probe_accepts_missing_job_and_rejects_auth() {
    assert_eq!(probe_result(Ok(())).unwrap(), true);
    assert_eq!(
        probe_result(Err(ApiFailure {
            code: Some(11001),
            error: OcrError::Parse("no job".into()),
        }))
        .unwrap(),
        true
    );
    assert_eq!(
        probe_result(Err(ApiFailure {
            code: None,
            error: OcrError::Auth,
        }))
        .unwrap(),
        false
    );
    assert_eq!(
        probe_result(Err(ApiFailure {
            code: None,
            error: OcrError::Network("offline".into()),
        }))
        .unwrap_err(),
        OcrError::Network("offline".into())
    );
}

#[test]
fn blank_tokens_are_refused_before_any_request() {
    assert!(check_token("test-token").is_ok());
    assert_eq!(check_token("  ").unwrap_err(), OcrError::Auth);
}

fn poll(state: &str) -> PollReply {
    PollReply {
        state: state.into(),
        extracted_pages: None,
        json_url: None,
        error_msg: None,
    }
}

#[test]
fn polling_follows_the_job_state() {
    assert!(matches!(poll_step(Ok(poll("pending")), 0), PollStep::Wait));
    let mut running = poll("running");
    running.extracted_pages = Some(JsonScalar::Unsigned(3));
    assert!(matches!(poll_step(Ok(running), 100), PollStep::Progress(103)));
    let mut done = poll("done");
    done.json_url = Some("http://host/result.jsonl".into());
    assert!(matches!(
        poll_step(Ok(done), 0),
        PollStep::Done(url) if url == "http://host/result.jsonl"
    ));
    assert!(matches!(
        poll_step(Ok(poll("done")), 0),
        PollStep::Failed(OcrError::Parse(m)) if m == "completed job is missing resultUrl.jsonUrl"
    ));
    assert!(matches!(
        poll_step(Ok(poll("failed")), 0),
        PollStep::Failed(OcrError::Parse(m)) if m == "upstream OCR job failed"
    ));
    let expired = ApiFailure {
        code: Some(11002),
        error: OcrError::Parse("expired".into()),
    };
    assert!(matches!(poll_step(Err(expired), 0), PollStep::Expired));
    let auth = ApiFailure {
        code: None,
        error: OcrError::Auth,
    };
    assert!(matches!(poll_step(Err(auth), 0), PollStep::Failed(OcrError::Auth)));
}

#[test]
fn checkpoints_record_one_job_per_segment() {
    let mut ids = Vec::new();
    save_job_id(&mut ids, 2, "job-3".into());
    assert_eq!(ids, vec!["", "", "job-3"]);
    assert_eq!(checkpoint_job_id(&ids, 2).as_deref(), Some("job-3"));
    assert_eq!(checkpoint_job_id(&ids, 0), None);
    assert_eq!(checkpoint_job_id(&ids, 7), None);
    save_job_id(&mut ids, 0, "job-1".into());
    assert_eq!(ids, vec!["job-1", "", "job-3"]);
}

#[test]
fn appending_results_joins_markdown_with_a_blank_line() {
    let mut aggregate = RecognitionResult {
        markdown: String::new(),
        page_count: 0,
        pages: Vec::new(),
    };
    append_result(&mut aggregate, one_page("first"));
    append_result(&mut aggregate, one_page("second"));
    assert_eq!(aggregate.markdown, "first\n\nsecond");
    assert_eq!(aggregate.pages.len(), 2);
}

#[test]
fn parse_run_submits_polls_downloads_and_records_the_job() {
    let (mut run, action) = ParseRun::start(image_segments(), Vec::new());
    assert!(matches!(action, ParseAction::Submit { range: None }));
    let action = run.step(ParseEvent::Submitted(Ok("job-1".into())));
    assert!(matches!(&action, ParseAction::SaveCheckpoint { job_ids } if job_ids == &vec!["job-1".to_string()]));
    let action = run.step(ParseEvent::Saved(Ok(())));
    assert!(matches!(
        &action,
        ParseAction::Poll { job_id, completed_pages: 0, total_pages: 1 } if job_id == "job-1"
    ));
    let action = run.step(ParseEvent::Polled(PollOutcome::Ready("http://host/result.jsonl".into())));
    assert!(matches!(&action, ParseAction::Download { url } if url == "http://host/result.jsonl"));
    let action = run.step(ParseEvent::Downloaded(Ok(one_page("hello"))));
    assert!(matches!(action, ParseAction::Report { page: 1, total: 1 }));
    match run.step(ParseEvent::Reported) {
        ParseAction::Finish(Ok(result)) => {
            assert_eq!(result.markdown, "hello");
            assert_eq!(result.page_count, 1);
            assert_eq!(result.pages.len(), 1);
        }
        _ => panic!("the run should finish with the downloaded result"),
    }
}

#[test]
fn parse_run_resumes_a_recorded_job_without_submitting() {
    let (_, action) = ParseRun::start(image_segments(), vec!["job-1".into()]);
    assert!(matches!(
        &action,
        ParseAction::Poll { job_id, .. } if job_id == "job-1"
    ));
}

#[test]
fn parse_run_replaces_an_expired_job() {
    let (mut run, _) = ParseRun::start(image_segments(), vec!["expired".into()]);
    let action = run.step(ParseEvent::Polled(PollOutcome::Expired));
    assert!(matches!(action, ParseAction::Submit { range: None }));
    let action = run.step(ParseEvent::Submitted(Ok("replacement".into())));
    assert!(matches!(
        &action,
        ParseAction::SaveCheckpoint { job_ids } if job_ids == &vec!["replacement".to_string()]
    ));
}

#[test]
fn parse_run_walks_every_pdf_segment_and_fails_on_errors() {
    let segments = segments_for(Some(150)).unwrap();
    let (mut run, action) = ParseRun::start(segments, Vec::new());
    assert!(matches!(&action, ParseAction::Submit { range: Some(r) } if r == "1-100"));
    run.step(ParseEvent::Submitted(Ok("a".into())));
    run.step(ParseEvent::Saved(Ok(())));
    run.step(ParseEvent::Polled(PollOutcome::Ready("u1".into())));
    let action = run.step(ParseEvent::Downloaded(Ok(one_page("one"))));
    assert!(matches!(action, ParseAction::Report { page: 100, total: 150 }));
    let action = run.step(ParseEvent::Reported);
    assert!(matches!(&action, ParseAction::Submit { range: Some(r) } if r == "101-150"));
    let action = run.step(ParseEvent::Submitted(Ok("b".into())));
    assert!(matches!(
        &action,
        ParseAction::SaveCheckpoint { job_ids } if job_ids == &vec!["a".to_string(), "b".to_string()]
    ));
    let action = run.step(ParseEvent::Saved(Err(OcrError::Internal("disk full".into()))));
    assert!(matches!(
        action,
        ParseAction::Finish(Err(OcrError::Internal(m))) if m == "disk full"
    ));
}

#[test]
fn pdf_documents_are_recognised_by_extension() {
    assert!(is_pdf_extension(Some("pdf")));
    assert!(is_pdf_extension(Some("PDF")));
    assert!(!is_pdf_extension(Some("png")));
    assert!(!is_pdf_extension(None));
}
