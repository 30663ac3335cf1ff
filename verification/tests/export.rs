use paddledesk::export::{export, ExportOutput};
use paddledesk::model::{Block, BlockKind, Page, RecognitionResult};

fn sample() -> RecognitionResult {
    RecognitionResult {
        markdown: "# 你好".into(),
        page_count: 1,
        pages: vec![Page {
            width: 100.0f32.to_bits(),
            height: 100.0f32.to_bits(),
            blocks: vec![
                Block {
                    id: "t1".into(),
                    kind: BlockKind::Text,
                    bbox: None,
                    content: "你好".into(),
                },
                Block {
                    id: "tb1".into(),
                    kind: BlockKind::Table,
                    bbox: None,
                    content: "a,b\n1,2".into(),
                },
            ],
        }],
    }
}

fn bytes(output: ExportOutput) -> Vec<u8> {
    match output {
        ExportOutput::Bytes(bytes) => bytes,
        ExportOutput::PrettyJson => panic!("expected bytes"),
    }
}

#[test]
fn csv_export_has_bom_and_content() {
    let out = bytes(export(&sample(), "csv", Some("tb1")).unwrap());
    assert_eq!(&out[..3], &[0xEF, 0xBB, 0xBF]);
    assert_eq!(&out[3..], "a,b\n1,2".as_bytes());
}

#[test]
fn txt_export_joins_text_blocks() {
    assert_eq!(
        bytes(export(&sample(), "txt", None).unwrap()),
        "你好".as_bytes()
    );
}

#[test]
fn csv_on_non_table_errors() {
    assert!(export(&sample(), "csv", Some("t1")).is_err());
}

#[test]
fn markdown_export_is_the_utf8_markdown() {
    assert_eq!(
        bytes(export(&sample(), "md", None).unwrap()),
        "# 你好".as_bytes()
    );
}

#[test]
fn json_export_is_left_to_the_serialiser() {
    assert!(matches!(
        export(&sample(), "json", None),
        Ok(ExportOutput::PrettyJson)
    ));
}

#[test]
fn txt_export_separates_text_blocks_with_a_blank_line() {
    let mut result = sample();
    result.pages.push(Page {
        width: 0,
        height: 0,
        blocks: vec![Block {
            id: "p1-text-0".into(),
            kind: BlockKind::Text,
            bbox: None,
            content: "second".into(),
        }],
    });
    assert_eq!(
        bytes(export(&result, "txt", None).unwrap()),
        "你好\n\nsecond".as_bytes()
    );
}

#[test]
fn export_errors_are_exact() {
    match export(&sample(), "csv", None) {
        Err(message) => assert_eq!(message, "CSV export requires block_id"),
        Ok(_) => panic!("csv without a block id must fail"),
    }
    match export(&sample(), "csv", Some("missing")) {
        Err(message) => assert_eq!(message, "table block not found"),
        Ok(_) => panic!("csv of a missing block must fail"),
    }
    match export(&sample(), "docx", None) {
        Err(message) => assert_eq!(message, "unsupported export format: docx"),
        Ok(_) => panic!("unknown formats must fail"),
    }
}
