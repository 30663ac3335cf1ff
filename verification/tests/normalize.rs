use paddledesk::model::{BlockKind, OcrError, ServiceId};
use paddledesk::normalize::{
    block_kind, csv_cell, html_table_to_csv, jsonl_records, normalize_records, DataInfo,
    LayoutBlock, LayoutPage, OcrPage, PageSize, RawResult,
};

fn bits(values: [f32; 4]) -> [u32; 4] {
    values.map(f32::to_bits)
}

fn ocr_result() -> RawResult {
    RawResult {
        data_info: DataInfo {
            width: Some(1200.0f32.to_bits()),
            height: Some(800.0f32.to_bits()),
            pages: Vec::new(),
        },
        ocr_results: vec![OcrPage {
            rec_texts: vec!["Hello".into(), "World".into()],
            rec_boxes: vec![
                bits([96.0, 96.0, 419.0, 144.0]),
                bits([96.0, 160.0, 300.0, 200.0]),
            ],
        }],
        layout_parsing_results: Vec::new(),
    }
}

fn layout_result(tables: bool) -> RawResult {
    let mut blocks = vec![LayoutBlock {
        block_id: 0,
        block_label: "text".into(),
        block_content: "Intro".into(),
        block_bbox: Some(bits([1.0, 2.0, 3.0, 4.0])),
    }];
    if tables {
        blocks.push(LayoutBlock {
            block_id: 7,
            block_label: "Table".into(),
            block_content: "<table><tr><th>a</th><th>b</th></tr><tr><td>1</td><td>2,5</td></tr></table>"
                .into(),
            block_bbox: None,
        });
    }
    RawResult {
        data_info: DataInfo {
            width: None,
            height: None,
            pages: Vec::new(),
        },
        ocr_results: Vec::new(),
        layout_parsing_results: vec![
            LayoutPage {
                markdown: "# Intro".into(),
                width: 595.0f32.to_bits(),
                height: 842.0f32.to_bits(),
                parsing_res_list: blocks,
            },
            LayoutPage {
                markdown: "page two".into(),
                width: 595.0f32.to_bits(),
                height: 842.0f32.to_bits(),
                parsing_res_list: Vec::new(),
            },
        ],
    }
}

#[test]
fn malformed_jsonl_is_a_parse_error() {
    let records = jsonl_records("not json");
    assert_eq!(records, vec!["not json"]);
    let decoded: Vec<Result<RawResult, String>> = records
        .iter()
        .map(|record| match serde_json::from_str::<serde_json::Value>(record) {
            Ok(_) => panic!("the record is not JSON"),
            Err(error) => Err(error.to_string()),
        })
        .collect();
    let error = normalize_records(ServiceId::Vl16, &decoded).unwrap_err();
    assert!(matches!(&error, OcrError::Parse(m) if m.starts_with("invalid JSONL: ")));
}

#[test]
fn jsonl_records_skip_blank_lines_and_carriage_returns() {
    assert_eq!(
        jsonl_records("{\"a\":1}\r\n\n   \n{\"b\":2}"),
        vec!["{\"a\":1}", "{\"b\":2}"]
    );
    assert!(jsonl_records("").is_empty());
    assert!(jsonl_records("\n \t\n").is_empty());
}

#[test]
fn ppocr_results_keep_text_and_pixel_boxes() {
    let result = normalize_records(ServiceId::PpOcrV6, &vec![Ok(ocr_result())]).unwrap();
    assert_eq!(result.page_count, 1);
    assert_eq!(
        (
            f32::from_bits(result.pages[0].width),
            f32::from_bits(result.pages[0].height)
        ),
        (1200.0, 800.0)
    );
    assert_eq!(
        result.pages[0].blocks[0].bbox,
        Some(bits([96.0, 96.0, 419.0, 144.0]))
    );
    assert_eq!(result.pages[0].blocks[0].id, "p0-text-0");
    assert_eq!(result.pages[0].blocks[1].id, "p0-text-1");
    assert_eq!(result.markdown, "Hello\nWorld");
}

#[test]
fn ppocr_page_sizes_prefer_the_per_page_entry() {
    let mut raw = ocr_result();
    raw.data_info.pages = vec![PageSize {
        width: 10.0f32.to_bits(),
        height: 20.0f32.to_bits(),
    }];
    let result = normalize_records(ServiceId::PpOcrV6, &vec![Ok(raw)]).unwrap();
    assert_eq!(f32::from_bits(result.pages[0].width), 10.0);
    assert_eq!(f32::from_bits(result.pages[0].height), 20.0);
}

#[test]
fn ppocr_mismatched_counts_and_missing_sizes_fail() {
    let mut raw = ocr_result();
    raw.ocr_results[0].rec_boxes.pop();
    assert_eq!(
        normalize_records(ServiceId::PpOcrV6, &vec![Ok(raw)]).unwrap_err(),
        OcrError::Parse("PP-OCRv6 text and box counts differ".into())
    );
    let mut raw = ocr_result();
    raw.data_info.width = None;
    assert_eq!(
        normalize_records(ServiceId::PpOcrV6, &vec![Ok(raw)]).unwrap_err(),
        OcrError::Parse("PP-OCRv6 page width is missing".into())
    );
}

#[test]
fn layout_results_map_pages_tables_and_stable_ids() {
    let result = normalize_records(ServiceId::Vl16, &vec![Ok(layout_result(true))]).unwrap();
    assert_eq!(result.page_count, 2);
    assert_eq!(result.pages[0].blocks[0].id, "p0-b0");
    assert_eq!(result.pages[0].blocks[1].id, "p0-b7");
    assert_eq!(result.pages[0].blocks[1].kind, BlockKind::Table);
    assert_eq!(result.pages[0].blocks[1].content, "a,b\n1,\"2,5\"");
    assert_eq!(result.markdown, "# Intro\n\npage two");
}

#[test]
fn pages_continue_across_records() {
    let result = normalize_records(
        ServiceId::StructureV3,
        &vec![Ok(layout_result(false)), Ok(layout_result(false))],
    )
    .unwrap();
    assert_eq!(result.page_count, 4);
    assert_eq!(result.pages[2].blocks[0].id, "p2-b0");
    assert!(result.pages[0].blocks.iter().all(|block| block.bbox.is_some()));
}

#[test]
fn results_without_pages_are_rejected() {
    assert_eq!(
        normalize_records(ServiceId::Vl16, &Vec::new()).unwrap_err(),
        OcrError::Parse("response contains no pages".into())
    );
}

#[test]
fn block_labels_are_classified_without_case() {
    assert_eq!(block_kind("TABLE"), BlockKind::Table);
    assert_eq!(block_kind("display_formula"), BlockKind::Formula);
    assert_eq!(block_kind("seal"), BlockKind::Seal);
    assert_eq!(block_kind("chart"), BlockKind::Chart);
    assert_eq!(block_kind("paragraph_title"), BlockKind::Text);
}

#[test]
fn csv_cells_are_trimmed_and_quoted_when_needed() {
    assert_eq!(csv_cell("  plain "), "plain");
    assert_eq!(csv_cell("a,b"), "\"a,b\"");
    assert_eq!(csv_cell("say \"hi\""), "\"say \"\"hi\"\"\"");
    assert_eq!(csv_cell("two\nlines"), "\"two\nlines\"");
}

#[test]
fn html_tables_become_csv() {
    assert_eq!(
        html_table_to_csv("<table><tr><td> x </td><td>y</td></tr><tr><th>1</th></tr></table>"),
        "x,y\n1"
    );
    assert_eq!(html_table_to_csv("no table here"), "no table here");
}

#[test]
fn cell_rows_become_csv_lines() {
    let rows = vec![
        vec!["a".to_string(), "b, c".to_string()],
        vec![" 1 ".to_string()],
    ];
    assert_eq!(paddledesk::normalize::cells_to_csv(&rows), "a,\"b, c\"\n1");
    assert_eq!(paddledesk::normalize::cells_to_csv(&Vec::new()), "");
}
