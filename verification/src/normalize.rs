//! Normalisation of the JSONL results of the three OCR services into the
//! common [`RecognitionResult`] model.
//!
//! The shell splits a result body with [`jsonl_records`], decodes each record
//! into a [`RawResult`] (or keeps the decoder's error message), and hands the
//! outcomes, in order, to [`normalize_records`].
use vstd::prelude::*;

use crate::model::{Block, BlockKind, BlockView, ErrorView, OcrError, Page, PageView, RecognitionResult, ResultView, ServiceId};
use crate::text::{
    chars_of, contains_char, contains_char_exec, contains_exec, contains_seq, decimal,
    decimal_i64, decimal_u64, join, join_chars, join_strings, lower_seq, push_all, push_str, signed_decimal,
    string_from_chars, string_views, to_ascii_lower, trim, trim_chars, views_of,
};

verus! {

/// Page size of one input page, as `f32` bit patterns.
pub struct PageSize {
    pub width: u32,
    pub height: u32,
}

/// `dataInfo` of a result record; sizes are `f32` bit patterns.
pub struct DataInfo {
    pub width: Option<u32>,
    pub height: Option<u32>,
    pub pages: Vec<PageSize>,
}

/// One page of a PP-OCRv6 result (`prunedResult`).
pub struct OcrPage {
    pub rec_texts: Vec<String>,
    pub rec_boxes: Vec<[u32; 4]>,
}

/// One entry of `parsing_res_list` in a layout result.
pub struct LayoutBlock {
    pub block_id: i64,
    pub block_label: String,
    pub block_content: String,
    pub block_bbox: Option<[u32; 4]>,
}

/// One page of a layout result (PaddleOCR-VL and PP-StructureV3).
pub struct LayoutPage {
    pub markdown: String,
    pub width: u32,
    pub height: u32,
    pub parsing_res_list: Vec<LayoutBlock>,
}

/// The `result` object of one JSONL record.
pub struct RawResult {
    pub data_info: DataInfo,
    pub ocr_results: Vec<OcrPage>,
    pub layout_parsing_results: Vec<LayoutPage>,
}

// ---------------------------------------------------------------------------
// Record framing
// ---------------------------------------------------------------------------

/// Index of the first `\n` in `s`, or `s.len()` when there is none.
pub open spec fn newline_at(s: Seq<char>) -> int
    decreases s.len(),
{
    if s.len() == 0 {
        0
    } else if s[0] == '\n' {
        0
    } else {
        1 + newline_at(s.drop_first())
    }
}

pub proof fn lemma_newline_at(s: Seq<char>)
    ensures
        0 <= newline_at(s) <= s.len(),
        newline_at(s) < s.len() ==> s[newline_at(s)] == '\n',
        forall|k: int| 0 <= k < newline_at(s) ==> s[k] != '\n',
    decreases s.len(),
{
    if s.len() > 0 && s[0] != '\n' {
        lemma_newline_at(s.drop_first());
        assert forall|k: int| 0 <= k < newline_at(s) implies s[k] != '\n' by {
            if k > 0 {
                assert(s[k] == s.drop_first()[k - 1]);
            }
        }
    }
}

proof fn lemma_newline_at_is(s: Seq<char>, i: int)
    requires
        0 <= i <= s.len(),
        i < s.len() ==> s[i] == '\n',
        forall|k: int| 0 <= k < i ==> s[k] != '\n',
    ensures
        newline_at(s) == i,
{
    lemma_newline_at(s);
    let j = newline_at(s);
    if j < i {
        assert(s[j] != '\n');
    }
    if i < j {
        assert(s[i] != '\n');
    }
}

/// `str::lines`: split after every `\n`; a line that ended in `\n` loses it and
/// then one trailing `\r`; a final line without `\n` is kept as it is.
pub open spec fn lines(s: Seq<char>) -> Seq<Seq<char>>
    decreases s.len(),
{
    if s.len() == 0 {
        Seq::empty()
    } else {
        let i = newline_at(s);
        if i >= s.len() {
            seq![s]
        } else {
            proof {
                lemma_newline_at(s);
            }
            seq![strip_cr(s.take(i))] + lines(s.skip(i + 1))
        }
    }
}

/// A line that ended in `\n` loses one trailing `\r`.
pub open spec fn strip_cr(line: Seq<char>) -> Seq<char> {
    if line.len() > 0 && line.last() == '\r' {
        line.drop_last()
    } else {
        line
    }
}

/// The lines that hold more than white space, in order.
pub open spec fn non_blank(ls: Seq<Seq<char>>) -> Seq<Seq<char>>
    decreases ls.len(),
{
    if ls.len() == 0 {
        Seq::empty()
    } else if trim(ls[0]).len() > 0 {
        seq![ls[0]] + non_blank(ls.drop_first())
    } else {
        non_blank(ls.drop_first())
    }
}

/// The records of a JSONL body: its non-blank lines, in order.
pub open spec fn records(body: Seq<char>) -> Seq<Seq<char>> {
    non_blank(lines(body))
}

proof fn lemma_records_split(t: Seq<char>, i: int)
    requires
        0 <= i < t.len(),
        t[i] == '\n',
        forall|k: int| 0 <= k < i ==> t[k] != '\n',
    ensures
        records(t) == (if trim(strip_cr(t.take(i))).len() > 0 {
            seq![strip_cr(t.take(i))]
        } else {
            Seq::empty()
        }) + records(t.skip(i + 1)),
{
    lemma_newline_at_is(t, i);
    let l = strip_cr(t.take(i));
    let ls = seq![l] + lines(t.skip(i + 1));
    assert(lines(t) == ls);
    assert(ls[0] == l);
    assert(ls.drop_first() =~= lines(t.skip(i + 1)));
    if trim(l).len() > 0 {
    } else {
        assert(Seq::<Seq<char>>::empty() + records(t.skip(i + 1)) =~= records(t.skip(i + 1)));
    }
}

proof fn lemma_records_last(t: Seq<char>)
    requires
        t.len() > 0,
        forall|k: int| 0 <= k < t.len() ==> t[k] != '\n',
    ensures
        records(t) == (if trim(t).len() > 0 {
            seq![t]
        } else {
            Seq::empty()
        }),
{
    lemma_newline_at_is(t, t.len() as int);
    assert(lines(t) == seq![t]);
    assert(lines(t).drop_first() =~= Seq::<Seq<char>>::empty());
    assert(non_blank(Seq::<Seq<char>>::empty()) == Seq::<Seq<char>>::empty());
    if trim(t).len() > 0 {
        assert(seq![t] + Seq::<Seq<char>>::empty() =~= seq![t]);
    }
}

/// Appends `line` to `out` when it holds more than white space.
fn keep_non_blank(out: &mut Vec<String>, line: &Vec<char>)
    ensures
        string_views(final(out)@) == string_views(old(out)@) + (if trim(line@).len() > 0 {
            seq![line@]
        } else {
            Seq::empty()
        }),
{
    let trimmed = trim_chars(line);
    let ghost before = out@;
    if trimmed.len() > 0 {
        out.push(string_from_chars(line));
        assert(string_views(out@) =~= string_views(before) + seq![line@]);
    } else {
        assert(string_views(out@) =~= string_views(before) + Seq::<Seq<char>>::empty());
    }
}

fn sub_chars(s: &Vec<char>, from: usize, to: usize) -> (out: Vec<char>)
    requires
        from <= to <= s.len(),
    ensures
        out@ == s@.subrange(from as int, to as int),
{
    let mut out: Vec<char> = Vec::new();
    let mut k = from;
    while k < to
        invariant
            from <= k <= to <= s.len(),
            out@ =~= s@.subrange(from as int, k as int),
        decreases to - k,
    {
        out.push(s[k]);
        k = k + 1;
    }
    out
}

/// Splits a JSONL body into its records: the non-blank lines, in order.
pub fn jsonl_records(body: &str) -> (out: Vec<String>)
    ensures
        string_views(out@) == records(body@),
{
    let s = chars_of(body);
    let mut out: Vec<String> = Vec::new();
    let mut start: usize = 0;
    let mut i: usize = 0;
    assert(s@.skip(0) =~= s@);
    assert(string_views(out@) + records(s@) =~= records(s@));
    while i < s.len()
        invariant
            0 <= start <= i <= s.len(),
            s@ == body@,
            forall|k: int| start <= k < i ==> s@[k] != '\n',
            string_views(out@) + records(s@.skip(start as int)) == records(s@),
        decreases s.len() - i,
    {
        if s[i] == '\n' {
            let ghost t = s@.skip(start as int);
            let mut line = sub_chars(&s, start, i);
            if line.len() > 0 && line[line.len() - 1] == '\r' {
                line.pop();
            }
            proof {
                assert(t.take(i - start) =~= s@.subrange(start as int, i as int));
                assert(t.skip(i - start + 1) =~= s@.skip(i + 1));
                lemma_records_split(t, i - start);
                assert(line@ =~= strip_cr(t.take(i - start)));
            }
            let ghost before = out@;
            keep_non_blank(&mut out, &line);
            assert(string_views(out@) + records(s@.skip(i + 1)) =~= records(s@));
            start = i + 1;
        }
        i = i + 1;
    }
    if start < s.len() {
        let ghost t = s@.skip(start as int);
        let line = sub_chars(&s, start, s.len());
        proof {
            assert(line@ =~= t);
            lemma_records_last(t);
        }
        keep_non_blank(&mut out, &line);
        assert(string_views(out@) =~= records(s@));
    } else {
        assert(s@.skip(start as int) =~= Seq::<char>::empty());
        assert(string_views(out@) =~= records(s@));
    }
    out
}

// ---------------------------------------------------------------------------
// Blocks
// ---------------------------------------------------------------------------

/// Identifier of the `index`-th text line of page `page` of a PP-OCRv6 result.
pub open spec fn text_block_id(page: nat, index: nat) -> Seq<char> {
    "p"@ + decimal(page) + "-text-"@ + decimal(index)
}

/// Identifier of a layout block: its page and the upstream block id.
pub open spec fn layout_block_id(page: nat, block_id: int) -> Seq<char> {
    "p"@ + decimal(page) + "-b"@ + signed_decimal(block_id)
}

/// The block kind that a layout label names, compared without ASCII case.
pub open spec fn block_kind_of(label: Seq<char>) -> BlockKind {
    let l = lower_seq(label);
    if contains_seq(l, "table"@) {
        BlockKind::Table
    } else if contains_seq(l, "formula"@) {
        BlockKind::Formula
    } else if contains_seq(l, "seal"@) {
        BlockKind::Seal
    } else if contains_seq(l, "chart"@) {
        BlockKind::Chart
    } else {
        BlockKind::Text
    }
}

/// A CSV field needs quoting when it holds a comma, a quote or a line break.
pub open spec fn needs_quotes(v: Seq<char>) -> bool {
    contains_char(v, ',') || contains_char(v, '"') || contains_char(v, '\r') || contains_char(v, '\n')
}

/// Every `"` doubled.
pub open spec fn double_quotes(s: Seq<char>) -> Seq<char>
    decreases s.len(),
{
    if s.len() == 0 {
        Seq::empty()
    } else {
        double_quotes(s.drop_last()) + if s.last() == '"' {
            seq!['"', '"']
        } else {
            seq![s.last()]
        }
    }
}

/// One CSV field: the trimmed text, quoted (with doubled quotes) when it must be.
pub open spec fn csv_field(value: Seq<char>) -> Seq<char> {
    let v = trim(value);
    if needs_quotes(v) {
        seq!['"'] + double_quotes(v) + seq!['"']
    } else {
        v
    }
}

/// The text of every `th`/`td` cell of every `tr` row of an HTML fragment, as
/// `scraper` parses it: rows in document order, cells in document order.
pub uninterp spec fn html_table_cells(html: Seq<char>) -> Seq<Seq<Seq<char>>>;

pub open spec fn csv_row(cells: Seq<Seq<char>>) -> Seq<char> {
    join(cells.map_values(|c: Seq<char>| csv_field(c)), ","@)
}

/// Rows of cells as CSV: one line per row, fields separated by commas.
pub open spec fn rows_csv(rows: Seq<Seq<Seq<char>>>) -> Seq<char> {
    join(rows.map_values(|row: Seq<Seq<char>>| csv_row(row)), "\n"@)
}

pub open spec fn cell_views(rows: Seq<Vec<String>>) -> Seq<Seq<Seq<char>>> {
    rows.map_values(|r: Vec<String>| string_views(r@))
}

/// An HTML table as CSV: one line per row, fields separated by commas; the input
/// itself when that CSV is empty.
pub open spec fn table_csv(html: Seq<char>) -> Seq<char> {
    let csv = rows_csv(html_table_cells(html));
    if csv.len() == 0 {
        html
    } else {
        csv
    }
}

pub fn text_block_id_exec(page: usize, index: usize) -> (id: String)
    ensures
        id@ == text_block_id(page as nat, index as nat),
{
    let mut v = chars_of("p");
    let p = decimal_u64(page as u64);
    push_all(&mut v, &p);
    push_str(&mut v, "-text-");
    let i = decimal_u64(index as u64);
    push_all(&mut v, &i);
    string_from_chars(&v)
}

pub fn layout_block_id_exec(page: usize, block_id: i64) -> (id: String)
    ensures
        id@ == layout_block_id(page as nat, block_id as int),
{
    let mut v = chars_of("p");
    let p = decimal_u64(page as u64);
    push_all(&mut v, &p);
    push_str(&mut v, "-b");
    let b = decimal_i64(block_id);
    push_all(&mut v, &b);
    string_from_chars(&v)
}

/// Classifies a layout block by its label.
pub fn block_kind(label: &str) -> (kind: BlockKind)
    ensures
        kind == block_kind_of(label@),
{
    let l = to_ascii_lower(&chars_of(label));
    if contains_exec(&l, &chars_of("table")) {
        BlockKind::Table
    } else if contains_exec(&l, &chars_of("formula")) {
        BlockKind::Formula
    } else if contains_exec(&l, &chars_of("seal")) {
        BlockKind::Seal
    } else if contains_exec(&l, &chars_of("chart")) {
        BlockKind::Chart
    } else {
        BlockKind::Text
    }
}

/// Formats one CSV field.
pub fn csv_cell(value: &str) -> (out: String)
    ensures
        out@ == csv_field(value@),
{
    let v = trim_chars(&chars_of(value));
    if contains_char_exec(&v, ',') || contains_char_exec(&v, '"') || contains_char_exec(&v, '\r')
        || contains_char_exec(&v, '\n') {
        let mut out: Vec<char> = Vec::new();
        out.push('"');
        let mut i: usize = 0;
        while i < v.len()
            invariant
                0 <= i <= v.len(),
                out@ == seq!['"'] + double_quotes(v@.take(i as int)),
            decreases v.len() - i,
        {
            assert(v@.take(i + 1).drop_last() =~= v@.take(i as int));
            if v[i] == '"' {
                out.push('"');
                out.push('"');
            } else {
                out.push(v[i]);
            }
            i = i + 1;
            assert(out@ =~= seq!['"'] + double_quotes(v@.take(i as int)));
        }
        assert(v@.take(v.len() as int) =~= v@);
        out.push('"');
        string_from_chars(&out)
    } else {
        string_from_chars(&v)
    }
}

/// Reads the cells of every table row of an HTML fragment with `scraper`.
#[verifier::external_body]
fn table_cells(html: &str) -> (rows: Vec<Vec<String>>)
    ensures
        cell_views(rows@) == html_table_cells(html@),
{
    let fragment = scraper::Html::parse_fragment(html);
    let row_selector = scraper::Selector::parse("tr").expect("constant row selector is valid");
    let cell_selector = scraper::Selector::parse("th, td").expect("constant cell selector is valid");
    let mut rows = Vec::new();
    for row in fragment.select(&row_selector) {
        let mut cells = Vec::new();
        for cell in row.select(&cell_selector) {
            cells.push(cell.text().collect::<String>());
        }
        rows.push(cells);
    }
    rows
}

/// Writes rows of cells as CSV: one line per row, each cell a CSV field,
/// fields separated by commas.
pub fn cells_to_csv(rows: &Vec<Vec<String>>) -> (csv: String)
    ensures
        csv@ == rows_csv(cell_views(rows@)),
{
    let ghost cells = cell_views(rows@);
    let mut lines: Vec<Vec<char>> = Vec::new();
    let mut i: usize = 0;
    while i < rows.len()
        invariant
            0 <= i <= rows.len(),
            cells == cell_views(rows@),
            views_of(lines@) =~= cells.take(i as int).map_values(|row: Seq<Seq<char>>| csv_row(row)),
        decreases rows.len() - i,
    {
        let row = &rows[i];
        let mut fields: Vec<String> = Vec::new();
        let mut k: usize = 0;
        while k < row.len()
            invariant
                0 <= k <= row.len(),
                string_views(fields@) =~= string_views(row@.take(k as int)).map_values(
                    |c: Seq<char>| csv_field(c),
                ),
            decreases row.len() - k,
        {
            let f = csv_cell(row[k].as_str());
            let ghost prev = fields@;
            fields.push(f);
            assert(string_views(fields@) =~= string_views(prev).push(csv_field(row@[k as int]@)));
            assert(row@.take(k + 1) =~= row@.take(k as int).push(row@[k as int]));
            assert(string_views(row@.take(k + 1)) =~= string_views(row@.take(k as int)).push(row@[k as int]@));
            k = k + 1;
        }
        assert(row@.take(row.len() as int) =~= row@);
        assert(cells[i as int] == string_views(row@));
        let line = join_strings(&fields, ",");
        let ghost prev = lines@;
        lines.push(line);
        assert(views_of(lines@) =~= views_of(prev).push(csv_row(cells[i as int])));
        assert(cells.take(i + 1) =~= cells.take(i as int).push(cells[i as int]));
        i = i + 1;
    }
    assert(cells.take(rows.len() as int) =~= cells);
    let csv = join_chars(&lines, "\n");
    string_from_chars(&csv)
}

/// Converts an HTML table to CSV; the input itself when no cell text comes out.
pub fn html_table_to_csv(input: &str) -> (out: String)
    ensures
        out@ == table_csv(input@),
{
    let rows = table_cells(input);
    let csv = cells_to_csv(&rows);
    if csv.as_str().is_empty() {
        crate::text::owned(input)
    } else {
        csv
    }
}

// ---------------------------------------------------------------------------
// Pages
// ---------------------------------------------------------------------------

pub open spec fn page_views(pages: Seq<Page>) -> Seq<PageView> {
    pages.map_values(|p: Page| p@)
}

pub open spec fn block_views(blocks: Seq<Block>) -> Seq<BlockView> {
    blocks.map_values(|b: Block| b@)
}

/// The width of the `local`-th OCR page: its own page size, else the record's.
pub open spec fn ocr_width(r: RawResult, local: int) -> Option<u32> {
    if 0 <= local < r.data_info.pages@.len() {
        Some(r.data_info.pages@[local].width)
    } else {
        r.data_info.width
    }
}

/// The height of the `local`-th OCR page: its own page size, else the record's.
pub open spec fn ocr_height(r: RawResult, local: int) -> Option<u32> {
    if 0 <= local < r.data_info.pages@.len() {
        Some(r.data_info.pages@[local].height)
    } else {
        r.data_info.height
    }
}

/// The blocks of an OCR page that becomes page `page` of the result: one text
/// block per recognised line, with its box.
pub open spec fn ocr_blocks(raw: OcrPage, page: nat) -> Seq<BlockView> {
    Seq::new(
        raw.rec_texts@.len(),
        |j: int|
            BlockView {
                id: text_block_id(page, j as nat),
                kind: BlockKind::Text,
                bbox: Some(raw.rec_boxes@[j]),
                content: raw.rec_texts@[j]@,
            },
    )
}

/// Pages and markdown sections gathered so far.
pub type Gathered = (Seq<PageView>, Seq<Seq<char>>);

/// Adds the `local`-th OCR page of `r`.
pub open spec fn ocr_step(r: RawResult, local: int, acc: Gathered) -> Result<Gathered, ErrorView> {
    let raw = r.ocr_results@[local];
    if raw.rec_texts@.len() != raw.rec_boxes@.len() {
        Err(ErrorView::Parse("PP-OCRv6 text and box counts differ"@))
    } else if ocr_width(r, local) is None {
        Err(ErrorView::Parse("PP-OCRv6 page width is missing"@))
    } else if ocr_height(r, local) is None {
        Err(ErrorView::Parse("PP-OCRv6 page height is missing"@))
    } else {
        Ok(
            (
                acc.0.push(
                    PageView {
                        width: ocr_width(r, local)->0,
                        height: ocr_height(r, local)->0,
                        blocks: ocr_blocks(raw, acc.0.len()),
                    },
                ),
                acc.1.push(join(string_views(raw.rec_texts@), "\n"@)),
            ),
        )
    }
}

/// The first `k` OCR pages of `r`, added in order; the first failure wins.
pub open spec fn ocr_fold(r: RawResult, acc: Gathered, k: nat) -> Result<Gathered, ErrorView>
    decreases k,
{
    if k == 0 {
        Ok(acc)
    } else {
        match ocr_fold(r, acc, (k - 1) as nat) {
            Ok(a) => ocr_step(r, k - 1, a),
            Err(e) => Err(e),
        }
    }
}

/// A layout block that lands on page `page`; tables become CSV.
pub open spec fn layout_block(b: LayoutBlock, page: nat) -> BlockView {
    let kind = block_kind_of(b.block_label@);
    BlockView {
        id: layout_block_id(page, b.block_id as int),
        kind: kind,
        bbox: b.block_bbox,
        content: if kind == BlockKind::Table {
            table_csv(b.block_content@)
        } else {
            b.block_content@
        },
    }
}

pub open spec fn layout_page(raw: LayoutPage, page: nat) -> PageView {
    PageView {
        width: raw.width,
        height: raw.height,
        blocks: raw.parsing_res_list@.map_values(|b: LayoutBlock| layout_block(b, page)),
    }
}

/// The first `k` layout pages of `r`, added in order.
pub open spec fn layout_fold(r: RawResult, acc: Gathered, k: nat) -> Gathered
    decreases k,
{
    if k == 0 {
        acc
    } else {
        let a = layout_fold(r, acc, (k - 1) as nat);
        let raw = r.layout_parsing_results@[k - 1];
        (a.0.push(layout_page(raw, a.0.len())), a.1.push(raw.markdown@))
    }
}

proof fn lemma_ocr_fold_err(r: RawResult, acc: Gathered, k: nat, n: nat)
    requires
        k <= n,
        ocr_fold(r, acc, k) is Err,
    ensures
        ocr_fold(r, acc, n) == ocr_fold(r, acc, k),
    decreases n - k,
{
    if k < n {
        lemma_ocr_fold_err(r, acc, k, (n - 1) as nat);
    }
}

fn ocr_page(raw: &OcrPage, page_index: usize) -> (blocks: Vec<Block>)
    requires
        raw.rec_texts.len() == raw.rec_boxes.len(),
    ensures
        block_views(blocks@) == ocr_blocks(*raw, page_index as nat),
{
    let mut blocks: Vec<Block> = Vec::new();
    let mut j: usize = 0;
    while j < raw.rec_texts.len()
        invariant
            raw.rec_texts.len() == raw.rec_boxes.len(),
            0 <= j <= raw.rec_texts.len(),
            block_views(blocks@) =~= ocr_blocks(*raw, page_index as nat).take(j as int),
        decreases raw.rec_texts.len() - j,
    {
        let b = Block {
            id: text_block_id_exec(page_index, j),
            kind: BlockKind::Text,
            bbox: Some(raw.rec_boxes[j]),
            content: raw.rec_texts[j].clone(),
        };
        let ghost prev = blocks@;
        blocks.push(b);
        assert(block_views(blocks@) =~= block_views(prev).push(b@));
        j = j + 1;
    }
    blocks
}

/// Adds the pages of a PP-OCRv6 record.
fn normalize_ocr(r: &RawResult, pages: &mut Vec<Page>, markdown: &mut Vec<String>) -> (res: Result<(), OcrError>)
    ensures
        match ocr_fold(*r, (page_views(old(pages)@), string_views(old(markdown)@)), r.ocr_results@.len()) {
            Ok(g) => res is Ok && g == (page_views(final(pages)@), string_views(final(markdown)@)),
            Err(e) => res matches Err(x) && x@ == e,
        },
{
    let ghost acc0: Gathered = (page_views(pages@), string_views(markdown@));
    let mut local: usize = 0;
    while local < r.ocr_results.len()
        invariant
            0 <= local <= r.ocr_results.len(),
            acc0 == (page_views(old(pages)@), string_views(old(markdown)@)),
            ocr_fold(*r, acc0, local as nat) == Ok::<Gathered, ErrorView>((page_views(pages@), string_views(markdown@))),
        decreases r.ocr_results.len() - local,
    {
        let raw = &r.ocr_results[local];
        let ghost acc: Gathered = (page_views(pages@), string_views(markdown@));
        if raw.rec_texts.len() != raw.rec_boxes.len() {
            let e = OcrError::Parse(crate::text::owned("PP-OCRv6 text and box counts differ"));
            proof {
                lemma_ocr_fold_err(*r, acc0, (local + 1) as nat, r.ocr_results@.len());
            }
            return Err(e);
        }
        let width = if local < r.data_info.pages.len() {
            Some(r.data_info.pages[local].width)
        } else {
            r.data_info.width
        };
        let height = if local < r.data_info.pages.len() {
            Some(r.data_info.pages[local].height)
        } else {
            r.data_info.height
        };
        let w = match width {
            Some(w) => w,
            None => {
                let e = OcrError::Parse(crate::text::owned("PP-OCRv6 page width is missing"));
                proof {
                    lemma_ocr_fold_err(*r, acc0, (local + 1) as nat, r.ocr_results@.len());
                }
                return Err(e);
            },
        };
        let h = match height {
            Some(h) => h,
            None => {
                let e = OcrError::Parse(crate::text::owned("PP-OCRv6 page height is missing"));
                proof {
                    lemma_ocr_fold_err(*r, acc0, (local + 1) as nat, r.ocr_results@.len());
                }
                return Err(e);
            },
        };
        let page_index = pages.len();
        let blocks = ocr_page(raw, page_index);
        let text = join_strings(&raw.rec_texts, "\n");
        let page = Page { width: w, height: h, blocks: blocks };
        let ghost prev_pages = pages@;
        let ghost prev_md = markdown@;
        pages.push(page);
        markdown.push(string_from_chars(&text));
        assert(page_views(pages@) =~= page_views(prev_pages).push(page@));
        assert(string_views(markdown@) =~= string_views(prev_md).push(text@));
        local = local + 1;
    }
    Ok(())
}

fn layout_blocks(raw: &LayoutPage, page_index: usize) -> (blocks: Vec<Block>)
    ensures
        block_views(blocks@) == raw.parsing_res_list@.map_values(|b: LayoutBlock| layout_block(b, page_index as nat)),
{
    let mut blocks: Vec<Block> = Vec::new();
    let mut j: usize = 0;
    while j < raw.parsing_res_list.len()
        invariant
            0 <= j <= raw.parsing_res_list.len(),
            block_views(blocks@) =~= raw.parsing_res_list@.take(j as int).map_values(
                |b: LayoutBlock| layout_block(b, page_index as nat),
            ),
        decreases raw.parsing_res_list.len() - j,
    {
        let item = &raw.parsing_res_list[j];
        let kind = block_kind(item.block_label.as_str());
        let content = if kind == BlockKind::Table {
            html_table_to_csv(item.block_content.as_str())
        } else {
            item.block_content.clone()
        };
        let b = Block {
            id: layout_block_id_exec(page_index, item.block_id),
            kind: kind,
            bbox: item.block_bbox,
            content: content,
        };
        let ghost prev = blocks@;
        blocks.push(b);
        assert(block_views(blocks@) =~= block_views(prev).push(b@));
        assert(raw.parsing_res_list@.take(j + 1) =~= raw.parsing_res_list@.take(j as int).push(*item));
        j = j + 1;
    }
    assert(raw.parsing_res_list@.take(raw.parsing_res_list.len() as int) =~= raw.parsing_res_list@);
    blocks
}

/// Adds the pages of a layout record (PaddleOCR-VL, PP-StructureV3).
fn normalize_layout(r: &RawResult, pages: &mut Vec<Page>, markdown: &mut Vec<String>)
    ensures
        layout_fold(*r, (page_views(old(pages)@), string_views(old(markdown)@)), r.layout_parsing_results@.len())
            == (page_views(final(pages)@), string_views(final(markdown)@)),
{
    let ghost acc0: Gathered = (page_views(pages@), string_views(markdown@));
    let mut local: usize = 0;
    while local < r.layout_parsing_results.len()
        invariant
            0 <= local <= r.layout_parsing_results.len(),
            layout_fold(*r, acc0, local as nat) == (page_views(pages@), string_views(markdown@)),
        decreases r.layout_parsing_results.len() - local,
    {
        let raw = &r.layout_parsing_results[local];
        let page_index = pages.len();
        let blocks = layout_blocks(raw, page_index);
        let page = Page { width: raw.width, height: raw.height, blocks: blocks };
        let ghost prev_pages = pages@;
        let ghost prev_md = markdown@;
        pages.push(page);
        markdown.push(raw.markdown.clone());
        assert(page_views(pages@) =~= page_views(prev_pages).push(page@));
        assert(string_views(markdown@) =~= string_views(prev_md).push(raw.markdown@));
        local = local + 1;
    }
}

// ---------------------------------------------------------------------------
// Records
// ---------------------------------------------------------------------------

/// Adds one decoded record (or fails on a record that did not decode).
pub open spec fn record_step(service: ServiceId, rec: Result<RawResult, String>, acc: Gathered) -> Result<
    Gathered,
    ErrorView,
> {
    match rec {
        Err(msg) => Err(ErrorView::Parse("invalid JSONL: "@ + msg@)),
        Ok(r) => if service == ServiceId::PpOcrV6 {
            ocr_fold(r, acc, r.ocr_results@.len())
        } else {
            Ok(layout_fold(r, acc, r.layout_parsing_results@.len()))
        },
    }
}

/// The first `k` records, added in order from nothing; the first failure wins.
pub open spec fn records_fold(service: ServiceId, recs: Seq<Result<RawResult, String>>, k: nat) -> Result<
    Gathered,
    ErrorView,
>
    decreases k,
{
    if k == 0 {
        Ok((Seq::empty(), Seq::empty()))
    } else {
        match records_fold(service, recs, (k - 1) as nat) {
            Ok(a) => record_step(service, recs[k - 1], a),
            Err(e) => Err(e),
        }
    }
}

/// The normalised result of a service's records: every page in record order, the
/// markdown sections joined by a blank line; a result without pages is an error.
pub open spec fn normalized(service: ServiceId, recs: Seq<Result<RawResult, String>>) -> Result<
    ResultView,
    ErrorView,
> {
    match records_fold(service, recs, recs.len()) {
        Err(e) => Err(e),
        Ok(g) => if g.0.len() == 0 {
            Err(ErrorView::Parse("response contains no pages"@))
        } else {
            Ok(ResultView { markdown: join(g.1, "\n\n"@), page_count: g.0.len() as u32, pages: g.0 })
        },
    }
}

proof fn lemma_records_fold_err(service: ServiceId, recs: Seq<Result<RawResult, String>>, k: nat, n: nat)
    requires
        k <= n,
        records_fold(service, recs, k) is Err,
    ensures
        records_fold(service, recs, n) == records_fold(service, recs, k),
    decreases n - k,
{
    if k < n {
        lemma_records_fold_err(service, recs, k, (n - 1) as nat);
    }
}

/// Page `p` of a result shows OCR page `i` of record `r` faithfully: its
/// lines' texts and boxes in their order, and the page's own size, else the
/// record's.
pub open spec fn shows_ocr_page(r: RawResult, i: int, p: PageView) -> bool {
    let raw = r.ocr_results@[i];
    &&& p.blocks.map_values(|b: BlockView| b.content) == string_views(raw.rec_texts@)
    &&& p.blocks.map_values(|b: BlockView| b.bbox) == raw.rec_boxes@.map_values(|x: [u32; 4]| Some(x))
    &&& i < r.data_info.pages@.len() ==> p.width == r.data_info.pages@[i].width && p.height
        == r.data_info.pages@[i].height
    &&& i >= r.data_info.pages@.len() ==> Some(p.width) == r.data_info.width && Some(p.height)
        == r.data_info.height
}

proof fn lemma_ocr_fold_pages(r: RawResult, k: nat)
    requires
        k <= r.ocr_results@.len(),
    ensures
        ocr_fold(r, (Seq::empty(), Seq::empty()), k) matches Ok(g) ==> g.0.len() == k && forall|i: int|
            0 <= i < k ==> shows_ocr_page(r, i, #[trigger] g.0[i]),
    decreases k,
{
    if k > 0 {
        lemma_ocr_fold_pages(r, (k - 1) as nat);
        if let Ok(a) = ocr_fold(r, (Seq::empty(), Seq::empty()), (k - 1) as nat) {
            if let Ok(g) = ocr_step(r, k - 1, a) {
                let raw = r.ocr_results@[k - 1];
                let p = g.0[k - 1];
                assert(p.blocks.map_values(|b: BlockView| b.content) =~= string_views(raw.rec_texts@));
                assert(p.blocks.map_values(|b: BlockView| b.bbox) =~= raw.rec_boxes@.map_values(
                    |x: [u32; 4]| Some(x),
                ));
                assert forall|i: int| 0 <= i < k implies shows_ocr_page(r, i, #[trigger] g.0[i]) by {
                    if i < k - 1 {
                        assert(g.0[i] == a.0[i]);
                    }
                }
            }
        }
    }
}

/// A PP-OCRv6 record becomes one result page per OCR page, in order, each
/// with the page's recognised lines (texts and boxes, in order) and the
/// page's size: its own entry in `dataInfo.pages`, else the record's size.
pub proof fn lemma_ocr_pages_are_faithful(r: RawResult)
    ensures
        normalized(ServiceId::PpOcrV6, seq![Ok::<RawResult, String>(r)]) matches Ok(v) ==> v.pages.len()
            == r.ocr_results@.len() && forall|i: int|
            0 <= i < v.pages.len() ==> shows_ocr_page(r, i, #[trigger] v.pages[i]),
{
    let recs = seq![Ok::<RawResult, String>(r)];
    lemma_ocr_fold_pages(r, r.ocr_results@.len());
    assert(records_fold(ServiceId::PpOcrV6, recs, 0) == Ok::<Gathered, ErrorView>((Seq::empty(), Seq::empty())));
    assert(records_fold(ServiceId::PpOcrV6, recs, 1) == record_step(ServiceId::PpOcrV6, recs[0], (Seq::empty(), Seq::empty())));
}

/// The size of each page: its width and its height.
pub open spec fn page_sizes(pages: Seq<PageView>) -> Seq<(u32, u32)> {
    pages.map_values(|p: PageView| (p.width, p.height))
}

/// The sizes that the layout pages of the records give upstream, record by
/// record, page by page: each `prunedResult` width with its height.
pub open spec fn upstream_layout_sizes(recs: Seq<Result<RawResult, String>>) -> Seq<(u32, u32)>
    decreases recs.len(),
{
    if recs.len() == 0 {
        Seq::empty()
    } else {
        upstream_layout_sizes(recs.drop_last()) + match recs.last() {
            Ok(r) => r.layout_parsing_results@.map_values(|p: LayoutPage| (p.width, p.height)),
            Err(_) => Seq::empty(),
        }
    }
}

proof fn lemma_layout_fold_sizes(r: RawResult, acc: Gathered, k: nat)
    requires
        k <= r.layout_parsing_results@.len(),
    ensures
        page_sizes(layout_fold(r, acc, k).0) == page_sizes(acc.0) + r.layout_parsing_results@.take(
            k as int,
        ).map_values(|p: LayoutPage| (p.width, p.height)),
    decreases k,
{
    let f = |p: LayoutPage| (p.width, p.height);
    if k == 0 {
        assert(r.layout_parsing_results@.take(0).map_values(f) =~= Seq::<(u32, u32)>::empty());
        assert(page_sizes(acc.0) + Seq::<(u32, u32)>::empty() =~= page_sizes(acc.0));
    } else {
        lemma_layout_fold_sizes(r, acc, (k - 1) as nat);
        let a = layout_fold(r, acc, (k - 1) as nat);
        let raw = r.layout_parsing_results@[k - 1];
        assert(page_sizes(a.0.push(layout_page(raw, a.0.len()))) =~= page_sizes(a.0).push(
            (raw.width, raw.height),
        ));
        assert(r.layout_parsing_results@.take(k as int).map_values(f) =~= r.layout_parsing_results@.take(
            k - 1,
        ).map_values(f).push((raw.width, raw.height)));
        assert(page_sizes(acc.0) + r.layout_parsing_results@.take(k - 1).map_values(f).push(
            (raw.width, raw.height),
        ) =~= (page_sizes(acc.0) + r.layout_parsing_results@.take(k - 1).map_values(f)).push(
            (raw.width, raw.height),
        ));
    }
}

proof fn lemma_records_fold_sizes(service: ServiceId, recs: Seq<Result<RawResult, String>>, k: nat)
    requires
        service != ServiceId::PpOcrV6,
        k <= recs.len(),
    ensures
        records_fold(service, recs, k) matches Ok(g) ==> page_sizes(g.0) == upstream_layout_sizes(
            recs.take(k as int),
        ),
    decreases k,
{
    if k == 0 {
        assert(page_sizes(Seq::<PageView>::empty()) =~= Seq::<(u32, u32)>::empty());
        assert(recs.take(0) =~= Seq::<Result<RawResult, String>>::empty());
    } else {
        lemma_records_fold_sizes(service, recs, (k - 1) as nat);
        let pre = recs.take(k as int);
        assert(pre.drop_last() =~= recs.take(k - 1));
        assert(pre.last() == recs[k - 1]);
        if let Ok(a) = records_fold(service, recs, (k - 1) as nat) {
            if let Ok(r) = recs[k - 1] {
                let n = r.layout_parsing_results@.len();
                lemma_layout_fold_sizes(r, a, n);
                assert(r.layout_parsing_results@.take(n as int) =~= r.layout_parsing_results@);
            } else {
            }
        }
    }
}

/// Each page that a layout service returns keeps its size: the result's pages,
/// in order, have exactly the widths and heights of the records' layout pages.
pub proof fn lemma_layout_pages_keep_their_size(service: ServiceId, recs: Seq<Result<RawResult, String>>)
    requires
        service != ServiceId::PpOcrV6,
    ensures
        normalized(service, recs) matches Ok(v) ==> page_sizes(v.pages) == upstream_layout_sizes(recs),
{
    lemma_records_fold_sizes(service, recs, recs.len());
    assert(recs.take(recs.len() as int) =~= recs);
}

/// Normalises the decoded records of one result body, in order. Each entry is
/// a decoded record or the message of the decoder that rejected it.
pub fn normalize_records(service: ServiceId, recs: &Vec<Result<RawResult, String>>) -> (res: Result<
    RecognitionResult,
    OcrError,
>)
    ensures
        match normalized(service, recs@) {
            Ok(v) => res matches Ok(x) && x@ == v,
            Err(e) => res matches Err(x) && x@ == e,
        },
{
    let mut pages: Vec<Page> = Vec::new();
    let mut markdown: Vec<String> = Vec::new();
    let mut i: usize = 0;
    assert(page_views(pages@) =~= Seq::<PageView>::empty());
    assert(string_views(markdown@) =~= Seq::<Seq<char>>::empty());
    while i < recs.len()
        invariant
            0 <= i <= recs.len(),
            records_fold(service, recs@, i as nat) == Ok::<Gathered, ErrorView>(
                (page_views(pages@), string_views(markdown@)),
            ),
        decreases recs.len() - i,
    {
        match &recs[i] {
            Err(msg) => {
                let mut m = crate::text::chars_of("invalid JSONL: ");
                push_str(&mut m, msg.as_str());
                let e = OcrError::Parse(string_from_chars(&m));
                proof {
                    lemma_records_fold_err(service, recs@, (i + 1) as nat, recs@.len());
                }
                return Err(e);
            },
            Ok(r) => {
                if service == ServiceId::PpOcrV6 {
                    match normalize_ocr(r, &mut pages, &mut markdown) {
                        Ok(()) => {},
                        Err(e) => {
                            proof {
                                lemma_records_fold_err(service, recs@, (i + 1) as nat, recs@.len());
                            }
                            return Err(e);
                        },
                    }
                } else {
                    normalize_layout(r, &mut pages, &mut markdown);
                }
            },
        }
        i = i + 1;
    }
    if pages.len() == 0 {
        return Err(OcrError::Parse(crate::text::owned("response contains no pages")));
    }
    let md = join_strings(&markdown, "\n\n");
    let count = pages.len() as u32;
    Ok(RecognitionResult { markdown: string_from_chars(&md), page_count: count, pages: pages })
}

} // verus!
