//! Export of a recognition result as Markdown, plain text, JSON or CSV.
use vstd::prelude::*;
use vstd::string::StrSliceExecFns;
use vstd::utf8::encode_utf8;

use crate::model::{Block, BlockKind, BlockView, Page, PageView, RecognitionResult};
use crate::normalize::{block_views, page_views};
use crate::text::{chars_of, eq_lit, join, join_chars, push_str, seq_eq, string_from_chars, views_of};

verus! {

/// The bytes of an export, or the request to serialise the whole result as
/// pretty-printed JSON (which the shell does with its JSON encoder).
pub enum ExportOutput {
    Bytes(Vec<u8>),
    PrettyJson,
}

/// Every block of every page, in page order.
pub open spec fn all_blocks(pages: Seq<PageView>) -> Seq<BlockView>
    decreases pages.len(),
{
    if pages.len() == 0 {
        Seq::empty()
    } else {
        all_blocks(pages.drop_last()) + pages.last().blocks
    }
}

/// The contents of the text blocks, in order.
pub open spec fn text_parts(blocks: Seq<BlockView>) -> Seq<Seq<char>>
    decreases blocks.len(),
{
    if blocks.len() == 0 {
        Seq::empty()
    } else if blocks.last().kind == BlockKind::Text {
        text_parts(blocks.drop_last()).push(blocks.last().content)
    } else {
        text_parts(blocks.drop_last())
    }
}

/// The blocks that an export walks are the pages' blocks flattened in
/// document order: pages in order, each page's blocks in their own order.
pub proof fn lemma_blocks_in_document_order(pages: Seq<PageView>)
    ensures
        all_blocks(pages) == pages.map_values(|p: PageView| p.blocks).flatten(),
    decreases pages.len(),
{
    let lists = pages.map_values(|p: PageView| p.blocks);
    if pages.len() > 0 {
        lemma_blocks_in_document_order(pages.drop_last());
        assert(pages.drop_last().map_values(|p: PageView| p.blocks) =~= lists.drop_last());
        lists.drop_last().lemma_flatten_and_flatten_alt_are_equivalent();
        lists.lemma_flatten_and_flatten_alt_are_equivalent();
        assert(lists.flatten_alt() == lists.drop_last().flatten_alt() + lists.last());
    } else {
        assert(lists =~= Seq::<Seq<BlockView>>::empty());
        assert(lists.flatten() =~= Seq::<BlockView>::empty());
    }
}

/// The text of an export is the content of its text blocks, in their order:
/// the blocks kept by a filter on the kind, none reordered.
pub proof fn lemma_text_parts_keep_order(blocks: Seq<BlockView>)
    ensures
        text_parts(blocks) == blocks.filter(|b: BlockView| b.kind == BlockKind::Text).map_values(
            |b: BlockView| b.content,
        ),
    decreases blocks.len(),
{
    reveal(Seq::filter);
    if blocks.len() > 0 {
        lemma_text_parts_keep_order(blocks.drop_last());
        let f = |b: BlockView| b.kind == BlockKind::Text;
        let g = |b: BlockView| b.content;
        if blocks.last().kind == BlockKind::Text {
            assert(blocks.filter(f) == blocks.drop_last().filter(f).push(blocks.last()));
            assert(blocks.filter(f).map_values(g) =~= blocks.drop_last().filter(f).map_values(g).push(
                blocks.last().content,
            ));
        } else {
            assert(blocks.filter(f) == blocks.drop_last().filter(f));
        }
    } else {
        assert(blocks.filter(|b: BlockView| b.kind == BlockKind::Text) =~= Seq::<BlockView>::empty());
    }
}

pub open spec fn is_table_block(b: BlockView, id: Seq<char>) -> bool {
    b.id == id && b.kind == BlockKind::Table
}

/// The UTF-8 byte order mark that spreadsheet programs expect in a CSV file.
pub open spec fn bom() -> Seq<u8> {
    seq![0xEFu8, 0xBBu8, 0xBFu8]
}

fn copy_block(b: &Block) -> (c: Block)
    ensures
        c@ == b@,
{
    Block { id: b.id.clone(), kind: b.kind, bbox: b.bbox, content: b.content.clone() }
}

/// Copies every block of every page, in page order.
fn flat_blocks(pages: &Vec<Page>) -> (out: Vec<Block>)
    ensures
        block_views(out@) == all_blocks(page_views(pages@)),
{
    let mut out: Vec<Block> = Vec::new();
    let mut i: usize = 0;
    while i < pages.len()
        invariant
            0 <= i <= pages.len(),
            block_views(out@) == all_blocks(page_views(pages@.take(i as int))),
        decreases pages.len() - i,
    {
        let page = &pages[i];
        let ghost start = out@;
        let mut j: usize = 0;
        while j < page.blocks.len()
            invariant
                0 <= j <= page.blocks.len(),
                block_views(out@) =~= block_views(start) + block_views(page.blocks@.take(j as int)),
            decreases page.blocks.len() - j,
        {
            let c = copy_block(&page.blocks[j]);
            let ghost prev = out@;
            out.push(c);
            assert(block_views(out@) =~= block_views(prev).push(c@));
            assert(page.blocks@.take(j + 1) =~= page.blocks@.take(j as int).push(page.blocks@[j as int]));
            j = j + 1;
        }
        assert(page.blocks@.take(page.blocks.len() as int) =~= page.blocks@);
        assert(page_views(pages@.take(i + 1)).drop_last() =~= page_views(pages@.take(i as int)));
        assert(page_views(pages@.take(i + 1)).last() == page@);
        i = i + 1;
    }
    assert(pages@.take(pages.len() as int) =~= pages@);
    out
}

proof fn lemma_formats_distinct()
    ensures
        "md"@ != "json"@,
        "md"@ != "txt"@,
        "md"@ != "csv"@,
        "json"@ != "txt"@,
        "json"@ != "csv"@,
        "txt"@ != "csv"@,
{
    reveal_strlit("md");
    reveal_strlit("json");
    reveal_strlit("txt");
    reveal_strlit("csv");
    assert("md"@.len() == 2);
    assert("json"@.len() == 4);
    assert("txt"@.len() == 3);
    assert("csv"@.len() == 3);
    assert("txt"@[0] != "csv"@[0]);
}

/// Exports a result. `md` gives its Markdown, `txt` its text blocks separated by
/// blank lines, `json` the whole result, and `csv` the table block `block_id`
/// behind a byte order mark.
pub fn export(result: &RecognitionResult, format: &str, block_id: Option<&str>) -> (r: Result<ExportOutput, String>)
    ensures
        format@ == "md"@ ==> (r matches Ok(ExportOutput::Bytes(b)) && b@ == encode_utf8(result@.markdown)),
        format@ == "json"@ ==> (r matches Ok(ExportOutput::PrettyJson)),
        format@ == "txt"@ ==> (r matches Ok(ExportOutput::Bytes(b)) && b@ == encode_utf8(
            join(text_parts(all_blocks(result@.pages)), "\n\n"@),
        )),
        format@ == "csv"@ ==> match block_id {
            None => r matches Err(m) && m@ == "CSV export requires block_id"@,
            Some(id) => {
                let blocks = all_blocks(result@.pages);
                if exists|i: int| 0 <= i < blocks.len() && is_table_block(blocks[i], id@) {
                    r matches Ok(ExportOutput::Bytes(b)) && exists|i: int|
                        0 <= i < blocks.len() && is_table_block(blocks[i], id@) && (forall|k: int|
                            0 <= k < i ==> !is_table_block(blocks[k], id@)) && b@ == bom()
                            + encode_utf8(blocks[i].content)
                } else {
                    r matches Err(m) && m@ == "table block not found"@
                }
            },
        },
        format@ != "md"@ && format@ != "json"@ && format@ != "txt"@ && format@ != "csv"@ ==> (r matches Err(m)
            && m@ == "unsupported export format: "@ + format@),
{
    proof {
        lemma_formats_distinct();
    }
    let f = chars_of(format);
    if eq_lit(&f, "md") {
        return Ok(ExportOutput::Bytes(result.markdown.as_str().as_bytes_vec()));
    }
    if eq_lit(&f, "json") {
        return Ok(ExportOutput::PrettyJson);
    }
    if eq_lit(&f, "txt") {
        let blocks = flat_blocks(&result.pages);
        let ghost bv = block_views(blocks@);
        let mut parts: Vec<Vec<char>> = Vec::new();
        let mut i: usize = 0;
        while i < blocks.len()
            invariant
                0 <= i <= blocks.len(),
                bv == block_views(blocks@),
                views_of(parts@) == text_parts(bv.take(i as int)),
            decreases blocks.len() - i,
        {
            assert(bv.take(i + 1).drop_last() =~= bv.take(i as int));
            if blocks[i].kind == BlockKind::Text {
                let c = chars_of(blocks[i].content.as_str());
                let ghost prev = parts@;
                parts.push(c);
                assert(views_of(parts@) =~= views_of(prev).push(c@));
            }
            i = i + 1;
        }
        assert(bv.take(blocks.len() as int) =~= bv);
        let text = join_chars(&parts, "\n\n");
        let s = string_from_chars(&text);
        return Ok(ExportOutput::Bytes(s.as_str().as_bytes_vec()));
    }
    if eq_lit(&f, "csv") {
        let id = match block_id {
            Some(id) => id,
            None => return Err(crate::text::owned("CSV export requires block_id")),
        };
        let idv = chars_of(id);
        let blocks = flat_blocks(&result.pages);
        let ghost bv = block_views(blocks@);
        let mut i: usize = 0;
        let mut found = false;
        while i < blocks.len()
            invariant_except_break
                0 <= i <= blocks.len(),
                !found,
                bv == block_views(blocks@),
                idv@ == id@,
                forall|k: int| 0 <= k < i ==> !is_table_block(bv[k], id@),
            ensures
                0 <= i <= blocks.len(),
                bv == block_views(blocks@),
                forall|k: int| 0 <= k < i ==> !is_table_block(bv[k], id@),
                found ==> i < blocks.len() && is_table_block(bv[i as int], id@),
                !found ==> i == blocks.len(),
            decreases blocks.len() - i,
        {
            let bid = chars_of(blocks[i].id.as_str());
            if blocks[i].kind == BlockKind::Table && seq_eq(&bid, &idv) {
                found = true;
                break;
            }
            i = i + 1;
        }
        if !found {
            return Err(crate::text::owned("table block not found"));
        }
        let mut out: Vec<u8> = Vec::new();
        out.push(0xEF);
        out.push(0xBB);
        out.push(0xBF);
        let mut content = blocks[i].content.as_str().as_bytes_vec();
        out.append(&mut content);
        assert(out@ =~= bom() + encode_utf8(bv[i as int].content));
        return Ok(ExportOutput::Bytes(out));
    }
    let mut m = chars_of("unsupported export format: ");
    push_str(&mut m, format);
    Err(string_from_chars(&m))
}

} // verus!
