//! The recognition result model shared by the normalizer, the exporter and
//! the task queue, and the error kinds of the OCR pipeline.
//!
//! Coordinates and page sizes arrive from the OCR service as 32-bit floats.
//! The model carries each one as its IEEE-754 bit pattern (`f32::to_bits`),
//! which the library never interprets; the desktop shell turns them back into
//! floats where it renders or serialises a result.
use vstd::prelude::*;

use crate::text::{chars_of, push_all, push_str, string_from_chars};

verus! {

/// The three OCR services of AI Studio.
#[derive(Debug, Clone, Copy, PartialEq, Eq, Hash, Structural)]
pub enum ServiceId {
    Vl16,
    PpOcrV6,
    StructureV3,
}

/// What a recognised block holds.
#[derive(Debug, Clone, Copy, PartialEq, Eq, Hash, Structural)]
pub enum BlockKind {
    Text,
    Table,
    Formula,
    Seal,
    Chart,
}

/// One recognised block.
#[derive(Debug, Clone)]
pub struct Block {
    pub id: String,
    pub kind: BlockKind,
    /// Upstream box `[x0, y0, x1, y1]` in its own coordinate system, as `f32` bit patterns.
    pub bbox: Option<[u32; 4]>,
    /// Text for text blocks, CSV for tables, LaTeX for formulas.
    pub content: String,
}

/// One recognised page; `width` and `height` are `f32` bit patterns.
#[derive(Debug, Clone)]
pub struct Page {
    pub width: u32,
    pub height: u32,
    pub blocks: Vec<Block>,
}

/// The normalised result of one recognition task.
#[derive(Debug, Clone)]
pub struct RecognitionResult {
    pub markdown: String,
    pub page_count: u32,
    pub pages: Vec<Page>,
}

/// Errors of the OCR pipeline.
#[derive(Debug, Clone, PartialEq, Eq)]
pub enum OcrError {
    Auth,
    Quota,
    RateLimited(String),
    InvalidInput(String),
    Network(String),
    Server(String),
    Internal(String),
    Parse(String),
}

pub struct BlockView {
    pub id: Seq<char>,
    pub kind: BlockKind,
    pub bbox: Option<[u32; 4]>,
    pub content: Seq<char>,
}

pub struct PageView {
    pub width: u32,
    pub height: u32,
    pub blocks: Seq<BlockView>,
}

pub struct ResultView {
    pub markdown: Seq<char>,
    pub page_count: u32,
    pub pages: Seq<PageView>,
}

impl View for Block {
    type V = BlockView;

    open spec fn view(&self) -> BlockView {
        BlockView { id: self.id@, kind: self.kind, bbox: self.bbox, content: self.content@ }
    }
}

impl View for Page {
    type V = PageView;

    open spec fn view(&self) -> PageView {
        PageView {
            width: self.width,
            height: self.height,
            blocks: self.blocks@.map_values(|b: Block| b@),
        }
    }
}

impl View for RecognitionResult {
    type V = ResultView;

    open spec fn view(&self) -> ResultView {
        ResultView {
            markdown: self.markdown@,
            page_count: self.page_count,
            pages: self.pages@.map_values(|p: Page| p@),
        }
    }
}

/// The kind of an error and its payload.
pub enum ErrorView {
    Auth,
    Quota,
    RateLimited(Seq<char>),
    InvalidInput(Seq<char>),
    Network(Seq<char>),
    Server(Seq<char>),
    Internal(Seq<char>),
    Parse(Seq<char>),
}

impl View for OcrError {
    type V = ErrorView;

    open spec fn view(&self) -> ErrorView {
        match self {
            OcrError::Auth => ErrorView::Auth,
            OcrError::Quota => ErrorView::Quota,
            OcrError::RateLimited(m) => ErrorView::RateLimited(m@),
            OcrError::InvalidInput(m) => ErrorView::InvalidInput(m@),
            OcrError::Network(m) => ErrorView::Network(m@),
            OcrError::Server(m) => ErrorView::Server(m@),
            OcrError::Internal(m) => ErrorView::Internal(m@),
            OcrError::Parse(m) => ErrorView::Parse(m@),
        }
    }
}

/// The human-readable text of an error.
pub open spec fn error_text(e: ErrorView) -> Seq<char> {
    match e {
        ErrorView::Auth => "authentication failed"@,
        ErrorView::Quota => "daily quota exhausted"@,
        ErrorView::RateLimited(m) => "rate limited: "@ + m,
        ErrorView::InvalidInput(m) => "invalid input: "@ + m,
        ErrorView::Network(m) => "network error: "@ + m,
        ErrorView::Server(m) => "server error: "@ + m,
        ErrorView::Internal(m) => "internal error: "@ + m,
        ErrorView::Parse(m) => "response parse failed: "@ + m,
    }
}

fn prefixed(prefix: &str, detail: &String) -> (out: String)
    ensures
        out@ == prefix@ + detail@,
{
    let mut v = chars_of(prefix);
    push_str(&mut v, detail.as_str());
    string_from_chars(&v)
}

impl OcrError {
    /// The human-readable text of the error.
    pub fn message(&self) -> (out: String)
        ensures
            out@ == error_text(self@),
    {
        match self {
            OcrError::Auth => crate::text::owned("authentication failed"),
            OcrError::Quota => crate::text::owned("daily quota exhausted"),
            OcrError::RateLimited(m) => prefixed("rate limited: ", m),
            OcrError::InvalidInput(m) => prefixed("invalid input: ", m),
            OcrError::Network(m) => prefixed("network error: ", m),
            OcrError::Server(m) => prefixed("server error: ", m),
            OcrError::Internal(m) => prefixed("internal error: ", m),
            OcrError::Parse(m) => prefixed("response parse failed: ", m),
        }
    }
}

/// The name under which a service is stored and selected in the settings.
pub open spec fn service_name_of(service: ServiceId) -> Seq<char> {
    match service {
        ServiceId::Vl16 => "vl16"@,
        ServiceId::PpOcrV6 => "pp_ocr_v6"@,
        ServiceId::StructureV3 => "structure_v3"@,
    }
}

pub fn service_name(service: ServiceId) -> (name: &'static str)
    ensures
        name@ == service_name_of(service),
{
    match service {
        ServiceId::Vl16 => "vl16",
        ServiceId::PpOcrV6 => "pp_ocr_v6",
        ServiceId::StructureV3 => "structure_v3",
    }
}

/// The service that a stored name denotes, if any.
pub fn service_from_name(name: &str) -> (service: Option<ServiceId>)
    ensures
        match service {
            Some(s) => service_name_of(s) == name@,
            None => forall|s: ServiceId| service_name_of(s) != name@,
        },
{
    let v = chars_of(name);
    if crate::text::eq_lit(&v, "vl16") {
        Some(ServiceId::Vl16)
    } else if crate::text::eq_lit(&v, "pp_ocr_v6") {
        Some(ServiceId::PpOcrV6)
    } else if crate::text::eq_lit(&v, "structure_v3") {
        Some(ServiceId::StructureV3)
    } else {
        None
    }
}

/// Reading back the stored name of a service gives that service.
pub proof fn lemma_service_name_roundtrip(service: ServiceId)
    ensures
        forall|other: ServiceId| service_name_of(other) == service_name_of(service) ==> other == service,
{
    reveal_strlit("vl16");
    reveal_strlit("pp_ocr_v6");
    reveal_strlit("structure_v3");
    assert forall|other: ServiceId| service_name_of(other) == service_name_of(service) implies other == service by {
        if other != service {
            assert(service_name_of(other).len() != service_name_of(service).len()
                || service_name_of(other)[0] != service_name_of(service)[0]
                || service_name_of(other)[1] != service_name_of(service)[1]);
        }
    }
}

/// The stored kind of an error.
pub open spec fn error_kind_of(e: ErrorView) -> Seq<char> {
    match e {
        ErrorView::Auth => "auth"@,
        ErrorView::Quota => "quota"@,
        ErrorView::RateLimited(_) => "rate_limited"@,
        ErrorView::InvalidInput(_) => "invalid_input"@,
        ErrorView::Network(_) => "network"@,
        ErrorView::Server(_) => "server"@,
        ErrorView::Internal(_) => "internal"@,
        ErrorView::Parse(_) => "parse"@,
    }
}

/// The kind and the text under which a failed task keeps its error.
pub fn error_fields(error: &OcrError) -> (fields: (&'static str, String))
    ensures
        fields.0@ == error_kind_of(error@),
        fields.1@ == error_text(error@),
{
    let kind = match error {
        OcrError::Auth => "auth",
        OcrError::Quota => "quota",
        OcrError::RateLimited(_) => "rate_limited",
        OcrError::InvalidInput(_) => "invalid_input",
        OcrError::Network(_) => "network",
        OcrError::Server(_) => "server",
        OcrError::Internal(_) => "internal",
        OcrError::Parse(_) => "parse",
    };
    (kind, error.message())
}

} // verus!
