//! The decisions of the AI Studio job client: request paths, page ranges of
//! large PDFs, the mapping of failures to error kinds, the reading of job
//! replies, and the checkpoint of submitted jobs.
//!
//! The shell performs the HTTP exchanges and hands each reply to the
//! functions here.
use vstd::prelude::*;

use crate::model::{ErrorView, OcrError, Page, PageView, RecognitionResult, ResultView, ServiceId};
use crate::normalize::page_views;
use crate::text::{
    chars_of, contains_char, contains_seq, decimal, decimal_u64, digits_value, eq_lit, lower_seq,
    occurs_at, parse_i64, parse_i64_spec, parse_unsigned, parse_unsigned_exec, push_all, push_str,
    replace_all, replace_chars, string_from_chars, to_ascii_lower,
};

verus! {

pub const BASE_URL: &'static str = "https://paddleocr.aistudio-app.com";

pub const JOBS_PATH: &'static str = "/api/v2/ocr/jobs";

/// Pages per submitted job.
pub const SEGMENT_SIZE: usize = 100;

/// How requests reach the service.
#[derive(Clone, Debug, PartialEq, Eq)]
pub enum ProxyConfig {
    System,
    Custom(String),
    Direct,
}

/// A client of one AI Studio OCR service. `T` yields the access token and `P`
/// the proxy configuration, each read when a parse starts.
pub struct PaddleOcr<T, P> {
    service: ServiceId,
    base_url: String,
    token: T,
    proxy: P,
    poll_interval_ms: u64,
}

impl<T, P> PaddleOcr<T, P> {
    pub closed spec fn spec_service(&self) -> ServiceId {
        self.service
    }

    pub closed spec fn spec_base_url(&self) -> Seq<char> {
        self.base_url@
    }

    pub closed spec fn spec_poll_interval_ms(&self) -> u64 {
        self.poll_interval_ms
    }

    pub closed spec fn spec_token(&self) -> T {
        self.token
    }

    pub closed spec fn spec_proxy(&self) -> P {
        self.proxy
    }

    /// A client of the public AI Studio endpoint that polls every five seconds.
    pub fn new(service: ServiceId, token: T, proxy: P) -> (client: Self)
        ensures
            client.spec_service() == service,
            client.spec_base_url() == BASE_URL@,
            client.spec_poll_interval_ms() == 5000,
            client.spec_token() == token,
            client.spec_proxy() == proxy,
    {
        PaddleOcr {
            service,
            base_url: crate::text::owned(BASE_URL),
            token,
            proxy,
            poll_interval_ms: 5000,
        }
    }

    /// A client of another endpoint with another polling interval.
    pub fn with_endpoint(service: ServiceId, token: T, proxy: P, base_url: String, poll_interval_ms: u64) -> (client: Self)
        ensures
            client.spec_service() == service,
            client.spec_base_url() == base_url@,
            client.spec_poll_interval_ms() == poll_interval_ms,
            client.spec_token() == token,
            client.spec_proxy() == proxy,
    {
        PaddleOcr { service, base_url, token, proxy, poll_interval_ms }
    }

    pub fn id(&self) -> (s: ServiceId)
        ensures
            s == self.spec_service(),
    {
        self.service
    }

    pub fn base_url(&self) -> (u: &String)
        ensures
            u@ == self.spec_base_url(),
    {
        &self.base_url
    }

    pub fn poll_interval_ms(&self) -> (ms: u64)
        ensures
            ms == self.spec_poll_interval_ms(),
    {
        self.poll_interval_ms
    }

    pub fn token_provider(&self) -> (t: &T)
        ensures
            *t == self.spec_token(),
    {
        &self.token
    }

    pub fn proxy_provider(&self) -> (p: &P)
        ensures
            *p == self.spec_proxy(),
    {
        &self.proxy
    }
}

// ---------------------------------------------------------------------------
// Names and paths
// ---------------------------------------------------------------------------

/// The model name that a job for `service` is submitted under.
pub open spec fn model_name_of(service: ServiceId) -> Seq<char> {
    match service {
        ServiceId::Vl16 => "PaddleOCR-VL-1.6"@,
        ServiceId::PpOcrV6 => "PP-OCRv6"@,
        ServiceId::StructureV3 => "PP-StructureV3"@,
    }
}

pub fn model_name(service: ServiceId) -> (name: &'static str)
    ensures
        name@ == model_name_of(service),
{
    match service {
        ServiceId::Vl16 => "PaddleOCR-VL-1.6",
        ServiceId::PpOcrV6 => "PP-OCRv6",
        ServiceId::StructureV3 => "PP-StructureV3",
    }
}

/// The `optionalPayload` form field of a job: every optional pre-processing
/// stage switched off, as compact JSON with sorted keys.
pub open spec fn optional_payload_of(service: ServiceId) -> Seq<char> {
    match service {
        ServiceId::PpOcrV6 => "{\"useDocOrientationClassify\":false,\"useDocUnwarping\":false,\"useTextlineOrientation\":false}"@,
        _ => "{\"useChartRecognition\":false,\"useDocOrientationClassify\":false,\"useDocUnwarping\":false}"@,
    }
}

pub fn optional_payload(service: ServiceId) -> (payload: &'static str)
    ensures
        payload@ == optional_payload_of(service),
{
    match service {
        ServiceId::PpOcrV6 => "{\"useDocOrientationClassify\":false,\"useDocUnwarping\":false,\"useTextlineOrientation\":false}",
        ServiceId::Vl16 | ServiceId::StructureV3 => "{\"useChartRecognition\":false,\"useDocOrientationClassify\":false,\"useDocUnwarping\":false}",
    }
}

/// `str::trim_end_matches('/')`.
pub open spec fn trim_slashes(s: Seq<char>) -> Seq<char>
    decreases s.len(),
{
    if s.len() > 0 && s.last() == '/' {
        trim_slashes(s.drop_last())
    } else {
        s
    }
}

fn trim_slashes_exec(s: &str) -> (out: Vec<char>)
    ensures
        out@ == trim_slashes(s@),
{
    let mut v = chars_of(s);
    while v.len() > 0 && v[v.len() - 1] == '/'
        invariant
            trim_slashes(v@) == trim_slashes(s@),
        decreases v.len(),
    {
        let ghost before = v@;
        v.pop();
        assert(v@ =~= before.drop_last());
    }
    v
}

/// The jobs endpoint below `base_url`.
pub open spec fn jobs_url_of(base_url: Seq<char>) -> Seq<char> {
    trim_slashes(base_url) + JOBS_PATH@
}

/// The endpoint of one job below `base_url`.
pub open spec fn job_url_of(base_url: Seq<char>, job_id: Seq<char>) -> Seq<char> {
    trim_slashes(base_url) + JOBS_PATH@ + "/"@ + job_id
}

/// The endpoint that a token probe asks for.
pub open spec fn probe_url_of(base_url: Seq<char>) -> Seq<char> {
    trim_slashes(base_url) + JOBS_PATH@ + "/paddledesk-token-validation"@
}

pub fn jobs_url(base_url: &str) -> (url: String)
    ensures
        url@ == jobs_url_of(base_url@),
{
    let mut v = trim_slashes_exec(base_url);
    push_str(&mut v, JOBS_PATH);
    string_from_chars(&v)
}

pub fn job_url(base_url: &str, job_id: &str) -> (url: String)
    ensures
        url@ == job_url_of(base_url@, job_id@),
{
    let mut v = trim_slashes_exec(base_url);
    push_str(&mut v, JOBS_PATH);
    push_str(&mut v, "/");
    push_str(&mut v, job_id);
    string_from_chars(&v)
}

pub fn probe_url(base_url: &str) -> (url: String)
    ensures
        url@ == probe_url_of(base_url@),
{
    let mut v = trim_slashes_exec(base_url);
    push_str(&mut v, JOBS_PATH);
    push_str(&mut v, "/paddledesk-token-validation");
    string_from_chars(&v)
}

// ---------------------------------------------------------------------------
// Page ranges of large PDFs
// ---------------------------------------------------------------------------

/// One submitted unit of a document: a page range of a PDF (none for an image)
/// and the number of pages in it.
pub struct Segment {
    pub range: Option<String>,
    pub pages: u32,
}

/// The label of pages `start..=end`.
pub open spec fn range_label(start: nat, end: nat) -> Seq<char> {
    if start == end {
        decimal(start)
    } else {
        decimal(start) + "-"@ + decimal(end)
    }
}

/// Number of segments of a PDF with `n` pages.
pub open spec fn segment_count(n: nat) -> nat {
    ((n + 99) / 100) as nat
}

/// Pages in the `k`-th segment of a PDF with `n` pages.
pub open spec fn segment_pages(n: nat, k: nat) -> nat {
    if n - 100 * k >= 100 {
        100
    } else {
        (n - 100 * k) as nat
    }
}

/// The `k`-th page range of a PDF with `n` pages, 1-based and inclusive.
pub open spec fn page_range(n: nat, k: nat) -> Seq<char> {
    range_label(100 * k + 1, 100 * k + segment_pages(n, k))
}

/// The page ranges of a PDF with `n` pages: consecutive runs of 100 pages, the
/// last one shorter.
pub open spec fn page_ranges_of(n: nat) -> Seq<Seq<char>> {
    Seq::new(segment_count(n), |k: int| page_range(n, k as nat))
}

fn range_label_exec(start: usize, end: usize) -> (label: String)
    ensures
        label@ == range_label(start as nat, end as nat),
{
    let mut v = decimal_u64(start as u64);
    if start != end {
        push_str(&mut v, "-");
        let e = decimal_u64(end as u64);
        push_all(&mut v, &e);
    }
    string_from_chars(&v)
}

/// The page ranges to submit for a PDF with `page_count` pages.
pub fn page_ranges(page_count: usize) -> (ranges: Vec<String>)
    ensures
        crate::text::string_views(ranges@) == page_ranges_of(page_count as nat),
{
    let mut out: Vec<String> = Vec::new();
    if page_count == 0 {
        assert(crate::text::string_views(out@) =~= page_ranges_of(0));
        return out;
    }
    let mut start: usize = 1;
    loop
        invariant
            1 <= start <= page_count,
            start == 100 * out.len() + 1,
            crate::text::string_views(out@) =~= page_ranges_of(page_count as nat).take(out.len() as int),
            out.len() < segment_count(page_count as nat),
        ensures
            crate::text::string_views(out@) =~= page_ranges_of(page_count as nat),
        decreases page_count - start,
    {
        let end = if page_count - start >= 99 {
            start + 99
        } else {
            page_count
        };
        let label = range_label_exec(start, end);
        let ghost k = out.len();
        assert(page_range(page_count as nat, k as nat) == label@);
        let ghost prev = out@;
        out.push(label);
        assert(crate::text::string_views(out@) =~= crate::text::string_views(prev).push(label@));
        if page_count - start < 100 {
            assert(out.len() == segment_count(page_count as nat));
            return out;
        }
        start = start + 100;
    }
}

/// A document is a PDF when its file extension is `pdf` in any ASCII case.
pub fn is_pdf_extension(extension: Option<&str>) -> (r: bool)
    ensures
        r == match extension {
            Some(e) => lower_seq(e@) == "pdf"@,
            None => false,
        },
{
    match extension {
        Some(e) => eq_lit(&to_ascii_lower(&chars_of(e)), "pdf"),
        None => false,
    }
}

/// The segments of a document: one for an image (`pdf_pages` is `None`), or
/// one per page range of a PDF with that many pages.
pub open spec fn segments_of(pdf_pages: Option<nat>) -> Result<Seq<(Option<Seq<char>>, nat)>, ErrorView> {
    match pdf_pages {
        None => Ok(seq![(None, 1nat)]),
        Some(n) => if n == 0 {
            Err(ErrorView::InvalidInput("PDF contains no pages"@))
        } else {
            Ok(
                Seq::new(
                    segment_count(n),
                    |k: int| (Some(page_range(n, k as nat)), segment_pages(n, k as nat)),
                ),
            )
        },
    }
}

pub open spec fn segment_views(s: Seq<Segment>) -> Seq<(Option<Seq<char>>, nat)> {
    s.map_values(
        |x: Segment|
            (
                match x.range {
                    Some(r) => Some(r@),
                    None => None,
                },
                x.pages as nat,
            ),
    )
}

/// The segments to submit for a document.
pub fn segments_for(pdf_pages: Option<usize>) -> (res: Result<Vec<Segment>, OcrError>)
    ensures
        match segments_of(
            match pdf_pages {
                Some(n) => Some(n as nat),
                None => None,
            },
        ) {
            Ok(v) => res matches Ok(x) && segment_views(x@) == v,
            Err(e) => res matches Err(x) && x@ == e,
        },
{
    match pdf_pages {
        None => {
            let mut v: Vec<Segment> = Vec::new();
            v.push(Segment { range: None, pages: 1 });
            assert(segment_views(v@)[0] == (None::<Seq<char>>, 1nat));
            assert(segment_views(v@) =~= seq![(None::<Seq<char>>, 1nat)]);
            Ok(v)
        },
        Some(n) => {
            if n == 0 {
                return Err(OcrError::InvalidInput(crate::text::owned("PDF contains no pages")));
            }
            let ranges = page_ranges(n);
            assert(ranges@.len() == crate::text::string_views(ranges@).len());
            let mut v: Vec<Segment> = Vec::new();
            let mut k: usize = 0;
            while k < ranges.len()
                invariant
                    0 <= k <= ranges.len(),
                    n > 0,
                    crate::text::string_views(ranges@) == page_ranges_of(n as nat),
                    ranges.len() == segment_count(n as nat),
                    segment_views(v@) =~= segments_of(Some(n as nat))->Ok_0.take(k as int),
                decreases ranges.len() - k,
            {
                let ghost segs = segments_of(Some(n as nat))->Ok_0;
                assert(ranges@[k as int]@ == crate::text::string_views(ranges@)[k as int]);
                assert(100 * k < n) by (nonlinear_arith)
                    requires
                        k < (n + 99) / 100,
                ;
                let rest = n - 100 * k;
                let pages: u32 = if rest >= 100 {
                    100
                } else {
                    rest as u32
                };
                let seg = Segment { range: Some(ranges[k].clone()), pages };
                let ghost prev = v@;
                v.push(seg);
                assert(segment_views(v@) =~= segment_views(prev).push(
                    (Some(ranges@[k as int]@), pages as nat),
                ));
                assert(segs[k as int] == (Some(ranges@[k as int]@), pages as nat));
                assert(segs.take(k + 1) =~= segs.take(k as int).push(segs[k as int]));
                k = k + 1;
            }
            Ok(v)
        },
    }
}

/// Pages across all segments.
pub open spec fn total_pages(s: Seq<(Option<Seq<char>>, nat)>) -> nat
    decreases s.len(),
{
    if s.len() == 0 {
        0
    } else {
        total_pages(s.drop_last()) + s.last().1
    }
}

proof fn lemma_total_pages_prefix(n: nat, k: nat)
    requires
        n > 0,
        k <= segment_count(n),
    ensures
        total_pages(segments_of(Some(n))->Ok_0.take(k as int)) == if 100 * k <= n {
            100 * k
        } else {
            n
        },
    decreases k,
{
    let segs = segments_of(Some(n))->Ok_0;
    if k > 0 {
        lemma_total_pages_prefix(n, (k - 1) as nat);
        assert(segs.take(k as int).drop_last() =~= segs.take(k - 1));
        assert(100 * (k - 1) < n) by (nonlinear_arith)
            requires
                k <= (n + 99) / 100,
                k > 0,
        ;
    } else {
        assert(segs.take(0) =~= Seq::<(Option<Seq<char>>, nat)>::empty());
    }
}

/// The segments of a PDF cover each of its pages once: their page counts add up
/// to the page count of the document.
pub proof fn lemma_segments_cover_every_page(n: nat)
    requires
        n > 0,
    ensures
        segments_of(Some(n)) is Ok,
        total_pages(segments_of(Some(n))->Ok_0) == n,
{
    let segs = segments_of(Some(n))->Ok_0;
    lemma_total_pages_prefix(n, segment_count(n));
    assert(segs.take(segment_count(n) as int) =~= segs);
    assert(100 * segment_count(n) >= n) by (nonlinear_arith);
}

// ---------------------------------------------------------------------------
// Checkpoint of submitted jobs and aggregation of segment results
// ---------------------------------------------------------------------------

/// The job ids after recording `id` for segment `index`: the list is padded with
/// empty ids up to `index` first.
pub open spec fn with_job_id(ids: Seq<Seq<char>>, index: nat, id: Seq<char>) -> Seq<Seq<char>> {
    let padded = if ids.len() <= index {
        ids + Seq::new((index + 1 - ids.len()) as nat, |i: int| Seq::<char>::empty())
    } else {
        ids
    };
    padded.update(index as int, id)
}

/// Recording a job for segment `index` makes it the job stored for that
/// segment, grows the list just enough to hold it, and leaves the jobs of the
/// other segments as they were.
pub proof fn lemma_checkpoint_read_back(ids: Seq<Seq<char>>, index: nat, id: Seq<char>)
    ensures
        with_job_id(ids, index, id)[index as int] == id,
        with_job_id(ids, index, id).len() == if ids.len() <= index {
            index + 1
        } else {
            ids.len()
        },
        forall|j: int|
            0 <= j < ids.len() && j != index ==> #[trigger] with_job_id(ids, index, id)[j] == ids[j],
{
}

/// Records the job submitted for segment `index` in the checkpoint list.
pub fn save_job_id(job_ids: &mut Vec<String>, index: usize, job_id: String)
    requires
        index < usize::MAX,
    ensures
        crate::text::string_views(final(job_ids)@) == with_job_id(
            crate::text::string_views(old(job_ids)@),
            index as nat,
            job_id@,
        ),
{
    let ghost old_ids = crate::text::string_views(job_ids@);
    let ghost padded = if old_ids.len() <= index {
        old_ids + Seq::new((index + 1 - old_ids.len()) as nat, |i: int| Seq::<char>::empty())
    } else {
        old_ids
    };
    while job_ids.len() <= index
        invariant
            old_ids == crate::text::string_views(old(job_ids)@),
            old_ids.len() <= job_ids.len(),
            old_ids.len() <= index ==> padded == old_ids + Seq::new(
                (index + 1 - old_ids.len()) as nat,
                |i: int| Seq::<char>::empty(),
            ),
            old_ids.len() <= index ==> job_ids.len() <= index + 1,
            old_ids.len() <= index ==> crate::text::string_views(job_ids@) =~= padded.take(job_ids.len() as int),
            old_ids.len() > index ==> job_ids@ == old(job_ids)@,
            index < usize::MAX,
        decreases index + 1 - job_ids.len(),
    {
        let ghost prev = job_ids@;
        job_ids.push(String::new());
        assert(crate::text::string_views(job_ids@) =~= crate::text::string_views(prev).push(Seq::<char>::empty()));
        proof {
            if old_ids.len() <= index {
                assert(padded.len() == index + 1);
                assert(padded[prev.len() as int] == Seq::<char>::empty());
                assert(padded.take(job_ids.len() as int) =~= padded.take(prev.len() as int).push(padded[prev.len() as int]));
            }
        }
    }
    proof {
        if old_ids.len() <= index {
            assert(padded.take(job_ids.len() as int) =~= padded);
        }
    }
    let ghost before = job_ids@;
    assert(old_ids.len() <= index ==> job_ids.len() == index + 1);
    job_ids.set(index, job_id);
    assert(crate::text::string_views(job_ids@) =~= crate::text::string_views(before).update(index as int, job_id@));
}

/// The job recorded for segment `index`, when one is.
pub fn checkpoint_job_id(job_ids: &Vec<String>, index: usize) -> (id: Option<String>)
    ensures
        match id {
            Some(x) => index < job_ids.len() && x@ == job_ids@[index as int]@ && x@.len() > 0,
            None => index >= job_ids.len() || job_ids@[index as int]@.len() == 0,
        },
{
    if index < job_ids.len() && !job_ids[index].as_str().is_empty() {
        Some(job_ids[index].clone())
    } else {
        None
    }
}

/// The markdown of two consecutive results: separated by a blank line when both
/// are non-empty.
pub open spec fn appended_markdown(a: Seq<char>, b: Seq<char>) -> Seq<char> {
    if b.len() == 0 {
        a
    } else if a.len() == 0 {
        b
    } else {
        a + "\n\n"@ + b
    }
}

/// Appends the result of one segment to the aggregate of a document.
pub fn append_result(aggregate: &mut RecognitionResult, result: RecognitionResult)
    ensures
        final(aggregate)@.markdown == appended_markdown(old(aggregate)@.markdown, result@.markdown),
        final(aggregate)@.pages == old(aggregate)@.pages + result@.pages,
        final(aggregate)@.page_count == old(aggregate)@.page_count,
{
    let mut result = result;
    let ghost res0 = result@;
    if !result.markdown.as_str().is_empty() {
        let mut md = chars_of(aggregate.markdown.as_str());
        if md.len() > 0 {
            push_str(&mut md, "\n\n");
        }
        push_str(&mut md, result.markdown.as_str());
        aggregate.markdown = string_from_chars(&md);
    }
    let ghost before = aggregate.pages@;
    aggregate.pages.append(&mut result.pages);
    assert(page_views(aggregate.pages@) =~= page_views(before) + res0.pages);
}

// ---------------------------------------------------------------------------
// Failures
// ---------------------------------------------------------------------------

/// The error kind of a failed request, from the service's error code when it has
/// one of the documented ones, else from the HTTP status.
pub open spec fn failure_kind(status: u16, code: Option<i64>, detail: Seq<char>) -> ErrorView {
    match code {
        Some(c) if c == 12001 => ErrorView::Quota,
        Some(c) if c == 12002 || c == 10010 => ErrorView::RateLimited(detail),
        Some(c) if 10001 <= c <= 10009 => ErrorView::InvalidInput(detail),
        Some(c) if 11001 <= c <= 11003 => ErrorView::Parse(detail),
        _ => if status == 401 || status == 403 {
            ErrorView::Auth
        } else if status == 429 {
            ErrorView::RateLimited(detail)
        } else if status == 400 || status == 413 || status == 422 {
            ErrorView::InvalidInput(detail)
        } else {
            ErrorView::Server(detail)
        },
    }
}

/// Maps a failed request to an error.
pub fn map_failure(status: u16, code: Option<i64>, detail: String) -> (e: OcrError)
    ensures
        e@ == failure_kind(status, code, detail@),
{
    match code {
        Some(12001) => return OcrError::Quota,
        Some(12002) | Some(10010) => return OcrError::RateLimited(detail),
        Some(c) => {
            if 10001 <= c && c <= 10009 {
                return OcrError::InvalidInput(detail);
            }
            if 11001 <= c && c <= 11003 {
                return OcrError::Parse(detail);
            }
        },
        None => {},
    }
    if status == 401 || status == 403 {
        OcrError::Auth
    } else if status == 429 {
        OcrError::RateLimited(detail)
    } else if status == 400 || status == 413 || status == 422 {
        OcrError::InvalidInput(detail)
    } else {
        OcrError::Server(detail)
    }
}

/// `value` with every occurrence of a non-empty token replaced by `[redacted]`.
pub open spec fn redacted(value: Seq<char>, token: Seq<char>) -> Seq<char> {
    if token.len() == 0 {
        value
    } else {
        replace_all(value, token, "[redacted]"@)
    }
}

/// Removes the access token from text that may reach the user.
pub fn redact(value: String, token: &str) -> (out: String)
    ensures
        out@ == redacted(value@, token@),
{
    if token.is_empty() {
        return value;
    }
    let v = chars_of(value.as_str());
    let t = chars_of(token);
    let r = chars_of("[redacted]");
    let out = replace_chars(&v, &t, &r);
    string_from_chars(&out)
}

/// A window of a redacted text that holds no `[` lies before the first
/// replacement, so the text had the same characters there.
proof fn lemma_redacted_prefix(s: Seq<char>, token: Seq<char>, k: int)
    requires
        token.len() > 0,
        0 <= k <= replace_all(s, token, "[redacted]"@).len(),
        !contains_char(replace_all(s, token, "[redacted]"@).take(k), '['),
    ensures
        k <= s.len(),
        s.take(k) == replace_all(s, token, "[redacted]"@).take(k),
    decreases s.len(),
{
    let r = "[redacted]"@;
    reveal_strlit("[redacted]");
    let out = replace_all(s, token, r);
    if k > 0 && s.len() > 0 {
        if token.len() <= s.len() && s.take(token.len() as int) == token {
            assert(out[0] == '[');
            assert(out.take(k)[0] == '[');
        } else {
            let s1 = s.drop_first();
            let out1 = replace_all(s1, token, r);
            assert(out == seq![s[0]] + out1);
            assert forall|j: int| 0 <= j < k - 1 implies #[trigger] out1.take(k - 1)[j] != '[' by {
                assert(out1.take(k - 1)[j] == out.take(k)[j + 1]);
            }
            lemma_redacted_prefix(s1, token, k - 1);
            assert(s.take(k) =~= seq![s[0]] + s1.take(k - 1));
            assert(out.take(k) =~= seq![s[0]] + out1.take(k - 1));
        }
    } else if k > 0 {
        assert(out.len() == 0);
    } else {
        assert(s.take(0) =~= out.take(0));
    }
}

/// A token that holds no bracket and is no piece of the word `redacted`
/// never occurs in text redacted of it.
pub proof fn lemma_redaction_hides_token(value: Seq<char>, token: Seq<char>)
    requires
        token.len() > 0,
        !contains_char(token, '['),
        !contains_char(token, ']'),
        !contains_seq("redacted"@, token),
    ensures
        !contains_seq(redacted(value, token), token),
    decreases value.len(),
{
    let r = "[redacted]"@;
    reveal_strlit("[redacted]");
    reveal_strlit("redacted");
    let out = replace_all(value, token, r);
    assert(redacted(value, token) == out);
    if value.len() == 0 {
        assert(out.len() == 0);
        assert forall|i: int| !occurs_at(out, token, i) by {}
    } else if token.len() <= value.len() && value.take(token.len() as int) == token {
        let rest = value.skip(token.len() as int);
        lemma_redaction_hides_token(rest, token);
        let out1 = replace_all(rest, token, r);
        assert(out == r + out1);
        assert forall|i: int| !occurs_at(out, token, i) by {
            if occurs_at(out, token, i) {
                let n = token.len() as int;
                if i + n <= 9 {
                    if i == 0 {
                        assert(token[0] == out[0]);
                    }
                    assert(1 <= i);
                    assert("redacted"@.subrange(i - 1, i - 1 + n) =~= token) by {
                        assert forall|j: int| 0 <= j < n implies #[trigger] "redacted"@.subrange(
                            i - 1,
                            i - 1 + n,
                        )[j] == token[j] by {
                            assert(token[j] == out.subrange(i, i + n)[j]);
                            assert(out[i + j] == r[i + j]);
                        }
                    }
                    assert(occurs_at("redacted"@, token, i - 1));
                } else if i < 10 {
                    assert(out[9] == ']');
                    assert(token[9 - i] == out.subrange(i, i + n)[9 - i]);
                } else {
                    assert(out.subrange(i, i + n) =~= out1.subrange(i - 10, i - 10 + n));
                    assert(occurs_at(out1, token, i - 10));
                }
            }
        }
    } else {
        let s1 = value.drop_first();
        lemma_redaction_hides_token(s1, token);
        let out1 = replace_all(s1, token, r);
        assert(out == seq![value[0]] + out1);
        assert forall|i: int| !occurs_at(out, token, i) by {
            if occurs_at(out, token, i) {
                let n = token.len() as int;
                if i == 0 {
                    assert(out.take(n) =~= token);
                    assert forall|j: int| 0 <= j < n implies #[trigger] out.take(n)[j] != '[' by {
                        assert(out.take(n)[j] == token[j]);
                    }
                    lemma_redacted_prefix(value, token, n);
                } else {
                    assert(out.subrange(i, i + n) =~= out1.subrange(i - 1, i - 1 + n));
                    assert(occurs_at(out1, token, i - 1));
                }
            }
        }
    }
}

/// A failed API request: the service's error code, when the reply carried one,
/// and the error it maps to.
pub struct ApiFailure {
    pub code: Option<i64>,
    pub error: OcrError,
}

// ---------------------------------------------------------------------------
// Replies
// ---------------------------------------------------------------------------

/// A scalar node of a JSON reply, as the shell read it: a non-negative integer,
/// a negative integer, a string, or anything else.
#[derive(Clone, Debug, PartialEq, Eq)]
pub enum JsonScalar {
    Unsigned(u64),
    Negative(i64),
    Text(String),
    Other,
}

/// `serde_json::Value::as_i64`, else the string parsed as `i64`.
pub open spec fn integer_of(v: Option<JsonScalar>) -> Option<int> {
    match v {
        Some(JsonScalar::Unsigned(n)) => if n <= i64::MAX {
            Some(n as int)
        } else {
            None
        },
        Some(JsonScalar::Negative(n)) => Some(n as int),
        Some(JsonScalar::Text(s)) => parse_i64_spec(s@),
        _ => None,
    }
}

/// `serde_json::Value::as_u64` narrowed to `u32`, else the string parsed as `u32`.
pub open spec fn number_of(v: JsonScalar) -> Option<nat> {
    match v {
        JsonScalar::Unsigned(n) => if n <= u32::MAX {
            Some(n as nat)
        } else {
            None
        },
        JsonScalar::Text(s) => parse_unsigned(s@, u32::MAX as nat),
        _ => None,
    }
}

/// Reads an integer error code.
pub fn integer(value: Option<&JsonScalar>) -> (r: Option<i64>)
    ensures
        match integer_of(
            match value {
                Some(v) => Some(*v),
                None => None,
            },
        ) {
            Some(n) => r == Some(n as i64),
            None => r is None,
        },
{
    match value {
        Some(JsonScalar::Unsigned(n)) => if *n <= 0x7fff_ffff_ffff_ffff {
            Some(*n as i64)
        } else {
            None
        },
        Some(JsonScalar::Negative(n)) => Some(*n),
        Some(JsonScalar::Text(s)) => parse_i64(&chars_of(s.as_str())),
        _ => None,
    }
}

/// Reads a page count.
pub fn number(value: &JsonScalar) -> (r: Option<u32>)
    ensures
        match number_of(*value) {
            Some(n) => r == Some(n as u32),
            None => r is None,
        },
{
    match value {
        JsonScalar::Unsigned(n) => if *n <= 0xffff_ffff {
            Some(*n as u32)
        } else {
            None
        },
        JsonScalar::Text(s) => match parse_unsigned_exec(&chars_of(s.as_str()), 0xffff_ffff) {
            Some(v) => Some(v as u32),
            None => None,
        },
        _ => None,
    }
}

/// The parts of an API reply that the client reads: `code`, `data.errorMsg`,
/// `msg`, and whether `data` is present.
pub struct ApiReply {
    pub code: Option<JsonScalar>,
    pub data_error_msg: Option<JsonScalar>,
    pub msg: Option<JsonScalar>,
    pub has_data: bool,
}

pub open spec fn text_of(v: Option<JsonScalar>) -> Option<Seq<char>> {
    match v {
        Some(JsonScalar::Text(s)) => Some(s@),
        _ => None,
    }
}

/// The service's own failure message: `data.errorMsg`, else `msg`, when it is a
/// non-empty string.
pub open spec fn response_detail_of(reply: ApiReply) -> Option<Seq<char>> {
    let m = match text_of(reply.data_error_msg) {
        Some(s) => Some(s),
        None => text_of(reply.msg),
    };
    match m {
        Some(s) => if s.len() > 0 {
            Some(s)
        } else {
            None
        },
        None => None,
    }
}

pub fn response_detail(reply: &ApiReply) -> (r: Option<String>)
    ensures
        match response_detail_of(*reply) {
            Some(s) => r matches Some(x) && x@ == s,
            None => r is None,
        },
{
    let m: Option<&String> = match &reply.data_error_msg {
        Some(JsonScalar::Text(s)) => Some(s),
        _ => match &reply.msg {
            Some(JsonScalar::Text(s)) => Some(s),
            _ => None,
        },
    };
    match m {
        Some(s) => if s.as_str().is_empty() {
            None
        } else {
            Some(s.clone())
        },
        None => None,
    }
}

pub open spec fn is_success(status: u16) -> bool {
    200 <= status <= 299
}

/// What a reply means: its error code when the request succeeded (the shell then
/// decodes `data`), or the failure.
pub open spec fn api_outcome(status: u16, body: Seq<char>, token: Seq<char>, parsed: Result<ApiReply, String>) -> Result<
    Option<int>,
    (Option<int>, ErrorView),
> {
    match parsed {
        Err(e) => if is_success(status) {
            Err((None, ErrorView::Parse("invalid API response: "@ + e@)))
        } else {
            Err((None, failure_kind(status, None, redacted(body, token))))
        },
        Ok(reply) => {
            let code = integer_of(reply.code);
            if !is_success(status) || (code is Some && code->0 != 0) {
                let detail = match response_detail_of(reply) {
                    Some(d) => redacted(d, token),
                    None => redacted(body, token),
                };
                Err((code, failure_kind(status, match code {
                    Some(c) => Some(c as i64),
                    None => None,
                }, detail)))
            } else if !reply.has_data {
                Err((code, ErrorView::Parse("API response is missing data"@)))
            } else {
                Ok(code)
            }
        },
    }
}

/// A documented error code decides the error kind whatever the HTTP status:
/// quota exhausted, rate limited, invalid input or an unusable job.
pub proof fn lemma_documented_codes_decide(s1: u16, s2: u16, c: i64, detail: Seq<char>)
    requires
        c == 12001 || c == 12002 || c == 10010 || (10001 <= c <= 10009) || (11001 <= c <= 11003),
    ensures
        failure_kind(s1, Some(c), detail) == failure_kind(s2, Some(c), detail),
        c == 12001 ==> failure_kind(s1, Some(c), detail) is Quota,
        c == 12002 || c == 10010 ==> failure_kind(s1, Some(c), detail) == ErrorView::RateLimited(detail),
        10001 <= c <= 10009 ==> failure_kind(s1, Some(c), detail) == ErrorView::InvalidInput(detail),
        11001 <= c <= 11003 ==> failure_kind(s1, Some(c), detail) == ErrorView::Parse(detail),
{
}

/// A reply that carries a non-zero error code is a failure, whatever the HTTP
/// status, and fails with that code and the error that the code maps to.
pub proof fn lemma_error_code_fails(status: u16, body: Seq<char>, token: Seq<char>, reply: ApiReply)
    requires
        integer_of(reply.code) is Some,
        integer_of(reply.code)->0 != 0,
    ensures
        ({
            let c = integer_of(reply.code)->0;
            api_outcome(status, body, token, Ok::<ApiReply, String>(reply)) matches Err((code, e))
                && code == Some(c) && exists|detail: Seq<char>|
                #[trigger] failure_kind(status, Some(c as i64), detail) == e
        }),
{
    let c = integer_of(reply.code)->0;
    let detail = match response_detail_of(reply) {
        Some(d) => redacted(d, token),
        None => redacted(body, token),
    };
    assert(failure_kind(status, Some(c as i64), detail) == failure_kind(status, Some(c as i64), detail));
}

/// A successful HTTP reply whose code is absent or zero and that carries
/// `data` succeeds with that code; a failed HTTP status always fails.
pub proof fn lemma_success_needs_status_and_code(
    status: u16,
    body: Seq<char>,
    token: Seq<char>,
    parsed: Result<ApiReply, String>,
)
    ensures
        !is_success(status) ==> api_outcome(status, body, token, parsed) is Err,
        parsed matches Ok(reply) ==> (is_success(status) && reply.has_data && (integer_of(reply.code)
            is None || integer_of(reply.code) == Some(0int)) ==> api_outcome(status, body, token, parsed)
            == Ok::<Option<int>, (Option<int>, ErrorView)>(integer_of(reply.code))),
{
}

pub open spec fn failure_view(f: ApiFailure) -> (Option<int>, ErrorView) {
    (
        match f.code {
            Some(c) => Some(c as int),
            None => None,
        },
        f.error@,
    )
}

/// Interprets an API reply: `status` and `body` as received, `parsed` what the
/// shell read from the body as JSON (or the JSON error).
pub fn api_result(status: u16, body: String, token: &str, parsed: Result<ApiReply, String>) -> (r: Result<
    Option<i64>,
    ApiFailure,
>)
    ensures
        match api_outcome(status, body@, token@, parsed) {
            Ok(code) => r matches Ok(c) && code == match c {
                Some(x) => Some(x as int),
                None => None::<int>,
            },
            Err(f) => r matches Err(x) && failure_view(x) == f,
        },
{
    let success = 200 <= status && status <= 299;
    match parsed {
        Err(e) => {
            if success {
                let mut m = chars_of("invalid API response: ");
                push_str(&mut m, e.as_str());
                Err(ApiFailure { code: None, error: OcrError::Parse(string_from_chars(&m)) })
            } else {
                Err(ApiFailure { code: None, error: map_failure(status, None, redact(body, token)) })
            }
        },
        Ok(reply) => {
            let code = integer(reply.code.as_ref());
            let failed_code = match code {
                Some(c) => c != 0,
                None => false,
            };
            if !success || failed_code {
                let detail = match response_detail(&reply) {
                    Some(d) => redact(d, token),
                    None => redact(body, token),
                };
                Err(ApiFailure { code, error: map_failure(status, code, detail) })
            } else if !reply.has_data {
                Err(
                    ApiFailure {
                        code,
                        error: OcrError::Parse(crate::text::owned("API response is missing data")),
                    },
                )
            } else {
                Ok(code)
            }
        },
    }
}

/// A result download: the body on success, else the failure of its status.
pub fn download_result(status: u16, body: String) -> (r: Result<String, OcrError>)
    ensures
        is_success(status) ==> (r matches Ok(b) && b@ == body@),
        !is_success(status) ==> (r matches Err(e) && e@ == failure_kind(status, None, body@)),
{
    if 200 <= status && status <= 299 {
        Ok(body)
    } else {
        Err(map_failure(status, None, body))
    }
}

/// Whether a token probe found the token valid: a reply, or the code for an
/// unknown job, means it is; an authentication failure means it is not.
pub fn probe_result(reply: Result<(), ApiFailure>) -> (r: Result<bool, OcrError>)
    ensures
        match reply {
            Ok(()) => r == Ok::<bool, OcrError>(true),
            Err(f) => if f.code == Some(11001i64) {
                r == Ok::<bool, OcrError>(true)
            } else if f.error is Auth {
                r == Ok::<bool, OcrError>(false)
            } else {
                r matches Err(e) && e@ == f.error@
            },
        },
{
    match reply {
        Ok(()) => Ok(true),
        Err(f) => {
            if f.code == Some(11001i64) {
                Ok(true)
            } else {
                match f.error {
                    OcrError::Auth => Ok(false),
                    e => Err(e),
                }
            }
        },
    }
}

// ---------------------------------------------------------------------------
// Polling a job
// ---------------------------------------------------------------------------

/// The fields of a job-status reply that the client reads.
pub struct PollReply {
    pub state: String,
    pub extracted_pages: Option<JsonScalar>,
    pub json_url: Option<String>,
    pub error_msg: Option<String>,
}

/// What to do after one status request of a job.
pub enum PollStep {
    /// Ask again after the polling interval.
    Wait,
    /// Report this many pages done, then ask again after the polling interval.
    Progress(u32),
    /// The job is done; its result is at this URL.
    Done(String),
    /// The job expired upstream and must be submitted again.
    Expired,
    /// The job cannot succeed.
    Failed(OcrError),
}

/// Reads one status reply of a job whose earlier segments hold
/// `completed_pages` pages.
pub fn poll_step(reply: Result<PollReply, ApiFailure>, completed_pages: u32) -> (step: PollStep)
    ensures
        match reply {
            Err(f) => if f.code == Some(11002i64) {
                step is Expired
            } else {
                step matches PollStep::Failed(e) && e@ == f.error@
            },
            Ok(r) => if r.state@ == "pending"@ {
                step is Wait
            } else if r.state@ == "running"@ {
                match r.extracted_pages {
                    Some(v) => match number_of(v) {
                        Some(n) => step == PollStep::Progress(
                            if completed_pages + n > u32::MAX {
                                u32::MAX
                            } else {
                                (completed_pages + n) as u32
                            },
                        ),
                        None => step is Wait,
                    },
                    None => step is Wait,
                }
            } else if r.state@ == "done"@ {
                match r.json_url {
                    Some(u) => step matches PollStep::Done(x) && x@ == u@,
                    None => step matches PollStep::Failed(e) && e@ == ErrorView::Parse(
                        "completed job is missing resultUrl.jsonUrl"@,
                    ),
                }
            } else if r.state@ == "failed"@ {
                step matches PollStep::Failed(e) && e@ == ErrorView::Parse(
                    match r.error_msg {
                        Some(m) => m@,
                        None => "upstream OCR job failed"@,
                    },
                )
            } else {
                step matches PollStep::Failed(e) && e@ == ErrorView::Parse(
                    "unknown upstream job state: "@ + r.state@,
                )
            },
        },
{
    match reply {
        Err(f) => {
            if f.code == Some(11002i64) {
                PollStep::Expired
            } else {
                PollStep::Failed(f.error)
            }
        },
        Ok(r) => {
            let state = chars_of(r.state.as_str());
            if crate::text::eq_lit(&state, "pending") {
                PollStep::Wait
            } else if crate::text::eq_lit(&state, "running") {
                match &r.extracted_pages {
                    Some(v) => match number(v) {
                        Some(n) => PollStep::Progress(completed_pages.saturating_add(n)),
                        None => PollStep::Wait,
                    },
                    None => PollStep::Wait,
                }
            } else if crate::text::eq_lit(&state, "done") {
                match r.json_url {
                    Some(u) => PollStep::Done(u),
                    None => PollStep::Failed(
                        OcrError::Parse(crate::text::owned("completed job is missing resultUrl.jsonUrl")),
                    ),
                }
            } else if crate::text::eq_lit(&state, "failed") {
                match r.error_msg {
                    Some(m) => PollStep::Failed(OcrError::Parse(m)),
                    None => PollStep::Failed(
                        OcrError::Parse(crate::text::owned("upstream OCR job failed")),
                    ),
                }
            } else {
                let mut m = chars_of("unknown upstream job state: ");
                push_all(&mut m, &state);
                PollStep::Failed(OcrError::Parse(string_from_chars(&m)))
            }
        },
    }
}

/// An access token that is empty after trimming cannot authenticate.
pub fn check_token(token: &str) -> (r: Result<(), OcrError>)
    ensures
        r is Ok <==> crate::text::trim(token@).len() > 0,
        r matches Err(e) ==> e is Auth,
{
    let t = crate::text::trim_chars(&chars_of(token));
    if t.len() == 0 {
        Err(OcrError::Auth)
    } else {
        Ok(())
    }
}

// ---------------------------------------------------------------------------
// A parse run: the segments of one document, submitted, polled, downloaded
// and aggregated in order
// ---------------------------------------------------------------------------

/// What the shell must do next for a parse run.
pub enum ParseAction {
    /// Submit a job for the current segment (answer with `Submitted`).
    Submit { range: Option<String> },
    /// Persist the job ids of the run (answer with `Saved`).
    SaveCheckpoint { job_ids: Vec<String> },
    /// Poll the job until it settles (answer with `Polled`); progress inside the
    /// job counts from `completed_pages` of `total_pages`.
    Poll { job_id: String, completed_pages: u32, total_pages: u32 },
    /// Download and normalise the job's result (answer with `Downloaded`).
    Download { url: String },
    /// Report the pages done so far (answer with `Reported`).
    Report { page: u32, total: u32 },
    /// The run is over.
    Finish(Result<RecognitionResult, OcrError>),
}

/// How polling a job ended.
pub enum PollOutcome {
    Ready(String),
    Expired,
    Failed(OcrError),
}

/// The shell's answer to the last action.
pub enum ParseEvent {
    Submitted(Result<String, OcrError>),
    Saved(Result<(), OcrError>),
    Polled(PollOutcome),
    Downloaded(Result<RecognitionResult, OcrError>),
    Reported,
}

/// The answer that a run waits for.
#[derive(Clone, Copy, PartialEq, Eq, Structural)]
pub enum Awaiting {
    Submitted,
    Saved,
    Polled,
    Downloaded,
    Reported,
    Nothing,
}

/// The state of a parse run.
pub struct ParseRun {
    segments: Vec<Segment>,
    total_pages: u32,
    job_ids: Vec<String>,
    index: usize,
    completed_pages: u32,
    pending_job: Option<String>,
    aggregate: RecognitionResult,
    awaiting: Awaiting,
}

pub open spec fn segment_range(s: Segment) -> Option<Seq<char>> {
    match s.range {
        Some(r) => Some(r@),
        None => None,
    }
}

/// Pages of the first `k` segments.
pub open spec fn pages_before(segments: Seq<Segment>, k: int) -> nat
    decreases k,
{
    if k <= 0 {
        0
    } else {
        pages_before(segments, k - 1) + segments[k - 1].pages as nat
    }
}

proof fn lemma_pages_before_mono(segments: Seq<Segment>, a: int, b: int)
    requires
        0 <= a <= b <= segments.len(),
    ensures
        pages_before(segments, a) <= pages_before(segments, b),
    decreases b - a,
{
    if a < b {
        lemma_pages_before_mono(segments, a, b - 1);
    }
}

impl ParseRun {
    pub closed spec fn segments(&self) -> Seq<Segment> {
        self.segments@
    }

    pub closed spec fn total(&self) -> u32 {
        self.total_pages
    }

    pub closed spec fn job_ids(&self) -> Seq<Seq<char>> {
        crate::text::string_views(self.job_ids@)
    }

    pub closed spec fn index(&self) -> nat {
        self.index as nat
    }

    pub closed spec fn completed(&self) -> u32 {
        self.completed_pages
    }

    /// The job submitted last and not yet recorded in the checkpoint.
    pub closed spec fn pending_job(&self) -> Option<Seq<char>> {
        match self.pending_job {
            Some(j) => Some(j@),
            None => None,
        }
    }

    pub closed spec fn aggregate(&self) -> ResultView {
        self.aggregate@
    }

    pub closed spec fn awaiting(&self) -> Awaiting {
        self.awaiting
    }

    pub closed spec fn wf(&self) -> bool {
        &&& self.index <= self.segments@.len()
        &&& self.awaiting != Awaiting::Nothing ==> self.index < self.segments@.len()
        &&& self.total_pages == pages_before(self.segments@, self.segments@.len() as int)
        &&& self.completed_pages == pages_before(
            self.segments@,
            if self.awaiting == Awaiting::Reported {
                self.index + 1
            } else {
                self.index as int
            },
        )
        &&& self.awaiting == Awaiting::Saved <==> self.pending_job is Some
        &&& self.aggregate.page_count == 0
        &&& self.job_ids@.len() < usize::MAX
        &&& self.segments@.len() < usize::MAX
    }

    /// The action that starts segment `index` (or ends the run after the last):
    /// a job recorded for the segment is polled again, otherwise a job is
    /// submitted.
    fn begin_segment(&mut self) -> (a: ParseAction)
        requires
            old(self).index <= old(self).segments@.len(),
            old(self).total_pages == pages_before(old(self).segments@, old(self).segments@.len() as int),
            old(self).completed_pages == pages_before(old(self).segments@, old(self).index as int),
            old(self).pending_job is None,
            old(self).aggregate.page_count == 0,
            old(self).job_ids@.len() < usize::MAX,
            old(self).segments@.len() < usize::MAX,
        ensures
            final(self).wf(),
            final(self).segments() == old(self).segments(),
            final(self).total() == old(self).total(),
            final(self).job_ids() == old(self).job_ids(),
            final(self).index() == old(self).index(),
            final(self).completed() == old(self).completed(),
            final(self).pending_job() is None,
            final(self).begins_segment(*old(self), a),
    {
        if self.index == self.segments.len() {
            self.awaiting = Awaiting::Nothing;
            let mut pages: Vec<Page> = Vec::new();
            std::mem::swap(&mut pages, &mut self.aggregate.pages);
            let mut markdown = String::new();
            std::mem::swap(&mut markdown, &mut self.aggregate.markdown);
            let count = pages.len() as u32;
            return ParseAction::Finish(Ok(RecognitionResult { markdown, page_count: count, pages }));
        }
        match checkpoint_job_id(&self.job_ids, self.index) {
            Some(id) => {
                self.awaiting = Awaiting::Polled;
                ParseAction::Poll {
                    job_id: id,
                    completed_pages: self.completed_pages,
                    total_pages: self.total_pages,
                }
            },
            None => {
                self.awaiting = Awaiting::Submitted;
                let range = match &self.segments[self.index].range {
                    Some(r) => Some(r.clone()),
                    None => None,
                };
                ParseAction::Submit { range }
            },
        }
    }

    /// `a` starts segment `old.index()` of `old`, leaving `self` in the matching
    /// state.
    pub closed spec fn begins_segment(&self, old: ParseRun, a: ParseAction) -> bool {
        segment_start(
            old.segments@,
            crate::text::string_views(old.job_ids@),
            old.index as nat,
            old.completed_pages,
            old.total_pages,
            old.aggregate@,
            self.awaiting,
            self.aggregate@,
            a,
        )
    }

    /// Starts a run over the segments of a document, resuming the jobs recorded
    /// in `job_ids` (one per segment, empty when none).
    pub fn start(segments: Vec<Segment>, job_ids: Vec<String>) -> (r: (ParseRun, ParseAction))
        requires
            pages_before(segments@, segments@.len() as int) <= u32::MAX,
            job_ids@.len() < usize::MAX,
            segments@.len() < usize::MAX,
        ensures
            r.0.wf(),
            r.0.segments() == segments@,
            r.0.total() == pages_before(segments@, segments@.len() as int),
            r.0.job_ids() == crate::text::string_views(job_ids@),
            r.0.index() == 0,
            r.0.completed() == 0,
            r.0.pending_job() is None,
            segment_start(
                segments@,
                crate::text::string_views(job_ids@),
                0,
                0,
                pages_before(segments@, segments@.len() as int) as u32,
                ResultView { markdown: Seq::empty(), page_count: 0, pages: Seq::empty() },
                r.0.awaiting(),
                r.0.aggregate(),
                r.1,
            ),
    {
        let mut total: u32 = 0;
        let mut i: usize = 0;
        while i < segments.len()
            invariant
                0 <= i <= segments.len(),
                total == pages_before(segments@, i as int),
                pages_before(segments@, segments@.len() as int) <= u32::MAX,
            decreases segments.len() - i,
        {
            proof {
                lemma_pages_before_mono(segments@, i + 1, segments@.len() as int);
            }
            total = total + segments[i].pages;
            i = i + 1;
        }
        let aggregate = RecognitionResult { markdown: String::new(), page_count: 0, pages: Vec::new() };
        assert(aggregate@.pages =~= Seq::<PageView>::empty());
        let mut run = ParseRun {
            segments,
            total_pages: total,
            job_ids,
            index: 0,
            completed_pages: 0,
            pending_job: None,
            aggregate,
            awaiting: Awaiting::Nothing,
        };
        let a = run.begin_segment();
        (run, a)
    }

    /// Whether `e` answers the action that the run waits on.
    pub open spec fn answers(&self, e: ParseEvent) -> bool {
        match e {
            ParseEvent::Submitted(_) => self.awaiting() == Awaiting::Submitted,
            ParseEvent::Saved(_) => self.awaiting() == Awaiting::Saved,
            ParseEvent::Polled(_) => self.awaiting() == Awaiting::Polled,
            ParseEvent::Downloaded(_) => self.awaiting() == Awaiting::Downloaded,
            ParseEvent::Reported => self.awaiting() == Awaiting::Reported,
        }
    }

    /// Advances the run on the shell's answer to the last action.
    pub fn step(&mut self, event: ParseEvent) -> (a: ParseAction)
        requires
            old(self).wf(),
            old(self).answers(event),
        ensures
            final(self).wf(),
            final(self).segments() == old(self).segments(),
            final(self).total() == old(self).total(),
            match event {
                ParseEvent::Submitted(Ok(id)) => {
                    let ids = with_job_id(old(self).job_ids(), old(self).index(), id@);
                    &&& final(self).job_ids() == ids
                    &&& final(self).pending_job() == Some(id@)
                    &&& final(self).awaiting() == Awaiting::Saved
                    &&& final(self).index() == old(self).index()
                    &&& final(self).completed() == old(self).completed()
                    &&& final(self).aggregate() == old(self).aggregate()
                    &&& a matches ParseAction::SaveCheckpoint { job_ids } && crate::text::string_views(job_ids@)
                        == ids
                },
                ParseEvent::Saved(Ok(())) => {
                    &&& final(self).job_ids() == old(self).job_ids()
                    &&& final(self).pending_job() is None
                    &&& final(self).awaiting() == Awaiting::Polled
                    &&& final(self).index() == old(self).index()
                    &&& final(self).completed() == old(self).completed()
                    &&& final(self).aggregate() == old(self).aggregate()
                    &&& a matches ParseAction::Poll { job_id, completed_pages, total_pages } && Some(job_id@)
                        == old(self).pending_job() && completed_pages == old(self).completed()
                        && total_pages == old(self).total()
                },
                ParseEvent::Polled(PollOutcome::Ready(url)) => {
                    &&& final(self).job_ids() == old(self).job_ids()
                    &&& final(self).awaiting() == Awaiting::Downloaded
                    &&& final(self).index() == old(self).index()
                    &&& final(self).completed() == old(self).completed()
                    &&& final(self).aggregate() == old(self).aggregate()
                    &&& a matches ParseAction::Download { url: u } && u@ == url@
                },
                ParseEvent::Polled(PollOutcome::Expired) => {
                    &&& final(self).job_ids() == old(self).job_ids()
                    &&& final(self).awaiting() == Awaiting::Submitted
                    &&& final(self).index() == old(self).index()
                    &&& final(self).completed() == old(self).completed()
                    &&& final(self).aggregate() == old(self).aggregate()
                    &&& a matches ParseAction::Submit { range } && match range {
                        Some(r) => segment_range(old(self).segments()[old(self).index() as int]) == Some(r@),
                        None => segment_range(old(self).segments()[old(self).index() as int]) is None,
                    }
                },
                ParseEvent::Downloaded(Ok(result)) => {
                    let done = old(self).completed() + old(self).segments()[old(self).index() as int].pages;
                    &&& final(self).job_ids() == old(self).job_ids()
                    &&& final(self).awaiting() == Awaiting::Reported
                    &&& final(self).index() == old(self).index()
                    &&& final(self).completed() == done
                    &&& final(self).aggregate().markdown == appended_markdown(
                        old(self).aggregate().markdown,
                        result@.markdown,
                    )
                    &&& final(self).aggregate().pages == old(self).aggregate().pages + result@.pages
                    &&& a matches ParseAction::Report { page, total } && page == done && total
                        == old(self).total()
                },
                ParseEvent::Reported => {
                    &&& final(self).job_ids() == old(self).job_ids()
                    &&& final(self).index() == old(self).index() + 1
                    &&& final(self).completed() == old(self).completed()
                    &&& segment_start(
                        old(self).segments(),
                        old(self).job_ids(),
                        old(self).index() + 1,
                        old(self).completed(),
                        old(self).total(),
                        old(self).aggregate(),
                        final(self).awaiting(),
                        final(self).aggregate(),
                        a,
                    )
                },
                ParseEvent::Submitted(Err(e)) | ParseEvent::Saved(Err(e)) | ParseEvent::Polled(
                    PollOutcome::Failed(e),
                )
                | ParseEvent::Downloaded(Err(e)) => {
                    &&& final(self).awaiting() == Awaiting::Nothing
                    &&& a matches ParseAction::Finish(Err(x)) && x@ == e@
                },
            },
    {
        match event {
            ParseEvent::Submitted(Ok(id)) => {
                save_job_id(&mut self.job_ids, self.index, id.clone());
                assert(self.job_ids@.len() == crate::text::string_views(self.job_ids@).len());
                self.pending_job = Some(id);
                self.awaiting = Awaiting::Saved;
                let ids = clone_strings(&self.job_ids);
                ParseAction::SaveCheckpoint { job_ids: ids }
            },
            ParseEvent::Saved(Ok(())) => {
                let id = match self.pending_job.take() {
                    Some(id) => id,
                    None => String::new(),
                };
                self.awaiting = Awaiting::Polled;
                ParseAction::Poll {
                    job_id: id,
                    completed_pages: self.completed_pages,
                    total_pages: self.total_pages,
                }
            },
            ParseEvent::Polled(PollOutcome::Ready(url)) => {
                self.awaiting = Awaiting::Downloaded;
                ParseAction::Download { url }
            },
            ParseEvent::Polled(PollOutcome::Expired) => {
                self.awaiting = Awaiting::Submitted;
                let range = match &self.segments[self.index].range {
                    Some(r) => Some(r.clone()),
                    None => None,
                };
                ParseAction::Submit { range }
            },
            ParseEvent::Downloaded(Ok(result)) => {
                append_result(&mut self.aggregate, result);
                proof {
                    lemma_pages_before_mono(self.segments@, self.index + 1, self.segments@.len() as int);
                }
                self.completed_pages = self.completed_pages + self.segments[self.index].pages;
                self.awaiting = Awaiting::Reported;
                ParseAction::Report { page: self.completed_pages, total: self.total_pages }
            },
            ParseEvent::Reported => {
                self.index = self.index + 1;
                self.begin_segment()
            },
            ParseEvent::Submitted(Err(e)) | ParseEvent::Saved(Err(e)) | ParseEvent::Polled(
                PollOutcome::Failed(e),
            )
            | ParseEvent::Downloaded(Err(e)) => {
                self.awaiting = Awaiting::Nothing;
                self.pending_job = None;
                ParseAction::Finish(Err(e))
            },
        }
    }
}

/// A copy of a list of strings.
pub fn clone_strings(v: &Vec<String>) -> (out: Vec<String>)
    ensures
        crate::text::string_views(out@) == crate::text::string_views(v@),
{
    let mut out: Vec<String> = Vec::new();
    let mut i: usize = 0;
    while i < v.len()
        invariant
            0 <= i <= v.len(),
            crate::text::string_views(out@) =~= crate::text::string_views(v@.take(i as int)),
        decreases v.len() - i,
    {
        let ghost prev = out@;
        out.push(v[i].clone());
        assert(crate::text::string_views(out@) =~= crate::text::string_views(prev).push(v@[i as int]@));
        assert(v@.take(i + 1) =~= v@.take(i as int).push(v@[i as int]));
        assert(crate::text::string_views(v@.take(i + 1)) =~= crate::text::string_views(v@.take(i as int)).push(v@[i as int]@));
        i = i + 1;
    }
    assert(v@.take(v.len() as int) =~= v@);
    out
}

/// How segment `index` starts: past the last segment the run finishes with the
/// aggregate (its page count set); a segment with a recorded job polls it
/// again; any other segment is submitted.
pub open spec fn segment_start(
    segments: Seq<Segment>,
    job_ids: Seq<Seq<char>>,
    index: nat,
    completed: u32,
    total: u32,
    aggregate: ResultView,
    awaiting_after: Awaiting,
    aggregate_after: ResultView,
    a: ParseAction,
) -> bool {
    if index == segments.len() {
        &&& awaiting_after == Awaiting::Nothing
        &&& a matches ParseAction::Finish(Ok(r)) && r@ == ResultView {
            markdown: aggregate.markdown,
            page_count: aggregate.pages.len() as u32,
            pages: aggregate.pages,
        }
    } else if index < job_ids.len() && job_ids[index as int].len() > 0 {
        &&& awaiting_after == Awaiting::Polled
        &&& aggregate_after == aggregate
        &&& a matches ParseAction::Poll { job_id, completed_pages, total_pages } && job_id@ == job_ids[index as int]
            && completed_pages == completed && total_pages == total
    } else {
        &&& awaiting_after == Awaiting::Submitted
        &&& aggregate_after == aggregate
        &&& a matches ParseAction::Submit { range } && match range {
            Some(r) => segment_range(segments[index as int]) == Some(r@),
            None => segment_range(segments[index as int]) is None,
        }
    }
}

} // verus!
