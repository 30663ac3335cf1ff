//! The result history list: stored results merged with the results that are
//! kept for this session only, filtered by a search query and ordered newest
//! first.
use vstd::prelude::*;

use crate::model::ServiceId;
use crate::text::{chars_of, contains_char, contains_exec, contains_seq, occurs_at, owned, string_from_chars, trim, trim_chars};

verus! {

/// One entry of the result history.
#[derive(Debug, Clone)]
pub struct ResultSummary {
    pub task_id: String,
    pub service: ServiceId,
    pub file_name: String,
    pub snippet: String,
    /// Creation time of the task, in seconds since the epoch.
    pub created_at: i64,
    /// The result lives in memory for this session only.
    pub temporary: bool,
}

/// How many characters of a result's Markdown its history entry shows.
pub const SNIPPET_CHARS: usize = 160;

pub struct SummaryView {
    pub task_id: Seq<char>,
    pub service: ServiceId,
    pub file_name: Seq<char>,
    pub snippet: Seq<char>,
    pub created_at: i64,
    pub temporary: bool,
}

impl View for ResultSummary {
    type V = SummaryView;

    open spec fn view(&self) -> SummaryView {
        SummaryView {
            task_id: self.task_id@,
            service: self.service,
            file_name: self.file_name@,
            snippet: self.snippet@,
            created_at: self.created_at,
            temporary: self.temporary,
        }
    }
}

/// The record of a session result's task, as the store holds it.
#[derive(Debug, Clone)]
pub struct SessionTask {
    pub service: ServiceId,
    pub input_path: String,
    pub created_at: i64,
}

/// A result kept in memory for this session, with its task's record when
/// the store still has the task.
#[derive(Debug, Clone)]
pub struct SessionResult {
    pub task_id: String,
    pub task: Option<SessionTask>,
    pub markdown: String,
}

/// The entries of `s` created at `k`, in their order in `s`.
pub open spec fn created_at_key(s: Seq<ResultSummary>, k: i64) -> Seq<ResultSummary>
    decreases s.len(),
{
    if s.len() == 0 {
        Seq::empty()
    } else {
        let rest = created_at_key(s.drop_last(), k);
        if s.last().created_at == k {
            rest.push(s.last())
        } else {
            rest
        }
    }
}

/// Newest first: creation times never increase along `s`.
pub open spec fn newest_first(s: Seq<ResultSummary>) -> bool {
    forall|i: int, j: int| 0 <= i < j < s.len() ==> s[i].created_at >= s[j].created_at
}

/// `out` is `input` ordered newest first by a stable sort: every class of
/// entries with one creation time keeps its members and their order.
pub open spec fn stable_newest_first(input: Seq<ResultSummary>, out: Seq<ResultSummary>) -> bool {
    &&& newest_first(out)
    &&& forall|k: i64| #[trigger] created_at_key(out, k) == created_at_key(input, k)
}

proof fn lemma_key_append(a: Seq<ResultSummary>, b: Seq<ResultSummary>, k: i64)
    ensures
        created_at_key(a + b, k) == created_at_key(a, k) + created_at_key(b, k),
    decreases b.len(),
{
    if b.len() == 0 {
        assert(a + b =~= a);
        assert(created_at_key(b, k) =~= Seq::<ResultSummary>::empty());
        assert(created_at_key(a, k) + created_at_key(b, k) =~= created_at_key(a, k));
    } else {
        lemma_key_append(a, b.drop_last(), k);
        assert((a + b).drop_last() =~= a + b.drop_last());
        assert((a + b).last() == b.last());
        if b.last().created_at == k {
            assert(created_at_key(a, k) + created_at_key(b.drop_last(), k).push(b.last())
                =~= (created_at_key(a, k) + created_at_key(b.drop_last(), k)).push(b.last()));
        }
    }
}

proof fn lemma_key_absent(s: Seq<ResultSummary>, k: i64)
    requires
        forall|i: int| 0 <= i < s.len() ==> s[i].created_at != k,
    ensures
        created_at_key(s, k) == Seq::<ResultSummary>::empty(),
    decreases s.len(),
{
    if s.len() > 0 {
        lemma_key_absent(s.drop_last(), k);
    }
}

proof fn lemma_key_single(x: ResultSummary, k: i64)
    ensures
        created_at_key(seq![x], k) == (if x.created_at == k {
            seq![x]
        } else {
            Seq::<ResultSummary>::empty()
        }),
{
    assert(seq![x].drop_last() =~= Seq::<ResultSummary>::empty());
    assert(created_at_key(Seq::<ResultSummary>::empty(), k) =~= Seq::<ResultSummary>::empty());
    assert(Seq::<ResultSummary>::empty().push(x) =~= seq![x]);
}

/// Inserting `x` at the first entry older than it keeps `s` newest first
/// and adds `x` at the end of its creation-time class.
proof fn lemma_insert_newest_first(s: Seq<ResultSummary>, x: ResultSummary, p: int)
    requires
        newest_first(s),
        0 <= p <= s.len(),
        forall|j: int| 0 <= j < p ==> s[j].created_at >= x.created_at,
        forall|j: int| p <= j < s.len() ==> s[j].created_at < x.created_at,
    ensures
        newest_first(s.insert(p, x)),
        forall|k: i64|
            #[trigger] created_at_key(s.insert(p, x), k) == created_at_key(s.push(x), k),
{
    let t = s.insert(p, x);
    assert forall|i: int, j: int| 0 <= i < j < t.len() implies t[i].created_at
        >= t[j].created_at by {
        if i < p && j < p {
        } else if i < p && j == p {
        } else if i < p {
            assert(t[j] == s[j - 1]);
        } else if i == p {
            assert(t[j] == s[j - 1]);
        } else {
            assert(t[i] == s[i - 1]);
            assert(t[j] == s[j - 1]);
        }
    }
    assert forall|k: i64| #[trigger] created_at_key(s.insert(p, x), k) == created_at_key(
        s.push(x),
        k,
    ) by {
        let a = s.take(p);
        let b = s.skip(p);
        assert(s =~= a + b);
        assert(t =~= a + seq![x] + b);
        assert(s.push(x) =~= s + seq![x]);
        lemma_key_append(a + seq![x], b, k);
        lemma_key_append(a, seq![x], k);
        lemma_key_append(a, b, k);
        lemma_key_append(s, seq![x], k);
        lemma_key_single(x, k);
        if x.created_at == k {
            assert forall|i: int| 0 <= i < b.len() implies b[i].created_at != k by {
                assert(b[i] == s[p + i]);
            }
            lemma_key_absent(b, k);
            assert(created_at_key(a, k) + Seq::<ResultSummary>::empty() =~= created_at_key(
                a,
                k,
            ));
        } else {
            assert(created_at_key(a, k) + Seq::<ResultSummary>::empty() =~= created_at_key(
                a,
                k,
            ));
            assert(created_at_key(s, k) + Seq::<ResultSummary>::empty() =~= created_at_key(
                s,
                k,
            ));
        }
    }
}

/// Orders `entries` newest first; entries created at the same time keep
/// their order.
pub fn sort_newest_first(entries: Vec<ResultSummary>) -> (out: Vec<ResultSummary>)
    ensures
        stable_newest_first(entries@, out@),
{
    let ghost input = entries@;
    let mut rest = entries;
    let mut out: Vec<ResultSummary> = Vec::new();
    let mut done: usize = 0;
    let n = rest.len();
    assert(input.skip(0) =~= input);
    assert(input.len() == n);
    while rest.len() > 0
        invariant
            done + rest.len() == input.len(),
            input.len() <= usize::MAX,
            rest@ == input.skip(done as int),
            newest_first(out@),
            forall|k: i64|
                #[trigger] created_at_key(out@, k) == created_at_key(input.take(done as int), k),
        decreases rest.len(),
    {
        let x = rest.remove(0);
        assert(x == input[done as int]);
        let mut p: usize = 0;
        while p < out.len() && out[p].created_at >= x.created_at
            invariant
                0 <= p <= out.len(),
                forall|j: int| 0 <= j < p ==> out@[j].created_at >= x.created_at,
            decreases out.len() - p,
        {
            p = p + 1;
        }
        proof {
            if p < out.len() {
                assert forall|j: int| p <= j < out@.len() implies out@[j].created_at
                    < x.created_at by {
                    if j > p {
                        assert(out@[p as int].created_at >= out@[j].created_at);
                    }
                }
            }
            lemma_insert_newest_first(out@, x, p as int);
            assert(input.take(done + 1) =~= input.take(done as int).push(x));
            assert forall|k: i64| #[trigger] created_at_key(out@.push(x), k) == created_at_key(
                input.take(done + 1),
                k,
            ) by {
                assert(out@.push(x).drop_last() =~= out@);
                assert(input.take(done + 1).drop_last() =~= input.take(done as int));
                assert(created_at_key(out@, k) == created_at_key(input.take(done as int), k));
            }
        }
        out.insert(p, x);
        done = done + 1;
        assert(rest@ =~= input.skip(done as int));
    }
    assert(input.take(done as int) =~= input);
    out
}

// ---------------------------------------------------------------------------
// Session results
// ---------------------------------------------------------------------------

/// What `str::to_lowercase` gives for a string (full Unicode case mapping).
pub uninterp spec fn lowercase_of(s: Seq<char>) -> Seq<char>;

/// `str::to_lowercase`; the result is named by `lowercase_of`.
#[verifier::external_body]
fn lowercase(s: &str) -> (out: String)
    ensures
        out@ == lowercase_of(s@),
{
    s.to_lowercase()
}

/// `/` separates path components on every platform, `\\` on Windows too.
pub open spec fn is_separator(c: char) -> bool {
    c == '/' || c == '\\'
}

/// `b` is the last component of `path` on every platform: `path` ends in
/// `/` and `b`, or is `b` alone (without the `:` of a Windows drive), where
/// `b` holds no separator and is neither `.` nor `..`, and `path` does not
/// begin with two separators (a Windows UNC, device or verbatim prefix).
pub open spec fn final_component(path: Seq<char>, b: Seq<char>) -> bool {
    &&& b.len() > 0
    &&& !contains_char(b, '/')
    &&& !contains_char(b, '\\')
    &&& b != "."@
    &&& b != ".."@
    &&& !(path.len() >= 2 && is_separator(path[0]) && is_separator(path[1]))
    &&& ((exists|a: Seq<char>| path == a + seq!['/'] + b) || (path == b && !contains_char(b, ':')))
}

/// `name` is a piece of `path`, and it is the last component of `path`
/// wherever that is the same on every platform.
pub open spec fn shown_name(path: Seq<char>, name: Seq<char>) -> bool {
    &&& contains_seq(path, name)
    &&& forall|b: Seq<char>| #[trigger] final_component(path, b) ==> name == b
}

/// `Path::file_name` of `path`, when it is valid Unicode. A name it gives is
/// a piece of `path`; which one, beyond the last component that every
/// platform agrees on (`final_component`), depends on the platform's
/// separators and prefixes and is not stated.
#[verifier::external_body]
fn path_file_name(path: &str) -> (name: Option<String>)
    ensures
        name matches Some(n) ==> contains_seq(path@, n@),
        name matches Some(n) ==> forall|b: Seq<char>| #[trigger] final_component(path@, b) ==> n@ == b,
        name is None ==> forall|b: Seq<char>| !#[trigger] final_component(path@, b),
{
    std::path::Path::new(path).file_name().and_then(|n| n.to_str()).map(String::from)
}

/// The file name shown for a task: the last component of its input path,
/// or the whole path where it has none.
pub fn file_name_of(input_path: &str) -> (name: String)
    ensures
        shown_name(input_path@, name@),
{
    match path_file_name(input_path) {
        Some(name) => name,
        None => {
            let whole = owned(input_path);
            assert(input_path@.subrange(0, input_path@.len() as int) =~= whole@);
            assert(occurs_at(input_path@, whole@, 0));
            whole
        },
    }
}

/// The search needle of a query: trimmed, then lowercased.
pub open spec fn search_needle_of(query: Seq<char>) -> Seq<char> {
    lowercase_of(trim(query))
}

pub fn search_needle(query: &str) -> (needle: String)
    ensures
        needle@ == search_needle_of(query@),
{
    let chars = chars_of(query);
    let trimmed_chars = trim_chars(&chars);
    let trimmed = string_from_chars(&trimmed_chars);
    lowercase(trimmed.as_str())
}

/// An empty needle matches everything; otherwise it must occur in the
/// lowercased file name or the lowercased Markdown.
pub open spec fn matches_query(needle: Seq<char>, file_name: Seq<char>, markdown: Seq<char>) -> bool {
    ||| needle.len() == 0
    ||| contains_seq(lowercase_of(file_name), needle)
    ||| contains_seq(lowercase_of(markdown), needle)
}

/// The first `SNIPPET_CHARS` characters of the Markdown.
pub open spec fn snippet_of(markdown: Seq<char>) -> Seq<char> {
    if markdown.len() <= SNIPPET_CHARS {
        markdown
    } else {
        markdown.take(SNIPPET_CHARS as int)
    }
}

/// The history entry of a session result shown under `file_name`, if the
/// entry belongs to `service` and matches `needle`.
pub open spec fn summary_of(
    service: ServiceId,
    needle: Seq<char>,
    entry: SessionResult,
    file_name: Seq<char>,
) -> Option<SummaryView> {
    match entry.task {
        Some(task) => if task.service == service && matches_query(
            needle,
            file_name,
            entry.markdown@,
        ) {
            Some(
                SummaryView {
                    task_id: entry.task_id@,
                    service,
                    file_name,
                    snippet: snippet_of(entry.markdown@),
                    created_at: task.created_at,
                    temporary: true,
                },
            )
        } else {
            None
        },
        None => None,
    }
}

/// The history entries of `session`, each shown under the name at its index
/// of `names`.
pub open spec fn session_summaries(
    service: ServiceId,
    needle: Seq<char>,
    session: Seq<SessionResult>,
    names: Seq<Seq<char>>,
) -> Seq<SummaryView>
    decreases session.len(),
{
    if session.len() == 0 {
        Seq::empty()
    } else {
        let rest = session_summaries(service, needle, session.drop_last(), names.drop_last());
        match summary_of(service, needle, session.last(), names.last()) {
            Some(v) => rest.push(v),
            None => rest,
        }
    }
}

/// `listed` holds the history entries of `session` for `service` and
/// `needle`, where each task is shown under the name `shown_name` allows
/// for its input path.
pub open spec fn session_listed(
    service: ServiceId,
    needle: Seq<char>,
    session: Seq<SessionResult>,
    listed: Seq<ResultSummary>,
) -> bool {
    exists|names: Seq<Seq<char>>|
        {
            &&& names.len() == session.len()
            &&& forall|j: int|
                0 <= j < session.len() && session[j].task is Some ==> shown_name(
                    session[j].task->0.input_path@,
                    #[trigger] names[j],
                )
            &&& listed.map_values(|r: ResultSummary| r@) == session_summaries(
                service,
                needle,
                session,
                names,
            )
        }
}

/// The first `SNIPPET_CHARS` characters of `markdown`.
fn snippet(markdown: &str) -> (out: String)
    ensures
        out@ == snippet_of(markdown@),
{
    let chars = chars_of(markdown);
    let mut out: Vec<char> = Vec::new();
    let mut i: usize = 0;
    while i < chars.len() && i < SNIPPET_CHARS
        invariant
            0 <= i <= chars.len(),
            i <= SNIPPET_CHARS,
            chars@ == markdown@,
            out@ == chars@.take(i as int),
        decreases chars.len() - i,
    {
        out.push(chars[i]);
        i = i + 1;
        assert(chars@.take(i as int) =~= chars@.take(i - 1).push(chars@[i - 1]));
    }
    if chars.len() <= SNIPPET_CHARS {
        assert(chars@.take(i as int) =~= chars@);
    }
    string_from_chars(&out)
}

pub open spec fn view_of(r: Option<ResultSummary>) -> Option<SummaryView> {
    match r {
        Some(s) => Some(s@),
        None => None,
    }
}

/// The history entry of one session result shown under `file_name`, when
/// it belongs to `service` and matches `needle`.
pub fn session_summary(
    service: ServiceId,
    needle: &str,
    entry: &SessionResult,
    file_name: String,
) -> (r: Option<ResultSummary>)
    ensures
        view_of(r) == summary_of(service, needle@, *entry, file_name@),
{
    let task = match &entry.task {
        Some(task) => task,
        None => return None,
    };
    if task.service != service {
        return None;
    }
    let needle_chars = chars_of(needle);
    if needle_chars.len() > 0 {
        let name_lower = chars_of(lowercase(file_name.as_str()).as_str());
        let markdown_lower = chars_of(lowercase(entry.markdown.as_str()).as_str());
        if !contains_exec(&name_lower, &needle_chars) && !contains_exec(
            &markdown_lower,
            &needle_chars,
        ) {
            return None;
        }
    }
    Some(
        ResultSummary {
            task_id: entry.task_id.clone(),
            service,
            file_name,
            snippet: snippet(entry.markdown.as_str()),
            created_at: task.created_at,
            temporary: true,
        },
    )
}

/// The history entries of the session results for `service` that match
/// `needle`, in the order of `session`.
pub fn session_entries(service: ServiceId, needle: &str, session: &Vec<SessionResult>) -> (out: Vec<
    ResultSummary,
>)
    ensures
        session_listed(service, needle@, session@, out@),
{
    let mut out: Vec<ResultSummary> = Vec::new();
    let ghost mut names: Seq<Seq<char>> = Seq::empty();
    let mut i: usize = 0;
    while i < session.len()
        invariant
            0 <= i <= session.len(),
            names.len() == i,
            forall|j: int|
                0 <= j < i && session@[j].task is Some ==> shown_name(
                    session@[j].task->0.input_path@,
                    #[trigger] names[j],
                ),
            out@.map_values(|r: ResultSummary| r@) == session_summaries(
                service,
                needle@,
                session@.take(i as int),
                names,
            ),
        decreases session.len() - i,
    {
        let entry = &session[i];
        let name = match &entry.task {
            Some(task) => file_name_of(task.input_path.as_str()),
            None => String::new(),
        };
        let ghost old_out = out@;
        let ghost old_names = names;
        let ghost name_view = name@;
        proof {
            names = names.push(name@);
        }
        let summary = session_summary(service, needle, entry, name);
        proof {
            let prefix = session@.take(i + 1);
            assert(prefix.drop_last() =~= session@.take(i as int));
            assert(prefix.last() == session@[i as int]);
            assert(names.drop_last() =~= old_names);
            assert(names.last() == name_view);
            assert(session_summaries(service, needle@, prefix, names) == match summary_of(
                service,
                needle@,
                session@[i as int],
                name_view,
            ) {
                Some(v) => session_summaries(service, needle@, session@.take(i as int), old_names).push(v),
                None => session_summaries(service, needle@, session@.take(i as int), old_names),
            });
        }
        match summary {
            Some(summary) => {
                out.push(summary);
                assert(out@.map_values(|r: ResultSummary| r@) =~= old_out.map_values(
                    |r: ResultSummary| r@,
                ).push(summary@));
            },
            None => {},
        }
        i = i + 1;
    }
    assert(session@.take(i as int) =~= session@);
    out
}

/// The result history for `service` and `query`: the stored entries and the
/// matching session entries, newest first.
pub fn merge_results(
    service: ServiceId,
    query: &str,
    stored: Vec<ResultSummary>,
    session: &Vec<SessionResult>,
) -> (out: Vec<ResultSummary>)
    ensures
        exists|listed: Seq<ResultSummary>|
            {
                &&& session_listed(service, search_needle_of(query@), session@, listed)
                &&& stable_newest_first(stored@ + listed, out@)
            },
{
    let needle = search_needle(query);
    let mut listed = session_entries(service, needle.as_str(), session);
    let mut all = stored;
    all.append(&mut listed);
    sort_newest_first(all)
}

/// The task ids of the session entries among `results`, in order.
pub fn temporary_task_ids(results: &Vec<ResultSummary>) -> (ids: Vec<String>)
    ensures
        ids@.map_values(|id: String| id@) == results@.filter(|r: ResultSummary| r.temporary).map_values(
            |r: ResultSummary| r.task_id@,
        ),
{
    let mut ids: Vec<String> = Vec::new();
    let mut i: usize = 0;
    while i < results.len()
        invariant
            0 <= i <= results.len(),
            ids@.map_values(|id: String| id@) == results@.take(i as int).filter(
                |r: ResultSummary| r.temporary,
            ).map_values(|r: ResultSummary| r.task_id@),
        decreases results.len() - i,
    {
        let ghost before = ids@;
        proof {
            reveal(Seq::filter);
            assert(results@.take(i + 1).drop_last() =~= results@.take(i as int));
        }
        if results[i].temporary {
            ids.push(results[i].task_id.clone());
            assert(ids@.map_values(|id: String| id@) =~= before.map_values(|id: String| id@).push(
                results@[i as int].task_id@,
            ));
        }
        i = i + 1;
    }
    assert(results@.take(i as int) =~= results@);
    ids
}

} // verus!
