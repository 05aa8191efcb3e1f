//! Search results and chunks as they are shown.

use vstd::prelude::*;
use vstd::string::*;

use crate::engine::uploader::{PointPayload, PointResult, SearchResult};
use crate::scan::split_lines;
#[allow(unused_imports)]
use crate::scan::{at_most, lines};
use crate::selector::{selector_text, selects_chunk, ChunkSelector};
#[allow(unused_imports)]
use crate::selector::{selector_suffix, selects};
use crate::settings::CatalogConfig;
use crate::text::append_decimal;
#[allow(unused_imports)]
use crate::text::{decimal, text_option, texts};
use crate::text_map::TextMap;

verus! {

// ---------------------------------------------------------------------------
// Parts
// ---------------------------------------------------------------------------

/// Lines of text, each with a sign in front that it is quoted.
pub open spec fn quoted(list: Seq<Seq<char>>) -> Seq<char>
    decreases list.len(),
{
    if list.len() == 0 {
        Seq::empty()
    } else {
        quoted(list.drop_last()) + "> "@ + list.last() + "\n"@
    }
}

/// The breadcrumb of a chunk, or a word for the lack of one.
pub open spec fn shown_breadcrumb(payload: PointPayload) -> Seq<char> {
    match payload.breadcrumb {
        Some(breadcrumb) => breadcrumb@,
        None => "unknown"@,
    }
}

fn breadcrumb_of(payload: &PointPayload) -> (r: &str)
    ensures
        r@ == shown_breadcrumb(*payload),
{
    match &payload.breadcrumb {
        Some(breadcrumb) => breadcrumb.as_str(),
        None => "unknown",
    }
}

fn append_quoted(out: &mut String, list: &Vec<String>, n: usize)
    requires
        n <= list@.len(),
    ensures
        final(out)@ == old(out)@ + quoted(texts(list@).take(n as int)),
{
    let ghost all = texts(list@);
    let mut i: usize = 0;
    assert(out@ =~= old(out)@ + quoted(all.take(0)));
    while i < n
        invariant
            n <= list@.len(),
            all == texts(list@),
            i <= n,
            out@ == old(out)@ + quoted(all.take(i as int)),
        decreases n - i,
    {
        out.append("> ");
        out.append(list[i].as_str());
        out.append("\n");
        proof {
            let now = all.take(i + 1);
            assert(now.drop_last() =~= all.take(i as int));
            assert(now.last() == list@[i as int]@);
            assert(out@ =~= old(out)@ + quoted(now));
        }
        i = i + 1;
    }
}

// ---------------------------------------------------------------------------
// Search results
// ---------------------------------------------------------------------------

/// The number of lines of a chunk that a search result shows.
pub const PREVIEW_LINES: usize = 3;

/// A search result: a line that says which chunk it is, and the first lines of it.
pub open spec fn blurb(found: SearchResult) -> Seq<char> {
    found.payload.file_id@ + ":"@ + decimal(found.payload.chunk_number as nat) + "  "@
        + found.score@ + "  "@ + shown_breadcrumb(found.payload) + "\n"@ + quoted(
        at_most(lines(found.payload.text@), PREVIEW_LINES as int),
    ) + "\n"@
}

/// Several search results, one after the other.
pub open spec fn blurbs(results: Seq<SearchResult>) -> Seq<char>
    decreases results.len(),
{
    if results.len() == 0 {
        Seq::empty()
    } else {
        blurbs(results.drop_last()) + blurb(results.last())
    }
}

fn blurb_text(found: &SearchResult) -> (r: String)
    ensures
        r@ == blurb(*found),
{
    let mut out = found.payload.file_id.clone();
    out.append(":");
    append_decimal(&mut out, found.payload.chunk_number as u64);
    out.append("  ");
    out.append(found.score.as_str());
    out.append("  ");
    out.append(breadcrumb_of(&found.payload));
    out.append("\n");
    let preview = split_lines(found.payload.text.as_str());
    let n: usize = if preview.len() > PREVIEW_LINES {
        PREVIEW_LINES
    } else {
        preview.len()
    };
    proof {
        let all = texts(preview@);
        assert(all.take(n as int) =~= at_most(all, PREVIEW_LINES as int));
    }
    append_quoted(&mut out, &preview, n);
    out.append("\n");
    out
}

/// The results of a search, as they are printed
pub fn search_text(results: &Vec<SearchResult>) -> (r: String)
    ensures
        r@ == blurbs(results@),
{
    let n: usize = results.len();
    let mut out = String::new();
    let mut i: usize = 0;
    assert(out@ =~= blurbs(results@.take(0)));
    while i < n
        invariant
            n == results@.len(),
            i <= n,
            out@ == blurbs(results@.take(i as int)),
        decreases n - i,
    {
        let found = blurb_text(&results[i]);
        out.append(found.as_str());
        proof {
            let now = results@.take(i + 1);
            assert(now.drop_last() =~= results@.take(i as int));
            assert(now.last() == results@[i as int]);
        }
        i = i + 1;
    }
    assert(results@.take(n as int) =~= results@);
    out
}

/// The results of a search, as they are handed to an assistant. That there are none is
/// said.
pub fn search_answer(results: &Vec<SearchResult>) -> (r: String)
    ensures
        r@ == if results@.len() == 0 {
            "No results found.\n"@
        } else {
            blurbs(results@)
        },
{
    if results.len() == 0 {
        return "No results found.\n".to_owned();
    }
    search_text(results)
}

// ---------------------------------------------------------------------------
// Chunks
// ---------------------------------------------------------------------------

/// Keeps the chunks that a selector asks for, in their order.
pub fn select_chunks(points: Vec<PointResult>, selector: &ChunkSelector) -> (r: Vec<PointResult>)
    ensures
        r@ == points@.filter(|p: PointResult| selects(*selector, p.payload.chunk_number)),
        forall|p: PointResult| #[trigger]
            r@.contains(p) <==> points@.contains(p) && match *selector {
                ChunkSelector::All => true,
                ChunkSelector::Single(n) => p.payload.chunk_number == n,
                ChunkSelector::Range(start, end) => start <= p.payload.chunk_number
                    && p.payload.chunk_number <= end,
                ChunkSelector::ToEnd(start) => start <= p.payload.chunk_number,
            },
{
    let ghost keep = |p: PointResult| selects(*selector, p.payload.chunk_number);
    let ghost all = points@;
    let mut out: Vec<PointResult> = Vec::new();
    assert(all.take(0) =~= Seq::<PointResult>::empty());
    reveal(Seq::filter);
    for point in it: points
        invariant
            it.seq() == all,
            keep == (|p: PointResult| selects(*selector, p.payload.chunk_number)),
            out@ == all.take(it.index() as int).filter(keep),
    {
        let ghost i = it.index() as int;
        let ghost whole = point;
        proof {
            reveal(Seq::filter);
            assert(all.take(i + 1).drop_last() =~= all.take(i));
            assert(all.take(i + 1).last() == whole);
        }
        if selects_chunk(selector, point.payload.chunk_number) {
            out.push(point);
        }
    }
    assert(all.take(all.len() as int) =~= all);
    proof {
        assert forall|p: PointResult| #[trigger]
            out@.contains(p) <==> all.contains(p) && keep(p) by {
            lemma_filter_contains(all, keep, p);
        }
    }
    out
}

proof fn lemma_filter_contains(
    all: Seq<PointResult>,
    keep: spec_fn(PointResult) -> bool,
    p: PointResult,
)
    ensures
        all.filter(keep).contains(p) <==> all.contains(p) && keep(p),
    decreases all.len(),
{
    reveal(Seq::filter);
    if all.len() > 0 {
        let fewer = all.drop_last();
        let kept = fewer.filter(keep);
        lemma_filter_contains(fewer, keep, p);
        if all.contains(p) && all.last() != p {
            let i = choose|i: int| 0 <= i < all.len() && all[i] == p;
            assert(fewer[i] == p);
        }
        if fewer.contains(p) {
            let i = choose|i: int| 0 <= i < fewer.len() && fewer[i] == p;
            assert(all[i] == p);
        }
        assert(all[all.len() - 1] == all.last());
        if keep(all.last()) {
            let more = kept.push(all.last());
            assert(more[kept.len() as int] == all.last());
            if kept.contains(p) {
                let i = choose|i: int| 0 <= i < kept.len() && kept[i] == p;
                assert(more[i] == p);
            }
            if more.contains(p) && p != all.last() {
                let i = choose|i: int| 0 <= i < more.len() && more[i] == p;
                assert(kept[i] == p);
            }
        }
    }
}

/// The line that gives the full path of a file, where it is to be shown.
pub open spec fn full_path_line(full_path: Option<Seq<char>>) -> Seq<char> {
    match full_path {
        Some(path) => "Full path: "@ + path + "\n"@,
        None => Seq::empty(),
    }
}

/// A chunk as it is shown, with the full path of its file where one is given.
pub open spec fn chunk_view(
    file_id: Seq<char>,
    payload: PointPayload,
    full_path: Option<Seq<char>>,
) -> Seq<char> {
    file_id + ":"@ + decimal(payload.chunk_number as nat) + " ("@ + decimal(
        payload.chunk_number as nat,
    ) + "/"@ + decimal(payload.chunk_count as nat) + ") "@ + shown_breadcrumb(payload)
        + "\nSource: "@ + payload.catalog@ + ":"@ + payload.relative_path@ + "\n"@
        + full_path_line(full_path) + "Lines: "@ + decimal(payload.start_line as nat) + "-"@
        + decimal(payload.end_line as nat) + "\nType: "@ + payload.chunk_type@ + "\n\n"@ + quoted(lines(payload.text@)) + "\n"@
}

fn path_line(full_path: &Option<String>) -> (r: String)
    ensures
        r@ == full_path_line(text_option(*full_path)),
{
    match full_path {
        Some(path) => {
            let mut out = "Full path: ".to_owned();
            out.append(path.as_str());
            out.append("\n");
            out
        },
        None => {
            let out = String::new();
            assert(out@ =~= Seq::<char>::empty());
            out
        },
    }
}

fn chunk_text(file_id: &str, payload: &PointPayload, full_path: &Option<String>) -> (r: String)
    ensures
        r@ == chunk_view(file_id@, *payload, text_option(*full_path)),
{
    let path = path_line(full_path);
    let text = split_lines(payload.text.as_str());
    let n: usize = text.len();
    assert(texts(text@).take(n as int) =~= texts(text@));
    let mut out = file_id.to_owned();
    out.append(":");
    append_decimal(&mut out, payload.chunk_number as u64);
    out.append(" (");
    append_decimal(&mut out, payload.chunk_number as u64);
    out.append("/");
    append_decimal(&mut out, payload.chunk_count as u64);
    out.append(") ");
    out.append(breadcrumb_of(payload));
    out.append("\nSource: ");
    out.append(payload.catalog.as_str());
    out.append(":");
    out.append(payload.relative_path.as_str());
    out.append("\n");
    out.append(path.as_str());
    out.append("Lines: ");
    append_decimal(&mut out, payload.start_line as u64);
    out.append("-");
    append_decimal(&mut out, payload.end_line as u64);
    out.append("\nType: ");
    out.append(payload.chunk_type.as_str());
    out.append("\n\n");
    append_quoted(&mut out, &text, n);
    out.append("\n");
    out
}

/// Which full paths are shown with chunks
pub enum PathStyle<'a> {
    /// None
    Hidden,
    /// The path under which the index keeps the file
    Stored,
    /// The path of the catalog with that of the file behind it, where the catalog is
    /// configured
    Within(&'a TextMap<CatalogConfig>),
}

/// The full path that is shown with a chunk.
pub open spec fn path_shown(style: PathStyle, payload: PointPayload) -> Option<Seq<char>> {
    match style {
        PathStyle::Hidden => None,
        PathStyle::Stored => Some(payload.source_uri@),
        PathStyle::Within(catalogs) => if catalogs@.contains_key(payload.catalog@) {
            Some(catalogs@[payload.catalog@].path@ + "/"@ + payload.relative_path@)
        } else {
            None
        },
    }
}

fn shown_path(style: &PathStyle, payload: &PointPayload) -> (r: Option<String>)
    ensures
        text_option(r) == path_shown(*style, *payload),
{
    match style {
        PathStyle::Hidden => None,
        PathStyle::Stored => Some(payload.source_uri.clone()),
        PathStyle::Within(catalogs) => match catalogs.get(payload.catalog.as_str()) {
            Some(catalog) => {
                let mut path = catalog.path.clone();
                path.append("/");
                path.append(payload.relative_path.as_str());
                Some(path)
            },
            None => None,
        },
    }
}

/// Several chunks of a file, one after the other.
pub open spec fn chunk_views(
    file_id: Seq<char>,
    points: Seq<PointResult>,
    style: PathStyle,
) -> Seq<char>
    decreases points.len(),
{
    if points.len() == 0 {
        Seq::empty()
    } else {
        chunk_views(file_id, points.drop_last(), style) + chunk_view(
            file_id,
            points.last().payload,
            path_shown(style, points.last().payload),
        )
    }
}

/// What was asked for, and the chunks that were found for it
pub struct ViewAnswer {
    pub file_id: String,
    pub selector: ChunkSelector,
    pub points: Vec<PointResult>,
}

/// The answer to a request for chunks of a file, by all chunks of the file
pub fn answer_request(
    file_id: String,
    selector: ChunkSelector,
    chunks: Vec<PointResult>,
) -> (r: ViewAnswer)
    ensures
        r.file_id == file_id,
        r.selector == selector,
        r.points@ == chunks@.filter(|p: PointResult| selects(selector, p.payload.chunk_number)),
{
    let points = select_chunks(chunks, &selector);
    ViewAnswer { file_id, selector, points }
}

/// An answer as it is shown: the chunks, or a line that there are none. For an assistant
/// a blank line follows that line.
pub open spec fn answer_view(answer: ViewAnswer, style: PathStyle, assistant: bool) -> Seq<char> {
    if answer.points@.len() == 0 {
        answer.file_id@ + selector_suffix(answer.selector) + if assistant {
            " ERROR: CHUNK NOT FOUND\n\n"@
        } else {
            " ERROR: CHUNK NOT FOUND\n"@
        }
    } else {
        chunk_views(answer.file_id@, answer.points@, style)
    }
}

/// Several answers, one after the other.
pub open spec fn answer_views(
    answers: Seq<ViewAnswer>,
    style: PathStyle,
    assistant: bool,
) -> Seq<char>
    decreases answers.len(),
{
    if answers.len() == 0 {
        Seq::empty()
    } else {
        answer_views(answers.drop_last(), style, assistant) + answer_view(
            answers.last(),
            style,
            assistant,
        )
    }
}

fn answer_text(answer: &ViewAnswer, style: &PathStyle, assistant: bool) -> (r: String)
    ensures
        r@ == answer_view(*answer, *style, assistant),
{
    let n: usize = answer.points.len();
    if n == 0 {
        let mut out = answer.file_id.clone();
        let suffix = selector_text(&answer.selector);
        out.append(suffix.as_str());
        out.append(
            if assistant {
                " ERROR: CHUNK NOT FOUND\n\n"
            } else {
                " ERROR: CHUNK NOT FOUND\n"
            },
        );
        return out;
    }
    let mut out = String::new();
    let mut i: usize = 0;
    let ghost points = answer.points@;
    assert(out@ =~= chunk_views(answer.file_id@, points.take(0), *style));
    while i < n
        invariant
            points == answer.points@,
            n == points.len(),
            i <= n,
            out@ == chunk_views(answer.file_id@, points.take(i as int), *style),
        decreases n - i,
    {
        let payload = &answer.points[i].payload;
        let path = shown_path(style, payload);
        let chunk = chunk_text(answer.file_id.as_str(), payload, &path);
        out.append(chunk.as_str());
        proof {
            let now = points.take(i + 1);
            assert(now.drop_last() =~= points.take(i as int));
            assert(now.last() == points[i as int]);
        }
        i = i + 1;
    }
    assert(points.take(n as int) =~= points);
    out
}

/// The answers to a request for chunks, as they are shown
pub fn answers_text(answers: &Vec<ViewAnswer>, style: &PathStyle, assistant: bool) -> (r: String)
    ensures
        r@ == answer_views(answers@, *style, assistant),
{
    let n: usize = answers.len();
    let mut out = String::new();
    let mut i: usize = 0;
    assert(out@ =~= answer_views(answers@.take(0), *style, assistant));
    while i < n
        invariant
            n == answers@.len(),
            i <= n,
            out@ == answer_views(answers@.take(i as int), *style, assistant),
        decreases n - i,
    {
        let answer = answer_text(&answers[i], style, assistant);
        out.append(answer.as_str());
        proof {
            let now = answers@.take(i + 1);
            assert(now.drop_last() =~= answers@.take(i as int));
            assert(now.last() == answers@[i as int]);
        }
        i = i + 1;
    }
    assert(answers@.take(n as int) =~= answers@);
    out
}

// ---------------------------------------------------------------------------
// Catalogs
// ---------------------------------------------------------------------------

/// Whether a chunk of a catalog is among those of an answer.
pub open spec fn answer_shows(answer: ViewAnswer, catalog: Seq<char>) -> bool {
    exists|j: int|
        0 <= j < answer.points@.len() && (#[trigger] answer.points@[j]).payload.catalog@ == catalog
}

/// Whether a chunk of a catalog is among those of several answers.
pub open spec fn shows_catalog(answers: Seq<ViewAnswer>, catalog: Seq<char>) -> bool {
    exists|i: int| 0 <= i < answers.len() && #[trigger] answer_shows(answers[i], catalog)
}

/// The catalogs that the chunks of several answers belong to, each once
pub fn shown_catalogs(answers: &Vec<ViewAnswer>) -> (r: TextMap<()>)
    ensures
        r.wf(),
        forall|name: Seq<char>| #[trigger] r@.contains_key(name) <==> shows_catalog(answers@, name),
{
    let mut names: TextMap<()> = TextMap::new();
    let n: usize = answers.len();
    let mut i: usize = 0;
    while i < n
        invariant
            n == answers@.len(),
            i <= n,
            names.wf(),
            forall|name: Seq<char>| #[trigger]
                names@.contains_key(name) <==> shows_catalog(answers@.take(i as int), name),
        decreases n - i,
    {
        let ghost before = names@;
        let points = &answers[i].points;
        let m: usize = points.len();
        let mut j: usize = 0;
        while j < m
            invariant
                m == points@.len(),
                j <= m,
                names.wf(),
                forall|name: Seq<char>| #[trigger]
                    names@.contains_key(name) <==> before.contains_key(name) || exists|k: int|
                        0 <= k < j && (#[trigger] points@[k]).payload.catalog@ == name,
            decreases m - j,
        {
            let ghost had = names@;
            names.insert(points[j].payload.catalog.as_str(), ());
            proof {
                assert forall|name: Seq<char>| #[trigger]
                    names@.contains_key(name) <==> before.contains_key(name) || exists|k: int|
                        0 <= k < j + 1 && (#[trigger] points@[k]).payload.catalog@ == name by {
                    assert(had.contains_key(name) <==> before.contains_key(name) || exists|k: int|
                        0 <= k < j && (#[trigger] points@[k]).payload.catalog@ == name);
                    assert(points@[j as int].payload.catalog@ == name ==> names@.contains_key(
                        name,
                    ));
                }
            }
            j = j + 1;
        }
        proof {
            let now = answers@.take(i + 1);
            let had = answers@.take(i as int);
            assert forall|name: Seq<char>| #[trigger]
                names@.contains_key(name) <==> shows_catalog(now, name) by {
                assert(before.contains_key(name) <==> shows_catalog(had, name));
                if shows_catalog(had, name) {
                    let k = choose|k: int|
                        0 <= k < had.len() && #[trigger] answer_shows(had[k], name);
                    assert(now[k] == had[k]);
                    assert(answer_shows(now[k], name));
                }
                if answer_shows(answers@[i as int], name) {
                    assert(now[i as int] == answers@[i as int]);
                    assert(answer_shows(now[i as int], name));
                }
                if shows_catalog(now, name) {
                    let k = choose|k: int|
                        0 <= k < now.len() && #[trigger] answer_shows(now[k], name);
                    if k < had.len() {
                        assert(now[k] == had[k]);
                        assert(answer_shows(had[k], name));
                    } else {
                        assert(now[k] == answers@[i as int]);
                    }
                }
            }
        }
        i = i + 1;
    }
    assert(answers@.take(n as int) =~= answers@);
    names
}

/// The entry of a catalog in a list of catalogs. One that is not configured has none.
pub open spec fn catalog_entry(
    name: Seq<char>,
    configured: Map<Seq<char>, CatalogConfig>,
) -> Seq<char> {
    if configured.contains_key(name) {
        "- "@ + name + "\n  Catalog path: "@ + configured[name].path@ + "\n"@
    } else {
        Seq::empty()
    }
}

/// The entries of several catalogs, one after the other.
pub open spec fn catalog_entries(
    names: Seq<Seq<char>>,
    configured: Map<Seq<char>, CatalogConfig>,
) -> Seq<char>
    decreases names.len(),
{
    if names.len() == 0 {
        Seq::empty()
    } else {
        catalog_entries(names.drop_last(), configured) + catalog_entry(names.last(), configured)
    }
}

/// What is said of catalogs before the chunks: nothing, where there are none.
pub open spec fn preamble_of(
    names: Seq<Seq<char>>,
    configured: Map<Seq<char>, CatalogConfig>,
) -> Seq<char> {
    if names.len() == 0 {
        Seq::empty()
    } else {
        "Catalogs:\n"@ + catalog_entries(names, configured) + "\n"@
    }
}

fn entry_text(name: &str, configured: &TextMap<CatalogConfig>) -> (r: String)
    ensures
        r@ == catalog_entry(name@, configured@),
{
    match configured.get(name) {
        Some(catalog) => {
            let mut out = "- ".to_owned();
            out.append(name);
            out.append("\n  Catalog path: ");
            out.append(catalog.path.as_str());
            out.append("\n");
            out
        },
        None => {
            let out = String::new();
            assert(out@ =~= Seq::<char>::empty());
            out
        },
    }
}

/// What is said of catalogs before the chunks
pub fn preamble_text(names: &TextMap<()>, configured: &TextMap<CatalogConfig>) -> (r: String)
    ensures
        r@ == preamble_of(names.order(), configured@),
{
    let n: usize = names.len();
    let ghost order = names.order();
    if n == 0 {
        let out = String::new();
        assert(out@ =~= Seq::<char>::empty());
        return out;
    }
    let mut out = "Catalogs:\n".to_owned();
    let mut i: usize = 0;
    assert(out@ =~= "Catalogs:\n"@ + catalog_entries(order.take(0), configured@));
    while i < n
        invariant
            order == names.order(),
            n == order.len(),
            i <= n,
            out@ == "Catalogs:\n"@ + catalog_entries(order.take(i as int), configured@),
        decreases n - i,
    {
        let entry = entry_text(names.key(i), configured);
        let ghost before = out@;
        out.append(entry.as_str());
        proof {
            let now = order.take(i + 1);
            assert(now.drop_last() =~= order.take(i as int));
            assert(now.last() == order[i as int]);
            assert(before + entry@ =~= "Catalogs:\n"@ + catalog_entries(now, configured@));
        }
        i = i + 1;
    }
    assert(order.take(n as int) =~= order);
    out.append("\n");
    out
}

// ---------------------------------------------------------------------------
// Whole answers
// ---------------------------------------------------------------------------

/// Whether names are those of the catalogs that answers show, each once.
pub open spec fn names_catalogs_of(names: Seq<Seq<char>>, answers: Seq<ViewAnswer>) -> bool {
    &&& names.no_duplicates()
    &&& forall|name: Seq<char>| #[trigger] names.contains(name) <==> shows_catalog(answers, name)
}

/// What is printed about the answers to a request: the catalogs, unless only the chunks
/// are wanted, and the chunks. In which order the catalogs come is left open.
pub fn view_output(
    answers: &Vec<ViewAnswer>,
    configured: &TextMap<CatalogConfig>,
    full_paths: bool,
    chunks_only: bool,
) -> (r: String)
    ensures
        ({
            let style = if full_paths {
                PathStyle::Stored
            } else {
                PathStyle::Hidden
            };
            let shown = answer_views(answers@, style, false);
            if chunks_only {
                r@ == shown
            } else {
                exists|names: Seq<Seq<char>>| #[trigger]
                    names_catalogs_of(names, answers@) && r@ == preamble_of(names, configured@)
                        + shown
            }
        }),
{
    let style = if full_paths {
        PathStyle::Stored
    } else {
        PathStyle::Hidden
    };
    let shown = answers_text(answers, &style, false);
    if chunks_only {
        return shown;
    }
    let names = shown_catalogs(answers);
    proof {
        let order = names.order();
        assert forall|name: Seq<char>| #[trigger] order.contains(name) <==> shows_catalog(
            answers@,
            name,
        ) by {
            assert(names@.contains_key(name) <==> order.contains(name));
        }
        assert(names_catalogs_of(order, answers@));
    }
    let mut out = preamble_text(&names, configured);
    out.append(shown.as_str());
    out
}

/// What an assistant is handed about the answers to a request
pub fn view_answer(
    answers: &Vec<ViewAnswer>,
    configured: &TextMap<CatalogConfig>,
    full_paths: bool,
) -> (r: String)
    ensures
        r@ == answer_views(
            answers@,
            if full_paths {
                PathStyle::Within(configured)
            } else {
                PathStyle::Hidden
            },
            true,
        ),
{
    let style = if full_paths {
        PathStyle::Within(configured)
    } else {
        PathStyle::Hidden
    };
    answers_text(answers, &style, true)
}

// ---------------------------------------------------------------------------
// Laws
// ---------------------------------------------------------------------------

/// Quoting is done line by line: each line gets the sign in front and a line feed behind,
/// and lines keep their order.
pub proof fn law_lines_are_quoted_one_by_one(a: Seq<Seq<char>>, line: Seq<char>, b: Seq<Seq<char>>)
    ensures
        quoted(Seq::empty()) == Seq::<char>::empty(),
        quoted(seq![line]) == seq!['>', ' '] + line + seq!['\n'],
        quoted(a + b) == quoted(a) + quoted(b),
    decreases b.len(),
{
    reveal_strlit("> ");
    reveal_strlit("\n");
    assert("> "@ =~= seq!['>', ' ']);
    assert("\n"@ =~= seq!['\n']);
    reveal_with_fuel(quoted, 2);
    assert(seq![line].drop_last() =~= Seq::<Seq<char>>::empty());
    assert(quoted(seq![line]) =~= seq!['>', ' '] + line + seq!['\n']);
    if b.len() == 0 {
        assert(a + b =~= a);
        assert(quoted(a) + quoted(b) =~= quoted(a));
    } else {
        assert((a + b).drop_last() =~= a + b.drop_last());
        assert((a + b).last() == b.last());
        law_lines_are_quoted_one_by_one(a, line, b.drop_last());
        assert(quoted(a + b) =~= quoted(a) + quoted(b));
    }
}

/// What a search result shows of a chunk: in the first line its file ID, its number, the
/// score and the breadcrumb, and below them line by line, from the top of the chunk, as
/// many of its lines as there are, but no more than three.
#[verifier::spinoff_prover]
#[verifier::rlimit(30)]
pub proof fn law_result_shows_the_first_lines(found: SearchResult)
    ensures
        ({
            let p = found.payload;
            let text = lines(p.text@);
            let crumb = match p.breadcrumb {
                Some(breadcrumb) => breadcrumb@,
                None => "unknown"@,
            };
            let head = p.file_id@ + ":"@ + decimal(p.chunk_number as nat) + "  "@ + found.score@
                + "  "@ + crumb + "\n"@;
            &&& text.len() == 0 ==> blurb(found) == head + "\n"@
            &&& text.len() == 1 ==> blurb(found) == head + "> "@ + text[0] + "\n"@ + "\n"@
            &&& text.len() == 2 ==> blurb(found) == head + "> "@ + text[0] + "\n"@ + "> "@
                + text[1] + "\n"@ + "\n"@
            &&& text.len() >= 3 ==> blurb(found) == head + "> "@ + text[0] + "\n"@ + "> "@
                + text[1] + "\n"@ + "> "@ + text[2] + "\n"@ + "\n"@
        }),
{
    let p = found.payload;
    let text = lines(p.text@);
    let head = p.file_id@ + ":"@ + decimal(p.chunk_number as nat) + "  "@ + found.score@ + "  "@
        + shown_breadcrumb(p) + "\n"@;
    reveal_with_fuel(quoted, 4);
    let shown = at_most(text, PREVIEW_LINES as int);
    assert(blurb(found) == head + quoted(shown) + "\n"@);
    if text.len() == 0 {
        assert(blurb(found) =~= head + "\n"@);
    } else if text.len() == 1 {
        assert(shown.drop_last() =~= Seq::<Seq<char>>::empty());
        assert(blurb(found) =~= head + "> "@ + text[0] + "\n"@ + "\n"@);
    } else if text.len() == 2 {
        assert(shown.drop_last().drop_last() =~= Seq::<Seq<char>>::empty());
        assert(blurb(found) =~= head + "> "@ + text[0] + "\n"@ + "> "@ + text[1] + "\n"@ + "\n"@);
    } else {
        assert(shown.drop_last().drop_last().drop_last() =~= Seq::<Seq<char>>::empty());
        assert(blurb(found) =~= head + "> "@ + text[0] + "\n"@ + "> "@ + text[1] + "\n"@ + "> "@
            + text[2] + "\n"@ + "\n"@);
    }
}

/// Two search results that agree in what the first line shows, and in the first three lines
/// of the chunk, are shown alike, whatever follows in the chunks.
pub proof fn law_later_lines_do_not_show(a: SearchResult, b: SearchResult)
    requires
        a.score@ == b.score@,
        a.payload.file_id@ == b.payload.file_id@,
        a.payload.chunk_number == b.payload.chunk_number,
        a.payload.breadcrumb == b.payload.breadcrumb,
        lines(a.payload.text@).len() >= 3,
        lines(b.payload.text@).len() >= 3,
        lines(a.payload.text@)[0] == lines(b.payload.text@)[0],
        lines(a.payload.text@)[1] == lines(b.payload.text@)[1],
        lines(a.payload.text@)[2] == lines(b.payload.text@)[2],
    ensures
        blurb(a) == blurb(b),
{
    law_result_shows_the_first_lines(a);
    law_result_shows_the_first_lines(b);
}

/// Search results are shown one after the other, in the order in which they were found,
/// and none is left out.
pub proof fn law_all_results_are_shown(a: Seq<SearchResult>, found: SearchResult, b: Seq<SearchResult>)
    ensures
        blurbs(Seq::empty()) == Seq::<char>::empty(),
        blurbs(seq![found]) == blurb(found),
        blurbs(a + b) == blurbs(a) + blurbs(b),
    decreases b.len(),
{
    reveal_with_fuel(blurbs, 2);
    assert(seq![found].drop_last() =~= Seq::<SearchResult>::empty());
    assert(blurbs(seq![found]) =~= blurb(found));
    if b.len() == 0 {
        assert(a + b =~= a);
        assert(blurbs(a) + blurbs(b) =~= blurbs(a));
    } else {
        assert((a + b).drop_last() =~= a + b.drop_last());
        assert((a + b).last() == b.last());
        law_all_results_are_shown(a, found, b.drop_last());
        assert(blurbs(a + b) =~= blurbs(a) + blurbs(b));
    }
}

/// What is shown of a chunk: its ID and number, how many there are, its breadcrumb, its
/// catalog and path, the full path if one is given, its first and last line and its type,
/// and behind a blank line all lines of its text, quoted.
#[verifier::spinoff_prover]
#[verifier::rlimit(30)]
pub proof fn law_view_shows_the_whole_chunk(
    file_id: Seq<char>,
    p: PointPayload,
    full_path: Option<Seq<char>>,
)
    ensures
        ({
            let crumb = match p.breadcrumb {
                Some(breadcrumb) => breadcrumb@,
                None => "unknown"@,
            };
            let number = decimal(p.chunk_number as nat);
            let title = file_id + ":"@ + number + " ("@ + number + "/"@ + decimal(
                p.chunk_count as nat,
            ) + ") "@ + crumb + "\n"@;
            let source = "Source: "@ + p.catalog@ + ":"@ + p.relative_path@ + "\n"@;
            let path = match full_path {
                Some(path) => "Full path: "@ + path + "\n"@,
                None => Seq::empty(),
            };
            let range = "Lines: "@ + decimal(p.start_line as nat) + "-"@ + decimal(
                p.end_line as nat,
            ) + "\n"@;
            let kind = "Type: "@ + p.chunk_type@ + "\n"@;
            chunk_view(file_id, p, full_path) == title + source + path + range + kind + "\n"@
                + quoted(lines(p.text@)) + "\n"@
        }),
{
    reveal_strlit("\n");
    reveal_strlit("\n\n");
    reveal_strlit("\nSource: ");
    reveal_strlit("Source: ");
    reveal_strlit("\nType: ");
    reveal_strlit("Type: ");
    assert("\nSource: "@ =~= "\n"@ + "Source: "@);
    assert("\nType: "@ =~= "\n"@ + "Type: "@);
    assert("\n\n"@ =~= "\n"@ + "\n"@);
    let crumb = shown_breadcrumb(p);
    let number = decimal(p.chunk_number as nat);
    let title = file_id + ":"@ + number + " ("@ + number + "/"@ + decimal(p.chunk_count as nat)
        + ") "@ + crumb + "\n"@;
    let source = "Source: "@ + p.catalog@ + ":"@ + p.relative_path@ + "\n"@;
    let path = full_path_line(full_path);
    let range = "Lines: "@ + decimal(p.start_line as nat) + "-"@ + decimal(p.end_line as nat)
        + "\n"@;
    let kind = "Type: "@ + p.chunk_type@ + "\n"@;
    assert(chunk_view(file_id, p, full_path) =~= title + source + path + range + kind + "\n"@
        + quoted(lines(p.text@)) + "\n"@);
}

/// Which full path is shown: none, that under which the index keeps the file, or that of a
/// configured catalog with the path within it behind a slash.
pub proof fn law_full_paths(catalogs: TextMap<CatalogConfig>, p: PointPayload)
    ensures
        path_shown(PathStyle::Hidden, p) is None,
        path_shown(PathStyle::Stored, p) == Some(p.source_uri@),
        path_shown(PathStyle::Within(&catalogs), p) is Some <==> catalogs@.contains_key(p.catalog@),
        catalogs@.contains_key(p.catalog@) ==> path_shown(PathStyle::Within(&catalogs), p) == Some(
            catalogs@[p.catalog@].path@ + "/"@ + p.relative_path@,
        ),
{
}

/// Chunks are shown one after the other, and none is left out.
pub proof fn law_all_chunks_are_shown(
    file_id: Seq<char>,
    a: Seq<PointResult>,
    point: PointResult,
    b: Seq<PointResult>,
    style: PathStyle,
)
    ensures
        chunk_views(file_id, Seq::empty(), style) == Seq::<char>::empty(),
        chunk_views(file_id, seq![point], style) == chunk_view(
            file_id,
            point.payload,
            path_shown(style, point.payload),
        ),
        chunk_views(file_id, a + b, style) == chunk_views(file_id, a, style) + chunk_views(
            file_id,
            b,
            style,
        ),
    decreases b.len(),
{
    reveal_with_fuel(chunk_views, 2);
    assert(seq![point].drop_last() =~= Seq::<PointResult>::empty());
    assert(chunk_views(file_id, seq![point], style) =~= chunk_view(
        file_id,
        point.payload,
        path_shown(style, point.payload),
    ));
    if b.len() == 0 {
        assert(a + b =~= a);
        assert(chunk_views(file_id, a, style) + chunk_views(file_id, b, style) =~= chunk_views(
            file_id,
            a,
            style,
        ));
    } else {
        assert((a + b).drop_last() =~= a + b.drop_last());
        assert((a + b).last() == b.last());
        law_all_chunks_are_shown(file_id, a, point, b.drop_last(), style);
        assert(chunk_views(file_id, a + b, style) =~= chunk_views(file_id, a, style)
            + chunk_views(file_id, b, style));
    }
}

/// An answer shows the chunks that were found, or, where there are none, the request as it
/// was written with the complaint behind it.
pub proof fn law_answers_show_what_was_found(answer: ViewAnswer, style: PathStyle)
    ensures
        answer.points@.len() > 0 ==> answer_view(answer, style, true) == chunk_views(
            answer.file_id@,
            answer.points@,
            style,
        ) && answer_view(answer, style, false) == chunk_views(
            answer.file_id@,
            answer.points@,
            style,
        ),
        answer.points@.len() == 0 ==> ({
            let asked = answer.file_id@ + match answer.selector {
                ChunkSelector::All => Seq::empty(),
                ChunkSelector::Single(n) => ":"@ + decimal(n as nat),
                ChunkSelector::Range(n, m) => ":"@ + decimal(n as nat) + "-"@ + decimal(m as nat),
                ChunkSelector::ToEnd(n) => ":"@ + decimal(n as nat) + "-end"@,
            };
            &&& answer_view(answer, style, false) == asked + " ERROR: CHUNK NOT FOUND\n"@
            &&& answer_view(answer, style, true) == asked + " ERROR: CHUNK NOT FOUND\n\n"@
        }),
{
}

/// Answers are shown one after the other, and none is left out.
pub proof fn law_all_answers_are_shown(
    a: Seq<ViewAnswer>,
    answer: ViewAnswer,
    b: Seq<ViewAnswer>,
    style: PathStyle,
    assistant: bool,
)
    ensures
        answer_views(Seq::empty(), style, assistant) == Seq::<char>::empty(),
        answer_views(seq![answer], style, assistant) == answer_view(answer, style, assistant),
        answer_views(a + b, style, assistant) == answer_views(a, style, assistant) + answer_views(
            b,
            style,
            assistant,
        ),
{
    let none = Seq::<ViewAnswer>::empty();
    let shown = answer_view(answer, style, assistant);
    assert(seq![answer].drop_last() =~= none);
    assert(answer_views(none, style, assistant) == Seq::<char>::empty());
    assert(Seq::<char>::empty() + shown =~= shown);
    lemma_answers_add_up(a, b, style, assistant);
}

proof fn lemma_answers_add_up(
    a: Seq<ViewAnswer>,
    b: Seq<ViewAnswer>,
    style: PathStyle,
    assistant: bool,
)
    ensures
        answer_views(a + b, style, assistant) == answer_views(a, style, assistant) + answer_views(
            b,
            style,
            assistant,
        ),
    decreases b.len(),
{
    let first = answer_views(a, style, assistant);
    if b.len() == 0 {
        assert(a + b =~= a);
        assert(first + Seq::<char>::empty() =~= first);
    } else {
        let fewer = b.drop_last();
        assert((a + b).drop_last() =~= a + fewer);
        lemma_answers_add_up(a, fewer, style, assistant);
        let middle = answer_views(fewer, style, assistant);
        let shown = answer_view(b.last(), style, assistant);
        assert(first + middle + shown =~= first + (middle + shown));
    }
}

/// The catalogs are named before the chunks, each with its path, in the order given; one
/// that is not configured is passed over, and without any catalog nothing is said.
pub proof fn law_catalogs_are_listed(
    a: Seq<Seq<char>>,
    name: Seq<char>,
    b: Seq<Seq<char>>,
    configured: Map<Seq<char>, CatalogConfig>,
)
    ensures
        preamble_of(Seq::empty(), configured) == Seq::<char>::empty(),
        a.len() > 0 ==> preamble_of(a, configured) == "Catalogs:\n"@ + catalog_entries(
            a,
            configured,
        ) + "\n"@,
        catalog_entries(Seq::empty(), configured) == Seq::<char>::empty(),
        configured.contains_key(name) ==> catalog_entries(seq![name], configured) == "- "@ + name
            + "\n  Catalog path: "@ + configured[name].path@ + "\n"@,
        !configured.contains_key(name) ==> catalog_entries(seq![name], configured) == Seq::<
            char,
        >::empty(),
        catalog_entries(a + b, configured) == catalog_entries(a, configured) + catalog_entries(
            b,
            configured,
        ),
    decreases b.len(),
{
    reveal_with_fuel(catalog_entries, 2);
    assert(seq![name].drop_last() =~= Seq::<Seq<char>>::empty());
    assert(catalog_entries(seq![name], configured) =~= catalog_entry(name, configured));
    if b.len() == 0 {
        assert(a + b =~= a);
        assert(catalog_entries(a, configured) + catalog_entries(b, configured)
            =~= catalog_entries(a, configured));
    } else {
        assert((a + b).drop_last() =~= a + b.drop_last());
        assert((a + b).last() == b.last());
        law_catalogs_are_listed(a, name, b.drop_last(), configured);
        assert(catalog_entries(a + b, configured) =~= catalog_entries(a, configured)
            + catalog_entries(b, configured));
    }
}

/// A catalog is among those named exactly where a chunk of it is shown.
pub proof fn law_which_catalogs_are_named(
    names: Seq<Seq<char>>,
    answers: Seq<ViewAnswer>,
    i: int,
    j: int,
)
    requires
        names_catalogs_of(names, answers),
    ensures
        0 <= i < answers.len() && 0 <= j < answers[i].points@.len() ==> names.contains(
            answers[i].points@[j].payload.catalog@,
        ),
        0 <= i < names.len() ==> exists|k: int, l: int|
            0 <= k < answers.len() && 0 <= l < answers[k].points@.len() && (
            #[trigger] answers[k].points@[l]).payload.catalog@ == names[i],
        0 <= i < names.len() && 0 <= j < names.len() && i != j ==> names[i] != names[j],
{
    if 0 <= i < answers.len() && 0 <= j < answers[i].points@.len() {
        assert(answer_shows(answers[i], answers[i].points@[j].payload.catalog@));
        assert(shows_catalog(answers, answers[i].points@[j].payload.catalog@));
    }
    if 0 <= i < names.len() {
        assert(names.contains(names[i]));
        let k = choose|k: int| 0 <= k < answers.len() && #[trigger] answer_shows(
            answers[k],
            names[i],
        );
        let l = choose|l: int|
            0 <= l < answers[k].points@.len() && (#[trigger] answers[k].points@[l]).payload.catalog@
                == names[i];
        assert(answers[k].points@[l].payload.catalog@ == names[i]);
    }
}

} // verus!
