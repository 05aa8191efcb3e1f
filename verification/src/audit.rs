//! An audit of chunking: which files are looked at, and what is found in them.

use rand::seq::IndexedRandom;
use vstd::prelude::*;
use vstd::string::*;

use crate::dump::Piece;
#[allow(unused_imports)]
use crate::dump::{piece_lines, spans_lines};
use crate::order::{arrange, stable_order};
#[allow(unused_imports)]
use crate::order::{
    arranged, is_stable_order, law_order_has_all_places, law_what_a_stable_order_is,
};
use crate::text::append_decimal;
#[allow(unused_imports)]
use crate::text::decimal;

verus! {

// ---------------------------------------------------------------------------
// The sample
// ---------------------------------------------------------------------------

/// Whether places are distinct and lie below a bound.
pub open spec fn are_distinct_places(places: Seq<usize>, bound: int) -> bool {
    &&& places.no_duplicates()
    &&& forall|i: int| 0 <= i < places.len() ==> (#[trigger] places[i]) < bound
}

/// How many items are drawn from a list of some length.
pub open spec fn drawn_count(len: nat, count: usize) -> nat {
    if count < len {
        count as nat
    } else {
        len
    }
}

/// Whether items come each from another place of a list.
pub open spec fn is_draw_from(items: Seq<usize>, drawn: Seq<usize>) -> bool {
    exists|places: Seq<usize>|
        are_distinct_places(places, items.len() as int) && drawn == #[trigger] arranged(
            items,
            places,
        )
}

/// Items that `rand::seq::IndexedRandom::choose_multiple` draws at random from a list,
/// with the generator of the thread: as many as asked for, or all where there are fewer,
/// each from another place of the list. The generator is not asked for all of a list that
/// is longer than a 32-bit number can count.
#[verifier::external_body]
fn draw(items: &Vec<usize>, count: usize) -> (r: Vec<usize>)
    requires
        items@.len() <= u32::MAX || count < items@.len(),
    ensures
        r@.len() == drawn_count(items@.len(), count),
        is_draw_from(items@, r@),
{
    items.choose_multiple(&mut rand::rng(), count).copied().collect()
}

/// Some of the files, drawn at random: as many as asked for, or all where there are
/// fewer, and none twice. Without a file there is nothing to draw.
pub fn sample_files(files: Vec<String>, count: usize) -> (r: Result<Vec<String>, String>)
    requires
        files@.len() <= u32::MAX || count < files@.len(),
    ensures
        match r {
            Ok(sample) => {
                &&& files@.len() > 0
                &&& sample@.len() == drawn_count(files@.len(), count)
                &&& exists|places: Seq<usize>|
                    are_distinct_places(places, files@.len() as int) && sample@
                        == #[trigger] arranged(files@, places)
            },
            Err(message) => files@.len() == 0 && message@ == "No TypeScript files found"@,
        },
{
    let n: usize = files.len();
    if n == 0 {
        return Err("No TypeScript files found".to_owned());
    }
    let mut all: Vec<usize> = Vec::new();
    let mut i: usize = 0;
    while i < n
        invariant
            i <= n,
            all@.len() == i,
            forall|k: int| 0 <= k < i ==> #[trigger] all@[k] == k,
        decreases n - i,
    {
        all.push(i);
        i = i + 1;
    }
    let places = draw(&all, count);
    proof {
        let drawn = choose|drawn: Seq<usize>|
            are_distinct_places(drawn, all@.len() as int) && places@ == #[trigger] arranged(
                all@,
                drawn,
            );
        assert(places@ =~= drawn);
    }
    let sample = arrange(files, &places);
    Ok(sample)
}

// ---------------------------------------------------------------------------
// The findings
// ---------------------------------------------------------------------------

/// What an audit found in a file
pub struct Finding {
    /// The path of the file as it is shown
    pub path: String,
    /// What the partitioner's report says of it, in a line
    pub report: String,
    pub pieces: Vec<Piece>,
    /// A number by which the scores of files are ordered
    pub rank: usize,
}

/// The number by which each of several findings is ordered.
pub open spec fn ranks(findings: Seq<Finding>) -> Seq<usize> {
    findings.map_values(|f: Finding| f.rank)
}

/// The findings with the worst score first. Those with equal scores stay in their order.
pub fn worst_first(findings: Vec<Finding>) -> (r: Vec<Finding>)
    ensures
        exists|order: Seq<usize>|
            is_stable_order(ranks(findings@), order) && r@ == #[trigger] arranged(
                findings@,
                order,
            ),
{
    let n: usize = findings.len();
    let mut keys: Vec<usize> = Vec::new();
    let mut i: usize = 0;
    while i < n
        invariant
            n == findings@.len(),
            i <= n,
            keys@ == ranks(findings@.take(i as int)),
        decreases n - i,
    {
        keys.push(findings[i].rank);
        i = i + 1;
        assert(keys@ =~= ranks(findings@.take(i as int)));
    }
    assert(findings@.take(n as int) =~= findings@);
    let order = stable_order(&keys);
    arrange(findings, &order)
}

/// The first `n` findings in one line each.
pub open spec fn finding_lines(findings: Seq<Finding>, n: int) -> Seq<char>
    decreases n,
{
    if n <= 0 {
        Seq::empty()
    } else {
        finding_lines(findings, n - 1) + decimal(n as nat) + ". "@ + findings[n - 1].report@ + " "@
            + findings[n - 1].path@ + "\n"@
    }
}

/// The number of lines below which a piece is tiny.
pub const TINY_LINES: usize = 20;

/// The number of files that are shown in detail.
pub const WORST_SHOWN: usize = 3;

/// The line on a piece with its number.
pub open spec fn piece_line(number: nat, piece: Piece) -> Seq<char> {
    "  Chunk "@ + decimal(number) + ": "@ + decimal(piece_lines(piece) as nat) + " lines ("@
        + decimal(piece.start_line as nat) + "-"@ + decimal(piece.end_line as nat) + ") "@
        + if piece_lines(piece) < TINY_LINES {
        " [TINY]"@
    } else {
        ""@
    } + " - "@ + piece.breadcrumb@ + "\n"@
}

/// The lines on the first `n` pieces of a file.
pub open spec fn piece_lines_text(pieces: Seq<Piece>, n: int) -> Seq<char>
    decreases n,
{
    if n <= 0 {
        Seq::empty()
    } else {
        piece_lines_text(pieces, n - 1) + piece_line(n as nat, pieces[n - 1])
    }
}

/// A finding in detail.
pub open spec fn finding_detail(finding: Finding) -> Seq<char> {
    "--- "@ + finding.path@ + " ---\n"@ + finding.report@ + "\n"@ + piece_lines_text(
        finding.pieces@,
        finding.pieces@.len() as int,
    ) + "\n"@
}

/// The first `n` findings in detail.
pub open spec fn finding_details(findings: Seq<Finding>, n: int) -> Seq<char>
    decreases n,
{
    if n <= 0 {
        Seq::empty()
    } else {
        finding_details(findings, n - 1) + finding_detail(findings[n - 1])
    }
}

/// All findings in one line each, and the first ones in detail.
pub open spec fn audit_report_of(findings: Seq<Finding>) -> Seq<char> {
    "\n=== Quality Scores (worst first) ===\n\n"@ + finding_lines(findings, findings.len() as int)
        + "\n=== Top 3 Worst Files ===\n\n"@ + finding_details(
        findings,
        if findings.len() < WORST_SHOWN {
            findings.len() as int
        } else {
            WORST_SHOWN as int
        },
    )
}

/// Whether the lines of all pieces of a finding can be counted.
pub open spec fn spans_all(finding: Finding) -> bool {
    forall|i: int| 0 <= i < finding.pieces@.len() ==> spans_lines(#[trigger] finding.pieces@[i])
}

fn lines_of_findings(findings: &Vec<Finding>) -> (r: String)
    ensures
        r@ == finding_lines(findings@, findings@.len() as int),
{
    let n: usize = findings.len();
    let mut out = String::new();
    let mut i: usize = 0;
    assert(out@ =~= finding_lines(findings@, 0));
    while i < n
        invariant
            n == findings@.len(),
            i <= n,
            out@ == finding_lines(findings@, i as int),
        decreases n - i,
    {
        append_decimal(&mut out, (i + 1) as u64);
        out.append(". ");
        out.append(findings[i].report.as_str());
        out.append(" ");
        out.append(findings[i].path.as_str());
        out.append("\n");
        i = i + 1;
    }
    out
}

fn line_of_piece(number: usize, piece: &Piece) -> (r: String)
    requires
        spans_lines(*piece),
    ensures
        r@ == piece_line(number as nat, *piece),
{
    let count: usize = piece.end_line - piece.start_line + 1;
    let mut out = "  Chunk ".to_owned();
    append_decimal(&mut out, number as u64);
    out.append(": ");
    append_decimal(&mut out, count as u64);
    out.append(" lines (");
    append_decimal(&mut out, piece.start_line as u64);
    out.append("-");
    append_decimal(&mut out, piece.end_line as u64);
    out.append(") ");
    out.append(
        if count < TINY_LINES {
            " [TINY]"
        } else {
            ""
        },
    );
    out.append(" - ");
    out.append(piece.breadcrumb.as_str());
    out.append("\n");
    out
}

fn detail_of(finding: &Finding) -> (r: String)
    requires
        spans_all(*finding),
    ensures
        r@ == finding_detail(*finding),
{
    let n: usize = finding.pieces.len();
    let mut list = String::new();
    let mut i: usize = 0;
    assert(list@ =~= piece_lines_text(finding.pieces@, 0));
    while i < n
        invariant
            n == finding.pieces@.len(),
            i <= n,
            spans_all(*finding),
            list@ == piece_lines_text(finding.pieces@, i as int),
        decreases n - i,
    {
        assert(spans_lines(finding.pieces@[i as int]));
        let line = line_of_piece(i + 1, &finding.pieces[i]);
        list.append(line.as_str());
        i = i + 1;
    }
    let mut out = "--- ".to_owned();
    out.append(finding.path.as_str());
    out.append(" ---\n");
    out.append(finding.report.as_str());
    out.append("\n");
    out.append(list.as_str());
    out.append("\n");
    out
}

/// All findings in one line each, and the first ones in detail. Only of those that are
/// shown in detail are the lines counted.
pub fn audit_report(findings: &Vec<Finding>) -> (r: String)
    requires
        forall|i: int|
            0 <= i < findings@.len() && i < WORST_SHOWN ==> spans_all(#[trigger] findings@[i]),
    ensures
        r@ == audit_report_of(findings@),
{
    let n: usize = if findings.len() < WORST_SHOWN {
        findings.len()
    } else {
        WORST_SHOWN
    };
    let mut details = String::new();
    let mut i: usize = 0;
    assert(details@ =~= finding_details(findings@, 0));
    while i < n
        invariant
            i <= n <= findings@.len(),
            n <= WORST_SHOWN,
            forall|k: int|
                0 <= k < findings@.len() && k < WORST_SHOWN ==> spans_all(#[trigger] findings@[k]),
            details@ == finding_details(findings@, i as int),
        decreases n - i,
    {
        let detail = detail_of(&findings[i]);
        details.append(detail.as_str());
        i = i + 1;
    }
    let list = lines_of_findings(findings);
    let mut out = "\n=== Quality Scores (worst first) ===\n\n".to_owned();
    out.append(list.as_str());
    out.append("\n=== Top 3 Worst Files ===\n\n");
    out.append(details.as_str());
    out
}

// ---------------------------------------------------------------------------
// Laws
// ---------------------------------------------------------------------------

/// The worst file comes first: scores never fall from one finding to the next, findings
/// with equal scores stay in their order, and each finding is there.
pub proof fn law_findings_come_worst_first(
    findings: Seq<Finding>,
    order: Seq<usize>,
    i: int,
    j: int,
)
    requires
        findings.len() <= usize::MAX,
        is_stable_order(ranks(findings), order),
        0 <= i < j < findings.len(),
    ensures
        ({
            let sorted = arranged(findings, order);
            &&& sorted.len() == findings.len()
            &&& sorted[i].rank <= sorted[j].rank
            &&& sorted[i].rank == sorted[j].rank ==> order[i] < order[j]
            &&& sorted[i] == findings[order[i] as int]
            &&& sorted.contains(findings[i])
        }),
{
    let keys = ranks(findings);
    law_what_a_stable_order_is(keys, order, i, j);
    law_order_has_all_places(keys, order);
    assert(order[j] < keys.len());
    let k = choose|k: int| 0 <= k < order.len() && order[k] == i as usize;
    assert(arranged(findings, order)[k] == findings[i]);
}

/// As many files are drawn as were asked for, or all where there are fewer; each is one of
/// the files, and none comes from the place of another.
pub proof fn law_samples_are_drawn_from_the_files(
    files: Seq<String>,
    places: Seq<usize>,
    count: usize,
    i: int,
    j: int,
)
    requires
        are_distinct_places(places, files.len() as int),
        places.len() == drawn_count(files.len(), count),
        0 <= i < j < places.len(),
    ensures
        places.len() <= count,
        places.len() <= files.len(),
        places.len() == count || places.len() == files.len(),
        places[i] != places[j],
        files.contains(arranged(files, places)[i]),
{
    assert(places[i] < files.len());
    assert(files[places[i] as int] == arranged(files, places)[i]);
}

/// The list has a line for each finding from the first on, numbered from one, with its
/// report and its path.
pub proof fn law_findings_are_listed_in_order(findings: Seq<Finding>, n: int)
    ensures
        finding_lines(findings, 0) == Seq::<char>::empty(),
        n >= 0 ==> finding_lines(findings, n + 1) == finding_lines(findings, n) + decimal(
            (n + 1) as nat,
        ) + ". "@ + findings[n].report@ + " "@ + findings[n].path@ + "\n"@,
        finding_details(findings, 0) == Seq::<char>::empty(),
        n >= 0 ==> finding_details(findings, n + 1) == finding_details(findings, n)
            + finding_detail(findings[n]),
{
}

/// A report lists all findings, and shows the first three in detail, or all where there are
/// fewer.
pub proof fn law_reports_show_three_findings(findings: Seq<Finding>)
    ensures
        findings.len() >= 3 ==> audit_report_of(findings)
            == "\n=== Quality Scores (worst first) ===\n\n"@ + finding_lines(
            findings,
            findings.len() as int,
        ) + "\n=== Top 3 Worst Files ===\n\n"@ + finding_details(findings, 3),
        findings.len() < 3 ==> audit_report_of(findings)
            == "\n=== Quality Scores (worst first) ===\n\n"@ + finding_lines(
            findings,
            findings.len() as int,
        ) + "\n=== Top 3 Worst Files ===\n\n"@ + finding_details(
            findings,
            findings.len() as int,
        ),
{
}

/// A finding in detail names its file and its report and then each piece from the first on,
/// with its number, the number of its lines, its first and last line and its breadcrumb;
/// one of fewer than twenty lines is called tiny.
pub proof fn law_details_show_each_piece(finding: Finding, n: int)
    requires
        0 <= n < finding.pieces@.len(),
    ensures
        finding_detail(finding) == "--- "@ + finding.path@ + " ---\n"@ + finding.report@ + "\n"@
            + piece_lines_text(finding.pieces@, finding.pieces@.len() as int) + "\n"@,
        piece_lines_text(finding.pieces@, 0) == Seq::<char>::empty(),
        ({
            let piece = finding.pieces@[n];
            let count = piece.end_line - piece.start_line + 1;
            let remark = if count < 20 {
                " [TINY]"@
            } else {
                ""@
            };
            piece_lines_text(finding.pieces@, n + 1) == piece_lines_text(finding.pieces@, n) + (
            "  Chunk "@ + decimal((n + 1) as nat) + ": "@ + decimal(count as nat) + " lines ("@
                + decimal(piece.start_line as nat) + "-"@ + decimal(piece.end_line as nat) + ") "@
                + remark + " - "@ + piece.breadcrumb@ + "\n"@)
        }),
{
}

} // verus!
