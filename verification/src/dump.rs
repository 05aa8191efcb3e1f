//! How the pieces that a file is partitioned into are shown.

use vstd::prelude::*;
use vstd::string::*;

use crate::scan::split_lines;
#[allow(unused_imports)]
use crate::scan::lines;
use crate::text::append_decimal;
#[allow(unused_imports)]
use crate::text::{byte_len, decimal, texts};

verus! {

/// A piece of a file, as the partitioner makes it
pub struct Piece {
    pub text: String,
    pub breadcrumb: String,
    pub chunk_type: String,
    pub symbol_name: Option<String>,
    pub start_line: usize,
    pub end_line: usize,
}

/// The number of lines that a piece spans.
pub open spec fn piece_lines(piece: Piece) -> int {
    piece.end_line - piece.start_line + 1
}

/// The size of a piece in bytes, its breadcrumb counted.
pub open spec fn piece_size(piece: Piece) -> int {
    byte_len(piece.breadcrumb@) + byte_len(piece.text@)
}

/// The size of several pieces.
pub open spec fn total_size(pieces: Seq<Piece>) -> int
    decreases pieces.len(),
{
    if pieces.len() == 0 {
        0
    } else {
        total_size(pieces.drop_last()) + piece_size(pieces.last())
    }
}

/// The size below which a piece is called small.
pub const SMALL_SIZE: usize = 200;

/// Whether a piece is larger than it should be.
pub open spec fn is_oversized(piece: Piece, target_size: usize) -> bool {
    byte_len(piece.text@) > target_size
}

/// Whether a piece is small, and not larger than it should be.
pub open spec fn is_undersized(piece: Piece, target_size: usize) -> bool {
    !is_oversized(piece, target_size) && byte_len(piece.text@) < SMALL_SIZE
}

/// How many of several pieces are larger than they should be.
pub open spec fn oversized_count(pieces: Seq<Piece>, target_size: usize) -> nat
    decreases pieces.len(),
{
    if pieces.len() == 0 {
        0
    } else {
        oversized_count(pieces.drop_last(), target_size) + if is_oversized(
            pieces.last(),
            target_size,
        ) {
            1nat
        } else {
            0nat
        }
    }
}

/// How many of several pieces are small.
pub open spec fn undersized_count(pieces: Seq<Piece>, target_size: usize) -> nat
    decreases pieces.len(),
{
    if pieces.len() == 0 {
        0
    } else {
        undersized_count(pieces.drop_last(), target_size) + if is_undersized(
            pieces.last(),
            target_size,
        ) {
            1nat
        } else {
            0nat
        }
    }
}

/// What several pieces come to
pub struct DumpTotals {
    pub total_chars: usize,
    pub oversized: usize,
    pub undersized: usize,
}

/// What several pieces come to
pub fn dump_totals(pieces: &Vec<Piece>, target_size: usize) -> (r: DumpTotals)
    requires
        total_size(pieces@) <= usize::MAX,
    ensures
        r.total_chars == total_size(pieces@),
        r.oversized == oversized_count(pieces@, target_size),
        r.undersized == undersized_count(pieces@, target_size),
{
    let n: usize = pieces.len();
    let mut totals = DumpTotals { total_chars: 0, oversized: 0, undersized: 0 };
    let mut i: usize = 0;
    while i < n
        invariant
            n == pieces@.len(),
            i <= n,
            total_size(pieces@) <= usize::MAX,
            totals.total_chars == total_size(pieces@.take(i as int)),
            totals.oversized == oversized_count(pieces@.take(i as int), target_size),
            totals.undersized == undersized_count(pieces@.take(i as int), target_size),
            totals.oversized <= i,
            totals.undersized <= i,
        decreases n - i,
    {
        let piece = &pieces[i];
        let text_size: usize = piece.text.as_str().len();
        proof {
            let now = pieces@.take(i + 1);
            assert(now.drop_last() =~= pieces@.take(i as int));
            assert(now.last() == *piece);
            lemma_total_size_grows(pieces@, i + 1);
        }
        totals.total_chars = totals.total_chars + (piece.breadcrumb.as_str().len() + text_size);
        if text_size > target_size {
            totals.oversized = totals.oversized + 1;
        } else if text_size < SMALL_SIZE {
            totals.undersized = totals.undersized + 1;
        }
        i = i + 1;
    }
    assert(pieces@.take(n as int) =~= pieces@);
    totals
}

proof fn lemma_total_size_grows(pieces: Seq<Piece>, n: int)
    requires
        0 <= n <= pieces.len(),
    ensures
        0 <= total_size(pieces.take(n)) <= total_size(pieces),
    decreases pieces.len(),
{
    if n == pieces.len() {
        assert(pieces.take(n) =~= pieces);
        if pieces.len() > 0 {
            lemma_total_size_grows(pieces.drop_last(), n - 1);
            assert(pieces.drop_last().take(n - 1) =~= pieces.drop_last());
        }
    } else {
        lemma_total_size_grows(pieces.drop_last(), n);
        assert(pieces.drop_last().take(n) =~= pieces.take(n));
    }
}

// ---------------------------------------------------------------------------
// The summary
// ---------------------------------------------------------------------------

/// The number of lines that a preview shows.
pub const PREVIEW_LINES: usize = 8;

/// The first `n` lines of a text, each moved in.
pub open spec fn indented(list: Seq<Seq<char>>, n: int) -> Seq<char>
    decreases n,
{
    if n <= 0 {
        Seq::empty()
    } else {
        indented(list, n - 1) + "  "@ + list[n - 1] + "\n"@
    }
}

/// The preview of a text: its first lines, and how many more there are.
pub open spec fn preview_of(text: Seq<char>) -> Seq<char> {
    let all = lines(text);
    if all.len() > PREVIEW_LINES {
        indented(all, PREVIEW_LINES as int) + "  ... ("@ + decimal(
            (all.len() - PREVIEW_LINES) as nat,
        ) + " more lines)\n"@
    } else {
        indented(all, all.len() as int)
    }
}

fn preview_text(text: &str) -> (r: String)
    ensures
        r@ == preview_of(text@),
{
    let all = split_lines(text);
    let ghost list = texts(all@);
    let n: usize = if all.len() > PREVIEW_LINES {
        PREVIEW_LINES
    } else {
        all.len()
    };
    let mut out = String::new();
    let mut i: usize = 0;
    assert(out@ =~= indented(list, 0));
    while i < n
        invariant
            list == texts(all@),
            i <= n <= all@.len(),
            out@ == indented(list, i as int),
        decreases n - i,
    {
        out.append("  ");
        out.append(all[i].as_str());
        out.append("\n");
        i = i + 1;
    }
    if all.len() > PREVIEW_LINES {
        out.append("  ... (");
        append_decimal(&mut out, (all.len() - PREVIEW_LINES) as u64);
        out.append(" more lines)\n");
    }
    out
}

/// The line that names the symbol of a piece, if it has one.
pub open spec fn symbol_line(piece: Piece) -> Seq<char> {
    match piece.symbol_name {
        Some(symbol) => "Symbol: "@ + symbol@ + "\n"@,
        None => Seq::empty(),
    }
}

/// The line on a piece that has not the size that it should have.
pub open spec fn size_remark(piece: Piece, target_size: usize) -> Seq<char> {
    if is_oversized(piece, target_size) {
        "⚠️  OVERSIZED (target: "@ + decimal(target_size as nat) + ", actual: "@ + decimal(
            byte_len(piece.text@) as nat,
        ) + ")\n"@
    } else if is_undersized(piece, target_size) {
        "⚡ Small chunk\n"@
    } else {
        Seq::empty()
    }
}

/// A piece with its number, what is known of it and a preview.
pub open spec fn piece_summary(number: nat, piece: Piece, target_size: usize) -> Seq<char> {
    "━━━━━ Chunk "@ + decimal(number) + " ━━━━━\nBreadcrumb: "@
        + piece.breadcrumb@ + "\nType: "@ + piece.chunk_type@ + "\n"@ + symbol_line(piece)
        + "Lines: "@ + decimal(piece.start_line as nat) + "-"@ + decimal(piece.end_line as nat)
        + "\nSize: "@ + decimal(piece_size(piece) as nat) + " chars (text: "@ + decimal(
        byte_len(piece.text@) as nat,
    ) + ", breadcrumb: "@ + decimal(byte_len(piece.breadcrumb@) as nat) + ")\n"@ + size_remark(
        piece,
        target_size,
    ) + "\nPreview (first 8 lines):\n"@ + preview_of(piece.text@) + "\n"@
}

fn symbol_text(piece: &Piece) -> (r: String)
    ensures
        r@ == symbol_line(*piece),
{
    match &piece.symbol_name {
        Some(symbol) => {
            let mut out = "Symbol: ".to_owned();
            out.append(symbol.as_str());
            out.append("\n");
            out
        },
        None => {
            let out = String::new();
            assert(out@ =~= Seq::<char>::empty());
            out
        },
    }
}

fn remark_text(piece: &Piece, target_size: usize) -> (r: String)
    ensures
        r@ == size_remark(*piece, target_size),
{
    let text_size: usize = piece.text.as_str().len();
    if text_size > target_size {
        let mut out = "⚠️  OVERSIZED (target: ".to_owned();
        append_decimal(&mut out, target_size as u64);
        out.append(", actual: ");
        append_decimal(&mut out, text_size as u64);
        out.append(")\n");
        out
    } else if text_size < SMALL_SIZE {
        "⚡ Small chunk\n".to_owned()
    } else {
        let out = String::new();
        assert(out@ =~= Seq::<char>::empty());
        out
    }
}

/// A piece with its number, what is known of it and a preview
pub fn piece_text(number: usize, piece: &Piece, target_size: usize) -> (r: String)
    requires
        piece_size(*piece) <= usize::MAX,
    ensures
        r@ == piece_summary(number as nat, *piece, target_size),
{
    let text_size: usize = piece.text.as_str().len();
    let breadcrumb_size: usize = piece.breadcrumb.as_str().len();
    let symbol = symbol_text(piece);
    let remark = remark_text(piece, target_size);
    let preview = preview_text(piece.text.as_str());
    let mut out = "━━━━━ Chunk ".to_owned();
    append_decimal(&mut out, number as u64);
    out.append(" ━━━━━\nBreadcrumb: ");
    out.append(piece.breadcrumb.as_str());
    out.append("\nType: ");
    out.append(piece.chunk_type.as_str());
    out.append("\n");
    out.append(symbol.as_str());
    out.append("Lines: ");
    append_decimal(&mut out, piece.start_line as u64);
    out.append("-");
    append_decimal(&mut out, piece.end_line as u64);
    out.append("\nSize: ");
    append_decimal(&mut out, (breadcrumb_size + text_size) as u64);
    out.append(" chars (text: ");
    append_decimal(&mut out, text_size as u64);
    out.append(", breadcrumb: ");
    append_decimal(&mut out, breadcrumb_size as u64);
    out.append(")\n");
    out.append(remark.as_str());
    out.append("\nPreview (first 8 lines):\n");
    out.append(preview.as_str());
    out.append("\n");
    out
}

/// What the partitioner's own report says of a file. Numbers with decimals come as text.
pub struct QualityReport {
    /// The score in percent, with one decimal
    pub score: String,
    /// The size below which the report calls a piece small
    pub small_limit: usize,
    pub small_chunks: usize,
    pub min_chars: usize,
    pub max_chars: usize,
    /// The mean size, without decimals
    pub mean_chars: String,
}

/// The first `n` pieces with their numbers, counted from one.
pub open spec fn piece_summaries(pieces: Seq<Piece>, target_size: usize, n: int) -> Seq<char>
    decreases n,
{
    if n <= 0 {
        Seq::empty()
    } else {
        piece_summaries(pieces, target_size, n - 1) + piece_summary(
            n as nat,
            pieces[n - 1],
            target_size,
        )
    }
}

/// All pieces of a file, and what they come to. The mean size comes as text.
pub open spec fn dump_of(
    pieces: Seq<Piece>,
    target_size: usize,
    average: Seq<char>,
    report: QualityReport,
) -> Seq<char> {
    "Total chunks: "@ + decimal(pieces.len()) + "\nTarget size: "@ + decimal(target_size as nat)
        + " chars\n\n"@ + piece_summaries(pieces, target_size, pieces.len() as int)
        + "━━━━━ Summary ━━━━━\nTotal chunks: "@ + decimal(pieces.len())
        + "\nTotal chars: "@ + decimal(total_size(pieces) as nat) + "\nAverage size: "@ + average
        + " chars\nOversized chunks (>"@ + decimal(target_size as nat) + "): "@ + decimal(
        oversized_count(pieces, target_size),
    ) + "\nSmall chunks (<200): "@ + decimal(undersized_count(pieces, target_size))
        + "\nQuality score: "@ + report.score@ + "%\n  Small chunks (<"@ + decimal(
        report.small_limit as nat,
    ) + " chars): "@ + decimal(report.small_chunks as nat) + "\n"@
}

fn summaries_text(pieces: &Vec<Piece>, target_size: usize) -> (r: String)
    requires
        total_size(pieces@) <= usize::MAX,
    ensures
        r@ == piece_summaries(pieces@, target_size, pieces@.len() as int),
{
    let n: usize = pieces.len();
    let mut out = String::new();
    let mut i: usize = 0;
    assert(out@ =~= piece_summaries(pieces@, target_size, 0));
    while i < n
        invariant
            n == pieces@.len(),
            i <= n,
            total_size(pieces@) <= usize::MAX,
            out@ == piece_summaries(pieces@, target_size, i as int),
        decreases n - i,
    {
        proof {
            lemma_total_size_grows(pieces@, i + 1);
            lemma_total_size_grows(pieces@, i as int);
            assert(pieces@.take(i + 1).drop_last() =~= pieces@.take(i as int));
        }
        let piece = piece_text(i + 1, &pieces[i], target_size);
        out.append(piece.as_str());
        i = i + 1;
    }
    out
}

/// All pieces of a file, and what they come to
pub fn dump_text(
    pieces: &Vec<Piece>,
    target_size: usize,
    average: &str,
    report: &QualityReport,
) -> (r: String)
    requires
        total_size(pieces@) <= usize::MAX,
    ensures
        r@ == dump_of(pieces@, target_size, average@, *report),
{
    let totals = dump_totals(pieces, target_size);
    let summaries = summaries_text(pieces, target_size);
    let mut out = "Total chunks: ".to_owned();
    append_decimal(&mut out, pieces.len() as u64);
    out.append("\nTarget size: ");
    append_decimal(&mut out, target_size as u64);
    out.append(" chars\n\n");
    out.append(summaries.as_str());
    out.append("━━━━━ Summary ━━━━━\nTotal chunks: ");
    append_decimal(&mut out, pieces.len() as u64);
    out.append("\nTotal chars: ");
    append_decimal(&mut out, totals.total_chars as u64);
    out.append("\nAverage size: ");
    out.append(average);
    out.append(" chars\nOversized chunks (>");
    append_decimal(&mut out, target_size as u64);
    out.append("): ");
    append_decimal(&mut out, totals.oversized as u64);
    out.append("\nSmall chunks (<200): ");
    append_decimal(&mut out, totals.undersized as u64);
    out.append("\nQuality score: ");
    out.append(report.score.as_str());
    out.append("%\n  Small chunks (<");
    append_decimal(&mut out, report.small_limit as u64);
    out.append(" chars): ");
    append_decimal(&mut out, report.small_chunks as u64);
    out.append("\n");
    out
}

// ---------------------------------------------------------------------------
// The full view
// ---------------------------------------------------------------------------

/// The lines of a file from one to another, counted from one. Those that the file does
/// not have are left out.
pub open spec fn lines_between(list: Seq<Seq<char>>, from: int, to: int) -> Seq<char>
    decreases to - from + 1,
{
    if to < from {
        Seq::empty()
    } else {
        lines_between(list, from, to - 1) + if 0 < to <= list.len() {
            list[to - 1] + "\n"@
        } else {
            Seq::empty()
        }
    }
}

/// A piece with its number and its lines.
pub open spec fn piece_full_view(number: nat, piece: Piece, source: Seq<Seq<char>>) -> Seq<char> {
    "-- [CHUNK "@ + decimal(number) + "] ["@ + decimal(piece_lines(piece) as nat) + " lines] ["@
        + decimal(byte_len(piece.text@) as nat) + " chars] --\n"@ + lines_between(
        source,
        piece.start_line as int,
        piece.end_line as int,
    ) + "\n"@
}

/// The first `n` pieces with their numbers, counted from one, and their lines.
pub open spec fn piece_full_views(pieces: Seq<Piece>, source: Seq<Seq<char>>, n: int) -> Seq<char>
    decreases n,
{
    if n <= 0 {
        Seq::empty()
    } else {
        piece_full_views(pieces, source, n - 1) + piece_full_view(
            n as nat,
            pieces[n - 1],
            source,
        )
    }
}

/// All pieces of a file with their lines, and what the partitioner's report says.
pub open spec fn full_view_of(
    pieces: Seq<Piece>,
    source: Seq<char>,
    report: QualityReport,
) -> Seq<char> {
    piece_full_views(pieces, lines(source), pieces.len() as int)
        + "=== QUALITY SCORE ===\nScore: "@ + report.score@ + "%\nTotal chunks: "@ + decimal(
        pieces.len(),
    ) + "\nSmall chunks (<"@ + decimal(report.small_limit as nat) + " chars): "@ + decimal(
        report.small_chunks as nat,
    ) + "\nChars: "@ + decimal(report.min_chars as nat) + "-"@ + decimal(report.max_chars as nat)
        + " (mean "@ + report.mean_chars@ + ")\n"@
}

/// Whether the lines of a piece can be counted: it does not end before it starts.
pub open spec fn spans_lines(piece: Piece) -> bool {
    piece.start_line <= piece.end_line && piece_lines(piece) <= usize::MAX
}

proof fn lemma_no_lines_behind(list: Seq<Seq<char>>, from: int, mid: int, to: int)
    requires
        from - 1 <= mid <= to,
        mid >= list.len(),
    ensures
        lines_between(list, from, to) == lines_between(list, from, mid),
    decreases to - mid,
{
    if mid < to {
        lemma_no_lines_behind(list, from, mid, to - 1);
        assert(lines_between(list, from, to) =~= lines_between(list, from, to - 1));
    }
}

proof fn lemma_no_lines_before(list: Seq<Seq<char>>, from: int, to: int)
    requires
        from <= to + 1,
        to <= 0,
    ensures
        lines_between(list, from, to) == Seq::<char>::empty(),
    decreases to - from + 1,
{
    if from <= to {
        lemma_no_lines_before(list, from, to - 1);
        assert(lines_between(list, from, to) =~= Seq::<char>::empty());
    }
}

fn lines_text(list: &Vec<String>, from: usize, to: usize) -> (r: String)
    requires
        from <= to,
    ensures
        r@ == lines_between(texts(list@), from as int, to as int),
{
    let ghost all = texts(list@);
    let n: usize = list.len();
    let last: usize = if to < n {
        to
    } else {
        n
    };
    let mut out = String::new();
    let mut i: usize = if from == 0 {
        0
    } else {
        from - 1
    };
    proof {
        if from == 0 {
            lemma_no_lines_before(all, 0, 0);
        }
        assert(out@ =~= lines_between(all, from as int, i as int));
    }
    if i >= last {
        proof {
            if i < to {
                lemma_no_lines_behind(all, from as int, i as int, to as int);
            }
        }
        return out;
    }
    while i < last
        invariant
            all == texts(list@),
            n == list@.len(),
            last <= n,
            i <= last,
            from <= i + 1,
            out@ == lines_between(all, from as int, i as int),
        decreases last - i,
    {
        let ghost before = out@;
        out.append(list[i].as_str());
        out.append("\n");
        i = i + 1;
        assert(out@ =~= before + (all[i - 1] + "\n"@));
    }
    proof {
        if last < to {
            lemma_no_lines_behind(all, from as int, last as int, to as int);
        }
    }
    out
}

fn piece_full_text(number: usize, piece: &Piece, source: &Vec<String>) -> (r: String)
    requires
        spans_lines(*piece),
    ensures
        r@ == piece_full_view(number as nat, *piece, texts(source@)),
{
    let content = lines_text(source, piece.start_line, piece.end_line);
    let mut out = "-- [CHUNK ".to_owned();
    append_decimal(&mut out, number as u64);
    out.append("] [");
    append_decimal(&mut out, (piece.end_line - piece.start_line + 1) as u64);
    out.append(" lines] [");
    append_decimal(&mut out, piece.text.as_str().len() as u64);
    out.append(" chars] --\n");
    out.append(content.as_str());
    out.append("\n");
    out
}

/// All pieces of a file with their lines, and what the partitioner's report says
pub fn full_view_text(pieces: &Vec<Piece>, source: &str, report: &QualityReport) -> (r: String)
    requires
        forall|i: int| 0 <= i < pieces@.len() ==> spans_lines(#[trigger] pieces@[i]),
    ensures
        r@ == full_view_of(pieces@, source@, *report),
{
    let list = split_lines(source);
    let ghost all = lines(source@);
    let n: usize = pieces.len();
    let mut out = String::new();
    let mut i: usize = 0;
    assert(out@ =~= piece_full_views(pieces@, all, 0));
    while i < n
        invariant
            n == pieces@.len(),
            i <= n,
            all == texts(list@),
            forall|k: int| 0 <= k < pieces@.len() ==> spans_lines(#[trigger] pieces@[k]),
            out@ == piece_full_views(pieces@, all, i as int),
        decreases n - i,
    {
        let piece = piece_full_text(i + 1, &pieces[i], &list);
        out.append(piece.as_str());
        i = i + 1;
    }
    out.append("=== QUALITY SCORE ===\nScore: ");
    out.append(report.score.as_str());
    out.append("%\nTotal chunks: ");
    append_decimal(&mut out, n as u64);
    out.append("\nSmall chunks (<");
    append_decimal(&mut out, report.small_limit as u64);
    out.append(" chars): ");
    append_decimal(&mut out, report.small_chunks as u64);
    out.append("\nChars: ");
    append_decimal(&mut out, report.min_chars as u64);
    out.append("-");
    append_decimal(&mut out, report.max_chars as u64);
    out.append(" (mean ");
    out.append(report.mean_chars.as_str());
    out.append(")\n");
    out
}

// ---------------------------------------------------------------------------
// Laws
// ---------------------------------------------------------------------------

/// A piece is too large where its text has more bytes than the target, and small where it
/// is not too large and has fewer than two hundred; its size counts the breadcrumb too.
pub proof fn law_sizes_of_pieces(piece: Piece, target_size: usize)
    ensures
        is_oversized(piece, target_size) <==> byte_len(piece.text@) > target_size,
        is_undersized(piece, target_size) <==> byte_len(piece.text@) <= target_size && byte_len(
            piece.text@,
        ) < 200,
        piece_size(piece) == byte_len(piece.text@) + byte_len(piece.breadcrumb@),
        piece_lines(piece) == piece.end_line - piece.start_line + 1,
{
}

/// Pieces are counted one by one: several pieces come to what each of them comes to.
pub proof fn law_totals_add_up(a: Seq<Piece>, piece: Piece, b: Seq<Piece>, target_size: usize)
    ensures
        total_size(Seq::empty()) == 0,
        oversized_count(Seq::empty(), target_size) == 0,
        undersized_count(Seq::empty(), target_size) == 0,
        total_size(seq![piece]) == byte_len(piece.text@) + byte_len(piece.breadcrumb@),
        oversized_count(seq![piece], target_size) == if byte_len(piece.text@) > target_size {
            1nat
        } else {
            0nat
        },
        undersized_count(seq![piece], target_size) == if byte_len(piece.text@) <= target_size
            && byte_len(piece.text@) < 200 {
            1nat
        } else {
            0nat
        },
        total_size(a + b) == total_size(a) + total_size(b),
        oversized_count(a + b, target_size) == oversized_count(a, target_size) + oversized_count(
            b,
            target_size,
        ),
        undersized_count(a + b, target_size) == undersized_count(a, target_size)
            + undersized_count(b, target_size),
    decreases b.len(),
{
    reveal_with_fuel(total_size, 2);
    reveal_with_fuel(oversized_count, 2);
    reveal_with_fuel(undersized_count, 2);
    assert(seq![piece].drop_last() =~= Seq::<Piece>::empty());
    if b.len() == 0 {
        assert(a + b =~= a);
    } else {
        assert((a + b).drop_last() =~= a + b.drop_last());
        assert((a + b).last() == b.last());
        law_totals_add_up(a, piece, b.drop_last(), target_size);
    }
}

/// A preview shows the first eight lines of a text, each moved in, and says how many more
/// there are where there are more.
pub proof fn law_previews_show_eight_lines(text: Seq<char>, list: Seq<Seq<char>>, n: int)
    ensures
        lines(text).len() <= 8 ==> preview_of(text) == indented(
            lines(text),
            lines(text).len() as int,
        ),
        lines(text).len() > 8 ==> preview_of(text) == indented(lines(text), 8) + "  ... ("@
            + decimal((lines(text).len() - 8) as nat) + " more lines)\n"@,
        indented(list, 0) == Seq::<char>::empty(),
        n >= 0 ==> indented(list, n + 1) == indented(list, n) + "  "@ + list[n] + "\n"@,
{
}

/// The lines of a file are shown from one to another, both among them, each with a line
/// feed behind it; those that the file does not have are left out.
pub proof fn law_lines_are_shown_from_one_to_another(list: Seq<Seq<char>>, from: int, to: int)
    requires
        from <= to + 1,
    ensures
        lines_between(list, to + 1, to) == Seq::<char>::empty(),
        0 < to + 1 <= list.len() ==> lines_between(list, from, to + 1) == lines_between(
            list,
            from,
            to,
        ) + (list[to] + "\n"@),
        to + 1 <= 0 || to + 1 > list.len() ==> lines_between(list, from, to + 1) == lines_between(
            list,
            from,
            to,
        ),
{
    let before = lines_between(list, from, to);
    assert(before + Seq::<char>::empty() =~= before);
}

/// Pieces are shown from the first on, numbered from one, and none is left out.
pub proof fn law_pieces_are_shown_in_order(
    pieces: Seq<Piece>,
    source: Seq<Seq<char>>,
    target_size: usize,
    n: int,
)
    ensures
        piece_summaries(pieces, target_size, 0) == Seq::<char>::empty(),
        n >= 0 ==> piece_summaries(pieces, target_size, n + 1) == piece_summaries(
            pieces,
            target_size,
            n,
        ) + piece_summary((n + 1) as nat, pieces[n], target_size),
        piece_full_views(pieces, source, 0) == Seq::<char>::empty(),
        n >= 0 ==> piece_full_views(pieces, source, n + 1) == piece_full_views(pieces, source, n)
            + piece_full_view((n + 1) as nat, pieces[n], source),
{
}

/// What is shown of a piece: its number, breadcrumb, type and symbol, its lines and sizes,
/// whether it is too large or small, and a preview; or, in full, the lines of the file that
/// it spans.
#[verifier::spinoff_prover]
#[verifier::rlimit(30)]
pub proof fn law_what_is_shown_of_a_piece(
    number: nat,
    piece: Piece,
    target_size: usize,
    source: Seq<Seq<char>>,
)
    ensures
        ({
            let text_size = byte_len(piece.text@);
            let symbol = match piece.symbol_name {
                Some(symbol) => "Symbol: "@ + symbol@ + "\n"@,
                None => Seq::empty(),
            };
            let remark = if text_size > target_size {
                "⚠️  OVERSIZED (target: "@ + decimal(target_size as nat) + ", actual: "@ + decimal(
                    text_size as nat,
                ) + ")\n"@
            } else if text_size < 200 {
                "⚡ Small chunk\n"@
            } else {
                Seq::empty()
            };
            piece_summary(number, piece, target_size) == "━━━━━ Chunk "@ + decimal(number)
                + " ━━━━━\nBreadcrumb: "@ + piece.breadcrumb@ + "\nType: "@ + piece.chunk_type@
                + "\n"@ + symbol + "Lines: "@ + decimal(piece.start_line as nat) + "-"@ + decimal(
                piece.end_line as nat,
            ) + "\nSize: "@ + decimal((text_size + byte_len(piece.breadcrumb@)) as nat)
                + " chars (text: "@ + decimal(text_size as nat) + ", breadcrumb: "@ + decimal(
                byte_len(piece.breadcrumb@) as nat,
            ) + ")\n"@ + remark + "\nPreview (first 8 lines):\n"@ + preview_of(piece.text@)
                + "\n"@
        }),
        piece_full_view(number, piece, source) == "-- [CHUNK "@ + decimal(number) + "] ["@
            + decimal((piece.end_line - piece.start_line + 1) as nat) + " lines] ["@ + decimal(
            byte_len(piece.text@) as nat,
        ) + " chars] --\n"@ + lines_between(
            source,
            piece.start_line as int,
            piece.end_line as int,
        ) + "\n"@,
{
}

/// A dump and a full view cover all pieces and end with what they come to and what the
/// partitioner's report says.
#[verifier::spinoff_prover]
#[verifier::rlimit(30)]
pub proof fn law_dumps_cover_all_pieces(
    pieces: Seq<Piece>,
    target_size: usize,
    average: Seq<char>,
    source: Seq<char>,
    report: QualityReport,
)
    ensures
        dump_of(pieces, target_size, average, report) == "Total chunks: "@ + decimal(pieces.len())
            + "\nTarget size: "@ + decimal(target_size as nat) + " chars\n\n"@ + piece_summaries(
            pieces,
            target_size,
            pieces.len() as int,
        ) + "━━━━━ Summary ━━━━━\nTotal chunks: "@ + decimal(pieces.len()) + "\nTotal chars: "@
            + decimal(total_size(pieces) as nat) + "\nAverage size: "@ + average
            + " chars\nOversized chunks (>"@ + decimal(target_size as nat) + "): "@ + decimal(
            oversized_count(pieces, target_size),
        ) + "\nSmall chunks (<200): "@ + decimal(undersized_count(pieces, target_size))
            + "\nQuality score: "@ + report.score@ + "%\n  Small chunks (<"@ + decimal(
            report.small_limit as nat,
        ) + " chars): "@ + decimal(report.small_chunks as nat) + "\n"@,
        full_view_of(pieces, source, report) == piece_full_views(
            pieces,
            lines(source),
            pieces.len() as int,
        ) + "=== QUALITY SCORE ===\nScore: "@ + report.score@ + "%\nTotal chunks: "@ + decimal(
            pieces.len(),
        ) + "\nSmall chunks (<"@ + decimal(report.small_limit as nat) + " chars): "@ + decimal(
            report.small_chunks as nat,
        ) + "\nChars: "@ + decimal(report.min_chars as nat) + "-"@ + decimal(
            report.max_chars as nat,
        ) + " (mean "@ + report.mean_chars@ + ")\n"@,
{
}

} // verus!
