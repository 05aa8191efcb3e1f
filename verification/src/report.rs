//! What is said of a crawl to the people who run it.

use vstd::prelude::*;
use vstd::string::*;

use crate::text::append_decimal;
#[allow(unused_imports)]
use crate::text::{decimal, texts};
use crate::watcher::CrawlStats;

verus! {

// ---------------------------------------------------------------------------
// After a crawl
// ---------------------------------------------------------------------------

/// The summary of a crawl. The time it took and the chunks per second come as text.
pub open spec fn summary_of(
    stats: CrawlStats,
    total_time: Seq<char>,
    rate: Seq<char>,
    files_deleted: usize,
) -> Seq<char> {
    "✅ Crawl complete!\n\n📊 Summary:\n  Total time: "@ + total_time
        + "\n  New files indexed: "@ + decimal(stats.new_files as nat)
        + "\n  Changed files re-indexed: "@ + decimal(stats.changed_files as nat)
        + "\n  Unchanged files skipped: "@ + decimal(stats.unchanged_files as nat)
        + "\n  Orphaned files deleted: "@ + decimal(stats.deleted_files as nat)
        + "\n\nTotal chunks indexed: "@ + decimal(stats.chunks_embedded as nat)
        + "\nOverall rate: "@ + rate + " chunks/sec\nFiles deleted from DB: "@ + decimal(
        files_deleted as nat,
    ) + "\n\n"@
}

/// The summary of a crawl. The time it took and the chunks per second come as text.
pub fn crawl_summary(
    stats: &CrawlStats,
    total_time: &str,
    rate: &str,
    files_deleted: usize,
) -> (r: String)
    ensures
        r@ == summary_of(*stats, total_time@, rate@, files_deleted),
{
    let mut out = "✅ Crawl complete!\n\n📊 Summary:\n  Total time: ".to_owned();
    out.append(total_time);
    out.append("\n  New files indexed: ");
    append_decimal(&mut out, stats.new_files as u64);
    out.append("\n  Changed files re-indexed: ");
    append_decimal(&mut out, stats.changed_files as u64);
    out.append("\n  Unchanged files skipped: ");
    append_decimal(&mut out, stats.unchanged_files as u64);
    out.append("\n  Orphaned files deleted: ");
    append_decimal(&mut out, stats.deleted_files as u64);
    out.append("\n\nTotal chunks indexed: ");
    append_decimal(&mut out, stats.chunks_embedded as u64);
    out.append("\nOverall rate: ");
    out.append(rate);
    out.append(" chunks/sec\nFiles deleted from DB: ");
    append_decimal(&mut out, files_deleted as u64);
    out.append("\n\n");
    out
}

/// The number of files that a warning report lists by name.
pub const LISTED_WARNINGS: usize = 20;

/// The first `n` files of a list, one in each line.
pub open spec fn file_lines(files: Seq<Seq<char>>, n: int) -> Seq<char>
    decreases n,
{
    if n <= 0 {
        Seq::empty()
    } else {
        file_lines(files, n - 1) + "  - "@ + files[n - 1] + "\n"@
    }
}

/// The report on the files with warnings: the first ones by name, and how many more
/// there are. Nothing is said where there are none.
pub open spec fn warning_report_of(files: Seq<Seq<char>>) -> Seq<char> {
    let n = files.len();
    let listed = if n > LISTED_WARNINGS {
        LISTED_WARNINGS as int
    } else {
        n as int
    };
    if n == 0 {
        Seq::empty()
    } else {
        "Chunking warnings in "@ + decimal(n) + if n == 1 {
            " file:\n"@
        } else {
            " files:\n"@
        } + file_lines(files, listed) + if n > LISTED_WARNINGS {
            "  ... and "@ + decimal((n - LISTED_WARNINGS) as nat) + " more\n"@
        } else {
            Seq::empty()
        } + "\n"@
    }
}

/// The report on the files with warnings
pub fn warning_report(files: &Vec<String>) -> (r: String)
    ensures
        r@ == warning_report_of(texts(files@)),
{
    let n: usize = files.len();
    let ghost names = texts(files@);
    let mut out = String::new();
    if n == 0 {
        assert(out@ =~= Seq::<char>::empty());
        return out;
    }
    out.append("Chunking warnings in ");
    append_decimal(&mut out, n as u64);
    out.append(
        if n == 1 {
            " file:\n"
        } else {
            " files:\n"
        },
    );
    let listed: usize = if n > LISTED_WARNINGS {
        LISTED_WARNINGS
    } else {
        n
    };
    let ghost head = "Chunking warnings in "@ + decimal(n as nat) + if n == 1 {
        " file:\n"@
    } else {
        " files:\n"@
    };
    let mut i: usize = 0;
    assert(out@ =~= head + file_lines(names, 0));
    while i < listed
        invariant
            n == files@.len(),
            names == texts(files@),
            i <= listed <= n,
            out@ == head + file_lines(names, i as int),
        decreases listed - i,
    {
        out.append("  - ");
        out.append(files[i].as_str());
        out.append("\n");
        i = i + 1;
        assert(out@ =~= head + file_lines(names, i as int));
    }
    if n > LISTED_WARNINGS {
        let ghost before = out@;
        out.append("  ... and ");
        append_decimal(&mut out, (n - LISTED_WARNINGS) as u64);
        out.append(" more\n");
        assert(out@ =~= before + ("  ... and "@ + decimal((n - LISTED_WARNINGS) as nat)
            + " more\n"@));
    }
    out.append("\n");
    assert(out@ =~= warning_report_of(names));
    out
}

// ---------------------------------------------------------------------------
// Laws
// ---------------------------------------------------------------------------

/// The summary names each number of a crawl behind its own words.
#[verifier::spinoff_prover]
#[verifier::rlimit(30)]
pub proof fn law_summary_names_all_numbers(
    stats: CrawlStats,
    time: Seq<char>,
    rate: Seq<char>,
    deleted: usize,
)
    ensures
        ({
            let files = "✅ Crawl complete!\n\n📊 Summary:\n  Total time: "@ + time
                + "\n  New files indexed: "@ + decimal(stats.new_files as nat)
                + "\n  Changed files re-indexed: "@ + decimal(stats.changed_files as nat)
                + "\n  Unchanged files skipped: "@ + decimal(stats.unchanged_files as nat)
                + "\n  Orphaned files deleted: "@ + decimal(stats.deleted_files as nat);
            let chunks = "\n\nTotal chunks indexed: "@ + decimal(stats.chunks_embedded as nat)
                + "\nOverall rate: "@ + rate + " chunks/sec\nFiles deleted from DB: "@ + decimal(
                deleted as nat,
            ) + "\n\n"@;
            summary_of(stats, time, rate, deleted) == files + chunks
        }),
{
    let files = "✅ Crawl complete!\n\n📊 Summary:\n  Total time: "@ + time
        + "\n  New files indexed: "@ + decimal(stats.new_files as nat)
        + "\n  Changed files re-indexed: "@ + decimal(stats.changed_files as nat)
        + "\n  Unchanged files skipped: "@ + decimal(stats.unchanged_files as nat)
        + "\n  Orphaned files deleted: "@ + decimal(stats.deleted_files as nat);
    let chunks = "\n\nTotal chunks indexed: "@ + decimal(stats.chunks_embedded as nat)
        + "\nOverall rate: "@ + rate + " chunks/sec\nFiles deleted from DB: "@ + decimal(
        deleted as nat,
    ) + "\n\n"@;
    assert(summary_of(stats, time, rate, deleted) =~= files + chunks);
}

/// Files are listed from the first on, each in a line of its own.
pub proof fn law_files_are_listed_in_order(files: Seq<Seq<char>>, n: int)
    ensures
        file_lines(files, 0) == Seq::<char>::empty(),
        n >= 0 ==> file_lines(files, n + 1) == file_lines(files, n) + "  - "@ + files[n] + "\n"@,
{
}

/// A report says how many files there are, lists up to twenty of them, and says how many
/// more there are where there are more.
pub proof fn law_reports_list_twenty_files(files: Seq<Seq<char>>)
    ensures
        files.len() == 0 ==> warning_report_of(files) == Seq::<char>::empty(),
        files.len() == 1 ==> warning_report_of(files) == "Chunking warnings in "@ + decimal(1)
            + " file:\n"@ + file_lines(files, 1) + "\n"@,
        2 <= files.len() <= 20 ==> warning_report_of(files) == "Chunking warnings in "@ + decimal(
            files.len(),
        ) + " files:\n"@ + file_lines(files, files.len() as int) + "\n"@,
        files.len() > 20 ==> warning_report_of(files) == "Chunking warnings in "@ + decimal(
            files.len(),
        ) + " files:\n"@ + file_lines(files, 20) + "  ... and "@ + decimal(
            (files.len() - 20) as nat,
        ) + " more\n"@ + "\n"@,
{
    let n = files.len();
    let head = "Chunking warnings in "@ + decimal(n) + if n == 1 {
        " file:\n"@
    } else {
        " files:\n"@
    };
    if 1 <= n <= 20 {
        let listed = head + file_lines(files, n as int);
        assert(listed + Seq::<char>::empty() =~= listed);
    } else if n > 20 {
        let listed = head + file_lines(files, 20);
        let more = "  ... and "@ + decimal((n - 20) as nat) + " more\n"@;
        assert(listed + more + "\n"@ =~= listed + "  ... and "@ + decimal((n - 20) as nat)
            + " more\n"@ + "\n"@);
    }
}

} // verus!
