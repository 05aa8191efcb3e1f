use rush_qdrant::batching::{
    batch_size_setting, effective_batch_size, encoding_batches, even_batches, is_on,
    mini_batch_size_for, mini_batch_starts, mini_batches, UPLOAD_BATCH,
};
use rush_qdrant::crawl::{choose_action, strip_mark, Crawl, FileAction, ScannedFile};
use rush_qdrant::engine::chunk::Chunk;
use rush_qdrant::engine::uploader::{FileSyncInfo, PointPayload, PointResult, QdrantId};
use rush_qdrant::engine::uploader::{CatalogListing, ScrollPage};
use rush_qdrant::hash::content_hash;
use rush_qdrant::report::{crawl_summary, warning_report};
use rush_qdrant::text_map::TextMap;
use rush_qdrant::tracking::{
    completed_files, next_step, CompletionTracker, WriterStep, CHECKPOINT_PERIOD, PROGRESS_PERIOD,
};
use rush_qdrant::warnings::{read_warnings, warnings_or_none, write_warnings};
use rush_qdrant::watcher::CrawlStats;

fn chunk(file_id: &str, number: usize, count: usize, text: &str, breadcrumb: &str) -> Chunk {
    Chunk {
        text: text.to_string(),
        source_uri: "src/a.ts".to_string(),
        source_type: "code".to_string(),
        catalog: "main".to_string(),
        content_hash: "sha256:00".to_string(),
        start_line: 1,
        end_line: 2,
        symbol_name: None,
        chunk_type: "function".to_string(),
        chunk_kind: "content".to_string(),
        breadcrumb: breadcrumb.to_string(),
        file_id: file_id.to_string(),
        relative_path: "src/a.ts".to_string(),
        chunk_number: number,
        chunk_count: count,
    }
}

fn info(hash: &str, complete: bool) -> FileSyncInfo {
    FileSyncInfo {
        content_hash: hash.to_string(),
        file_complete: complete,
    }
}

fn scanned(paths: &[&str]) -> Vec<ScannedFile> {
    paths
        .iter()
        .map(|p| ScannedFile {
            path: p.to_string(),
            key: p.to_string(),
        })
        .collect()
}

fn names(list: &[&str]) -> Vec<String> {
    list.iter().map(|s| s.to_string()).collect()
}

// --- decisions ---------------------------------------------------------------

#[test]
fn unchanged_complete_files_are_skipped() {
    let known = info("h", true);
    assert_eq!(choose_action(Some(&known), "h", false, false), FileAction::Skip);
    assert_eq!(choose_action(Some(&known), "h", false, true), FileAction::Skip);
}

#[test]
fn changed_files_are_replaced() {
    let known = info("h", true);
    assert_eq!(choose_action(Some(&known), "g", false, false), FileAction::Replace);
}

#[test]
fn incomplete_files_are_retried() {
    let known = info("h", false);
    assert_eq!(choose_action(Some(&known), "h", false, true), FileAction::Replace);
}

#[test]
fn files_with_warnings_are_retried_unless_kept() {
    let known = info("h", true);
    assert_eq!(choose_action(Some(&known), "h", true, false), FileAction::Replace);
    assert_eq!(choose_action(Some(&known), "h", true, true), FileAction::Skip);
}

#[test]
fn unknown_files_are_indexed() {
    assert_eq!(choose_action(None, "h", false, false), FileAction::Index);
    assert_eq!(choose_action(None, "h", true, true), FileAction::Index);
}

#[test]
fn marks_are_taken_off_breadcrumbs() {
    assert_eq!(strip_mark("pkg:a.ts:f:[fallback-split]"), "pkg:a.ts:f");
    assert_eq!(strip_mark("a:[fallback-split]:b:[fallback-split]"), "a:b");
    assert_eq!(strip_mark("plain"), "plain");
    assert_eq!(strip_mark("[fallback-split]"), "[fallback-split]");
}

// --- the crawl ---------------------------------------------------------------

#[test]
fn a_crawl_counts_what_it_finds() {
    let mut existing: TextMap<FileSyncInfo> = TextMap::new();
    existing.insert("same.ts", info(&content_hash("same"), true));
    existing.insert("changed.ts", info(&content_hash("before"), true));
    existing.insert("halfway.ts", info(&content_hash("halfway"), false));
    existing.insert("gone.ts", info("x", true));
    let files = scanned(&["same.ts", "changed.ts", "halfway.ts", "new.ts", "unreadable.ts"]);
    let mut crawl = Crawl::new(files, existing, &Vec::new(), false);

    assert_eq!(crawl.next_path(), Some("same.ts"));
    assert_eq!(crawl.read(Some("same")), FileAction::Skip);
    assert_eq!(crawl.read(Some("after")), FileAction::Replace);
    assert_eq!(crawl.read(Some("halfway")), FileAction::Replace);
    assert_eq!(crawl.next_path(), Some("new.ts"));
    assert_eq!(crawl.read(Some("new")), FileAction::Index);
    assert_eq!(crawl.read(None), FileAction::Skip);
    assert_eq!(crawl.next_path(), None);

    let orphans = crawl.orphans();
    assert_eq!(orphans, names(&["gone.ts"]));
    let stats = crawl.stats(orphans.len(), 7);
    assert_eq!(stats.new_files, 1);
    assert_eq!(stats.changed_files, 2);
    assert_eq!(stats.unchanged_files, 1);
    assert_eq!(stats.deleted_files, 1);
    assert_eq!(stats.chunks_embedded, 7);
    assert_eq!(crawl.deleted_in_all(orphans.len()), 3);
}

#[test]
fn files_are_known_by_their_keys() {
    let mut existing: TextMap<FileSyncInfo> = TextMap::new();
    existing.insert("src/a.ts", info("h", true));
    let files = vec![ScannedFile {
        path: "/repo/src/a.ts".to_string(),
        key: "src/a.ts".to_string(),
    }];
    let mut crawl = Crawl::new(files, existing, &Vec::new(), false);
    assert_eq!(crawl.next_path(), Some("/repo/src/a.ts"));
    assert_eq!(crawl.decide(Some("h")), FileAction::Skip);
    assert!(crawl.orphans().is_empty());
}

#[test]
fn warnings_stick_until_a_file_is_clean() {
    let prior = names(&["a.ts", "b.ts", "a.ts"]);
    let mut existing: TextMap<FileSyncInfo> = TextMap::new();
    existing.insert("a.ts", info("h", true));
    existing.insert("b.ts", info("h", true));
    let mut crawl = Crawl::new(scanned(&["a.ts", "b.ts"]), existing, &prior, false);
    assert_eq!(crawl.prior_warnings(), 2);
    assert_eq!(crawl.decide(Some("h")), FileAction::Replace);
    let (chunks, marked) = crawl.take_chunks(vec![
        chunk("f", 1, 2, "x", "a"),
        chunk("f", 2, 2, "y", "b:[fallback-split]"),
    ]);
    assert!(marked);
    assert_eq!(chunks[0].breadcrumb, "a");
    assert_eq!(chunks[1].breadcrumb, "b");
    assert_eq!(chunks[1].text, "y");
    assert_eq!(crawl.decide(Some("h")), FileAction::Replace);
    let (_, marked) = crawl.take_chunks(vec![chunk("g", 1, 1, "z", "c")]);
    assert!(!marked);
    assert_eq!(crawl.warnings(), 1);
    assert_eq!(crawl.warned_files(), names(&["a.ts"]));
    assert_eq!(crawl.next_warnings(), names(&["a.ts"]));

    let mut existing: TextMap<FileSyncInfo> = TextMap::new();
    existing.insert("a.ts", info("h", true));
    existing.insert("b.ts", info("h", true));
    let mut next = Crawl::new(
        scanned(&["a.ts", "b.ts"]),
        existing,
        &crawl.next_warnings(),
        false,
    );
    assert_eq!(next.decide(Some("h")), FileAction::Replace);
    assert_eq!(next.decide(Some("h")), FileAction::Skip);
}

#[test]
fn kept_warnings_are_remembered() {
    let prior = names(&["a.ts", "b.ts"]);
    let mut existing: TextMap<FileSyncInfo> = TextMap::new();
    existing.insert("a.ts", info("h", true));
    let mut crawl = Crawl::new(scanned(&["a.ts", "c.ts"]), existing, &prior, true);
    assert_eq!(crawl.decide(Some("h")), FileAction::Skip);
    assert_eq!(crawl.decide(Some("h")), FileAction::Index);
    let (_, marked) = crawl.take_chunks(vec![chunk("f", 1, 1, "x", "[fallback-split]")]);
    assert!(marked);
    let mut next = crawl.next_warnings();
    next.sort();
    assert_eq!(next, names(&["a.ts", "c.ts"]));
}

#[test]
fn kept_warnings_are_forgotten_once_a_file_is_clean_or_gone() {
    let prior = names(&["changed.ts", "gone.ts", "locked.ts", "same.ts"]);
    let mut existing: TextMap<FileSyncInfo> = TextMap::new();
    for path in ["changed.ts", "gone.ts", "locked.ts", "same.ts"] {
        existing.insert(path, info("h", true));
    }
    let files = scanned(&["changed.ts", "locked.ts", "same.ts"]);
    let mut crawl = Crawl::new(files, existing, &prior, true);
    assert_eq!(crawl.decide(Some("other")), FileAction::Replace);
    let (_, marked) = crawl.take_chunks(vec![chunk("f", 1, 1, "x", "a")]);
    assert!(!marked);
    assert_eq!(crawl.decide(None), FileAction::Skip);
    assert_eq!(crawl.decide(Some("h")), FileAction::Skip);
    assert_eq!(crawl.next_warnings(), names(&["same.ts"]));
}

#[test]
fn an_indexed_file_is_skipped_by_the_next_crawl() {
    let content = "export const x = 1;\n";
    let payload = PointPayload {
        text: content.to_string(),
        source_uri: "a.ts".to_string(),
        source_type: "code".to_string(),
        catalog: "main".to_string(),
        content_hash: content_hash(content),
        start_line: 1,
        end_line: 1,
        symbol_name: None,
        chunk_type: "const".to_string(),
        chunk_kind: "content".to_string(),
        breadcrumb: None,
        file_id: "0123456789abcdef".to_string(),
        relative_path: "a.ts".to_string(),
        chunk_number: 1,
        chunk_count: 1,
        file_complete: true,
    };
    let mut listing = CatalogListing::new();
    listing.take_page(ScrollPage {
        points: vec![PointResult {
            id: QdrantId::Integer(1),
            payload,
        }],
        next_page_offset: None,
    });
    assert!(listing.done);
    let mut crawl = Crawl::new(scanned(&["a.ts", "b.ts"]), listing.files, &Vec::new(), false);
    assert_eq!(crawl.read(Some(content)), FileAction::Skip);
    assert_eq!(crawl.read(Some(content)), FileAction::Index);
}

// --- what is kept and said ---------------------------------------------------

#[test]
fn warnings_are_read_back_as_written() {
    for list in [names(&[]), names(&["a.ts"]), names(&["ä \"q\" \\ \n", "b\u{7f}\u{1}"])] {
        let json = write_warnings(&list).expect("a text");
        assert_eq!(read_warnings(Some(&json)), list);
    }
    assert_eq!(
        write_warnings(&names(&["a", "b"])).unwrap(),
        "[\n  \"a\",\n  \"b\"\n]"
    );
}

#[test]
fn unreadable_warnings_are_no_warnings() {
    assert!(read_warnings(None).is_empty());
    assert!(read_warnings(Some("{}")).is_empty());
    assert!(read_warnings(Some("[1]")).is_empty());
    assert!(read_warnings(Some("[\"a\"")).is_empty());
    assert_eq!(read_warnings(Some(" [\"a\", \"b\\u0041\"] ")), names(&["a", "bA"]));
    assert!(warnings_or_none(None).is_empty());
    assert_eq!(warnings_or_none(Some(names(&["x"]))), names(&["x"]));
}

#[test]
fn warning_reports_name_the_first_files() {
    assert_eq!(warning_report(&names(&[])), "");
    assert_eq!(
        warning_report(&names(&["a.ts"])),
        "Chunking warnings in 1 file:\n  - a.ts\n\n"
    );
    let many: Vec<String> = (0..23).map(|i| format!("{}.ts", i)).collect();
    let text = warning_report(&many);
    assert!(text.starts_with("Chunking warnings in 23 files:\n  - 0.ts\n  - 1.ts\n"));
    assert!(text.ends_with("  - 19.ts\n  ... and 3 more\n\n"));
    let twenty: Vec<String> = many[..20].to_vec();
    assert!(warning_report(&twenty).ends_with("  - 19.ts\n\n"));
}

#[test]
fn summaries_give_all_counts() {
    let stats = CrawlStats {
        new_files: 1,
        changed_files: 2,
        unchanged_files: 3,
        deleted_files: 4,
        chunks_embedded: 50,
    };
    assert_eq!(
        crawl_summary(&stats, "1.5s", "33.3", 6),
        "✅ Crawl complete!\n\n📊 Summary:\n  Total time: 1.5s\n  New files indexed: 1\n  \
         Changed files re-indexed: 2\n  Unchanged files skipped: 3\n  Orphaned files deleted: 4\n\n\
         Total chunks indexed: 50\nOverall rate: 33.3 chunks/sec\nFiles deleted from DB: 6\n\n"
    );
}

// --- completion --------------------------------------------------------------

#[test]
fn a_file_is_complete_with_its_last_chunk() {
    let mut tracker = CompletionTracker::new();
    assert_eq!(tracker.observe("f", 3), None);
    assert_eq!(tracker.observe("f", 3), None);
    assert_eq!(tracker.waiting(), 2);
    assert!(tracker.settle(true).is_empty());
    assert_eq!(tracker.waiting(), 0);
    tracker.observe("g", 1);
    tracker.observe("f", 3);
    assert_eq!(tracker.counted(), 4);
    let mut done = tracker.settle(true);
    done.sort();
    assert_eq!(done, names(&["f", "g"]));
    assert_eq!(tracker.counted(), 4);
    assert!(tracker.settle(true).is_empty());
}

#[test]
fn chunks_of_failed_uploads_do_not_count() {
    let mut tracker = CompletionTracker::new();
    tracker.observe("f", 2);
    assert_eq!(tracker.counted(), 1);
    assert!(tracker.settle(false).is_empty());
    assert_eq!(tracker.waiting(), 0);
    assert_eq!(tracker.counted(), 0);
    tracker.observe("f", 2);
    assert!(tracker.settle(true).is_empty());
    tracker.observe("f", 2);
    assert_eq!(tracker.settle(true), names(&["f"]));
}

#[test]
fn the_first_count_of_a_file_holds() {
    let mut tracker = CompletionTracker::new();
    assert_eq!(tracker.observe("f", 2), None);
    assert_eq!(tracker.observe("f", 5), Some(2));
    assert_eq!(tracker.settle(true), names(&["f"]));
    assert_eq!(tracker.observe("f", 5), None);
}

#[test]
fn too_many_chunks_complete_nothing() {
    let mut tracker = CompletionTracker::new();
    for _ in 0..3 {
        tracker.observe("f", 2);
    }
    tracker.observe("e", 0);
    assert!(tracker.settle(true).is_empty());
}

#[test]
fn complete_files_are_found_at_once() {
    let chunks = vec![
        chunk("f", 1, 2, "", ""),
        chunk("g", 1, 2, "", ""),
        chunk("f", 2, 2, "", ""),
        chunk("h", 1, 1, "", ""),
        chunk("k", 1, 1, "", ""),
        chunk("k", 2, 9, "", ""),
    ];
    let mut done = completed_files(&chunks);
    done.sort();
    assert_eq!(done, names(&["f", "h"]));
    assert!(completed_files(&Vec::new()).is_empty());
}

#[test]
fn checkpoints_come_before_the_end() {
    assert_eq!(next_step(true, 3, false), WriterStep::Upload);
    assert_eq!(next_step(true, 3, true), WriterStep::Upload);
    assert_eq!(next_step(false, 3, true), WriterStep::FinalUpload);
    assert_eq!(next_step(false, 0, true), WriterStep::Stop);
    assert_eq!(next_step(true, 0, true), WriterStep::Stop);
    assert_eq!(next_step(true, 0, false), WriterStep::Wait);
    assert_eq!(next_step(false, 3, false), WriterStep::Wait);
    assert_eq!(CHECKPOINT_PERIOD, std::time::Duration::from_secs(60).as_nanos());
    assert_eq!(PROGRESS_PERIOD, std::time::Duration::from_secs(30).as_nanos());
}

// --- batches -----------------------------------------------------------------

#[test]
fn only_one_switches_a_setting_on() {
    assert!(is_on(Some("1")));
    assert!(!is_on(Some("true")));
    assert!(!is_on(Some("")));
    assert!(!is_on(None));
}

#[test]
fn batch_sizes_are_read_from_settings() {
    assert_eq!(batch_size_setting(None), 0);
    assert_eq!(batch_size_setting(Some("64")), 64);
    assert_eq!(batch_size_setting(Some("many")), 0);
    assert_eq!(batch_size_setting(Some("-1")), 0);
    assert_eq!(effective_batch_size(0, 9), 9);
    assert_eq!(effective_batch_size(4, 9), 4);
}

#[test]
fn even_batches_agree_with_std() {
    assert_eq!(even_batches(250, UPLOAD_BATCH), vec![(0, 100), (100, 200), (200, 250)]);
    assert!(even_batches(0, 5).is_empty());
    assert!(even_batches(0, 0).is_empty());
    for total in 0..40 {
        let items: Vec<usize> = (0..total).collect();
        for size in 1..12 {
            let expected: Vec<Vec<usize>> = items.chunks(size).map(|c| c.to_vec()).collect();
            let got: Vec<Vec<usize>> = even_batches(total, size)
                .into_iter()
                .map(|(from, to)| items[from..to].to_vec())
                .collect();
            assert_eq!(got, expected);
        }
    }
    assert_eq!(even_batches(usize::MAX, usize::MAX), vec![(0, usize::MAX)]);
}

#[test]
fn nothing_to_encode_takes_no_batch() {
    assert!(encoding_batches(0, 0).is_empty());
    assert!(encoding_batches(8, 0).is_empty());
    assert_eq!(encoding_batches(0, 9), vec![(0, 9)]);
    assert_eq!(encoding_batches(4, 9), vec![(0, 4), (4, 8), (8, 9)]);
}

#[test]
fn mini_batch_sizes_agree_with_the_token_estimate() {
    let by_tokens = |longest: usize| {
        let tokens = (longest as f64 / 4.0).max(1.0);
        ((4000.0 / tokens) as usize).clamp(4, 16)
    };
    for longest in 0..20000 {
        assert_eq!(mini_batch_size_for(longest), by_tokens(longest), "{}", longest);
    }
    for longest in [1usize << 20, 1 << 40, (1 << 53) + 1, usize::MAX] {
        assert_eq!(mini_batch_size_for(longest), by_tokens(longest));
    }
    assert_eq!(mini_batch_size_for(2000), 8);
}

#[test]
fn mini_batches_hold_all_chunks_by_length() {
    let mut chunks = Vec::new();
    for i in 0..50_usize {
        let length = (i * 37) % 5000;
        chunks.push(chunk(&format!("{}", i), 1, 1, &"x".repeat(length), ""));
    }
    let mut expected: Vec<(usize, String)> = chunks
        .iter()
        .map(|c| (c.text.len(), c.file_id.clone()))
        .collect();
    expected.sort_by_key(|e| e.0);
    let batches = mini_batches(chunks);
    let got: Vec<(usize, String)> = batches
        .iter()
        .flatten()
        .map(|c| (c.text.len(), c.file_id.clone()))
        .collect();
    assert_eq!(got, expected);
    for batch in &batches {
        let longest = batch.iter().map(|c| c.text.len()).max().unwrap();
        assert!(batch.len() <= 4 || batch.len() * longest <= 16000);
    }
    assert!(mini_batches(Vec::new()).is_empty());
}

#[test]
fn mini_batches_look_ahead() {
    let lengths = vec![10; 40];
    assert_eq!(mini_batch_starts(&lengths), vec![0, 16, 32, 40]);
    let mut mixed = vec![10; 31];
    mixed.push(4000);
    assert_eq!(mini_batch_starts(&mixed)[1], 4);
    assert_eq!(mini_batch_starts(&Vec::new()), vec![0]);
}
