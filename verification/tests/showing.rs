use rush_qdrant::audit::{audit_report, sample_files, worst_first, Finding};
use rush_qdrant::display::{
    answer_request, answers_text, preamble_text, search_answer, search_text, select_chunks,
    shown_catalogs, view_answer, view_output, PathStyle, ViewAnswer,
};
use rush_qdrant::dump::{
    dump_text, dump_totals, full_view_text, piece_text, Piece, QualityReport,
};
use rush_qdrant::engine::uploader::{PointPayload, PointResult, QdrantId, SearchResult};
use rush_qdrant::selector::ChunkSelector;
use rush_qdrant::settings::CatalogConfig;
use rush_qdrant::text_map::TextMap;

fn payload(number: usize, text: &str, breadcrumb: Option<&str>) -> PointPayload {
    PointPayload {
        text: text.to_string(),
        source_uri: "/stored/src/a.ts".to_string(),
        source_type: "code".to_string(),
        catalog: "main".to_string(),
        content_hash: "h".to_string(),
        start_line: 3,
        end_line: 7,
        symbol_name: None,
        chunk_type: "function".to_string(),
        chunk_kind: "content".to_string(),
        breadcrumb: breadcrumb.map(String::from),
        file_id: "0123456789abcdef".to_string(),
        relative_path: "src/a.ts".to_string(),
        chunk_number: number,
        chunk_count: 9,
        file_complete: true,
    }
}

fn point(number: usize, text: &str) -> PointResult {
    PointResult {
        id: QdrantId::Integer(number as u64),
        payload: payload(number, text, Some("pkg:f")),
    }
}

fn answer(selector: ChunkSelector, points: Vec<PointResult>) -> ViewAnswer {
    ViewAnswer {
        file_id: "0123456789abcdef".to_string(),
        selector,
        points,
    }
}

fn catalogs() -> TextMap<CatalogConfig> {
    let mut map = TextMap::new();
    map.insert(
        "main",
        CatalogConfig {
            kind: "folder".to_string(),
            path: "/repo".to_string(),
        },
    );
    map
}

#[test]
fn search_results_show_three_lines() {
    let results = vec![
        SearchResult {
            id: QdrantId::Integer(1),
            score: "0.912".to_string(),
            payload: payload(2, "a\nb\r\nc\nd", Some("pkg:f")),
        },
        SearchResult {
            id: QdrantId::Integer(2),
            score: "0.500".to_string(),
            payload: payload(1, "only", None),
        },
    ];
    let expected = "0123456789abcdef:2  0.912  pkg:f\n> a\n> b\n> c\n\n\
                    0123456789abcdef:1  0.500  unknown\n> only\n\n";
    assert_eq!(search_text(&results), expected);
    assert_eq!(search_answer(&results), expected);
}

#[test]
fn assistants_are_told_of_no_results() {
    assert_eq!(search_text(&Vec::new()), "");
    assert_eq!(search_answer(&Vec::new()), "No results found.\n");
}

#[test]
fn chunks_are_selected_in_order() {
    let all = || vec![point(1, "a"), point(2, "b"), point(3, "c"), point(4, "d")];
    let numbers = |selector: ChunkSelector| -> Vec<usize> {
        select_chunks(all(), &selector)
            .iter()
            .map(|p| p.payload.chunk_number)
            .collect()
    };
    assert_eq!(numbers(ChunkSelector::All), vec![1, 2, 3, 4]);
    assert_eq!(numbers(ChunkSelector::Single(3)), vec![3]);
    assert_eq!(numbers(ChunkSelector::Range(2, 3)), vec![2, 3]);
    assert_eq!(numbers(ChunkSelector::ToEnd(3)), vec![3, 4]);
    assert!(numbers(ChunkSelector::Single(9)).is_empty());
}

#[test]
fn chunks_are_shown_with_their_place() {
    let answers = vec![answer(ChunkSelector::Single(2), vec![point(2, "x\n\ny\n")])];
    assert_eq!(
        answers_text(&answers, &PathStyle::Hidden, false),
        "0123456789abcdef:2 (2/9) pkg:f\nSource: main:src/a.ts\nLines: 3-7\nType: function\n\n\
         > x\n> \n> y\n\n"
    );
}

#[test]
fn full_paths_are_shown_on_request() {
    let answers = vec![answer(ChunkSelector::All, vec![point(1, "x")])];
    let stored = answers_text(&answers, &PathStyle::Stored, false);
    assert!(stored.contains("\nFull path: /stored/src/a.ts\nLines: 3-7\n"));
    let configured = catalogs();
    let within = answers_text(&answers, &PathStyle::Within(&configured), true);
    assert!(within.contains("\nFull path: /repo/src/a.ts\nLines: 3-7\n"));
    let nothing: TextMap<CatalogConfig> = TextMap::new();
    let unknown = answers_text(&answers, &PathStyle::Within(&nothing), true);
    assert!(!unknown.contains("Full path"));
}

#[test]
fn missing_chunks_are_reported() {
    let answers = vec![
        answer(ChunkSelector::Range(2, 3), Vec::new()),
        answer(ChunkSelector::All, Vec::new()),
    ];
    assert_eq!(
        answers_text(&answers, &PathStyle::Hidden, false),
        "0123456789abcdef:2-3 ERROR: CHUNK NOT FOUND\n0123456789abcdef ERROR: CHUNK NOT FOUND\n"
    );
    assert_eq!(
        answers_text(&answers, &PathStyle::Hidden, true),
        "0123456789abcdef:2-3 ERROR: CHUNK NOT FOUND\n\n0123456789abcdef ERROR: CHUNK NOT FOUND\n\n"
    );
}

#[test]
fn catalogs_are_listed_before_chunks() {
    let mut other = point(1, "x");
    other.payload.catalog = "docs".to_string();
    let answers = vec![
        answer(ChunkSelector::All, vec![point(1, "x"), other, point(2, "y")]),
        answer(ChunkSelector::All, Vec::new()),
    ];
    let names = shown_catalogs(&answers);
    assert_eq!(names.len(), 2);
    assert!(names.contains("main") && names.contains("docs"));
    assert_eq!(
        preamble_text(&names, &catalogs()),
        "Catalogs:\n- main\n  Catalog path: /repo\n\n"
    );
    let none = shown_catalogs(&vec![answer(ChunkSelector::All, Vec::new())]);
    assert_eq!(preamble_text(&none, &catalogs()), "");
}

#[test]
fn requests_are_answered_with_their_chunks() {
    let all = vec![point(1, "a"), point(2, "b"), point(3, "c")];
    let answer = answer_request("0123456789abcdef".to_string(), ChunkSelector::Range(2, 3), all);
    assert_eq!(answer.file_id, "0123456789abcdef");
    assert_eq!(answer.selector, ChunkSelector::Range(2, 3));
    assert_eq!(answer.points.len(), 2);
    assert_eq!(answer.points[0].payload.text, "b");
}

#[test]
fn views_are_printed_with_or_without_catalogs() {
    let answers = vec![answer(ChunkSelector::All, vec![point(1, "x")])];
    let chunk = "0123456789abcdef:1 (1/9) pkg:f\nSource: main:src/a.ts\nLines: 3-7\n\
                 Type: function\n\n> x\n\n";
    assert_eq!(view_output(&answers, &catalogs(), false, true), chunk);
    assert_eq!(
        view_output(&answers, &catalogs(), false, false),
        format!("Catalogs:\n- main\n  Catalog path: /repo\n\n{}", chunk)
    );
    assert!(view_output(&answers, &catalogs(), true, true)
        .contains("Full path: /stored/src/a.ts\n"));
    assert_eq!(view_answer(&answers, &catalogs(), false), chunk);
    assert!(view_answer(&answers, &catalogs(), true).contains("Full path: /repo/src/a.ts\n"));
}

fn piece(text: &str, start: usize, end: usize) -> Piece {
    Piece {
        text: text.to_string(),
        breadcrumb: "pkg:f".to_string(),
        chunk_type: "function".to_string(),
        symbol_name: Some("f".to_string()),
        start_line: start,
        end_line: end,
    }
}

fn report() -> QualityReport {
    QualityReport {
        score: "87.5".to_string(),
        small_limit: 300,
        small_chunks: 1,
        min_chars: 2,
        max_chars: 500,
        mean_chars: "251".to_string(),
    }
}

#[test]
fn pieces_are_weighed_by_size() {
    let pieces = vec![
        piece(&"x".repeat(700), 1, 2),
        piece(&"x".repeat(199), 3, 4),
        piece(&"x".repeat(200), 5, 6),
    ];
    let totals = dump_totals(&pieces, 600);
    assert_eq!(totals.total_chars, 700 + 199 + 200 + 15);
    assert_eq!(totals.oversized, 1);
    assert_eq!(totals.undersized, 1);
    let totals = dump_totals(&pieces, 100);
    assert_eq!(totals.oversized, 3);
    assert_eq!(totals.undersized, 0);
}

#[test]
fn pieces_are_previewed() {
    let text = "1\n2\n3\n4\n5\n6\n7\n8\n9\n10";
    assert_eq!(
        piece_text(4, &piece(text, 11, 20), 600),
        "━━━━━ Chunk 4 ━━━━━\nBreadcrumb: pkg:f\nType: function\nSymbol: f\nLines: 11-20\n\
         Size: 25 chars (text: 20, breadcrumb: 5)\n⚡ Small chunk\n\nPreview (first 8 lines):\n  \
         1\n  2\n  3\n  4\n  5\n  6\n  7\n  8\n  ... (2 more lines)\n\n"
    );
    let mut large = piece("abcdef", 1, 1);
    large.symbol_name = None;
    assert_eq!(
        piece_text(1, &large, 5),
        "━━━━━ Chunk 1 ━━━━━\nBreadcrumb: pkg:f\nType: function\nLines: 1-1\n\
         Size: 11 chars (text: 6, breadcrumb: 5)\n⚠️  OVERSIZED (target: 5, actual: 6)\n\n\
         Preview (first 8 lines):\n  abcdef\n\n"
    );
    let fitting = piece(&"x".repeat(200), 1, 1);
    assert!(!piece_text(1, &fitting, 600).contains("Small"));
}

#[test]
fn dumps_end_with_a_summary() {
    let pieces = vec![piece("ab", 1, 1), piece(&"x".repeat(500), 2, 9)];
    let text = dump_text(&pieces, 400, "256", &report());
    assert!(text.starts_with("Total chunks: 2\nTarget size: 400 chars\n\n━━━━━ Chunk 1 ━━━━━\n"));
    assert!(text.contains("━━━━━ Chunk 2 ━━━━━\n"));
    assert!(text.ends_with(
        "━━━━━ Summary ━━━━━\nTotal chunks: 2\nTotal chars: 512\nAverage size: 256 chars\n\
         Oversized chunks (>400): 1\nSmall chunks (<200): 1\nQuality score: 87.5%\n  \
         Small chunks (<300 chars): 1\n"
    ));
}

#[test]
fn full_views_show_the_lines_of_pieces() {
    let source = "one\ntwo\nthree\nfour\n";
    let pieces = vec![piece("ab", 0, 2), piece("abc", 3, 9), piece("", 7, 8)];
    assert_eq!(
        full_view_text(&pieces, source, &report()),
        "-- [CHUNK 1] [3 lines] [2 chars] --\none\ntwo\n\n\
         -- [CHUNK 2] [7 lines] [3 chars] --\nthree\nfour\n\n\
         -- [CHUNK 3] [2 lines] [0 chars] --\n\n\
         === QUALITY SCORE ===\nScore: 87.5%\nTotal chunks: 3\nSmall chunks (<300 chars): 1\n\
         Chars: 2-500 (mean 251)\n"
    );
}

fn finding(path: &str, rank: usize, pieces: Vec<Piece>) -> Finding {
    Finding {
        path: path.to_string(),
        report: format!("score {}", rank),
        pieces,
        rank,
    }
}

#[test]
fn the_worst_files_come_first() {
    let sorted = worst_first(vec![
        finding("a", 9, Vec::new()),
        finding("b", 2, Vec::new()),
        finding("c", 9, Vec::new()),
        finding("d", 1, Vec::new()),
    ]);
    let paths: Vec<&str> = sorted.iter().map(|f| f.path.as_str()).collect();
    assert_eq!(paths, vec!["d", "b", "a", "c"]);
}

#[test]
fn audits_show_three_files_in_detail() {
    let findings = vec![
        finding("a", 1, vec![piece("", 1, 19), piece("", 20, 39)]),
        finding("b", 2, Vec::new()),
        finding("c", 3, Vec::new()),
        finding("d", 4, vec![piece("", 9, 1)]),
    ];
    assert_eq!(
        audit_report(&findings),
        "\n=== Quality Scores (worst first) ===\n\n1. score 1 a\n2. score 2 b\n3. score 3 c\n\
         4. score 4 d\n\n=== Top 3 Worst Files ===\n\n--- a ---\nscore 1\n  \
         Chunk 1: 19 lines (1-19)  [TINY] - pkg:f\n  Chunk 2: 20 lines (20-39)  - pkg:f\n\n\
         --- b ---\nscore 2\n\n--- c ---\nscore 3\n\n"
    );
}

#[test]
fn samples_are_drawn_without_repetition() {
    let files: Vec<String> = (0..30).map(|i| format!("{}.ts", i)).collect();
    for count in [0, 1, 7, 29, 30, 50] {
        let mut sample = sample_files(files.clone(), count).unwrap();
        assert_eq!(sample.len(), count.min(30));
        assert!(sample.iter().all(|f| files.contains(f)));
        sample.sort();
        sample.dedup();
        assert_eq!(sample.len(), count.min(30));
    }
    let orders: Vec<Vec<String>> = (0..8).map(|_| sample_files(files.clone(), 10).unwrap()).collect();
    assert!(orders.iter().any(|o| o != &orders[0]));
    assert_eq!(
        sample_files(Vec::new(), 3).unwrap_err(),
        "No TypeScript files found"
    );
}
