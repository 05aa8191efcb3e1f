use rush_qdrant::scan::{remove_all, split_lines, white};
use rush_qdrant::selector::{
    parse_file_id_with_selector, parse_requests, selector_text, selects_chunk, ChunkSelector,
};
use rush_qdrant::text::{append_decimal, parse_text_number};

fn read(s: &str) -> (String, ChunkSelector) {
    parse_file_id_with_selector(s).expect("a request")
}

fn complaint(s: &str) -> String {
    parse_file_id_with_selector(s).expect_err("a complaint")
}

#[test]
fn a_bare_id_asks_for_all_chunks() {
    assert_eq!(
        read("700a4ba232fe9ddc"),
        ("700a4ba232fe9ddc".to_string(), ChunkSelector::All)
    );
}

#[test]
fn a_number_asks_for_one_chunk() {
    assert_eq!(read("700a4ba232fe9ddc:3").1, ChunkSelector::Single(3));
    assert_eq!(read("700a4ba232fe9ddc:+3").1, ChunkSelector::Single(3));
    assert_eq!(read("700a4ba232fe9ddc:007").1, ChunkSelector::Single(7));
}

#[test]
fn two_numbers_ask_for_a_range() {
    assert_eq!(read("700a4ba232fe9ddc:2-3").1, ChunkSelector::Range(2, 3));
    assert_eq!(read("700a4ba232fe9ddc:4-4").1, ChunkSelector::Range(4, 4));
}

#[test]
fn a_number_and_end_ask_for_the_rest() {
    assert_eq!(read("700a4ba232fe9ddc:3-end").1, ChunkSelector::ToEnd(3));
}

#[test]
fn white_space_around_a_request_is_dropped() {
    assert_eq!(
        read(" \t\u{2003}700A4BA232FE9DDC:1\u{a0}\n"),
        ("700A4BA232FE9DDC".to_string(), ChunkSelector::Single(1))
    );
}

#[test]
fn bad_file_ids_are_refused() {
    assert_eq!(
        complaint("xyz"),
        "Invalid file ID 'xyz'. Expected 16 hex characters."
    );
    assert_eq!(
        complaint("700a4ba232fe9dd:1"),
        "Invalid file ID '700a4ba232fe9dd'. Expected 16 hex characters."
    );
    assert_eq!(
        complaint("700a4ba232fe9ddg"),
        "Invalid file ID '700a4ba232fe9ddg'. Expected 16 hex characters."
    );
    assert_eq!(
        complaint(""),
        "Invalid file ID ''. Expected 16 hex characters."
    );
}

#[test]
fn bad_selectors_are_refused() {
    let id = "700a4ba232fe9ddc";
    let say = |s: &str| complaint(&format!("{}:{}", id, s));
    assert_eq!(say("end"), "Invalid selector ':end'. Use ':N-end' format.");
    assert_eq!(say("x-end"), "Invalid chunk number in selector 'x-end'");
    assert_eq!(say("0-end"), "Chunk numbers are 1-indexed, got 0");
    assert_eq!(
        say("1-2-3"),
        "Invalid selector '1-2-3'. Expected ':N-M' format."
    );
    assert_eq!(say("a-2"), "Invalid start chunk in selector 'a-2'");
    assert_eq!(say("1-b"), "Invalid end chunk in selector '1-b'");
    assert_eq!(say("0-2"), "Chunk numbers are 1-indexed, got 0:2");
    assert_eq!(say("3-2"), "Start chunk 3 > end chunk 2");
    assert_eq!(say(""), "Invalid chunk number in selector ''");
    assert_eq!(say("0"), "Chunk numbers are 1-indexed, got 0");
    assert_eq!(
        say("99999999999999999999999"),
        "Invalid chunk number in selector '99999999999999999999999'"
    );
}

#[test]
fn written_requests_read_back() {
    let id = "0123456789abcdef";
    for selector in [
        ChunkSelector::All,
        ChunkSelector::Single(12),
        ChunkSelector::Range(3, 40),
        ChunkSelector::ToEnd(usize::MAX),
    ] {
        let written = format!("{}{}", id, selector_text(&selector));
        assert_eq!(read(&written), (id.to_string(), selector));
    }
    assert_eq!(selector_text(&ChunkSelector::Range(3, 40)), ":3-40");
    assert_eq!(selector_text(&ChunkSelector::ToEnd(5)), ":5-end");
    assert_eq!(selector_text(&ChunkSelector::All), "");
}

#[test]
fn selectors_pick_their_chunks() {
    assert!(selects_chunk(&ChunkSelector::All, 9));
    assert!(selects_chunk(&ChunkSelector::Single(2), 2));
    assert!(!selects_chunk(&ChunkSelector::Single(2), 3));
    assert!(selects_chunk(&ChunkSelector::Range(2, 4), 4));
    assert!(!selects_chunk(&ChunkSelector::Range(2, 4), 5));
    assert!(selects_chunk(&ChunkSelector::ToEnd(2), 100));
    assert!(!selects_chunk(&ChunkSelector::ToEnd(2), 1));
    for n in 1..6 {
        assert_eq!(
            selects_chunk(&ChunkSelector::Single(3), n),
            selects_chunk(&ChunkSelector::Range(3, 3), n)
        );
    }
}

#[test]
fn several_requests_are_read_in_order() {
    let specs = vec![
        "0123456789abcdef".to_string(),
        "fedcba9876543210:2".to_string(),
    ];
    let requests = parse_requests(&specs).unwrap();
    assert_eq!(requests.len(), 2);
    assert_eq!(requests[1].0, "fedcba9876543210");
    assert_eq!(requests[1].1, ChunkSelector::Single(2));
}

#[test]
fn the_first_bad_request_is_complained_of() {
    let none: Vec<String> = Vec::new();
    assert_eq!(
        parse_requests(&none).unwrap_err(),
        "No IDs provided. Use --id <file_id>[:<selector>]"
    );
    let specs = vec![
        "0123456789abcdef".to_string(),
        "0123456789abcdef:0".to_string(),
        "nonsense".to_string(),
    ];
    assert_eq!(
        parse_requests(&specs).unwrap_err(),
        "Chunk numbers are 1-indexed, got 0"
    );
}

#[test]
fn white_space_is_that_of_unicode() {
    for code in 0..=0x10ffff_u32 {
        if let Some(c) = char::from_u32(code) {
            assert_eq!(white(c), c.is_whitespace(), "{:x}", code);
        }
    }
}

#[test]
fn numerals_agree_with_std() {
    for s in ["0", "1", "+1", "-1", "", "+", "++1", "01", "1 ", "18446744073709551615", "18446744073709551616", "9x"] {
        assert_eq!(parse_text_number(s), s.parse::<usize>().ok(), "{}", s);
    }
    for n in [0, 7, 10, 99, 100, 12345, usize::MAX] {
        let mut written = String::from("n=");
        append_decimal(&mut written, n as u64);
        assert_eq!(written, format!("n={}", n));
        assert_eq!(parse_text_number(&written[2..]), Some(n));
    }
}

#[test]
fn lines_agree_with_std() {
    for s in ["", "\n", "a", "a\n", "a\nb", "a\r\nb\r", "\r\n\r\n", "a\n\nb\n", "\r", "ä\r\r\nö"] {
        let expected: Vec<String> = s.lines().map(String::from).collect();
        assert_eq!(split_lines(s), expected, "{:?}", s);
    }
}

#[test]
fn removal_agrees_with_std() {
    for (s, part) in [("aXbXc", "X"), ("aaa", "aa"), ("", "x"), ("abc", "abcd"), ("x:[m]:[m]y", ":[m]")] {
        assert_eq!(remove_all(s, part), s.replace(part, ""));
    }
}
