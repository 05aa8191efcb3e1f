use rush_qdrant::clock::{
    chrono_timestamp, clock_text, format_duration, format_eta, timestamp_at, Recurring,
};
use rush_qdrant::files::{
    containing_folder, file_name, is_audited, is_relevant, is_text_file, relative_path, PathStyle,
};
use rush_qdrant::hash::{content_hash, written_digest};

#[test]
fn text_files_are_told_by_their_endings() {
    for path in [
        "a.ts", "a.tsx", "a.js", "a.jsx", "a.md", "a.mdx", "a.json", "a.yaml", "a.yml", "a.txt",
        "a.rst", "a.mdn", "a.toml", "a.ini", "a.conf", "dir/README.MD", "x.Ts", ".json",
    ] {
        assert!(is_text_file(path), "{}", path);
    }
    for path in ["a.rs", "ts", "a.ts.bak", "a.jsonc", "", "a.", "a.ts/"] {
        assert!(!is_text_file(path), "{}", path);
    }
}

#[test]
fn case_folding_agrees_with_std() {
    let endings = [
        "ts", "tsx", "js", "jsx", "md", "mdx", "json", "yaml", "yml", "txt", "rst", "mdn", "toml",
        "ini", "conf",
    ];
    let by_std = |path: &str| {
        let lower = path.to_lowercase();
        endings.iter().any(|e| lower.ends_with(&format!(".{}", e)))
    };
    for code in 0..=0x10ffff_u32 {
        if let Some(c) = char::from_u32(code) {
            for path in [format!("a.{}s", c), format!("a.in{}", c), format!("a.{}ni", c), format!("a{}md", c)] {
                assert_eq!(is_text_file(&path), by_std(&path), "{:?}", path);
            }
        }
    }
}

#[test]
fn skipped_paths_are_not_relevant() {
    assert!(is_relevant("src/a.ts", false));
    assert!(!is_relevant("src/a.ts", true));
    assert!(!is_relevant("src/a.rs", false));
}

#[test]
fn paths_are_made_relative() {
    assert_eq!(relative_path("/repo/src/a.ts", "/repo"), "src/a.ts");
    assert_eq!(relative_path("/repo/src/a.ts", "/repo/"), "src/a.ts");
    assert_eq!(relative_path("/repo//src/a.ts", "/repo"), "src/a.ts");
    assert_eq!(relative_path("/elsewhere/a.ts", "/repo"), "elsewhere/a.ts");
    assert_eq!(relative_path("C:\\repo\\src\\a.ts", "C:\\repo"), "src\\a.ts");
    assert_eq!(relative_path("/\\/a", "/"), "/a");
    assert_eq!(
        relative_path("/home/ann/repo/x.md", "/home/ann/repo"),
        relative_path("/srv/repo/x.md", "/srv/repo")
    );
}

#[test]
fn the_folder_of_a_file_is_found_as_std_finds_it() {
    for path in [
        "/repo/src/a.ts", "src/a.ts", "a.ts", "/a.ts", "./a.ts", "../a.ts", "x/../a.ts", "a/./b.ts",
        "a//b.ts", "/", "", ".", "..", "a/b/", "a/..", "x/y/..",
    ] {
        let expected = std::path::Path::new(path)
            .parent()
            .and_then(|p| p.file_name())
            .and_then(|n| n.to_str())
            .unwrap_or("cat")
            .to_string();
        assert_eq!(containing_folder(path, "cat", PathStyle::Unix), expected, "{:?}", path);
    }
    assert_eq!(containing_folder("/repo/src/a.ts", "cat", PathStyle::Unix), "src");
    assert_eq!(containing_folder("a.ts", "cat", PathStyle::Unix), "cat");
    assert_eq!(containing_folder("C:\\r\\a.ts", "cat", PathStyle::Unix), "cat");
}

#[test]
fn backslashes_separate_on_windows() {
    for (path, folder, name) in [
        ("C:\\r\\a.ts", "r", Some("a.ts")),
        ("C:\\r/x\\a.ts", "x", Some("a.ts")),
        ("C:/r/.\\a.ts", "r", Some("a.ts")),
        ("C:\\a.ts", "cat", Some("a.ts")),
        ("c:a.ts", "cat", Some("a.ts")),
        ("C:\\", "cat", None),
        ("src\\a.ts", "src", Some("a.ts")),
        ("..\\a.ts", "cat", Some("a.ts")),
        ("a\\..", "a", None),
        ("\\\\server\\share\\r\\a.ts", "r", Some("a.ts")),
        ("\\\\server\\share\\a.ts", "cat", Some("a.ts")),
        ("//server/share/a.ts", "cat", Some("a.ts")),
        ("\\\\server\\share", "cat", None),
        ("\\\\a.ts", "cat", Some("a.ts")),
        ("\\r\\a.ts", "r", Some("a.ts")),
        ("\\\\.\\COM1\\a.ts", "cat", Some("a.ts")),
        ("//?/C:/r/a.ts", "r", Some("a.ts")),
        ("", "cat", None),
    ] {
        assert_eq!(containing_folder(path, "cat", PathStyle::Windows), folder, "{:?}", path);
        assert_eq!(file_name(path, PathStyle::Windows).as_deref(), name, "{:?}", path);
    }
    assert!(is_audited("C:\\r\\a.ts", PathStyle::Windows));
    assert!(!is_audited("C:\\r\\.ts", PathStyle::Windows));
    assert!(is_audited("C:\\r\\.ts", PathStyle::Unix));
}

#[test]
fn verbatim_paths_are_taken_as_written() {
    for (path, folder, name) in [
        ("\\\\?\\UNC\\server\\share\\a.ts", "cat", Some("a.ts")),
        ("\\\\?\\UNC\\server\\share\\r\\a.ts", "r", Some("a.ts")),
        ("\\\\?\\UNC\\server\\share", "cat", None),
        ("\\\\?\\UNC\\server", "cat", None),
        ("\\\\?\\UNC", "cat", None),
        ("\\\\?\\C:\\a.ts", "cat", Some("a.ts")),
        ("\\\\?\\C:\\r\\a.ts", "r", Some("a.ts")),
        ("\\\\?\\C:", "cat", None),
        ("\\\\?\\C:/r\\a.ts", "r", Some("a.ts")),
        ("\\\\?\\C:x\\a.ts", "cat", Some("a.ts")),
        ("\\\\?\\C:\\r\\x/a.ts", "r", Some("x/a.ts")),
        ("\\\\?\\C:\\r\\.\\a.ts", "cat", Some("a.ts")),
        ("\\\\?\\C:\\r\\.", "r", None),
        ("\\\\?\\C:\\r\\..\\a.ts", "cat", Some("a.ts")),
        ("\\\\?\\Volume{1}\\r\\a.ts", "r", Some("a.ts")),
        ("\\\\?\\", "cat", None),
    ] {
        assert_eq!(containing_folder(path, "cat", PathStyle::Windows), folder, "{:?}", path);
        assert_eq!(file_name(path, PathStyle::Windows).as_deref(), name, "{:?}", path);
    }
}

#[test]
fn the_name_of_a_file_is_found_as_std_finds_it() {
    for path in ["/repo/src/a.ts", "a.ts", "./a.ts", "a/..", "", "/", ".", "a/.", "a.ts/", "x/.ts"] {
        let expected = std::path::Path::new(path)
            .file_name()
            .and_then(|n| n.to_str())
            .map(String::from);
        assert_eq!(file_name(path, PathStyle::Unix), expected, "{:?}", path);
    }
}

#[test]
fn audits_look_at_typescript_outside_of_packages() {
    for path in ["a.ts", "src/a.d.ts", "..ts", "x/a.ts/"] {
        assert!(is_audited(path, PathStyle::Unix), "{}", path);
    }
    for path in ["a.tsx", ".ts", "a.TS", "node_modules/a.ts", "my_node_modules_x/a.ts", "", "ts"] {
        assert!(!is_audited(path, PathStyle::Unix), "{}", path);
    }
    for path in ["a.ts", "src/a.d.ts", "..ts", ".ts", "a.tsx", "ts", "a.", "", "x/..", "b.ts/."] {
        let p = std::path::Path::new(path);
        let by_std = p.extension().map(|e| e == "ts").unwrap_or(false);
        assert_eq!(is_audited(path, PathStyle::Unix), by_std, "{:?}", path);
    }
}

#[test]
fn times_of_day_are_written_in_full() {
    assert_eq!(clock_text(0), "00:00:00");
    assert_eq!(clock_text(3661), "01:01:01");
    assert_eq!(clock_text(86399), "23:59:59");
    assert_eq!(clock_text(86400 + 5), "00:00:05");
}

#[test]
fn a_clock_before_the_epoch_gives_no_time() {
    assert_eq!(timestamp_at(None), None);
    assert_eq!(timestamp_at(Some(3661)), Some("01:01:01".to_string()));
}

#[test]
fn the_time_now_is_a_time_of_day() {
    let text = chrono_timestamp().expect("a clock after 1970");
    assert_eq!(text.len(), 8);
    let parts: Vec<u32> = text.split(':').map(|p| p.parse().unwrap()).collect();
    assert!(parts[0] < 24 && parts[1] < 60 && parts[2] < 60);
    let now = std::time::SystemTime::now()
        .duration_since(std::time::UNIX_EPOCH)
        .unwrap()
        .as_secs();
    let told = (parts[0] * 3600 + parts[1] * 60 + parts[2]) as u64;
    assert!((now + 86400 - told) % 86400 <= 5);
}

#[test]
fn durations_show_two_units() {
    assert_eq!(format_duration(0), "0s");
    assert_eq!(format_duration(59), "59s");
    assert_eq!(format_duration(330), "5m 30s");
    assert_eq!(format_duration(4980), "1h 23m");
    assert_eq!(format_duration(360000), "100h 0m");
}

#[test]
fn unknown_estimates_are_dashes() {
    assert_eq!(format_eta(None), "--");
    assert_eq!(format_eta(Some(61)), "1m 1s");
    assert_eq!(format_eta(Some(0)), "0s");
}

#[test]
fn recurring_work_waits_for_its_period() {
    let mut upload = Recurring { last: 100, period: 60 };
    assert!(!upload.is_over(159));
    assert!(upload.is_over(160));
    assert!(!upload.is_over(219));
    assert!(upload.is_over(300));
    assert!(!upload.is_over(50));
}

#[test]
fn hashes_are_sha256_in_hex() {
    assert_eq!(
        content_hash(""),
        "sha256:e3b0c44298fc1c149afbf4c8996fb92427ae41e4649b934ca495991b7852b855"
    );
    assert_eq!(
        content_hash("abc"),
        "sha256:ba7816bf8f01cfea414140de5dae2223b00361a396177a9cb410ff61f20015ad"
    );
    assert_ne!(content_hash("ä"), content_hash("a"));
}

#[test]
fn digests_are_written_digit_by_digit() {
    assert_eq!(written_digest(&vec![0x00, 0x0f, 0xa9, 0xff]), "sha256:000fa9ff");
    assert_eq!(written_digest(&Vec::new()), "sha256:");
}
