use rush_qdrant::engine::bodies::{
    delete_body, point_body, points_body, scroll_body, search_body, set_payload_body,
};
use rush_qdrant::engine::chunk::Chunk;
use rush_qdrant::engine::uploader::{
    check_reply, found_point, points_with, upload_outcome, CatalogListing, ChunkListing,
    Condition, Filter, HttpStatus, MatchValue, Operation, Point, PointPayload, PointResult,
    QdrantId, QdrantUploader, ScrollPage,
};
use rush_qdrant::json::Json;
use rush_qdrant::settings::{
    choose_purge, default_config_path, warnings_path, CatalogConfig, Config, Purge, QdrantConfig,
};
use rush_qdrant::text_map::TextMap;

fn payload(uri: &str, hash: &str, number: usize, complete: bool) -> PointPayload {
    PointPayload {
        text: "t".to_string(),
        source_uri: uri.to_string(),
        source_type: "code".to_string(),
        catalog: "main".to_string(),
        content_hash: hash.to_string(),
        start_line: 1,
        end_line: 1,
        symbol_name: None,
        chunk_type: "function".to_string(),
        chunk_kind: "content".to_string(),
        breadcrumb: None,
        file_id: "0123456789abcdef".to_string(),
        relative_path: uri.to_string(),
        chunk_number: number,
        chunk_count: 3,
        file_complete: complete,
    }
}

fn point(id: u64, uri: &str, hash: &str, number: usize, complete: bool) -> PointResult {
    PointResult {
        id: QdrantId::Integer(id),
        payload: payload(uri, hash, number, complete),
    }
}

fn shown(filter: &Filter) -> Vec<String> {
    filter
        .must
        .iter()
        .map(|c: &Condition| match &c.value {
            MatchValue::Text(s) => format!("{}={}", c.key, s),
            MatchValue::Integer(n) => format!("{}={}", c.key, n),
        })
        .collect()
}

fn status(code: u16, text: &str) -> HttpStatus {
    HttpStatus {
        code,
        text: text.to_string(),
    }
}

#[test]
fn the_server_has_a_default_address() {
    let near = QdrantUploader::new("code", None);
    assert_eq!(near.url, "http://localhost:6333");
    assert_eq!(near.collection, "code");
    let far = QdrantUploader::new("code", Some("http://far:1"));
    assert_eq!(far.url, "http://far:1");
}

#[test]
fn deletions_name_what_goes() {
    let q = QdrantUploader::new("code", Some("http://q"));
    let all = q.delete_catalog("main");
    assert_eq!(all.endpoint, "http://q/collections/code/points/delete");
    assert_eq!(shown(&all.filter), vec!["catalog=main"]);
    let one = q.delete_file("src/a.ts", "main");
    assert_eq!(one.endpoint, "http://q/collections/code/points/delete");
    assert_eq!(shown(&one.filter), vec!["catalog=main", "source_uri=src/a.ts"]);
    let everything = q.purge();
    assert_eq!(everything.endpoint, "http://q/collections/code/points/delete");
    assert!(everything.filter.must.is_empty());
}

#[test]
fn catalogs_are_listed_by_first_chunks() {
    let q = QdrantUploader::new("code", Some("http://q"));
    let request = q.get_catalog_files("main", &None);
    assert_eq!(request.endpoint, "http://q/collections/code/points/scroll?limit=1000");
    assert_eq!(shown(&request.filter), vec!["catalog=main", "chunk_number=1"]);
    assert!(request.with_payload);
    assert_eq!(request.limit, None);
    assert_eq!(request.offset, None);
    let next = q.get_catalog_files("main", &Some(QdrantId::String("u".to_string())));
    assert_eq!(next.offset, Some(QdrantId::String("u".to_string())));
}

#[test]
fn files_are_listed_by_their_id() {
    let q = QdrantUploader::new("code", Some("http://q"));
    let request = q.get_chunks_by_file_id("0123456789abcdef", &Some(QdrantId::Integer(7)));
    assert_eq!(request.endpoint, "http://q/collections/code/points/scroll?limit=100");
    assert_eq!(shown(&request.filter), vec!["file_id=0123456789abcdef"]);
    assert!(request.with_payload);
    assert_eq!(request.offset, Some(QdrantId::Integer(7)));
}

#[test]
fn complete_files_are_marked_on_their_first_chunk() {
    let q = QdrantUploader::new("code", Some("http://q"));
    let find = q.mark_file_complete("0123456789abcdef", "main");
    assert_eq!(find.endpoint, "http://q/collections/code/points/scroll?limit=1");
    assert_eq!(
        shown(&find.filter),
        vec!["file_id=0123456789abcdef", "chunk_number=1", "catalog=main"]
    );
    assert!(!find.with_payload);
    assert_eq!(find.limit, Some(1));
    let set = q
        .set_complete("0123456789abcdef", &vec![QdrantId::Integer(12), QdrantId::Integer(13)])
        .unwrap_or_else(|m| panic!("{}", m));
    assert_eq!(set.endpoint, "http://q/collections/code/points/payload");
    assert_eq!(set.key, "file_complete");
    assert!(set.value);
    assert_eq!(set.points, vec![QdrantId::Integer(12)]);
    let text = q
        .set_complete("0123456789abcdef", &vec![QdrantId::String("u-1".to_string())])
        .unwrap_or_else(|m| panic!("{}", m));
    assert_eq!(text.points, vec![QdrantId::String("u-1".to_string())]);
    let missing = q.set_complete("0123456789abcdef", &Vec::new());
    assert_eq!(missing.err().unwrap(), "No chunk #1 found for file 0123456789abcdef");
}

#[test]
fn searches_may_be_limited_to_a_catalog() {
    let q = QdrantUploader::new("code", Some("http://q"));
    let wide = q.query(10, None);
    assert_eq!(wide.endpoint, "http://q/collections/code/points/search");
    assert_eq!(wide.limit, 10);
    assert!(wide.with_payload);
    assert!(wide.filter.is_none());
    let narrow = q.query(3, Some("main"));
    assert_eq!(shown(&narrow.filter.unwrap()), vec!["catalog=main"]);
}

#[test]
fn points_are_asked_for_by_number() {
    let q = QdrantUploader::new("code", Some("http://q"));
    let request = q.get_point(42);
    assert_eq!(request.endpoint, "http://q/collections/code/points");
    assert_eq!(request.ids, vec![42]);
    assert!(request.with_payload);
}

#[test]
fn uploads_carry_the_chunks() {
    let q = QdrantUploader::new("code", Some("http://q"));
    assert!(q.upload_batch(&Vec::new()).is_none());
    let chunk = Chunk {
        text: "body".to_string(),
        source_uri: "src/a.ts".to_string(),
        source_type: "code".to_string(),
        catalog: "main".to_string(),
        content_hash: "sha256:11".to_string(),
        start_line: 3,
        end_line: 9,
        symbol_name: Some("f".to_string()),
        chunk_type: "function".to_string(),
        chunk_kind: "content".to_string(),
        breadcrumb: "pkg:a.ts:f".to_string(),
        file_id: "0123456789abcdef".to_string(),
        relative_path: "src/a.ts".to_string(),
        chunk_number: 2,
        chunk_count: 4,
    };
    let again = Chunk {
        text: "more".to_string(),
        source_uri: "src/a.ts".to_string(),
        source_type: "code".to_string(),
        catalog: "main".to_string(),
        content_hash: "sha256:11".to_string(),
        start_line: 10,
        end_line: 12,
        symbol_name: None,
        chunk_type: "function".to_string(),
        chunk_kind: "imports".to_string(),
        breadcrumb: "pkg:a.ts".to_string(),
        file_id: "0123456789abcdef".to_string(),
        relative_path: "src/a.ts".to_string(),
        chunk_number: 3,
        chunk_count: 4,
    };
    let chunks = vec![chunk, again];
    let paired = points_with(&chunks, vec!["u-1".to_string(), "u-2".to_string()]);
    assert_eq!((paired[0].id.as_str(), paired[0].payload.text.as_str()), ("u-1", "body"));
    assert_eq!((paired[1].id.as_str(), paired[1].payload.text.as_str()), ("u-2", "more"));
    let request = q.upload_batch(&chunks).expect("a request");
    assert_ne!(request.points[0].id, request.points[1].id);
    assert_eq!(request.endpoint, "http://q/collections/code/points");
    assert_eq!(request.points.len(), 2);
    let stored = &request.points[0].payload;
    assert_eq!(stored.text, "body");
    assert_eq!(stored.source_uri, "src/a.ts");
    assert_eq!(stored.catalog, "main");
    assert_eq!(stored.content_hash, "sha256:11");
    assert_eq!((stored.start_line, stored.end_line), (3, 9));
    assert_eq!(stored.symbol_name, Some("f".to_string()));
    assert_eq!(stored.breadcrumb, Some("pkg:a.ts:f".to_string()));
    assert_eq!(stored.file_id, "0123456789abcdef");
    assert_eq!((stored.chunk_number, stored.chunk_count), (2, 4));
    assert!(!stored.file_complete);
    assert_eq!(request.points[1].payload.chunk_kind, "imports");
}

#[test]
fn new_points_have_random_uuids() {
    let q = QdrantUploader::new("code", None);
    let mut ids = Vec::new();
    for _ in 0..20 {
        let chunk = Chunk {
            text: String::new(),
            source_uri: String::new(),
            source_type: String::new(),
            catalog: String::new(),
            content_hash: String::new(),
            start_line: 0,
            end_line: 0,
            symbol_name: None,
            chunk_type: String::new(),
            chunk_kind: String::new(),
            breadcrumb: String::new(),
            file_id: String::new(),
            relative_path: String::new(),
            chunk_number: 0,
            chunk_count: 0,
        };
        let request = q.upload_batch(&vec![chunk]).unwrap();
        let id = request.points[0].id.clone();
        let chars: Vec<char> = id.chars().collect();
        assert_eq!(chars.len(), 36);
        for (i, c) in chars.iter().enumerate() {
            if [8, 13, 18, 23].contains(&i) {
                assert_eq!(*c, '-');
            } else {
                assert!(c.is_ascii_digit() || ('a'..='f').contains(c));
            }
        }
        assert_eq!(chars[14], '4');
        assert!("89ab".contains(chars[19]));
        assert!(!ids.contains(&id));
        ids.push(id);
    }
}

fn written(value: &Json) -> String {
    match value {
        Json::Null => "null".to_string(),
        Json::Bool(b) => b.to_string(),
        Json::Whole(n) => n.to_string(),
        Json::Number(s) => s.clone(),
        Json::Text(s) => format!("{:?}", s),
        Json::List(items) => {
            let parts: Vec<String> = items.iter().map(written).collect();
            format!("[{}]", parts.join(","))
        }
        Json::Object(fields) => {
            let parts: Vec<String> = fields
                .iter()
                .map(|(k, v)| format!("{:?}:{}", k, written(v)))
                .collect();
            format!("{{{}}}", parts.join(","))
        }
    }
}

#[test]
fn deletions_are_sent_as_filters() {
    let q = QdrantUploader::new("code", None);
    assert_eq!(
        written(&delete_body(&q.delete_file("a.ts", "main"))),
        "{\"filter\":{\"must\":[{\"key\":\"catalog\",\"match\":{\"value\":\"main\"}},\
         {\"key\":\"source_uri\",\"match\":{\"value\":\"a.ts\"}}]}}"
    );
    assert_eq!(written(&delete_body(&q.purge())), "{\"filter\":{}}");
}

#[test]
fn pages_are_asked_for_by_filter_and_start() {
    let q = QdrantUploader::new("code", None);
    let filter = "\"filter\":{\"must\":[{\"key\":\"file_id\",\"match\":{\"value\":\"f\"}}]}";
    assert_eq!(
        written(&scroll_body(&q.get_chunks_by_file_id("f", &None))),
        format!("{{{},\"with_payload\":true}}", filter)
    );
    assert_eq!(
        written(&scroll_body(&q.get_chunks_by_file_id("f", &Some(QdrantId::Integer(7))))),
        format!("{{{},\"with_payload\":true,\"offset\":7}}", filter)
    );
    let text = Some(QdrantId::String("u".to_string()));
    assert_eq!(
        written(&scroll_body(&q.get_chunks_by_file_id("f", &text))),
        format!("{{{},\"with_payload\":true,\"offset\":\"u\"}}", filter)
    );
    assert_eq!(
        written(&scroll_body(&q.mark_file_complete("f", "main"))),
        "{\"filter\":{\"must\":[{\"key\":\"file_id\",\"match\":{\"value\":\"f\"}},\
         {\"key\":\"chunk_number\",\"match\":{\"value\":1}},\
         {\"key\":\"catalog\",\"match\":{\"value\":\"main\"}}]},\
         \"with_payload\":false,\"limit\":1}"
    );
}

#[test]
fn marks_searches_and_lookups_have_their_bodies() {
    let q = QdrantUploader::new("code", None);
    let set = q
        .set_complete("f", &vec![QdrantId::String("u".to_string())])
        .unwrap_or_else(|m| panic!("{}", m));
    assert_eq!(
        written(&set_payload_body(&set)),
        "{\"payload\":{\"file_complete\":true},\"points\":[\"u\"]}"
    );
    let set = q
        .set_complete("f", &vec![QdrantId::Integer(7)])
        .unwrap_or_else(|m| panic!("{}", m));
    assert_eq!(
        written(&set_payload_body(&set)),
        "{\"payload\":{\"file_complete\":true},\"points\":[7]}"
    );
    assert_eq!(
        written(&search_body(&q.query(5, None))),
        "{\"limit\":5,\"with_payload\":true,\"filter\":null}"
    );
    assert_eq!(
        written(&search_body(&q.query(5, Some("main")))),
        "{\"limit\":5,\"with_payload\":true,\"filter\":{\"must\":[{\"key\":\"catalog\",\
         \"match\":{\"value\":\"main\"}}]}}"
    );
    assert_eq!(
        written(&points_body(&q.get_point(9))),
        "{\"ids\":[9],\"with_payload\":true}"
    );
}

#[test]
fn points_are_sent_without_what_they_lack() {
    let mut stored = payload("a.ts", "h", 2, false);
    let bare = Point { id: "u".to_string(), payload: payload("a.ts", "h", 2, false) };
    assert_eq!(
        written(&point_body(&bare)),
        "{\"id\":\"u\",\"payload\":{\"text\":\"t\",\"source_uri\":\"a.ts\",\
         \"source_type\":\"code\",\"catalog\":\"main\",\"content_hash\":\"h\",\
         \"start_line\":1,\"end_line\":1,\"chunk_type\":\"function\",\
         \"chunk_kind\":\"content\",\"file_id\":\"0123456789abcdef\",\
         \"relative_path\":\"a.ts\",\"chunk_number\":2,\"chunk_count\":3,\
         \"file_complete\":false}}"
    );
    stored.symbol_name = Some("s".to_string());
    stored.breadcrumb = Some("b".to_string());
    let full = written(&point_body(&Point { id: "u".to_string(), payload: stored }));
    assert!(full.contains("\"end_line\":1,\"symbol_name\":\"s\",\"chunk_type\""));
    assert!(full.contains("\"chunk_kind\":\"content\",\"breadcrumb\":\"b\",\"file_id\""));
}

#[test]
fn integer_ids_can_be_shifted() {
    assert_eq!(QdrantId::Integer(40) >> 3, 5);
    assert_eq!(&QdrantId::Integer(41) >> 3, 5);
    assert_eq!(QdrantId::String("x".to_string()) >> 1, 0);
    assert_eq!(&QdrantId::String("x".to_string()) >> 1, 0);
}

#[test]
fn replies_are_accepted_by_their_status() {
    assert!(check_reply(&Operation::DeleteFile, &status(200, "200 OK")).is_ok());
    assert!(check_reply(&Operation::DeleteFile, &status(299, "299")).is_ok());
    assert!(check_reply(&Operation::DeleteFile, &status(199, "199")).is_err());
    assert!(check_reply(&Operation::DeleteFile, &status(300, "300")).is_err());
}

#[test]
fn refused_operations_are_complained_of() {
    let bad = status(500, "500 Internal Server Error");
    let say = |op: Operation| check_reply(&op, &bad).unwrap_err();
    assert_eq!(
        say(Operation::DeleteCatalog),
        "Failed to delete catalog: HTTP 500 Internal Server Error"
    );
    assert_eq!(
        say(Operation::DeleteFile),
        "Failed to delete file: HTTP 500 Internal Server Error"
    );
    assert_eq!(
        say(Operation::ScrollCatalog),
        "Failed to scroll catalog: HTTP 500 Internal Server Error"
    );
    assert_eq!(
        say(Operation::FindFirstChunk("f".to_string())),
        "Failed to find chunk #1 for file f: HTTP 500 Internal Server Error"
    );
    assert_eq!(
        say(Operation::SetComplete("f".to_string())),
        "Failed to set file_complete for f: HTTP 500 Internal Server Error"
    );
    assert_eq!(
        say(Operation::ScrollChunks),
        "Failed to scroll file chunks: HTTP 500 Internal Server Error"
    );
    assert_eq!(
        say(Operation::Purge),
        "Failed to purge collection: HTTP 500 Internal Server Error"
    );
}

#[test]
fn uploads_succeed_only_with_ok() {
    assert_eq!(upload_outcome("ok", 17), Ok(17));
    assert_eq!(
        upload_outcome("OK", 17),
        Err("Qdrant upsert failed with status: OK".to_string())
    );
}

#[test]
fn the_first_point_of_a_reply_counts() {
    let found = found_point(
        &status(200, ""),
        vec![point(1, "a", "h", 1, false), point(2, "b", "h", 1, false)],
    );
    assert_eq!(found.unwrap().id, QdrantId::Integer(1));
    assert!(found_point(&status(404, ""), vec![point(1, "a", "h", 1, false)]).is_none());
    assert!(found_point(&status(200, ""), Vec::new()).is_none());
}

#[test]
fn catalog_pages_add_up() {
    let mut listing = CatalogListing::new();
    listing.take_page(ScrollPage {
        points: vec![point(1, "a", "old", 1, false), point(2, "b", "h", 1, true)],
        next_page_offset: Some(QdrantId::Integer(3)),
    });
    assert!(!listing.done);
    assert_eq!(listing.offset, Some(QdrantId::Integer(3)));
    listing.take_page(ScrollPage {
        points: vec![point(3, "a", "new", 1, true)],
        next_page_offset: None,
    });
    assert!(listing.done);
    assert_eq!(listing.files.len(), 2);
    let a = listing.files.get("a").unwrap();
    assert_eq!(a.content_hash, "new");
    assert!(a.file_complete);
    assert_eq!(listing.files.get("b").unwrap().content_hash, "h");
    assert!(listing.files.get("c").is_none());
}

#[test]
fn an_empty_page_ends_a_listing() {
    let mut listing = CatalogListing::new();
    listing.take_page(ScrollPage {
        points: Vec::new(),
        next_page_offset: Some(QdrantId::Integer(9)),
    });
    assert!(listing.done);
    assert_eq!(listing.files.len(), 0);
    let mut chunks = ChunkListing::new();
    chunks.take_page(ScrollPage {
        points: Vec::new(),
        next_page_offset: Some(QdrantId::Integer(9)),
    });
    assert!(chunks.done);
}

#[test]
fn chunks_come_by_number() {
    let mut listing = ChunkListing::new();
    listing.take_page(ScrollPage {
        points: vec![point(1, "a", "h", 3, false), point(2, "a", "h", 1, false)],
        next_page_offset: Some(QdrantId::Integer(3)),
    });
    assert!(!listing.done);
    listing.take_page(ScrollPage {
        points: vec![point(3, "a", "h", 2, false), point(4, "a", "h", 1, false)],
        next_page_offset: None,
    });
    assert!(listing.done);
    let ids: Vec<QdrantId> = listing.sorted().into_iter().map(|p| p.id).collect();
    let expected: Vec<QdrantId> = [2, 4, 3, 1].into_iter().map(QdrantId::Integer).collect();
    assert_eq!(ids, expected);
}

#[test]
fn maps_remember_the_order_of_their_keys() {
    let mut map: TextMap<usize> = TextMap::new();
    map.insert("b", 1);
    map.insert("a", 2);
    map.insert("b", 3);
    assert_eq!(map.len(), 2);
    assert_eq!(map.key(0), "b");
    assert_eq!(map.get("b"), Some(&3));
    map.remove("b");
    map.remove("absent");
    assert!(!map.contains("b"));
    assert_eq!(map.key(0), "a");
    map.insert("b", 4);
    assert_eq!(map.key(1), "b");
}

fn config() -> Config {
    let mut catalogs = TextMap::new();
    catalogs.insert(
        "main",
        CatalogConfig {
            kind: "monorepo".to_string(),
            path: "/repo".to_string(),
        },
    );
    Config {
        qdrant: QdrantConfig {
            url: None,
            collection: "code".to_string(),
        },
        catalogs,
    }
}

#[test]
fn catalogs_are_found_by_name() {
    let config = config();
    let main = config.catalog("main").unwrap_or_else(|m| panic!("{}", m));
    assert_eq!(main.path, "/repo");
    assert!(main.is_monorepo());
    assert_eq!(
        config.catalog("docs").err().unwrap(),
        "Catalog 'docs' not found in config"
    );
    assert_eq!(config.qdrant_url(), "http://localhost:6333");
}

#[test]
fn a_purge_without_a_catalog_takes_the_whole_collection() {
    assert!(matches!(choose_purge(Some("main"), true), Purge::Collection));
    assert!(matches!(choose_purge(None, true), Purge::Collection));
    assert!(matches!(choose_purge(None, false), Purge::Collection));
    match choose_purge(Some("main"), false) {
        Purge::Catalog(name) => assert_eq!(name, "main"),
        Purge::Collection => panic!("a catalog was named"),
    }
}

#[test]
fn paths_lie_below_the_home_directory() {
    let config = default_config_path();
    assert!(config.ends_with("/.config/rush-qdrant/config.jsonc"));
    let warnings = warnings_path("main");
    assert!(warnings.ends_with("/.config/rush-qdrant/warnings-main.json"));
    assert_eq!(config, shellexpand::tilde("~/.config/rush-qdrant/config.jsonc"));
    assert_eq!(warnings, shellexpand::tilde("~/.config/rush-qdrant/warnings-main.json"));
    assert!(!config.starts_with('~'));
}
