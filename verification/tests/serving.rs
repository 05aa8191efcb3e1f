use rush_qdrant::engine::parallel_embedder::{
    batch_row_length, output_index, pad_batch, pooled_len, single_input, worker_for,
    ParallelConfig, Tokens, HIDDEN_SIZE, MAX_LENGTH,
};
use rush_qdrant::engine::uploader::HttpStatus;
use rush_qdrant::json::Json;
use rush_qdrant::mcp::{
    collection_url, creation_outcome, handle_post, new_collection_json, ready_line, search_reply,
    view_reply, Action, CallOutcome, JsonRpcRequest, JsonRpcResponse,
};
use rush_qdrant::text_map::TextMap;
use rush_qdrant::watcher::{
    any_relevant, first_crawl_line, is_watched, update_line, ChangeKind, ChangedPath, CrawlStats,
    Debouncer,
};

const SECOND: u128 = 1_000_000_000;

fn written(value: &Json) -> String {
    match value {
        Json::Null => "null".to_string(),
        Json::Bool(b) => b.to_string(),
        Json::Whole(n) => n.to_string(),
        Json::Number(s) => s.clone(),
        Json::Text(s) => format!("{:?}", s),
        Json::List(items) => {
            let parts: Vec<String> = items.iter().map(written).collect();
            format!("[{}]", parts.join(","))
        }
        Json::Object(fields) => {
            let parts: Vec<String> = fields
                .iter()
                .map(|(k, v)| format!("{:?}:{}", k, written(v)))
                .collect();
            format!("{{{}}}", parts.join(","))
        }
    }
}

fn text(s: &str) -> Json {
    Json::Text(s.to_string())
}

fn object(fields: Vec<(&str, Json)>) -> Json {
    Json::Object(fields.into_iter().map(|(k, v)| (k.to_string(), v)).collect())
}

fn request(id: Option<Json>, method: &str, params: Option<Json>) -> JsonRpcRequest {
    JsonRpcRequest {
        jsonrpc: "2.0".to_string(),
        id,
        method: method.to_string(),
        params,
    }
}

fn names(list: &[&str]) -> TextMap<()> {
    let mut map = TextMap::new();
    for name in list {
        map.insert(name, ());
    }
    map
}

fn reply(action: Action) -> JsonRpcResponse {
    match action {
        Action::Reply(response) => response,
        _ => panic!("a reply was expected"),
    }
}

fn call(tool: &str, arguments: Option<Json>) -> Action {
    let mut params = vec![("name", text(tool))];
    if let Some(a) = arguments {
        params.push(("arguments", a));
    }
    handle_post(
        request(Some(Json::Whole(5)), "tools/call", Some(object(params))),
        &names(&["main"]),
    )
}

fn error_of(response: JsonRpcResponse) -> (i32, String) {
    assert!(response.result.is_none());
    let error = response.error.expect("an error");
    (error.code, error.message)
}

#[test]
fn the_server_introduces_itself() {
    let response = reply(handle_post(
        request(Some(text("x")), "initialize", None),
        &names(&[]),
    ));
    assert_eq!(response.jsonrpc, "2.0");
    assert_eq!(written(&response.id.unwrap()), "\"x\"");
    assert!(response.error.is_none());
    assert_eq!(
        written(&response.result.unwrap()),
        "{\"protocolVersion\":\"2025-03-26\",\"serverInfo\":{\"name\":\"rush-qdrant\",\
         \"version\":\"0.1.0\"},\"capabilities\":{\"tools\":{}}}"
    );
}

#[test]
fn notifications_are_accepted() {
    let accepted = |id: Option<Json>, method: &str| {
        matches!(handle_post(request(id, method, None), &names(&[])), Action::Accept)
    };
    assert!(accepted(None, "notifications/initialized"));
    assert!(accepted(Some(Json::Whole(1)), "notifications/initialized"));
    assert!(accepted(None, "notifications/other"));
    assert!(!accepted(Some(Json::Whole(1)), "notifications/other"));
}

#[test]
fn unknown_methods_are_refused() {
    let response = reply(handle_post(
        request(Some(Json::Number("-1.5".to_string())), "resources/list", None),
        &names(&[]),
    ));
    assert_eq!(written(response.id.as_ref().unwrap()), "-1.5");
    assert_eq!(
        error_of(response),
        (-32601, "Method not found: resources/list".to_string())
    );
}

#[test]
fn tools_are_listed() {
    let list = |catalogs: &[&str]| {
        let response = reply(handle_post(
            request(Some(Json::Whole(1)), "tools/list", None),
            &names(catalogs),
        ));
        written(&response.result.unwrap())
    };
    let one = list(&["main"]);
    assert!(one.starts_with(
        "{\"tools\":[{\"name\":\"semantic_search\",\"description\":\"Search indexed code and \
         documentation using semantic similarity. Returns file IDs, similarity scores, \
         breadcrumbs, and code previews. Searches the 'main' catalog.\",\"inputSchema\":\
         {\"type\":\"object\",\"properties\":{\"query\":{\"type\":\"string\",\"description\":\
         \"Natural language search query\"},\"limit\":{\"type\":\"integer\",\"description\":\
         \"Maximum number of results (default: 10)\",\"default\":10},\"catalog\":{\"type\":\
         \"string\",\"description\":\"Filter to a specific catalog (optional)\"}},\
         \"required\":[\"query\"]}},"
    ));
    assert!(one.ends_with(
        "{\"name\":\"view_chunks\",\"description\":\"Retrieve full chunk content by file ID. Use \
         IDs from semantic_search results. Selectors: '700a4ba232fe9ddc' (all chunks), \
         '700a4ba232fe9ddc:3' (chunk 3), '700a4ba232fe9ddc:2-3' (range), \
         '700a4ba232fe9ddc:3-end' (to end).\",\"inputSchema\":{\"type\":\"object\",\
         \"properties\":{\"ids\":{\"type\":\"array\",\"description\":\"File IDs with optional \
         chunk selectors\",\"items\":{\"type\":\"string\"}},\"full_paths\":{\"type\":\"boolean\",\
         \"description\":\"Show full filesystem paths (default: false)\",\"default\":false}},\
         \"required\":[\"ids\"]}}]}"
    ));
    assert!(list(&["a", "b", "c"]).contains("Available catalogs: a, b, c. Omit to search all."));
    assert!(list(&[]).contains("Available catalogs: . Omit to search all."));
}

#[test]
fn searches_are_read_from_arguments() {
    let action = call(
        "semantic_search",
        Some(object(vec![
            ("query", text("where is it")),
            ("limit", Json::Whole(3)),
            ("catalog", text("docs")),
        ])),
    );
    match action {
        Action::Search(search) => {
            assert_eq!(written(&search.id.unwrap()), "5");
            assert_eq!(search.query, "where is it");
            assert_eq!(search.limit, 3);
            assert_eq!(search.catalog, Some("docs".to_string()));
        }
        _ => panic!("a search was expected"),
    }
}

#[test]
fn searches_have_defaults() {
    let action = call(
        "semantic_search",
        Some(object(vec![
            ("query", text("q")),
            ("limit", Json::Number("-3".to_string())),
            ("catalog", Json::Null),
        ])),
    );
    match action {
        Action::Search(search) => {
            assert_eq!(search.limit, 10);
            assert_eq!(search.catalog, None);
        }
        _ => panic!("a search was expected"),
    }
}

#[test]
fn searches_need_a_query() {
    let missing = (-32602, "Missing required parameter: query".to_string());
    assert_eq!(error_of(reply(call("semantic_search", None))), missing);
    assert_eq!(
        error_of(reply(call("semantic_search", Some(object(vec![("query", text(""))]))))),
        missing
    );
    assert_eq!(
        error_of(reply(call("semantic_search", Some(object(vec![("query", Json::Whole(1))]))))),
        missing
    );
}

#[test]
fn views_are_read_from_arguments() {
    let action = call(
        "view_chunks",
        Some(object(vec![
            ("ids", Json::List(vec![text("a"), Json::Whole(3), text("b:1")])),
            ("full_paths", Json::Bool(true)),
        ])),
    );
    match action {
        Action::View(view) => {
            assert_eq!(written(&view.id.unwrap()), "5");
            assert_eq!(view.ids, vec!["a".to_string(), "b:1".to_string()]);
            assert!(view.full_paths);
        }
        _ => panic!("a view was expected"),
    }
}

#[test]
fn views_need_ids() {
    let missing = (-32602, "Missing required parameter: ids".to_string());
    assert_eq!(error_of(reply(call("view_chunks", None))), missing);
    assert_eq!(
        error_of(reply(call("view_chunks", Some(object(vec![("ids", Json::List(vec![Json::Null]))]))))),
        missing
    );
    match call("view_chunks", Some(object(vec![("ids", Json::List(vec![text("a")]))]))) {
        Action::View(view) => assert!(!view.full_paths),
        _ => panic!("a view was expected"),
    }
}

#[test]
fn unknown_tools_are_refused() {
    assert_eq!(
        error_of(reply(call("rm", None))),
        (-32601, "Unknown tool: rm".to_string())
    );
    let response = reply(handle_post(
        request(None, "tools/call", None),
        &names(&[]),
    ));
    assert!(response.id.is_none());
    assert_eq!(error_of(response), (-32601, "Unknown tool: ".to_string()));
}

#[test]
fn calls_are_answered_by_their_outcome() {
    let id = || Some(Json::Whole(8));
    let done = search_reply(id(), &CallOutcome::Done("found\n".to_string()));
    assert_eq!(written(done.id.as_ref().unwrap()), "8");
    assert_eq!(
        written(&done.result.unwrap()),
        "{\"content\":[{\"type\":\"text\",\"text\":\"found\\n\"}]}"
    );
    assert!(done.error.is_none());
    assert_eq!(
        error_of(search_reply(id(), &CallOutcome::Failed("no server".to_string()))),
        (-32603, "Search failed: no server".to_string())
    );
    assert_eq!(
        error_of(view_reply(id(), &CallOutcome::Failed("no server".to_string()))),
        (-32603, "View failed: no server".to_string())
    );
    assert_eq!(
        error_of(view_reply(id(), &CallOutcome::Broken("gone".to_string()))),
        (-32603, "Internal error: gone".to_string())
    );
}

#[test]
fn collections_are_created_for_the_model() {
    assert_eq!(collection_url("http://q", "code"), "http://q/collections/code");
    assert_eq!(
        written(&new_collection_json()),
        "{\"vectors\":{\"size\":768,\"distance\":\"Cosine\"}}"
    );
    let good = HttpStatus { code: 200, text: "200 OK".to_string() };
    assert!(creation_outcome("code", &good, "").is_ok());
    let bad = HttpStatus { code: 409, text: "409 Conflict".to_string() };
    assert_eq!(
        creation_outcome("code", &bad, "exists").unwrap_err(),
        "Failed to create collection 'code': HTTP 409 Conflict - exists"
    );
}

#[test]
fn the_server_says_when_it_is_ready() {
    assert_eq!(
        ready_line(3000, 1),
        "MCP server ready at http://127.0.0.1:3000/mcp (serving 1 catalog)"
    );
    assert_eq!(
        ready_line(80, 2),
        "MCP server ready at http://127.0.0.1:80/mcp (serving 2 catalogs)"
    );
}

// --- watching ----------------------------------------------------------------

#[test]
fn only_changes_of_content_are_watched() {
    assert!(is_watched(ChangeKind::Create));
    assert!(is_watched(ChangeKind::Modify));
    assert!(is_watched(ChangeKind::Remove));
    assert!(!is_watched(ChangeKind::Other));
}

#[test]
fn one_relevant_path_is_enough() {
    let path = |p: &str, skipped: bool| ChangedPath {
        path: p.to_string(),
        skipped,
    };
    assert!(any_relevant(&vec![path("a.png", false), path("b.ts", false)]));
    assert!(!any_relevant(&vec![path("a.png", false), path("b.ts", true)]));
    assert!(!any_relevant(&Vec::new()));
}

#[test]
fn the_index_waits_for_quiet() {
    let mut waiting = Debouncer::new(0);
    assert!(!waiting.check(10 * SECOND));
    waiting.change(true, 10 * SECOND);
    assert!(!waiting.check(11 * SECOND));
    waiting.change(true, 11 * SECOND);
    waiting.change(false, 12 * SECOND);
    assert!(!waiting.check(13 * SECOND - 1));
    assert!(waiting.check(13 * SECOND));
    assert!(!waiting.check(14 * SECOND));
    waiting.change(false, 15 * SECOND);
    assert!(!waiting.check(30 * SECOND));
}

#[test]
fn crawls_are_reported_in_a_line() {
    let stats = CrawlStats {
        new_files: 1,
        changed_files: 2,
        unchanged_files: 30,
        deleted_files: 4,
        chunks_embedded: 55,
    };
    assert_eq!(
        first_crawl_line(&stats),
        "  1 new, 2 changed, 30 unchanged, 4 deleted (55 chunks)"
    );
    assert_eq!(
        update_line("01:02:03", "main", &stats),
        "[01:02:03] Re-indexed 'main': 1 new, 2 changed, 4 deleted (55 chunks)"
    );
    let idle = CrawlStats {
        new_files: 0,
        changed_files: 0,
        unchanged_files: 30,
        deleted_files: 0,
        chunks_embedded: 0,
    };
    assert_eq!(
        update_line("01:02:03", "main", &idle),
        "[01:02:03] No indexable changes in 'main'"
    );
}

// --- embedding ---------------------------------------------------------------

fn tokens(ids: &[u32]) -> Tokens {
    Tokens {
        ids: ids.to_vec(),
        attention_mask: vec![1; ids.len()],
    }
}

#[test]
fn workers_share_the_cores() {
    let cpu = ParallelConfig::for_cores(12, None, None);
    assert_eq!((cpu.num_workers, cpu.intra_threads), (4, 3));
    assert!(!cpu.use_cuda);
    assert_eq!(cpu.model_variant, "fp32");
    assert_eq!(cpu.model_file(), "onnx/model.onnx");
    assert_eq!(cpu.mode_line(), "CPU mode: 4 workers × 3 threads each");
    assert_eq!(
        cpu.pool_line(),
        "Worker pool created: 4 workers × 3 threads = 12 total threads"
    );
    let small = ParallelConfig::for_cores(2, Some("0".to_string()), None);
    assert_eq!((small.num_workers, small.intra_threads), (4, 1));
    let eight = ParallelConfig::for_cores(8, None, None);
    assert_eq!((eight.num_workers, eight.intra_threads), (4, 2));
}

#[test]
fn many_cores_get_the_default_settings() {
    for cores in [12, 15, 16, 32, 128, usize::MAX] {
        let config = ParallelConfig::for_cores(cores, None, None);
        assert_eq!((config.num_workers, config.intra_threads), (4, 3), "{}", cores);
    }
    for cores in 4..40 {
        let config = ParallelConfig::for_cores(cores, None, None);
        assert!(config.num_workers * config.intra_threads <= cores, "{}", cores);
    }
}

#[test]
fn the_gpu_takes_one_worker() {
    let gpu = ParallelConfig::for_cores(12, Some("1".to_string()), Some("fp16".to_string()));
    assert_eq!((gpu.num_workers, gpu.intra_threads), (1, 1));
    assert!(gpu.use_cuda);
    assert_eq!(gpu.model_file(), "onnx/model_fp16.onnx");
    assert_eq!(gpu.mode_line(), "GPU mode: CUDA execution provider, 1 worker(s)");
    let int8 = ParallelConfig::for_cores(1, None, Some("int8".to_string()));
    assert_eq!(int8.model_file(), "onnx/model_quantized.onnx");
    let other = ParallelConfig::for_cores(1, None, Some("q4".to_string()));
    assert_eq!(other.model_file(), "onnx/model.onnx");
}

#[test]
fn this_machine_has_its_settings() {
    let here = ParallelConfig::for_this_machine(None, None);
    assert_eq!(here.num_workers, 4);
    assert_eq!(here.intra_threads, (num_cpus::get() / 4).clamp(1, 3));
}

#[test]
fn batches_are_padded_to_the_longest() {
    let batch = vec![tokens(&[7, 8, 9]), tokens(&[5]), tokens(&[])];
    assert_eq!(batch_row_length(&batch, 0), 3);
    let padded = pad_batch(&batch, 0);
    assert_eq!((padded.rows, padded.row_len), (3, 3));
    assert_eq!(padded.input_ids, vec![7, 8, 9, 5, 0, 0, 0, 0, 0]);
    assert_eq!(padded.attention_mask, vec![1, 1, 1, 1, 0, 0, 0, 0, 0]);
}

#[test]
fn batches_are_padded_to_a_fixed_length() {
    let batch = vec![tokens(&[7, 8, 9]), tokens(&[5])];
    let padded = pad_batch(&batch, 2);
    assert_eq!(padded.row_len, 2);
    assert_eq!(padded.input_ids, vec![7, 8, 5, 0]);
    let wide = pad_batch(&batch, 4);
    assert_eq!(wide.input_ids, vec![7, 8, 9, 0, 5, 0, 0, 0]);
    assert!(pad_batch(&Vec::new(), 0).input_ids.is_empty());
}

#[test]
fn long_texts_are_cut() {
    let ids: Vec<u32> = (0..9000).collect();
    let long = tokens(&ids);
    let input = single_input(&long);
    assert_eq!((input.rows, input.row_len), (1, MAX_LENGTH));
    assert_eq!(input.input_ids.len(), 8192);
    assert_eq!(input.input_ids[8191], 8191);
    let mut other = tokens(&ids);
    other.ids[8192] = 1;
    assert_eq!(single_input(&other).input_ids, input.input_ids);
    other.ids[8191] = 1;
    assert_ne!(single_input(&other).input_ids, input.input_ids);
    assert_eq!(batch_row_length(&vec![long], 0), 8192);
    assert_eq!(pooled_len(9000, 8192), 8192);
    assert_eq!(pooled_len(9000, 10000), 8192);
    assert_eq!(pooled_len(3, 2), 2);
}

#[test]
fn outputs_are_laid_out_by_row_token_and_value() {
    assert_eq!(HIDDEN_SIZE, 768);
    assert_eq!(output_index(2, 3, 0, 0, 5), 5);
    assert_eq!(output_index(2, 3, 0, 2, 0), 2 * 768);
    assert_eq!(output_index(2, 3, 1, 1, 7), 3 * 768 + 768 + 7);
}

#[test]
fn texts_go_round_the_workers() {
    let taken: Vec<usize> = (0..6).map(|i| worker_for(i, 4)).collect();
    assert_eq!(taken, vec![0, 1, 2, 3, 0, 1]);
}
