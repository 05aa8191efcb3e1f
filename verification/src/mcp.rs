//! The messages of the MCP server: what each request asks for, and what is answered.
//!
//! The server offers two tools, `semantic_search` and `view_chunks`, over JSON-RPC.

use vstd::prelude::*;
use vstd::string::*;

use crate::engine::parallel_embedder::HIDDEN_SIZE;
use crate::engine::uploader::HttpStatus;
#[allow(unused_imports)]
use crate::engine::uploader::is_success;
use crate::json::{json_list, json_object, json_text, list_with, no_fields, object_with};
use crate::json::{with_field, Json};
#[allow(unused_imports)]
use crate::json::{bool_field, field_models, field_of, lemma_models, model, models};
#[allow(unused_imports)]
use crate::json::{text_field, texts_field, whole_field, JsonModel};
use crate::text::{append_decimal, same_text};
#[allow(unused_imports)]
use crate::text::{decimal, text_option, texts};
use crate::text_map::TextMap;

verus! {

// ---------------------------------------------------------------------------
// Envelopes
// ---------------------------------------------------------------------------

/// JSON-RPC request envelope
pub struct JsonRpcRequest {
    pub jsonrpc: String,
    pub id: Option<Json>,
    pub method: String,
    pub params: Option<Json>,
}

/// JSON-RPC response envelope
pub struct JsonRpcResponse {
    pub jsonrpc: String,
    pub id: Option<Json>,
    pub result: Option<Json>,
    pub error: Option<JsonRpcError>,
}

/// JSON-RPC error object
pub struct JsonRpcError {
    pub code: i32,
    pub message: String,
}

/// The code for a method or a tool that there is not.
pub const METHOD_NOT_FOUND: i32 = -32601;

/// The code for parameters that do not suit.
pub const INVALID_PARAMS: i32 = -32602;

/// The code for a call that failed.
pub const INTERNAL_ERROR: i32 = -32603;

/// What an optional value is.
pub open spec fn optional(value: Option<Json>) -> Option<JsonModel> {
    match value {
        Some(v) => Some(model(v)),
        None => None,
    }
}

/// What a response says.
pub struct ResponseModel {
    pub jsonrpc: Seq<char>,
    pub id: Option<JsonModel>,
    pub result: Option<JsonModel>,
    pub error: Option<(i32, Seq<char>)>,
}

impl View for JsonRpcResponse {
    type V = ResponseModel;

    open spec fn view(&self) -> ResponseModel {
        ResponseModel {
            jsonrpc: self.jsonrpc@,
            id: optional(self.id),
            result: optional(self.result),
            error: match self.error {
                Some(e) => Some((e.code, e.message@)),
                None => None,
            },
        }
    }
}

/// The response that a call succeeded.
pub open spec fn success_response(id: Option<JsonModel>, result: JsonModel) -> ResponseModel {
    ResponseModel { jsonrpc: "2.0"@, id, result: Some(result), error: None }
}

/// The response that a call failed.
pub open spec fn error_response(
    id: Option<JsonModel>,
    code: i32,
    message: Seq<char>,
) -> ResponseModel {
    ResponseModel { jsonrpc: "2.0"@, id, result: None, error: Some((code, message)) }
}

impl JsonRpcResponse {
    /// The response that a call succeeded
    pub fn success(id: Option<Json>, result: Json) -> (r: Self)
        ensures
            r@ == success_response(optional(id), model(result)),
    {
        JsonRpcResponse { jsonrpc: "2.0".to_owned(), id, result: Some(result), error: None }
    }

    /// The response that a call failed
    pub fn error(id: Option<Json>, code: i32, message: String) -> (r: Self)
        ensures
            r@ == error_response(optional(id), code, message@),
    {
        JsonRpcResponse {
            jsonrpc: "2.0".to_owned(),
            id,
            result: None,
            error: Some(JsonRpcError { code, message }),
        }
    }
}

// ---------------------------------------------------------------------------
// Fixed results
// ---------------------------------------------------------------------------

/// What the server says of itself.
pub open spec fn initialize_result() -> JsonModel {
    JsonModel::Object(
        Seq::empty().push(("protocolVersion"@, JsonModel::Text("2025-03-26"@))).push(
            (
                "serverInfo"@,
                JsonModel::Object(
                    Seq::empty().push(("name"@, JsonModel::Text("rush-qdrant"@))).push(
                        ("version"@, JsonModel::Text("0.1.0"@)),
                    ),
                ),
            ),
        ).push(
            (
                "capabilities"@,
                JsonModel::Object(Seq::empty().push(("tools"@, JsonModel::Object(Seq::empty())))),
            ),
        ),
    )
}

fn initialize_json() -> (r: Json)
    ensures
        model(r) == initialize_result(),
{
    let info = with_field(no_fields(), "name", json_text("rush-qdrant"));
    let info = with_field(info, "version", json_text("0.1.0"));
    let out = with_field(no_fields(), "protocolVersion", json_text("2025-03-26"));
    let out = with_field(out, "serverInfo", object_with(info));
    let out = with_field(out, "capabilities", json_object("tools", object_with(no_fields())));
    object_with(out)
}

/// Names with commas between them.
pub open spec fn comma_separated(names: Seq<Seq<char>>) -> Seq<char>
    decreases names.len(),
{
    if names.len() == 0 {
        Seq::empty()
    } else if names.len() == 1 {
        names[0]
    } else {
        comma_separated(names.drop_last()) + ", "@ + names.last()
    }
}

/// What the search tool says of the catalogs.
pub open spec fn catalog_sentence(names: Seq<Seq<char>>) -> Seq<char> {
    if names.len() == 1 {
        "Searches the '"@ + names[0] + "' catalog."@
    } else {
        "Available catalogs: "@ + comma_separated(names) + ". Omit to search all."@
    }
}

fn comma_text<V>(names: &TextMap<V>) -> (r: String)
    ensures
        r@ == comma_separated(names.order()),
{
    let n: usize = names.len();
    let ghost all = names.order();
    let mut out = String::new();
    let mut i: usize = 0;
    assert(out@ =~= comma_separated(all.take(0)));
    while i < n
        invariant
            all == names.order(),
            n == all.len(),
            i <= n,
            out@ == comma_separated(all.take(i as int)),
        decreases n - i,
    {
        let ghost now = all.take(i + 1);
        assert(now.drop_last() =~= all.take(i as int));
        assert(now.last() == all[i as int]);
        if i > 0 {
            out.append(", ");
            out.append(names.key(i));
        } else {
            out.append(names.key(i));
            assert(out@ =~= all[0]);
        }
        i = i + 1;
    }
    assert(all.take(n as int) =~= all);
    out
}

fn sentence_text<V>(names: &TextMap<V>) -> (r: String)
    ensures
        r@ == catalog_sentence(names.order()),
{
    if names.len() == 1 {
        let mut out = "Searches the '".to_owned();
        out.append(names.key(0));
        out.append("' catalog.");
        return out;
    }
    let mut out = "Available catalogs: ".to_owned();
    let list = comma_text(names);
    out.append(list.as_str());
    out.append(". Omit to search all.");
    out
}

/// A parameter of a tool: its type and what it is.
pub open spec fn parameter(kind: Seq<char>, description: Seq<char>) -> Seq<
    (Seq<char>, JsonModel),
> {
    Seq::empty().push(("type"@, JsonModel::Text(kind))).push(
        ("description"@, JsonModel::Text(description)),
    )
}

/// The parameters of a tool, one of which is required.
pub open spec fn input_schema(
    properties: Seq<(Seq<char>, JsonModel)>,
    required: Seq<char>,
) -> JsonModel {
    JsonModel::Object(
        Seq::empty().push(("type"@, JsonModel::Text("object"@))).push(
            ("properties"@, JsonModel::Object(properties)),
        ).push(("required"@, JsonModel::List(Seq::empty().push(JsonModel::Text(required))))),
    )
}

/// A tool: its name, what it does and its parameters.
pub open spec fn tool(name: Seq<char>, description: Seq<char>, schema: JsonModel) -> JsonModel {
    JsonModel::Object(
        Seq::empty().push(("name"@, JsonModel::Text(name))).push(
            ("description"@, JsonModel::Text(description)),
        ).push(("inputSchema"@, schema)),
    )
}

/// The tool that searches.
pub open spec fn search_tool(sentence: Seq<char>) -> JsonModel {
    tool(
        "semantic_search"@,
        "Search indexed code and documentation using semantic similarity. Returns file IDs, similarity scores, breadcrumbs, and code previews. "@
            + sentence,
        input_schema(
            Seq::empty().push(
                (
                    "query"@,
                    JsonModel::Object(parameter("string"@, "Natural language search query"@)),
                ),
            ).push(
                (
                    "limit"@,
                    JsonModel::Object(
                        parameter("integer"@, "Maximum number of results (default: 10)"@).push(
                            ("default"@, JsonModel::Whole(10)),
                        ),
                    ),
                ),
            ).push(
                (
                    "catalog"@,
                    JsonModel::Object(
                        parameter("string"@, "Filter to a specific catalog (optional)"@),
                    ),
                ),
            ),
            "query"@,
        ),
    )
}

/// The tool that shows chunks.
pub open spec fn view_tool() -> JsonModel {
    tool(
        "view_chunks"@,
        "Retrieve full chunk content by file ID. Use IDs from semantic_search results. Selectors: '700a4ba232fe9ddc' (all chunks), '700a4ba232fe9ddc:3' (chunk 3), '700a4ba232fe9ddc:2-3' (range), '700a4ba232fe9ddc:3-end' (to end)."@,
        input_schema(
            Seq::empty().push(
                (
                    "ids"@,
                    JsonModel::Object(
                        parameter("array"@, "File IDs with optional chunk selectors"@).push(
                            (
                                "items"@,
                                JsonModel::Object(
                                    Seq::empty().push(("type"@, JsonModel::Text("string"@))),
                                ),
                            ),
                        ),
                    ),
                ),
            ).push(
                (
                    "full_paths"@,
                    JsonModel::Object(
                        parameter(
                            "boolean"@,
                            "Show full filesystem paths (default: false)"@,
                        ).push(("default"@, JsonModel::Bool(false))),
                    ),
                ),
            ),
            "ids"@,
        ),
    )
}

/// The tools that the server offers.
pub open spec fn tools_result(sentence: Seq<char>) -> JsonModel {
    JsonModel::Object(
        Seq::empty().push(
            (
                "tools"@,
                JsonModel::List(Seq::empty().push(search_tool(sentence)).push(view_tool())),
            ),
        ),
    )
}

fn parameter_fields(kind: &str, description: &str) -> (r: Vec<(String, Json)>)
    ensures
        field_models(r@) == parameter(kind@, description@),
{
    let out = with_field(no_fields(), "type", json_text(kind));
    with_field(out, "description", json_text(description))
}

fn schema_json(properties: Vec<(String, Json)>, required: &str) -> (r: Json)
    ensures
        model(r) == input_schema(field_models(properties@), required@),
{
    let out = with_field(no_fields(), "type", json_text("object"));
    let out = with_field(out, "properties", object_with(properties));
    let out = with_field(out, "required", json_list(json_text(required)));
    object_with(out)
}

fn tool_json(name: &str, description: &str, schema: Json) -> (r: Json)
    ensures
        model(r) == tool(name@, description@, model(schema)),
{
    let out = with_field(no_fields(), "name", json_text(name));
    let out = with_field(out, "description", json_text(description));
    let out = with_field(out, "inputSchema", schema);
    object_with(out)
}

fn search_tool_json(sentence: &str) -> (r: Json)
    ensures
        model(r) == search_tool(sentence@),
{
    let mut description =
        "Search indexed code and documentation using semantic similarity. Returns file IDs, similarity scores, breadcrumbs, and code previews. ".to_owned();
    description.append(sentence);
    let query = parameter_fields("string", "Natural language search query");
    let limit = parameter_fields("integer", "Maximum number of results (default: 10)");
    let limit = with_field(limit, "default", Json::Whole(10));
    let catalog = parameter_fields("string", "Filter to a specific catalog (optional)");
    let properties = with_field(no_fields(), "query", object_with(query));
    let properties = with_field(properties, "limit", object_with(limit));
    let properties = with_field(properties, "catalog", object_with(catalog));
    tool_json("semantic_search", description.as_str(), schema_json(properties, "query"))
}

fn view_tool_json() -> (r: Json)
    ensures
        model(r) == view_tool(),
{
    let description =
        "Retrieve full chunk content by file ID. Use IDs from semantic_search results. Selectors: '700a4ba232fe9ddc' (all chunks), '700a4ba232fe9ddc:3' (chunk 3), '700a4ba232fe9ddc:2-3' (range), '700a4ba232fe9ddc:3-end' (to end).";
    let ids = parameter_fields("array", "File IDs with optional chunk selectors");
    let ids = with_field(ids, "items", json_object("type", json_text("string")));
    let full_paths = parameter_fields("boolean", "Show full filesystem paths (default: false)");
    let full_paths = with_field(full_paths, "default", Json::Bool(false));
    let properties = with_field(no_fields(), "ids", object_with(ids));
    let properties = with_field(properties, "full_paths", object_with(full_paths));
    tool_json("view_chunks", description, schema_json(properties, "ids"))
}

fn tools_json(sentence: &str) -> (r: Json)
    ensures
        model(r) == tools_result(sentence@),
{
    let mut tools: Vec<Json> = Vec::new();
    tools.push(search_tool_json(sentence));
    tools.push(view_tool_json());
    proof {
        lemma_models(tools@);
        assert(models(tools@) =~= Seq::empty().push(search_tool(sentence@)).push(view_tool()));
    }
    json_object("tools", list_with(tools))
}

// ---------------------------------------------------------------------------
// Requests
// ---------------------------------------------------------------------------

/// A call of the tool that searches
pub struct SearchCall {
    pub id: Option<Json>,
    pub query: String,
    pub limit: usize,
    pub catalog: Option<String>,
}

/// A call of the tool that shows chunks
pub struct ViewCall {
    pub id: Option<Json>,
    pub ids: Vec<String>,
    pub full_paths: bool,
}

/// What is done about a request
pub enum Action {
    /// It is answered
    Reply(JsonRpcResponse),
    /// It is accepted, and nothing is answered
    Accept,
    /// A search is made, and what comes of it is answered
    Search(SearchCall),
    /// Chunks are fetched, and what comes of it is answered
    View(ViewCall),
}

/// What is done about a request, over texts and sequences.
pub enum ActionModel {
    Reply(ResponseModel),
    Accept,
    Search {
        id: Option<JsonModel>,
        query: Seq<char>,
        limit: usize,
        catalog: Option<Seq<char>>,
    },
    View { id: Option<JsonModel>, ids: Seq<Seq<char>>, full_paths: bool },
}

impl View for Action {
    type V = ActionModel;

    open spec fn view(&self) -> ActionModel {
        match self {
            Action::Reply(response) => ActionModel::Reply(response@),
            Action::Accept => ActionModel::Accept,
            Action::Search(call) => ActionModel::Search {
                id: optional(call.id),
                query: call.query@,
                limit: call.limit,
                catalog: text_option(call.catalog),
            },
            Action::View(call) => ActionModel::View {
                id: optional(call.id),
                ids: texts(call.ids@),
                full_paths: call.full_paths,
            },
        }
    }
}

/// The number of results of a search where none is asked for.
pub const DEFAULT_LIMIT: usize = 10;

/// What is done about a call of the tool that searches. A query is required.
pub open spec fn search_action(id: Option<JsonModel>, arguments: JsonModel) -> ActionModel {
    let query = match text_field(arguments, "query"@) {
        Some(q) => q,
        None => Seq::empty(),
    };
    if query.len() == 0 {
        ActionModel::Reply(
            error_response(id, INVALID_PARAMS, "Missing required parameter: query"@),
        )
    } else {
        ActionModel::Search {
            id,
            query,
            limit: match whole_field(arguments, "limit"@) {
                Some(n) => n as usize,
                None => DEFAULT_LIMIT,
            },
            catalog: text_field(arguments, "catalog"@),
        }
    }
}

/// What is done about a call of the tool that shows chunks. At least one ID is required.
pub open spec fn view_action(id: Option<JsonModel>, arguments: JsonModel) -> ActionModel {
    let ids = texts_field(arguments, "ids"@);
    if ids.len() == 0 {
        ActionModel::Reply(error_response(id, INVALID_PARAMS, "Missing required parameter: ids"@))
    } else {
        ActionModel::View {
            id,
            ids,
            full_paths: match bool_field(arguments, "full_paths"@) {
                Some(b) => b,
                None => false,
            },
        }
    }
}

/// What is done about a call of a tool. Parameters and arguments that are missing are
/// taken for empty ones.
pub open spec fn tool_action(id: Option<JsonModel>, params: Option<JsonModel>) -> ActionModel {
    let params = match params {
        Some(p) => p,
        None => JsonModel::Object(Seq::empty()),
    };
    let name = match text_field(params, "name"@) {
        Some(n) => n,
        None => Seq::empty(),
    };
    let arguments = match field_of(params, "arguments"@) {
        Some(a) => a,
        None => JsonModel::Object(Seq::empty()),
    };
    if name == "semantic_search"@ {
        search_action(id, arguments)
    } else if name == "view_chunks"@ {
        view_action(id, arguments)
    } else {
        ActionModel::Reply(error_response(id, METHOD_NOT_FOUND, "Unknown tool: "@ + name))
    }
}

/// What is done about a request, where the server has catalogs of some names.
pub open spec fn action_of(
    id: Option<JsonModel>,
    method: Seq<char>,
    params: Option<JsonModel>,
    catalogs: Seq<Seq<char>>,
) -> ActionModel {
    if method == "initialize"@ {
        ActionModel::Reply(success_response(id, initialize_result()))
    } else if method == "notifications/initialized"@ {
        ActionModel::Accept
    } else if method == "tools/list"@ {
        ActionModel::Reply(success_response(id, tools_result(catalog_sentence(catalogs))))
    } else if method == "tools/call"@ {
        tool_action(id, params)
    } else if id is Some {
        ActionModel::Reply(error_response(id, METHOD_NOT_FOUND, "Method not found: "@ + method))
    } else {
        ActionModel::Accept
    }
}

fn search_call(id: Option<Json>, arguments: &Json) -> (r: Action)
    ensures
        r@ == search_action(optional(id), model(*arguments)),
{
    let query = match arguments.text_at("query") {
        Some(q) => q,
        None => String::new(),
    };
    let empty = same_text(query.as_str(), "");
    proof {
        reveal_strlit("");
        assert(""@ =~= Seq::<char>::empty());
        assert(query@.len() == 0 ==> query@ =~= ""@);
    }
    if empty {
        return Action::Reply(
            JsonRpcResponse::error(
                id,
                INVALID_PARAMS,
                "Missing required parameter: query".to_owned(),
            ),
        );
    }
    let limit: usize = match arguments.whole_at("limit") {
        Some(n) => n as usize,
        None => DEFAULT_LIMIT,
    };
    let catalog = arguments.text_at("catalog");
    Action::Search(SearchCall { id, query, limit, catalog })
}

fn view_call(id: Option<Json>, arguments: &Json) -> (r: Action)
    ensures
        r@ == view_action(optional(id), model(*arguments)),
{
    let ids = arguments.texts_at("ids");
    if ids.len() == 0 {
        assert(texts(ids@).len() == 0);
        return Action::Reply(
            JsonRpcResponse::error(
                id,
                INVALID_PARAMS,
                "Missing required parameter: ids".to_owned(),
            ),
        );
    }
    assert(texts(ids@).len() > 0);
    let full_paths = match arguments.bool_at("full_paths") {
        Some(b) => b,
        None => false,
    };
    Action::View(ViewCall { id, ids, full_paths })
}

fn tool_call(id: Option<Json>, params: &Json) -> (r: Action)
    ensures
        r@ == tool_action(optional(id), Some(model(*params))),
{
    let name = match params.text_at("name") {
        Some(n) => n,
        None => {
            let none = String::new();
            assert(none@ =~= Seq::<char>::empty());
            none
        },
    };
    let nothing = object_with(no_fields());
    let arguments = match params.get("arguments") {
        Some(a) => a,
        None => &nothing,
    };
    if same_text(name.as_str(), "semantic_search") {
        search_call(id, arguments)
    } else if same_text(name.as_str(), "view_chunks") {
        view_call(id, arguments)
    } else {
        let mut message = "Unknown tool: ".to_owned();
        message.append(name.as_str());
        Action::Reply(JsonRpcResponse::error(id, METHOD_NOT_FOUND, message))
    }
}

/// What is done about a request, where the server has some catalogs
pub fn handle_post<V>(request: JsonRpcRequest, catalogs: &TextMap<V>) -> (r: Action)
    ensures
        r@ == action_of(
            optional(request.id),
            request.method@,
            optional(request.params),
            catalogs.order(),
        ),
{
    let method = request.method.as_str();
    if same_text(method, "initialize") {
        Action::Reply(JsonRpcResponse::success(request.id, initialize_json()))
    } else if same_text(method, "notifications/initialized") {
        Action::Accept
    } else if same_text(method, "tools/list") {
        let sentence = sentence_text(catalogs);
        Action::Reply(JsonRpcResponse::success(request.id, tools_json(sentence.as_str())))
    } else if same_text(method, "tools/call") {
        match &request.params {
            Some(params) => tool_call(request.id, params),
            None => {
                let nothing = object_with(no_fields());
                tool_call(request.id, &nothing)
            },
        }
    } else if request.id.is_some() {
        let mut message = "Method not found: ".to_owned();
        message.append(method);
        Action::Reply(JsonRpcResponse::error(request.id, METHOD_NOT_FOUND, message))
    } else {
        Action::Accept
    }
}

// ---------------------------------------------------------------------------
// Answers to calls
// ---------------------------------------------------------------------------

/// What came of the work behind a call
pub enum CallOutcome {
    /// A text to be answered
    Done(String),
    /// The work failed with a message
    Failed(String),
    /// The work was not done at all, with a message
    Broken(String),
}

/// A result that holds a text.
pub open spec fn text_result(text: Seq<char>) -> JsonModel {
    JsonModel::Object(
        Seq::empty().push(
            (
                "content"@,
                JsonModel::List(
                    Seq::empty().push(
                        JsonModel::Object(
                            Seq::empty().push(("type"@, JsonModel::Text("text"@))).push(
                                ("text"@, JsonModel::Text(text)),
                            ),
                        ),
                    ),
                ),
            ),
        ),
    )
}

fn text_json(text: &str) -> (r: Json)
    ensures
        model(r) == text_result(text@),
{
    let part = with_field(no_fields(), "type", json_text("text"));
    let part = with_field(part, "text", json_text(text));
    json_object("content", json_list(object_with(part)))
}

/// The answer to a call whose failure is announced in some words.
pub open spec fn call_response(
    id: Option<JsonModel>,
    outcome: CallOutcome,
    failed: Seq<char>,
) -> ResponseModel {
    match outcome {
        CallOutcome::Done(text) => success_response(id, text_result(text@)),
        CallOutcome::Failed(message) => error_response(id, INTERNAL_ERROR, failed + message@),
        CallOutcome::Broken(message) => error_response(
            id,
            INTERNAL_ERROR,
            "Internal error: "@ + message@,
        ),
    }
}

fn call_reply(id: Option<Json>, outcome: &CallOutcome, failed: &str) -> (r: JsonRpcResponse)
    ensures
        r@ == call_response(optional(id), *outcome, failed@),
{
    match outcome {
        CallOutcome::Done(text) => JsonRpcResponse::success(id, text_json(text.as_str())),
        CallOutcome::Failed(message) => {
            let mut out = failed.to_owned();
            out.append(message.as_str());
            JsonRpcResponse::error(id, INTERNAL_ERROR, out)
        },
        CallOutcome::Broken(message) => {
            let mut out = "Internal error: ".to_owned();
            out.append(message.as_str());
            JsonRpcResponse::error(id, INTERNAL_ERROR, out)
        },
    }
}

/// The answer to a call of the tool that searches
pub fn search_reply(id: Option<Json>, outcome: &CallOutcome) -> (r: JsonRpcResponse)
    ensures
        r@ == call_response(optional(id), *outcome, "Search failed: "@),
{
    call_reply(id, outcome, "Search failed: ")
}

/// The answer to a call of the tool that shows chunks
pub fn view_reply(id: Option<Json>, outcome: &CallOutcome) -> (r: JsonRpcResponse)
    ensures
        r@ == call_response(optional(id), *outcome, "View failed: "@),
{
    call_reply(id, outcome, "View failed: ")
}

/// The ID that an action answers with.
pub open spec fn answered_id(action: ActionModel) -> Option<JsonModel> {
    match action {
        ActionModel::Reply(response) => response.id,
        ActionModel::Accept => None,
        ActionModel::Search { id, .. } => id,
        ActionModel::View { id, .. } => id,
    }
}

/// What is answered carries the ID of the request.
pub proof fn law_answers_carry_the_id(
    id: Option<JsonModel>,
    method: Seq<char>,
    params: Option<JsonModel>,
    catalogs: Seq<Seq<char>>,
)
    ensures
        ({
            let action = action_of(id, method, params, catalogs);
            action is Accept || answered_id(action) == id
        }),
{
}

/// Every request with an ID is answered, except the notification that the client is
/// ready; and what has no ID is not answered that its method is unknown.
pub proof fn law_requests_are_answered(
    id: Option<JsonModel>,
    method: Seq<char>,
    params: Option<JsonModel>,
    catalogs: Seq<Seq<char>>,
)
    ensures
        ({
            let action = action_of(id, method, params, catalogs);
            let known = method == "initialize"@ || method == "tools/list"@ || method
                == "tools/call"@;
            &&& id is Some && method != "notifications/initialized"@ ==> !(action is Accept)
            &&& id is None && !known ==> action is Accept
        }),
{
}

/// A response holds a result or an error, and never both.
pub proof fn law_result_or_error(
    id: Option<JsonModel>,
    method: Seq<char>,
    params: Option<JsonModel>,
    catalogs: Seq<Seq<char>>,
    outcome: CallOutcome,
    failed: Seq<char>,
)
    ensures
        match action_of(id, method, params, catalogs) {
            ActionModel::Reply(response) => response.result is Some <==> response.error is None,
            _ => true,
        },
        ({
            let response = call_response(id, outcome, failed);
            response.result is Some <==> response.error is None
        }),
{
}

// ---------------------------------------------------------------------------
// The collection
// ---------------------------------------------------------------------------

/// The address of a collection
pub fn collection_url(qdrant_url: &str, collection: &str) -> (r: String)
    ensures
        r@ == qdrant_url@ + "/collections/"@ + collection@,
{
    let mut out = qdrant_url.to_owned();
    out.append("/collections/");
    out.append(collection);
    out
}

/// What a new collection is to hold: vectors of the model's size, compared by the cosine
/// of their angle.
pub open spec fn new_collection() -> JsonModel {
    JsonModel::Object(
        Seq::empty().push(
            (
                "vectors"@,
                JsonModel::Object(
                    Seq::empty().push(("size"@, JsonModel::Whole(HIDDEN_SIZE as u64))).push(
                        ("distance"@, JsonModel::Text("Cosine"@)),
                    ),
                ),
            ),
        ),
    )
}

/// What a new collection is to hold
pub fn new_collection_json() -> (r: Json)
    ensures
        model(r) == new_collection(),
{
    let vectors = with_field(no_fields(), "size", Json::Whole(HIDDEN_SIZE as u64));
    let vectors = with_field(vectors, "distance", json_text("Cosine"));
    json_object("vectors", object_with(vectors))
}

/// Accepts the reply to the creation of a collection, or complains of it with what the
/// server says
pub fn creation_outcome(collection: &str, status: &HttpStatus, body: &str) -> (r: Result<
    (),
    String,
>)
    ensures
        match r {
            Ok(_) => is_success(status.code),
            Err(message) => !is_success(status.code) && message@
                == "Failed to create collection '"@ + collection@ + "': HTTP "@ + status.text@
                + " - "@ + body@,
        },
{
    if status.success() {
        return Ok(());
    }
    let mut message = "Failed to create collection '".to_owned();
    message.append(collection);
    message.append("': HTTP ");
    message.append(status.text.as_str());
    message.append(" - ");
    message.append(body);
    Err(message)
}

/// The line that the server is ready
pub fn ready_line(port: u16, catalogs: usize) -> (r: String)
    ensures
        r@ == "MCP server ready at http://127.0.0.1:"@ + decimal(port as nat)
            + "/mcp (serving "@ + decimal(catalogs as nat) + if catalogs == 1 {
            " catalog)"@
        } else {
            " catalogs)"@
        },
{
    let mut out = "MCP server ready at http://127.0.0.1:".to_owned();
    append_decimal(&mut out, port as u64);
    out.append("/mcp (serving ");
    append_decimal(&mut out, catalogs as u64);
    out.append(
        if catalogs == 1 {
            " catalog)"
        } else {
            " catalogs)"
        },
    );
    out
}

// ---------------------------------------------------------------------------
// Laws
// ---------------------------------------------------------------------------

/// The parameters of a call of a tool with some arguments.
pub open spec fn call_of(tool_name: Seq<char>, arguments: JsonModel) -> JsonModel {
    JsonModel::Object(
        seq![("name"@, JsonModel::Text(tool_name)), ("arguments"@, arguments)],
    )
}

proof fn lemma_call_of(tool_name: Seq<char>, arguments: JsonModel)
    ensures
        text_field(call_of(tool_name, arguments), "name"@) == Some(tool_name),
        field_of(call_of(tool_name, arguments), "arguments"@) == Some(arguments),
{
    reveal_strlit("name");
    reveal_strlit("arguments");
    reveal_with_fuel(crate::json::first_with, 3);
    let fields = seq![("name"@, JsonModel::Text(tool_name)), ("arguments"@, arguments)];
    assert("name"@.len() == 4 && "arguments"@.len() == 9);
    assert(fields.skip(1)[0] == ("arguments"@, arguments));
}

proof fn lemma_methods_differ()
    ensures
        "tools/call"@ != "initialize"@,
        "tools/call"@ != "notifications/initialized"@,
        "tools/call"@ != "tools/list"@,
        "tools/list"@ != "initialize"@,
        "tools/list"@ != "notifications/initialized"@,
        "notifications/initialized"@ != "initialize"@,
        "view_chunks"@ != "semantic_search"@,
{
    reveal_strlit("tools/call");
    reveal_strlit("tools/list");
    reveal_strlit("initialize");
    reveal_strlit("notifications/initialized");
    reveal_strlit("view_chunks");
    reveal_strlit("semantic_search");
    assert("tools/call"@[6] == 'c' && "tools/list"@[6] == 'l');
    assert("tools/call"@[0] == 't' && "initialize"@[0] == 'i' && "tools/list"@[0] == 't');
    assert("notifications/initialized"@[0] == 'n');
    assert("view_chunks"@[0] == 'v' && "semantic_search"@[0] == 's');
}

/// A search is made for exactly the query that was sent, in the catalog that was named or
/// in all, with the limit that was named or ten results; without a query the call is
/// refused, and nothing is searched.
#[verifier::spinoff_prover]
#[verifier::rlimit(30)]
pub proof fn law_search_calls_are_carried_out(
    id: Option<JsonModel>,
    arguments: JsonModel,
    catalogs: Seq<Seq<char>>,
)
    ensures
        ({
            let action = action_of(
                id,
                "tools/call"@,
                Some(call_of("semantic_search"@, arguments)),
                catalogs,
            );
            match text_field(arguments, "query"@) {
                Some(query) if query.len() > 0 => action matches ActionModel::Search {
                    id: answered,
                    query: asked,
                    limit,
                    catalog,
                } && answered == id && asked == query && catalog == text_field(
                    arguments,
                    "catalog"@,
                ) && (whole_field(arguments, "limit"@) is None ==> limit == 10) && (whole_field(
                    arguments,
                    "limit"@,
                ) matches Some(n) ==> n <= usize::MAX ==> limit == n),
                _ => action matches ActionModel::Reply(response) && response.id == id
                    && response.result is None && response.error == Some(
                    (-32602i32, "Missing required parameter: query"@),
                ),
            }
        }),
{
    lemma_call_of("semantic_search"@, arguments);
    lemma_methods_differ();
}

/// Chunks are fetched for exactly the IDs that were sent, in their order, with full paths
/// only where they were asked for; without an ID the call is refused.
pub proof fn law_view_calls_are_carried_out(
    id: Option<JsonModel>,
    arguments: JsonModel,
    catalogs: Seq<Seq<char>>,
)
    ensures
        ({
            let action = action_of(
                id,
                "tools/call"@,
                Some(call_of("view_chunks"@, arguments)),
                catalogs,
            );
            let sent = texts_field(arguments, "ids"@);
            if sent.len() > 0 {
                action matches ActionModel::View { id: answered, ids, full_paths } && answered == id
                    && ids == sent && (full_paths <==> bool_field(arguments, "full_paths"@) == Some(
                    true,
                ))
            } else {
                action matches ActionModel::Reply(response) && response.id == id
                    && response.result is None && response.error == Some(
                    (-32602i32, "Missing required parameter: ids"@),
                )
            }
        }),
{
    lemma_call_of("view_chunks"@, arguments);
    lemma_methods_differ();
}

/// A tool that there is not, and a method that there is not, are refused by their names; a
/// notification that is not known is accepted and not answered.
#[verifier::spinoff_prover]
#[verifier::rlimit(30)]
pub proof fn law_unknown_names_are_refused(
    id: Option<JsonModel>,
    name: Seq<char>,
    arguments: JsonModel,
    params: Option<JsonModel>,
    catalogs: Seq<Seq<char>>,
)
    ensures
        name != "semantic_search"@ && name != "view_chunks"@ ==> (action_of(
            id,
            "tools/call"@,
            Some(call_of(name, arguments)),
            catalogs,
        ) matches ActionModel::Reply(response) && response.id == id && response.result is None
            && response.error == Some((-32601i32, "Unknown tool: "@ + name))),
        action_of(id, "tools/call"@, None, catalogs) matches ActionModel::Reply(response)
            && response.id == id && response.result is None && response.error == Some(
            (-32601i32, "Unknown tool: "@),
        ),
        name != "initialize"@ && name != "notifications/initialized"@ && name != "tools/list"@
            && name != "tools/call"@ && id is Some ==> (action_of(
            id,
            name,
            params,
            catalogs,
        ) matches ActionModel::Reply(response) && response.id == id && response.result is None
            && response.error == Some((-32601i32, "Method not found: "@ + name))),
        name != "initialize"@ && name != "tools/list"@ && name != "tools/call"@ && id is None
            ==> action_of(id, name, params, catalogs) is Accept,
        action_of(id, "notifications/initialized"@, params, catalogs) is Accept,
{
    lemma_call_of(name, arguments);
    lemma_methods_differ();
    reveal_strlit("semantic_search");
    reveal_strlit("view_chunks");
    let none = Seq::<char>::empty();
    assert(none != "semantic_search"@ && none != "view_chunks"@) by {
        assert("semantic_search"@.len() == 15 && "view_chunks"@.len() == 11);
    }
    assert("Unknown tool: "@ + none =~= "Unknown tool: "@);
}

/// On being asked, the server names the protocol, itself and its version, and that it has
/// tools.
pub proof fn law_server_introduces_itself(
    id: Option<JsonModel>,
    params: Option<JsonModel>,
    catalogs: Seq<Seq<char>>,
)
    ensures
        action_of(id, "initialize"@, params, catalogs) matches ActionModel::Reply(response)
            && response.id == id && response.error is None && response.jsonrpc == "2.0"@ && (
        response.result matches Some(JsonModel::Object(fields)) && fields.len() == 3 && fields[0]
            == ("protocolVersion"@, JsonModel::Text("2025-03-26"@)) && fields[1].0 == "serverInfo"@
            && (fields[1].1 matches JsonModel::Object(info) && info.len() == 2 && info[0] == (
            "name"@,
            JsonModel::Text("rush-qdrant"@),
        ) && info[1] == ("version"@, JsonModel::Text("0.1.0"@))) && fields[2].0 == "capabilities"@
            && (fields[2].1 matches JsonModel::Object(offered) && offered.len() == 1 && offered[0]
            == ("tools"@, JsonModel::Object(Seq::empty())))),
{
}

/// The tools that are listed are the two that can be called, each with the parameters that
/// a call reads, and the one for searches says which catalogs there are.
#[verifier::spinoff_prover]
#[verifier::rlimit(30)]
pub proof fn law_listed_tools_can_be_called(
    id: Option<JsonModel>,
    params: Option<JsonModel>,
    catalogs: Seq<Seq<char>>,
)
    ensures
        action_of(id, "tools/list"@, params, catalogs) matches ActionModel::Reply(response)
            && response.id == id && response.error is None && (response.result matches Some(
            JsonModel::Object(fields),
        ) && fields.len() == 1 && fields[0].0 == "tools"@ && (fields[0].1 matches JsonModel::List(
            tools,
        ) && tools.len() == 2 && (tools[0] matches JsonModel::Object(search) && search.len() == 3
            && search[0] == ("name"@, JsonModel::Text("semantic_search"@)) && search[1].0
            == "description"@ && (search[1].1 matches JsonModel::Text(said)
            && catalog_sentence(catalogs).is_suffix_of(said)) && search[2].0 == "inputSchema"@ && (
        search[2].1 matches JsonModel::Object(schema) && schema.len() == 3 && schema[0] == (
            "type"@,
            JsonModel::Text("object"@),
        ) && (schema[1].1 matches JsonModel::Object(asked) && asked.len() == 3 && asked[0].0
            == "query"@ && asked[1].0 == "limit"@ && asked[2].0 == "catalog"@) && schema[2] == (
            "required"@,
            JsonModel::List(seq![JsonModel::Text("query"@)]),
        ))) && (tools[1] matches JsonModel::Object(view) && view.len() == 3 && view[0] == (
            "name"@,
            JsonModel::Text("view_chunks"@),
        ) && view[2].0 == "inputSchema"@ && (view[2].1 matches JsonModel::Object(schema)
            && schema.len() == 3 && (schema[1].1 matches JsonModel::Object(asked) && asked.len()
            == 2 && asked[0].0 == "ids"@ && asked[1].0 == "full_paths"@) && schema[2] == (
            "required"@,
            JsonModel::List(seq![JsonModel::Text("ids"@)]),
        ))))),
{
    lemma_methods_differ();
    let sentence = catalog_sentence(catalogs);
    let said =
        "Search indexed code and documentation using semantic similarity. Returns file IDs, similarity scores, breadcrumbs, and code previews. "@
        + sentence;
    assert(said.subrange(said.len() - sentence.len(), said.len() as int) =~= sentence);
    assert(Seq::empty().push(JsonModel::Text("query"@)) =~= seq![JsonModel::Text("query"@)]);
    assert(Seq::empty().push(JsonModel::Text("ids"@)) =~= seq![JsonModel::Text("ids"@)]);
}

/// The sentence on catalogs names each of them once, with commas between them, or the only
/// one alone.
pub proof fn law_catalogs_are_named(names: Seq<Seq<char>>, name: Seq<char>)
    ensures
        catalog_sentence(seq![name]) == "Searches the '"@ + name + "' catalog."@,
        names.len() != 1 ==> catalog_sentence(names) == "Available catalogs: "@ + comma_separated(
            names,
        ) + ". Omit to search all."@,
        comma_separated(Seq::empty()) == Seq::<char>::empty(),
        comma_separated(seq![name]) == name,
        names.len() > 0 ==> comma_separated(names.push(name)) == comma_separated(names) + ", "@
            + name,
{
    assert(names.push(name).drop_last() =~= names);
}

/// What the work behind a call gave is answered as text; what it failed with is answered as
/// an error that says which call failed and how, under the ID of the request.
pub proof fn law_outcomes_are_answered(
    id: Option<JsonModel>,
    text: String,
    failed: Seq<char>,
)
    ensures
        ({
            let done = call_response(id, CallOutcome::Done(text), failed);
            let bad = call_response(id, CallOutcome::Failed(text), failed);
            let broken = call_response(id, CallOutcome::Broken(text), failed);
            &&& done.id == id && done.jsonrpc == "2.0"@ && done.error is None
            &&& done.result matches Some(JsonModel::Object(fields)) && fields.len() == 1
                && fields[0].0 == "content"@ && (fields[0].1 matches JsonModel::List(parts)
                && parts.len() == 1 && (parts[0] matches JsonModel::Object(part) && part.len() == 2
                && part[0] == ("type"@, JsonModel::Text("text"@)) && part[1] == (
                "text"@,
                JsonModel::Text(text@),
            )))
            &&& bad.id == id && bad.result is None && bad.error == Some(
                (-32603i32, failed + text@),
            )
            &&& broken.id == id && broken.result is None && broken.error == Some(
                (-32603i32, "Internal error: "@ + text@),
            )
        }),
{
}

/// A new collection holds vectors with 768 values, compared by the cosine of their angle.
pub proof fn law_what_a_new_collection_holds()
    ensures
        new_collection() matches JsonModel::Object(fields) && fields.len() == 1 && fields[0].0
            == "vectors"@ && (fields[0].1 matches JsonModel::Object(vectors) && vectors.len() == 2
            && vectors[0] == ("size"@, JsonModel::Whole(768)) && vectors[1] == (
            "distance"@,
            JsonModel::Text("Cosine"@),
        )),
{
}

/// A response, and what is done about a request, are seen as they are: nothing is left out
/// and nothing is changed.
pub proof fn law_answers_are_seen_as_they_are(
    response: JsonRpcResponse,
    search: SearchCall,
    view: ViewCall,
    value: Json,
)
    ensures
        optional(Some(value)) == Some(model(value)),
        optional(None) is None,
        response@.jsonrpc == response.jsonrpc@,
        response@.id == optional(response.id),
        response@.result == optional(response.result),
        response.error is None <==> response@.error is None,
        response.error matches Some(e) ==> response@.error == Some((e.code, e.message@)),
        Action::Reply(response)@ == ActionModel::Reply(response@),
        Action::Accept@ is Accept,
        Action::Search(search)@ matches ActionModel::Search { id, query, limit, catalog } && id
            == optional(search.id) && query == search.query@ && limit == search.limit && catalog
            == text_option(search.catalog),
        Action::View(view)@ matches ActionModel::View { id, ids, full_paths } && id == optional(
            view.id,
        ) && ids == texts(view.ids@) && full_paths == view.full_paths,
{
}

} // verus!
