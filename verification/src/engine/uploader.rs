//! The requests to a Qdrant collection and what its replies mean.
//!
//! Each request is a value: where it goes and what it asks. The replies come back
//! as values too; who sends the one and receives the other is not decided here.

use vstd::prelude::*;
use vstd::string::*;
use vstd::std_specs::ops::ShrSpecImpl;

use crate::engine::chunk::Chunk;
use crate::order::{arrange, stable_order};
#[allow(unused_imports)]
use crate::order::{
    arranged, comes_before, is_stable_order, law_order_has_all_places, law_stable_order_sorts,
};
use crate::text::same_text;
use crate::text_map::TextMap;

verus! {

// ---------------------------------------------------------------------------
// Values
// ---------------------------------------------------------------------------

/// Payload associated with a point
pub struct PointPayload {
    pub text: String,
    pub source_uri: String,
    pub source_type: String,
    pub catalog: String,
    pub content_hash: String,
    pub start_line: usize,
    pub end_line: usize,
    pub symbol_name: Option<String>,
    pub chunk_type: String,
    /// "content", "imports", "changelog" or "config"
    pub chunk_kind: String,
    pub breadcrumb: Option<String>,
    /// The ID of the file: sixteen hexadecimal digits
    pub file_id: String,
    /// Path relative to the catalog
    pub relative_path: String,
    /// Position in the file, counted from one
    pub chunk_number: usize,
    /// Number of chunks in the file
    pub chunk_count: usize,
    /// Set on the first chunk once all chunks of the file are stored
    pub file_complete: bool,
}

/// Information about a file for incremental sync
#[derive(Debug, Clone)]
pub struct FileSyncInfo {
    pub content_hash: String,
    pub file_complete: bool,
}

/// The ID of a point: a text (a UUID) or an integer
#[derive(Debug, PartialEq)]
pub enum QdrantId {
    String(String),
    Integer(u64),
}

/// A point without its vector, as it is sent
pub struct Point {
    pub id: String,
    pub payload: PointPayload,
}

/// A point as it is stored
pub struct PointResult {
    pub id: QdrantId,
    pub payload: PointPayload,
}

/// A point that a search found
pub struct SearchResult {
    pub id: QdrantId,
    /// The similarity, with three decimals
    pub score: String,
    pub payload: PointPayload,
}

impl Clone for QdrantId {
    fn clone(&self) -> (r: Self)
        ensures
            r == *self,
    {
        match self {
            QdrantId::String(s) => QdrantId::String(s.clone()),
            QdrantId::Integer(n) => QdrantId::Integer(*n),
        }
    }
}

impl std::ops::Shr<i32> for QdrantId {
    type Output = u64;

    fn shr(self, rhs: i32) -> (r: u64) {
        match self {
            QdrantId::Integer(n) => n >> rhs,
            QdrantId::String(_) => 0,
        }
    }
}

impl ShrSpecImpl<i32> for QdrantId {
    open spec fn obeys_shr_spec() -> bool {
        true
    }

    open spec fn shr_req(self, rhs: i32) -> bool {
        self is Integer ==> 0 <= rhs < 64
    }

    open spec fn shr_spec(self, rhs: i32) -> u64 {
        match self {
            QdrantId::Integer(n) => n >> rhs,
            QdrantId::String(_) => 0,
        }
    }
}

impl std::ops::Shr<i32> for &QdrantId {
    type Output = u64;

    fn shr(self, rhs: i32) -> (r: u64) {
        match self {
            QdrantId::Integer(n) => *n >> rhs,
            QdrantId::String(_) => 0,
        }
    }
}

impl ShrSpecImpl<i32> for &QdrantId {
    open spec fn obeys_shr_spec() -> bool {
        true
    }

    open spec fn shr_req(self, rhs: i32) -> bool {
        *self is Integer ==> 0 <= rhs < 64
    }

    open spec fn shr_spec(self, rhs: i32) -> u64 {
        match *self {
            QdrantId::Integer(n) => n >> rhs,
            QdrantId::String(_) => 0,
        }
    }
}

// ---------------------------------------------------------------------------
// Requests
// ---------------------------------------------------------------------------

/// A value that a payload field is matched against
pub enum MatchValue {
    Text(String),
    Integer(u64),
}

/// A value that a payload field is matched against, over its text
pub enum MatchModel {
    Text(Seq<char>),
    Integer(u64),
}

/// A condition on one payload field
pub struct Condition {
    pub key: String,
    pub value: MatchValue,
}

/// The conditions that a point must meet, all of them
pub struct Filter {
    pub must: Vec<Condition>,
}

impl View for MatchValue {
    type V = MatchModel;

    open spec fn view(&self) -> MatchModel {
        match self {
            MatchValue::Text(s) => MatchModel::Text(s@),
            MatchValue::Integer(n) => MatchModel::Integer(*n),
        }
    }
}

impl View for Condition {
    type V = (Seq<char>, MatchModel);

    open spec fn view(&self) -> (Seq<char>, MatchModel) {
        (self.key@, self.value@)
    }
}

impl View for Filter {
    type V = Seq<(Seq<char>, MatchModel)>;

    open spec fn view(&self) -> Seq<(Seq<char>, MatchModel)> {
        self.must@.map_values(|c: Condition| c@)
    }
}

/// The condition that a field holds a text
pub open spec fn field_is(key: Seq<char>, value: Seq<char>) -> (Seq<char>, MatchModel) {
    (key, MatchModel::Text(value))
}

/// The condition that a point is the first chunk of its file
pub open spec fn is_first_chunk() -> (Seq<char>, MatchModel) {
    ("chunk_number"@, MatchModel::Integer(1))
}

/// Whether a payload meets a condition: the field of that name holds that value.
pub open spec fn meets(p: PointPayload, condition: (Seq<char>, MatchModel)) -> bool {
    match condition.1 {
        MatchModel::Text(value) => {
            ||| condition.0 == "catalog"@ && p.catalog@ == value
            ||| condition.0 == "source_uri"@ && p.source_uri@ == value
            ||| condition.0 == "file_id"@ && p.file_id@ == value
        },
        MatchModel::Integer(value) => condition.0 == "chunk_number"@ && p.chunk_number == value,
    }
}

/// Whether a filter lets a point with some payload through: it meets all conditions.
pub open spec fn lets_through(filter: Seq<(Seq<char>, MatchModel)>, p: PointPayload) -> bool {
    forall|i: int| 0 <= i < filter.len() ==> meets(p, #[trigger] filter[i])
}

proof fn lemma_conditions(p: PointPayload, value: Seq<char>)
    ensures
        meets(p, field_is("catalog"@, value)) <==> p.catalog@ == value,
        meets(p, field_is("source_uri"@, value)) <==> p.source_uri@ == value,
        meets(p, field_is("file_id"@, value)) <==> p.file_id@ == value,
        meets(p, is_first_chunk()) <==> p.chunk_number == 1,
{
    reveal_strlit("catalog");
    reveal_strlit("source_uri");
    reveal_strlit("file_id");
    reveal_strlit("chunk_number");
    assert("catalog"@[0] == 'c' && "source_uri"@[0] == 's' && "file_id"@[0] == 'f');
}

proof fn lemma_one_condition(a: (Seq<char>, MatchModel), p: PointPayload)
    ensures
        lets_through(Seq::empty(), p),
        lets_through(seq![a], p) <==> meets(p, a),
{
    if lets_through(seq![a], p) {
        assert(meets(p, seq![a][0]));
    }
}

proof fn lemma_two_conditions(
    a: (Seq<char>, MatchModel),
    b: (Seq<char>, MatchModel),
    p: PointPayload,
)
    ensures
        lets_through(seq![a, b], p) <==> meets(p, a) && meets(p, b),
{
    if lets_through(seq![a, b], p) {
        assert(meets(p, seq![a, b][0]));
        assert(meets(p, seq![a, b][1]));
    }
}

proof fn lemma_three_conditions(
    a: (Seq<char>, MatchModel),
    b: (Seq<char>, MatchModel),
    c: (Seq<char>, MatchModel),
    p: PointPayload,
)
    ensures
        lets_through(seq![a, b, c], p) <==> meets(p, a) && meets(p, b) && meets(p, c),
{
    if lets_through(seq![a, b, c], p) {
        assert(meets(p, seq![a, b, c][0]));
        assert(meets(p, seq![a, b, c][1]));
        assert(meets(p, seq![a, b, c][2]));
    }
}

/// A request to delete the points that a filter lets through
pub struct DeleteRequest {
    pub endpoint: String,
    pub filter: Filter,
}

/// A request for a page of the points that a filter lets through
pub struct ScrollRequest {
    pub endpoint: String,
    pub filter: Filter,
    pub with_payload: bool,
    /// The number of points asked for in the body of the request
    pub limit: Option<u32>,
    /// Where the page starts
    pub offset: Option<QdrantId>,
}

/// A request to store points
pub struct UpsertRequest {
    pub endpoint: String,
    pub points: Vec<Point>,
}

/// A request to set one field in the payload of points
pub struct SetPayloadRequest {
    pub endpoint: String,
    pub key: String,
    pub value: bool,
    pub points: Vec<QdrantId>,
}

/// A request for the points nearest to a vector
pub struct SearchRequest {
    pub endpoint: String,
    pub limit: usize,
    pub with_payload: bool,
    pub filter: Option<Filter>,
}

/// A request for points by their IDs
pub struct PointsRequest {
    pub endpoint: String,
    pub ids: Vec<u64>,
    pub with_payload: bool,
}

/// A page of points, and where the next page starts
pub struct ScrollPage {
    pub points: Vec<PointResult>,
    pub next_page_offset: Option<QdrantId>,
}

/// The status line of a reply: its code, and the line as it is shown
pub struct HttpStatus {
    pub code: u16,
    pub text: String,
}

/// The collection that requests go to
pub struct QdrantUploader {
    pub url: String,
    pub collection: String,
}

/// The address of a Qdrant server where none is configured
pub open spec fn default_qdrant_url() -> Seq<char> {
    "http://localhost:6333"@
}

fn text_condition(key: &str, value: &str) -> (r: Condition)
    ensures
        r@ == field_is(key@, value@),
{
    Condition { key: key.to_owned(), value: MatchValue::Text(value.to_owned()) }
}

fn first_chunk_condition() -> (r: Condition)
    ensures
        r@ == is_first_chunk(),
{
    Condition { key: "chunk_number".to_owned(), value: MatchValue::Integer(1) }
}

impl QdrantUploader {
    /// The address of this collection with something behind it
    pub open spec fn address(self, tail: Seq<char>) -> Seq<char> {
        self.url@ + "/collections/"@ + self.collection@ + tail
    }

    fn endpoint(&self, tail: &str) -> (r: String)
        ensures
            r@ == self.address(tail@),
    {
        let mut out = self.url.clone();
        out.append("/collections/");
        out.append(self.collection.as_str());
        out.append(tail);
        out
    }

    /// The collection of a name on a server, or on the default server
    pub fn new(collection: &str, qdrant_url: Option<&str>) -> (r: Self)
        ensures
            r.collection@ == collection@,
            r.url@ == match qdrant_url {
                Some(url) => url@,
                None => default_qdrant_url(),
            },
    {
        let url = match qdrant_url {
            Some(url) => url.to_owned(),
            None => "http://localhost:6333".to_owned(),
        };
        QdrantUploader { url, collection: collection.to_owned() }
    }

    /// The request that deletes all points of a catalog
    pub fn delete_catalog(&self, catalog: &str) -> (r: DeleteRequest)
        ensures
            r.endpoint@ == self.address("/points/delete"@),
            r.filter@ == seq![field_is("catalog"@, catalog@)],
            forall|p: PointPayload| #[trigger] lets_through(r.filter@, p) <==> p.catalog@ == catalog@,
    {
        let mut must: Vec<Condition> = Vec::new();
        must.push(text_condition("catalog", catalog));
        let filter = Filter { must };
        assert(filter@ =~= seq![field_is("catalog"@, catalog@)]);
        proof {
            assert forall|p: PointPayload| #[trigger] lets_through(filter@, p) <==> p.catalog@
                == catalog@ by {
                lemma_conditions(p, catalog@);
                lemma_one_condition(field_is("catalog"@, catalog@), p);
            }
        }
        DeleteRequest { endpoint: self.endpoint("/points/delete"), filter }
    }

    /// The request that deletes all points of the collection
    pub fn purge(&self) -> (r: DeleteRequest)
        ensures
            r.endpoint@ == self.address("/points/delete"@),
            r.filter@ == Seq::<(Seq<char>, MatchModel)>::empty(),
            forall|p: PointPayload| #[trigger] lets_through(r.filter@, p),
    {
        let filter = Filter { must: Vec::new() };
        assert(filter@ =~= Seq::<(Seq<char>, MatchModel)>::empty());
        DeleteRequest { endpoint: self.endpoint("/points/delete"), filter }
    }

    /// The request that deletes all points of a file
    pub fn delete_file(&self, file_path: &str, catalog: &str) -> (r: DeleteRequest)
        ensures
            r.endpoint@ == self.address("/points/delete"@),
            r.filter@ == seq![
                field_is("catalog"@, catalog@),
                field_is("source_uri"@, file_path@),
            ],
            forall|p: PointPayload| #[trigger] lets_through(r.filter@, p) <==> p.catalog@ == catalog@ && p.source_uri@ == file_path@,
    {
        let mut must: Vec<Condition> = Vec::new();
        must.push(text_condition("catalog", catalog));
        must.push(text_condition("source_uri", file_path));
        let filter = Filter { must };
        assert(filter@ =~= seq![
            field_is("catalog"@, catalog@),
            field_is("source_uri"@, file_path@),
        ]);
        proof {
            assert forall|p: PointPayload| #[trigger] lets_through(filter@, p) <==> p.catalog@
                == catalog@ && p.source_uri@ == file_path@ by {
                lemma_conditions(p, catalog@);
                lemma_conditions(p, file_path@);
                lemma_two_conditions(
                    field_is("catalog"@, catalog@),
                    field_is("source_uri"@, file_path@),
                    p,
                );
            }
        }
        DeleteRequest { endpoint: self.endpoint("/points/delete"), filter }
    }

    /// The request for a page of the first chunks of a catalog's files
    pub fn get_catalog_files(&self, catalog: &str, offset: &Option<QdrantId>) -> (r: ScrollRequest)
        ensures
            r.endpoint@ == self.address("/points/scroll?limit=1000"@),
            r.filter@ == seq![field_is("catalog"@, catalog@), is_first_chunk()],
            forall|p: PointPayload| #[trigger] lets_through(r.filter@, p) <==> p.catalog@ == catalog@ && p.chunk_number == 1,
            r.with_payload,
            r.limit is None,
            r.offset == *offset,
    {
        let mut must: Vec<Condition> = Vec::new();
        must.push(text_condition("catalog", catalog));
        must.push(first_chunk_condition());
        let filter = Filter { must };
        assert(filter@ =~= seq![field_is("catalog"@, catalog@), is_first_chunk()]);
        proof {
            assert forall|p: PointPayload| #[trigger] lets_through(filter@, p) <==> p.catalog@
                == catalog@ && p.chunk_number == 1 by {
                lemma_conditions(p, catalog@);
                lemma_two_conditions(field_is("catalog"@, catalog@), is_first_chunk(), p);
            }
        }
        ScrollRequest {
            endpoint: self.endpoint("/points/scroll?limit=1000"),
            filter,
            with_payload: true,
            limit: None,
            offset: copy_offset(offset),
        }
    }

    /// The request for a page of the chunks of a file
    pub fn get_chunks_by_file_id(&self, file_id: &str, offset: &Option<QdrantId>) -> (r:
        ScrollRequest)
        ensures
            r.endpoint@ == self.address("/points/scroll?limit=100"@),
            r.filter@ == seq![field_is("file_id"@, file_id@)],
            forall|p: PointPayload| #[trigger] lets_through(r.filter@, p) <==> p.file_id@ == file_id@,
            r.with_payload,
            r.limit is None,
            r.offset == *offset,
    {
        let mut must: Vec<Condition> = Vec::new();
        must.push(text_condition("file_id", file_id));
        let filter = Filter { must };
        assert(filter@ =~= seq![field_is("file_id"@, file_id@)]);
        proof {
            assert forall|p: PointPayload| #[trigger] lets_through(filter@, p) <==> p.file_id@
                == file_id@ by {
                lemma_conditions(p, file_id@);
                lemma_one_condition(field_is("file_id"@, file_id@), p);
            }
        }
        ScrollRequest {
            endpoint: self.endpoint("/points/scroll?limit=100"),
            filter,
            with_payload: true,
            limit: None,
            offset: copy_offset(offset),
        }
    }

    /// The request that finds the first chunk of a file. The catalog tells files apart
    /// that have the same ID because two catalogs share a structure.
    pub fn mark_file_complete(&self, file_id: &str, catalog: &str) -> (r: ScrollRequest)
        ensures
            r.endpoint@ == self.address("/points/scroll?limit=1"@),
            r.filter@ == seq![
                field_is("file_id"@, file_id@),
                is_first_chunk(),
                field_is("catalog"@, catalog@),
            ],
            forall|p: PointPayload| #[trigger]
                lets_through(r.filter@, p) <==> p.file_id@ == file_id@ && p.chunk_number == 1
                    && p.catalog@ == catalog@,
            !r.with_payload,
            r.limit == Some(1u32),
            r.offset is None,
    {
        let mut must: Vec<Condition> = Vec::new();
        must.push(text_condition("file_id", file_id));
        must.push(first_chunk_condition());
        must.push(text_condition("catalog", catalog));
        let filter = Filter { must };
        assert(filter@ =~= seq![
            field_is("file_id"@, file_id@),
            is_first_chunk(),
            field_is("catalog"@, catalog@),
        ]);
        proof {
            assert forall|p: PointPayload| #[trigger] lets_through(filter@, p) <==> p.file_id@
                == file_id@ && p.chunk_number == 1 && p.catalog@ == catalog@ by {
                lemma_conditions(p, file_id@);
                lemma_conditions(p, catalog@);
                lemma_three_conditions(
                    field_is("file_id"@, file_id@),
                    is_first_chunk(),
                    field_is("catalog"@, catalog@),
                    p,
                );
            }
        }
        ScrollRequest {
            endpoint: self.endpoint("/points/scroll?limit=1"),
            filter,
            with_payload: false,
            limit: Some(1),
            offset: None,
        }
    }

    /// The request that marks a file as complete on the first of the points that were
    /// found for it, or the complaint that none was found. The ID of the point goes back
    /// as it came, a text as a text and an integer as an integer.
    pub fn set_complete(&self, file_id: &str, found: &Vec<QdrantId>) -> (r: Result<
        SetPayloadRequest,
        String,
    >)
        ensures
            match r {
                Ok(request) => {
                    &&& found@.len() > 0
                    &&& request.endpoint@ == self.address("/points/payload"@)
                    &&& request.key@ == "file_complete"@
                    &&& request.value
                    &&& request.points@ == seq![found@[0]]
                },
                Err(message) => found@.len() == 0 && message@ == "No chunk #1 found for file "@
                    + file_id@,
            },
    {
        if found.len() == 0 {
            let mut message = "No chunk #1 found for file ".to_owned();
            message.append(file_id);
            return Err(message);
        }
        let mut points: Vec<QdrantId> = Vec::new();
        points.push(found[0].clone());
        assert(points@ =~= seq![found@[0]]);
        Ok(
            SetPayloadRequest {
                endpoint: self.endpoint("/points/payload"),
                key: "file_complete".to_owned(),
                value: true,
                points,
            },
        )
    }

    /// The request for the points nearest to a vector, of one catalog or of all
    pub fn query(&self, limit: usize, catalog: Option<&str>) -> (r: SearchRequest)
        ensures
            r.endpoint@ == self.address("/points/search"@),
            r.limit == limit,
            r.with_payload,
            match r.filter {
                Some(filter) => {
                    &&& catalog is Some
                    &&& filter@ == seq![field_is("catalog"@, catalog->0@)]
                    &&& forall|p: PointPayload| #[trigger]
                        lets_through(filter@, p) <==> p.catalog@ == catalog->0@
                },
                None => catalog is None,
            },
    {
        let filter = match catalog {
            Some(name) => {
                let mut must: Vec<Condition> = Vec::new();
                must.push(text_condition("catalog", name));
                let filter = Filter { must };
                assert(filter@ =~= seq![field_is("catalog"@, name@)]);
                proof {
                    assert forall|p: PointPayload| #[trigger] lets_through(filter@, p)
                        <==> p.catalog@ == name@ by {
                        lemma_conditions(p, name@);
                        lemma_one_condition(field_is("catalog"@, name@), p);
                    }
                }
                Some(filter)
            },
            None => None,
        };
        SearchRequest {
            endpoint: self.endpoint("/points/search"),
            limit,
            with_payload: true,
            filter,
        }
    }

    /// The request for the point with a number as its ID
    pub fn get_point(&self, id: u64) -> (r: PointsRequest)
        ensures
            r.endpoint@ == self.address("/points"@),
            r.ids@ == seq![id],
            r.with_payload,
    {
        let mut ids: Vec<u64> = Vec::new();
        ids.push(id);
        assert(ids@ =~= seq![id]);
        PointsRequest { endpoint: self.endpoint("/points"), ids, with_payload: true }
    }

    /// The request that stores chunks, each under a new random ID, or `None` where there
    /// is nothing to store
    pub fn upload_batch(&self, chunks: &Vec<Chunk>) -> (r: Option<UpsertRequest>)
        ensures
            match r {
                None => chunks@.len() == 0,
                Some(request) => {
                    &&& chunks@.len() > 0
                    &&& request.endpoint@ == self.address("/points"@)
                    &&& request.points@.len() == chunks@.len()
                    &&& forall|i: int|
                        0 <= i < chunks@.len() ==> (#[trigger] request.points@[i]).payload
                            == payload_of(chunks@[i]) && is_random_uuid(request.points@[i].id@)
                },
            },
    {
        if chunks.len() == 0 {
            return None;
        }
        let mut ids: Vec<String> = Vec::new();
        while ids.len() < chunks.len()
            invariant
                ids@.len() <= chunks@.len(),
                forall|k: int| 0 <= k < ids@.len() ==> is_random_uuid((#[trigger] ids@[k])@),
            decreases chunks@.len() - ids@.len(),
        {
            ids.push(random_uuid());
        }
        let points = points_with(chunks, ids);
        Some(UpsertRequest { endpoint: self.endpoint("/points"), points })
    }
}

fn copy_offset(offset: &Option<QdrantId>) -> (r: Option<QdrantId>)
    ensures
        r == *offset,
{
    match offset {
        Some(id) => Some(id.clone()),
        None => None,
    }
}

// ---------------------------------------------------------------------------
// Points
// ---------------------------------------------------------------------------

/// What is stored of a chunk. A file is not complete before it is marked so.
pub open spec fn payload_of(chunk: Chunk) -> PointPayload {
    PointPayload {
        text: chunk.text,
        source_uri: chunk.source_uri,
        source_type: chunk.source_type,
        catalog: chunk.catalog,
        content_hash: chunk.content_hash,
        start_line: chunk.start_line,
        end_line: chunk.end_line,
        symbol_name: chunk.symbol_name,
        chunk_type: chunk.chunk_type,
        chunk_kind: chunk.chunk_kind,
        breadcrumb: Some(chunk.breadcrumb),
        file_id: chunk.file_id,
        relative_path: chunk.relative_path,
        chunk_number: chunk.chunk_number,
        chunk_count: chunk.chunk_count,
        file_complete: false,
    }
}

/// What is stored of a chunk
pub fn chunk_payload(chunk: &Chunk) -> (r: PointPayload)
    ensures
        r == payload_of(*chunk),
        r.text == chunk.text,
        r.source_uri == chunk.source_uri,
        r.source_type == chunk.source_type,
        r.catalog == chunk.catalog,
        r.content_hash == chunk.content_hash,
        r.start_line == chunk.start_line,
        r.end_line == chunk.end_line,
        r.symbol_name == chunk.symbol_name,
        r.chunk_type == chunk.chunk_type,
        r.chunk_kind == chunk.chunk_kind,
        r.breadcrumb == Some(chunk.breadcrumb),
        r.file_id == chunk.file_id,
        r.relative_path == chunk.relative_path,
        r.chunk_number == chunk.chunk_number,
        r.chunk_count == chunk.chunk_count,
        !r.file_complete,
{
    let symbol_name = match &chunk.symbol_name {
        Some(name) => Some(name.clone()),
        None => None,
    };
    PointPayload {
        text: chunk.text.clone(),
        source_uri: chunk.source_uri.clone(),
        source_type: chunk.source_type.clone(),
        catalog: chunk.catalog.clone(),
        content_hash: chunk.content_hash.clone(),
        start_line: chunk.start_line,
        end_line: chunk.end_line,
        symbol_name,
        chunk_type: chunk.chunk_type.clone(),
        chunk_kind: chunk.chunk_kind.clone(),
        breadcrumb: Some(chunk.breadcrumb.clone()),
        file_id: chunk.file_id.clone(),
        relative_path: chunk.relative_path.clone(),
        chunk_number: chunk.chunk_number,
        chunk_count: chunk.chunk_count,
        file_complete: false,
    }
}

/// The points of chunks, each under the ID at the same place
pub fn points_with(chunks: &Vec<Chunk>, ids: Vec<String>) -> (r: Vec<Point>)
    requires
        ids@.len() == chunks@.len(),
    ensures
        r@.len() == chunks@.len(),
        forall|i: int|
            0 <= i < chunks@.len() ==> (#[trigger] r@[i]).id == ids@[i] && r@[i].payload
                == payload_of(chunks@[i]),
{
    let mut points: Vec<Point> = Vec::new();
    for id in it: ids
        invariant
            it.seq() == ids@,
            ids@.len() == chunks@.len(),
            points@.len() == it.index(),
            forall|k: int|
                0 <= k < points@.len() ==> (#[trigger] points@[k]).id == ids@[k] && points@[k].payload
                    == payload_of(chunks@[k]),
    {
        let payload = chunk_payload(&chunks[points.len()]);
        points.push(Point { id, payload });
    }
    points
}

/// Whether a place in the text of a UUID holds a hyphen
pub open spec fn is_hyphen_place(i: int) -> bool {
    i == 8 || i == 13 || i == 18 || i == 23
}

/// Whether a text is that of a random UUID: thirty-two hexadecimal digits in lower case,
/// in five groups, the third of which starts with `4` and the fourth with one of `8`,
/// `9`, `a` and `b`
pub open spec fn is_random_uuid(s: Seq<char>) -> bool {
    &&& s.len() == 36
    &&& forall|i: int|
        0 <= i < 36 ==> if is_hyphen_place(i) {
            #[trigger] s[i] == '-'
        } else {
            '0' <= s[i] <= '9' || 'a' <= s[i] <= 'f'
        }
    &&& s[14] == '4'
    &&& s[19] == '8' || s[19] == '9' || s[19] == 'a' || s[19] == 'b'
}

/// The text of a UUID that `uuid::Uuid::new_v4` draws at random. Which one it is rests on
/// chance; that it has the form of a random UUID does not.
#[verifier::external_body]
fn random_uuid() -> (r: String)
    ensures
        is_random_uuid(r@),
{
    uuid::Uuid::new_v4().to_string()
}

// ---------------------------------------------------------------------------
// Replies
// ---------------------------------------------------------------------------

/// What a request was sent for
pub enum Operation {
    DeleteCatalog,
    DeleteFile,
    ScrollCatalog,
    /// Finding the first chunk of the file with an ID
    FindFirstChunk(String),
    /// Marking the file with an ID as complete
    SetComplete(String),
    ScrollChunks,
    Purge,
}

/// The complaint that an operation was answered with a status other than success
pub open spec fn complaint(operation: Operation, status: Seq<char>) -> Seq<char> {
    match operation {
        Operation::DeleteCatalog => "Failed to delete catalog: HTTP "@ + status,
        Operation::DeleteFile => "Failed to delete file: HTTP "@ + status,
        Operation::ScrollCatalog => "Failed to scroll catalog: HTTP "@ + status,
        Operation::FindFirstChunk(id) => "Failed to find chunk #1 for file "@ + id@ + ": HTTP "@
            + status,
        Operation::SetComplete(id) => "Failed to set file_complete for "@ + id@ + ": HTTP "@
            + status,
        Operation::ScrollChunks => "Failed to scroll file chunks: HTTP "@ + status,
        Operation::Purge => "Failed to purge collection: HTTP "@ + status,
    }
}

/// Whether a status code stands for success
pub open spec fn is_success(code: u16) -> bool {
    200 <= code < 300
}

impl HttpStatus {
    /// Whether the status stands for success
    pub fn success(&self) -> (r: bool)
        ensures
            r == is_success(self.code),
    {
        200 <= self.code && self.code < 300
    }
}

/// Accepts a reply to an operation by its status, or complains of it
pub fn check_reply(operation: &Operation, status: &HttpStatus) -> (r: Result<(), String>)
    ensures
        match r {
            Ok(_) => is_success(status.code),
            Err(message) => !is_success(status.code) && message@ == complaint(
                *operation,
                status.text@,
            ),
        },
{
    if status.success() {
        return Ok(());
    }
    let mut message = match operation {
        Operation::DeleteCatalog => "Failed to delete catalog: HTTP ".to_owned(),
        Operation::DeleteFile => "Failed to delete file: HTTP ".to_owned(),
        Operation::ScrollCatalog => "Failed to scroll catalog: HTTP ".to_owned(),
        Operation::FindFirstChunk(id) => {
            let mut m = "Failed to find chunk #1 for file ".to_owned();
            m.append(id.as_str());
            m.append(": HTTP ");
            m
        },
        Operation::SetComplete(id) => {
            let mut m = "Failed to set file_complete for ".to_owned();
            m.append(id.as_str());
            m.append(": HTTP ");
            m
        },
        Operation::ScrollChunks => "Failed to scroll file chunks: HTTP ".to_owned(),
        Operation::Purge => "Failed to purge collection: HTTP ".to_owned(),
    };
    message.append(status.text.as_str());
    Err(message)
}

/// What came of an upload: the ID of the operation where the server reports `ok`
pub fn upload_outcome(status: &str, operation_id: u64) -> (r: Result<u64, String>)
    ensures
        match r {
            Ok(id) => status@ == "ok"@ && id == operation_id,
            Err(message) => status@ != "ok"@ && message@
                == "Qdrant upsert failed with status: "@ + status@,
        },
{
    if same_text(status, "ok") {
        return Ok(operation_id);
    }
    let mut message = "Qdrant upsert failed with status: ".to_owned();
    message.append(status);
    Err(message)
}

/// What came of asking for one point: the first one in the reply, where there is one
pub fn found_point(status: &HttpStatus, points: Vec<PointResult>) -> (r: Option<PointResult>)
    ensures
        r == if is_success(status.code) && points@.len() > 0 {
            Some(points@[0])
        } else {
            None
        },
{
    let mut points = points;
    if !status.success() || points.len() == 0 {
        return None;
    }
    Some(points.remove(0))
}

// ---------------------------------------------------------------------------
// Listings
// ---------------------------------------------------------------------------

/// What a point says of its file
pub open spec fn sync_info(point: PointResult) -> FileSyncInfo {
    FileSyncInfo {
        content_hash: point.payload.content_hash,
        file_complete: point.payload.file_complete,
    }
}

/// The files that a list of points speaks of, added to those that are known. Of two
/// points of one file the later one counts.
pub open spec fn with_points(
    files: Map<Seq<char>, FileSyncInfo>,
    points: Seq<PointResult>,
) -> Map<Seq<char>, FileSyncInfo>
    decreases points.len(),
{
    if points.len() == 0 {
        files
    } else {
        with_points(files, points.drop_last()).insert(
            points.last().payload.source_uri@,
            sync_info(points.last()),
        )
    }
}

/// The files of a catalog, listed page by page
pub struct CatalogListing {
    pub files: TextMap<FileSyncInfo>,
    /// Where the page to ask for next starts
    pub offset: Option<QdrantId>,
    /// Whether there is no further page to ask for
    pub done: bool,
}

/// Whether a page is the last one
pub open spec fn is_last_page(page: ScrollPage) -> bool {
    page.points@.len() == 0 || page.next_page_offset is None
}

impl CatalogListing {
    /// A listing before its first page
    pub fn new() -> (r: Self)
        ensures
            r.files.wf(),
            r.files@ == Map::<Seq<char>, FileSyncInfo>::empty(),
            r.offset is None,
            !r.done,
    {
        CatalogListing { files: TextMap::new(), offset: None, done: false }
    }

    /// Takes a page. The listing is done with an empty page, or where the page names no
    /// next one.
    pub fn take_page(&mut self, page: ScrollPage)
        requires
            old(self).files.wf(),
        ensures
            final(self).files.wf(),
            final(self).files@ == with_points(old(self).files@, page.points@),
            final(self).done == is_last_page(page),
            final(self).offset == page.next_page_offset,
    {
        let n: usize = page.points.len();
        let mut i: usize = 0;
        while i < n
            invariant
                n == page.points@.len(),
                i <= n,
                self.files.wf(),
                self.files@ == with_points(old(self).files@, page.points@.take(i as int)),
            decreases n - i,
        {
            let point = &page.points[i];
            self.files.insert(
                point.payload.source_uri.as_str(),
                FileSyncInfo {
                    content_hash: point.payload.content_hash.clone(),
                    file_complete: point.payload.file_complete,
                },
            );
            proof {
                let now = page.points@.take(i + 1);
                assert(now.drop_last() =~= page.points@.take(i as int));
                assert(now.last() == page.points@[i as int]);
            }
            i = i + 1;
        }
        assert(page.points@.take(n as int) =~= page.points@);
        self.done = n == 0 || page.next_page_offset.is_none();
        self.offset = page.next_page_offset;
    }
}

/// Two pages tell the same as one page with the points of both.
pub proof fn law_pages_add_up(
    files: Map<Seq<char>, FileSyncInfo>,
    first: Seq<PointResult>,
    second: Seq<PointResult>,
)
    ensures
        with_points(with_points(files, first), second) == with_points(files, first + second),
    decreases second.len(),
{
    if second.len() == 0 {
        assert(first + second =~= first);
    } else {
        law_pages_add_up(files, first, second.drop_last());
        assert((first + second).drop_last() =~= first + second.drop_last());
    }
}

/// A file is listed exactly where a point speaks of it, with what the last such point
/// says.
pub proof fn law_last_point_of_a_file_counts(points: Seq<PointResult>, path: Seq<char>)
    ensures
        ({
            let files = with_points(Map::empty(), points);
            &&& files.contains_key(path) <==> exists|i: int|
                0 <= i < points.len() && (#[trigger] points[i]).payload.source_uri@ == path
            &&& forall|i: int|
                0 <= i < points.len() && (#[trigger] points[i]).payload.source_uri@ == path && (
                forall|j: int|
                    i < j < points.len() ==> (#[trigger] points[j]).payload.source_uri@ != path)
                    ==> files[path] == sync_info(points[i])
        }),
{
    let files = with_points(Map::empty(), points);
    if files.contains_key(path) {
        lemma_listed_file_has_a_point(points, path);
    }
    if exists|i: int|
        0 <= i < points.len() && (#[trigger] points[i]).payload.source_uri@ == path {
        let i = choose|i: int|
            0 <= i < points.len() && (#[trigger] points[i]).payload.source_uri@ == path;
        lemma_point_lists_its_file(points, path, i);
    }
    assert forall|i: int|
        0 <= i < points.len() && (#[trigger] points[i]).payload.source_uri@ == path && (forall|j: int|
            i < j < points.len() ==> (#[trigger] points[j]).payload.source_uri@ != path) implies files[path]
        == sync_info(points[i]) by {
        lemma_last_point_counts(points, path, i);
    }
}

proof fn lemma_listed_file_has_a_point(points: Seq<PointResult>, path: Seq<char>)
    requires
        with_points(Map::empty(), points).contains_key(path),
    ensures
        exists|i: int| 0 <= i < points.len() && (#[trigger] points[i]).payload.source_uri@ == path,
    decreases points.len(),
{
    if points.len() > 0 {
        if points.last().payload.source_uri@ == path {
            assert(points[points.len() - 1].payload.source_uri@ == path);
        } else {
            let fewer = points.drop_last();
            lemma_listed_file_has_a_point(fewer, path);
            let i = choose|i: int|
                0 <= i < fewer.len() && (#[trigger] fewer[i]).payload.source_uri@ == path;
            assert(points[i].payload.source_uri@ == path);
        }
    }
}

proof fn lemma_point_lists_its_file(points: Seq<PointResult>, path: Seq<char>, i: int)
    requires
        0 <= i < points.len(),
        points[i].payload.source_uri@ == path,
    ensures
        with_points(Map::empty(), points).contains_key(path),
    decreases points.len(),
{
    if i < points.len() - 1 {
        lemma_point_lists_its_file(points.drop_last(), path, i);
    }
}

proof fn lemma_last_point_counts(points: Seq<PointResult>, path: Seq<char>, i: int)
    requires
        0 <= i < points.len(),
        points[i].payload.source_uri@ == path,
        forall|j: int|
            i < j < points.len() ==> (#[trigger] points[j]).payload.source_uri@ != path,
    ensures
        with_points(Map::empty(), points)[path] == sync_info(points[i]),
    decreases points.len(),
{
    if i < points.len() - 1 {
        let fewer = points.drop_last();
        assert(points[points.len() - 1].payload.source_uri@ != path);
        assert forall|j: int| i < j < fewer.len() implies (
        #[trigger] fewer[j]).payload.source_uri@ != path by {
            assert(fewer[j] == points[j]);
        }
        lemma_last_point_counts(fewer, path, i);
    }
}

/// The chunks of a file, listed page by page
pub struct ChunkListing {
    pub points: Vec<PointResult>,
    /// Where the page to ask for next starts
    pub offset: Option<QdrantId>,
    /// Whether there is no further page to ask for
    pub done: bool,
}

/// The number of each chunk of a list
pub open spec fn chunk_numbers(points: Seq<PointResult>) -> Seq<usize> {
    points.map_values(|p: PointResult| p.payload.chunk_number)
}

impl ChunkListing {
    /// A listing before its first page
    pub fn new() -> (r: Self)
        ensures
            r.points@ == Seq::<PointResult>::empty(),
            r.offset is None,
            !r.done,
    {
        ChunkListing { points: Vec::new(), offset: None, done: false }
    }

    /// Takes a page. The listing is done with an empty page, or where the page names no
    /// next one.
    pub fn take_page(&mut self, page: ScrollPage)
        ensures
            final(self).points@ == old(self).points@ + page.points@,
            final(self).done == is_last_page(page),
            final(self).offset == page.next_page_offset,
    {
        let mut points = page.points;
        self.done = points.len() == 0 || page.next_page_offset.is_none();
        self.points.append(&mut points);
        self.offset = page.next_page_offset;
    }

    /// The chunks by their numbers. Where two have the same number, the one that was
    /// listed first comes first.
    pub fn sorted(self) -> (r: Vec<PointResult>)
        ensures
            exists|order: Seq<usize>|
                is_stable_order(chunk_numbers(self.points@), order) && r@ == #[trigger] arranged(
                    self.points@,
                    order,
                ),
    {
        let n: usize = self.points.len();
        let mut keys: Vec<usize> = Vec::new();
        let mut i: usize = 0;
        while i < n
            invariant
                n == self.points@.len(),
                i <= n,
                keys@ == chunk_numbers(self.points@.take(i as int)),
            decreases n - i,
        {
            keys.push(self.points[i].payload.chunk_number);
            i = i + 1;
            assert(keys@ =~= chunk_numbers(self.points@.take(i as int)));
        }
        assert(self.points@.take(n as int) =~= self.points@);
        let order = stable_order(&keys);
        arrange(self.points, &order)
    }
}

// ---------------------------------------------------------------------------
// Further laws
// ---------------------------------------------------------------------------

/// What is stored of a chunk is the whole chunk, each part of it under its own name, and
/// not yet marked as complete.
pub proof fn law_payload_keeps_the_chunk(chunk: Chunk)
    ensures
        ({
            let p = payload_of(chunk);
            &&& p.text == chunk.text
            &&& p.source_uri == chunk.source_uri
            &&& p.source_type == chunk.source_type
            &&& p.catalog == chunk.catalog
            &&& p.content_hash == chunk.content_hash
            &&& p.start_line == chunk.start_line
            &&& p.end_line == chunk.end_line
            &&& p.symbol_name == chunk.symbol_name
            &&& p.chunk_type == chunk.chunk_type
            &&& p.chunk_kind == chunk.chunk_kind
            &&& p.breadcrumb == Some(chunk.breadcrumb)
            &&& p.file_id == chunk.file_id
            &&& p.relative_path == chunk.relative_path
            &&& p.chunk_number == chunk.chunk_number
            &&& p.chunk_count == chunk.chunk_count
            &&& !p.file_complete
        }),
{
}

/// Nothing of a chunk is lost when it is stored: two chunks with the same payload are the
/// same chunk.
pub proof fn law_payloads_tell_chunks_apart(a: Chunk, b: Chunk)
    requires
        payload_of(a) == payload_of(b),
    ensures
        a == b,
{
}

/// What the index says of a file comes from the payload of the point as it is stored.
pub proof fn law_sync_info_is_read_from_the_point(point: PointResult)
    ensures
        sync_info(point).content_hash == point.payload.content_hash,
        sync_info(point).file_complete == point.payload.file_complete,
{
}

/// A chunk that is stored is found again by its file, by its catalog and by its path, and
/// by no other.
pub proof fn law_stored_chunk_is_found_again(chunk: Chunk, value: Seq<char>, path: Seq<char>)
    ensures
        lets_through(seq![field_is("file_id"@, value)], payload_of(chunk)) <==> chunk.file_id@
            == value,
        lets_through(seq![field_is("catalog"@, value)], payload_of(chunk)) <==> chunk.catalog@
            == value,
        lets_through(
            seq![field_is("catalog"@, value), field_is("source_uri"@, path)],
            payload_of(chunk),
        ) <==> chunk.catalog@ == value && chunk.source_uri@ == path,
        lets_through(
            seq![field_is("catalog"@, value), is_first_chunk()],
            payload_of(chunk),
        ) <==> chunk.catalog@ == value && chunk.chunk_number == 1,
{
    let p = payload_of(chunk);
    lemma_conditions(p, value);
    lemma_conditions(p, path);
    lemma_one_condition(field_is("file_id"@, value), p);
    lemma_one_condition(field_is("catalog"@, value), p);
    lemma_two_conditions(field_is("catalog"@, value), field_is("source_uri"@, path), p);
    lemma_two_conditions(field_is("catalog"@, value), is_first_chunk(), p);
}

/// Requests of one collection go below its own address: the address of the server, the
/// name of the collection, and what is asked of it, in this order.
pub proof fn law_addresses_lie_below_the_collection(q: QdrantUploader, tail: Seq<char>)
    ensures
        q.address(tail) == q.address(Seq::empty()) + tail,
        q.address(Seq::empty()) == q.url@ + "/collections/"@ + q.collection@,
{
    let base = q.url@ + "/collections/"@ + q.collection@;
    assert(base + Seq::<char>::empty() =~= base);
}

/// Success is a status from 200 to 299.
pub proof fn law_what_is_success(code: u16)
    ensures
        is_success(code) <==> code as int / 100 == 2,
{
}

/// A complaint names the file that it is about, if it is about one, and ends with the
/// status that came back.
pub proof fn law_complaints_give_the_status(id: String, status: Seq<char>)
    ensures
        complaint(Operation::DeleteCatalog, status) == "Failed to delete catalog: HTTP "@ + status,
        complaint(Operation::DeleteFile, status) == "Failed to delete file: HTTP "@ + status,
        complaint(Operation::ScrollCatalog, status) == "Failed to scroll catalog: HTTP "@ + status,
        complaint(Operation::ScrollChunks, status) == "Failed to scroll file chunks: HTTP "@
            + status,
        complaint(Operation::Purge, status) == "Failed to purge collection: HTTP "@ + status,
        complaint(Operation::FindFirstChunk(id), status) == "Failed to find chunk #1 for file "@
            + id@ + ": HTTP "@ + status,
        complaint(Operation::SetComplete(id), status) == "Failed to set file_complete for "@ + id@
            + ": HTTP "@ + status,
{
}

/// A page is the last one exactly where it is empty or names no next one.
pub proof fn law_which_page_is_the_last(page: ScrollPage)
    ensures
        page.points@.len() == 0 ==> is_last_page(page),
        page.next_page_offset is None ==> is_last_page(page),
        page.points@.len() > 0 && page.next_page_offset is Some ==> !is_last_page(page),
{
}

/// The chunks of a file come out by their numbers, as many as were listed, each of those
/// listed, and those with the same number in the order of the listing.
pub proof fn law_listed_chunks_come_by_number(
    points: Seq<PointResult>,
    order: Seq<usize>,
    i: int,
    j: int,
)
    requires
        points.len() <= usize::MAX,
        is_stable_order(chunk_numbers(points), order),
        0 <= i < j < points.len(),
    ensures
        ({
            let sorted = arranged(points, order);
            &&& sorted.len() == points.len()
            &&& sorted[i].payload.chunk_number <= sorted[j].payload.chunk_number
            &&& sorted[i] == points[order[i] as int]
            &&& sorted.contains(points[i])
            &&& order[i] != order[j]
            &&& sorted[i].payload.chunk_number == sorted[j].payload.chunk_number ==> order[i]
                < order[j]
        }),
{
    let keys = chunk_numbers(points);
    law_order_has_all_places(keys, order);
    law_stable_order_sorts(keys, order, i, j);
    assert(comes_before(keys, order[i], order[j]));
    assert(order.contains(i as usize));
    let k = choose|k: int| 0 <= k < order.len() && order[k] == i as usize;
    assert(arranged(points, order)[k] == points[i]);
}

/// A filter is seen as its conditions, each with its field and its value, in their order.
pub proof fn law_filters_are_seen_as_they_are(filter: Filter, i: int)
    requires
        0 <= i < filter.must@.len(),
    ensures
        filter@.len() == filter.must@.len(),
        filter@[i].0 == filter.must@[i].key@,
        filter.must@[i].value matches MatchValue::Text(s) ==> filter@[i].1 == MatchModel::Text(s@),
        filter.must@[i].value matches MatchValue::Integer(n) ==> filter@[i].1
            == MatchModel::Integer(n),
{
}

/// An integer ID is shifted as the integer is, and a text counts as zero.
pub proof fn law_ids_are_shifted_as_integers(n: u64, s: String, by: i32)
    ensures
        vstd::std_specs::ops::ShrSpec::shr_spec(QdrantId::Integer(n), by) == n >> by,
        vstd::std_specs::ops::ShrSpec::shr_spec(&QdrantId::Integer(n), by) == n >> by,
        vstd::std_specs::ops::ShrSpec::shr_spec(QdrantId::String(s), by) == 0,
        vstd::std_specs::ops::ShrSpec::shr_spec(&QdrantId::String(s), by) == 0,
{
}

} // verus!
