//! The bodies of the requests to a Qdrant collection, as JSON values. Vectors are left to
//! the sender.

use vstd::prelude::*;
use vstd::string::*;

use crate::engine::uploader::{
    Condition, DeleteRequest, Filter, MatchValue, Point, PointPayload, PointsRequest, QdrantId,
    ScrollRequest, SearchRequest, SetPayloadRequest,
};
#[allow(unused_imports)]
use crate::engine::uploader::MatchModel;
use crate::json::{json_object, json_text, list_with, no_fields, object_with, with_field, Json};
#[allow(unused_imports)]
use crate::json::{field_models, lemma_models, model, models, JsonModel};

verus! {

// ---------------------------------------------------------------------------
// Filters
// ---------------------------------------------------------------------------

/// A value to be matched.
pub open spec fn match_body(value: MatchModel) -> JsonModel {
    match value {
        MatchModel::Text(s) => JsonModel::Text(s),
        MatchModel::Integer(n) => JsonModel::Whole(n),
    }
}

/// A condition on a payload field.
pub open spec fn condition_body(condition: (Seq<char>, MatchModel)) -> JsonModel {
    JsonModel::Object(
        Seq::empty().push(("key"@, JsonModel::Text(condition.0))).push(
            (
                "match"@,
                JsonModel::Object(Seq::empty().push(("value"@, match_body(condition.1)))),
            ),
        ),
    )
}

/// Several conditions that a point must meet. A filter without conditions lets all points
/// through.
pub open spec fn filter_body(conditions: Seq<(Seq<char>, MatchModel)>) -> JsonModel {
    if conditions.len() == 0 {
        JsonModel::Object(Seq::empty())
    } else {
        JsonModel::Object(
            Seq::empty().push(
                (
                    "must"@,
                    JsonModel::List(
                        conditions.map_values(|c: (Seq<char>, MatchModel)| condition_body(c)),
                    ),
                ),
            ),
        )
    }
}

fn condition_json(condition: &Condition) -> (r: Json)
    ensures
        model(r) == condition_body(condition@),
{
    let value = match &condition.value {
        MatchValue::Text(s) => json_text(s.as_str()),
        MatchValue::Integer(n) => Json::Whole(*n),
    };
    assert(model(value) == match_body(condition.value@));
    let out = with_field(no_fields(), "key", json_text(condition.key.as_str()));
    let out = with_field(out, "match", json_object("value", value));
    object_with(out)
}

fn filter_json(filter: &Filter) -> (r: Json)
    ensures
        model(r) == filter_body(filter@),
{
    let n: usize = filter.must.len();
    if n == 0 {
        return object_with(no_fields());
    }
    let mut items: Vec<Json> = Vec::new();
    let mut i: usize = 0;
    while i < n
        invariant
            n == filter.must@.len(),
            i <= n,
            items@.len() == i,
            forall|k: int|
                0 <= k < i ==> model(#[trigger] items@[k]) == condition_body(filter.must@[k]@),
        decreases n - i,
    {
        items.push(condition_json(&filter.must[i]));
        i = i + 1;
    }
    proof {
        lemma_models(items@);
        assert(models(items@) =~= filter@.map_values(
            |c: (Seq<char>, MatchModel)| condition_body(c),
        ));
    }
    json_object("must", list_with(items))
}

// ---------------------------------------------------------------------------
// Bodies
// ---------------------------------------------------------------------------

/// The body of a request to delete points
pub fn delete_body(request: &DeleteRequest) -> (r: Json)
    ensures
        model(r) == JsonModel::Object(
            Seq::empty().push(("filter"@, filter_body(request.filter@))),
        ),
{
    json_object("filter", filter_json(&request.filter))
}

/// The ID of a point.
pub open spec fn id_body(id: QdrantId) -> JsonModel {
    match id {
        QdrantId::String(s) => JsonModel::Text(s@),
        QdrantId::Integer(n) => JsonModel::Whole(n),
    }
}

fn id_json(id: &QdrantId) -> (r: Json)
    ensures
        model(r) == id_body(*id),
{
    match id {
        QdrantId::String(s) => json_text(s.as_str()),
        QdrantId::Integer(n) => Json::Whole(*n),
    }
}

/// What is asked of a page of points. A limit and a start are named where there are any.
pub open spec fn scroll_fields(request: ScrollRequest) -> Seq<(Seq<char>, JsonModel)> {
    let always = Seq::empty().push(("filter"@, filter_body(request.filter@))).push(
        ("with_payload"@, JsonModel::Bool(request.with_payload)),
    );
    let limited = match request.limit {
        Some(n) => always.push(("limit"@, JsonModel::Whole(n as u64))),
        None => always,
    };
    match request.offset {
        Some(id) => limited.push(("offset"@, id_body(id))),
        None => limited,
    }
}

/// The body of a request for a page of points
pub fn scroll_body(request: &ScrollRequest) -> (r: Json)
    ensures
        model(r) == JsonModel::Object(scroll_fields(*request)),
{
    let out = with_field(no_fields(), "filter", filter_json(&request.filter));
    let out = with_field(out, "with_payload", Json::Bool(request.with_payload));
    let out = match request.limit {
        Some(n) => with_field(out, "limit", Json::Whole(n as u64)),
        None => out,
    };
    let out = match &request.offset {
        Some(id) => with_field(out, "offset", id_json(id)),
        None => out,
    };
    object_with(out)
}

/// Several IDs.
pub open spec fn ids_body(list: Seq<QdrantId>) -> JsonModel {
    JsonModel::List(list.map_values(|id: QdrantId| id_body(id)))
}

/// Several numbers.
pub open spec fn numbers_body(list: Seq<u64>) -> JsonModel {
    JsonModel::List(list.map_values(|n: u64| JsonModel::Whole(n)))
}

/// The body of a request to set a field
pub fn set_payload_body(request: &SetPayloadRequest) -> (r: Json)
    ensures
        model(r) == JsonModel::Object(
            Seq::empty().push(
                (
                    "payload"@,
                    JsonModel::Object(
                        Seq::empty().push((request.key@, JsonModel::Bool(request.value))),
                    ),
                ),
            ).push(("points"@, ids_body(request.points@))),
        ),
{
    let n: usize = request.points.len();
    let mut ids: Vec<Json> = Vec::new();
    let mut i: usize = 0;
    while i < n
        invariant
            n == request.points@.len(),
            i <= n,
            ids@.len() == i,
            forall|k: int|
                0 <= k < i ==> model(#[trigger] ids@[k]) == id_body(request.points@[k]),
        decreases n - i,
    {
        ids.push(id_json(&request.points[i]));
        i = i + 1;
    }
    proof {
        lemma_models(ids@);
        assert(models(ids@) =~= request.points@.map_values(|id: QdrantId| id_body(id)));
    }
    let payload = json_object(request.key.as_str(), Json::Bool(request.value));
    let out = with_field(no_fields(), "payload", payload);
    let out = with_field(out, "points", list_with(ids));
    object_with(out)
}

/// The point that a file is marked on is named as the index named it: a text stays a text,
/// and an integer an integer.
pub proof fn law_id_goes_back_as_it_came(id: QdrantId)
    ensures
        ids_body(seq![id]) == JsonModel::List(
            seq![
                match id {
                    QdrantId::String(s) => JsonModel::Text(s@),
                    QdrantId::Integer(n) => JsonModel::Whole(n),
                },
            ],
        ),
{
    assert(seq![id].map_values(|id: QdrantId| id_body(id)) =~= seq![id_body(id)]);
}

/// The body of a search, but for the vector
pub fn search_body(request: &SearchRequest) -> (r: Json)
    ensures
        model(r) == JsonModel::Object(
            Seq::empty().push(("limit"@, JsonModel::Whole(request.limit as u64))).push(
                ("with_payload"@, JsonModel::Bool(request.with_payload)),
            ).push(
                (
                    "filter"@,
                    match request.filter {
                        Some(filter) => filter_body(filter@),
                        None => JsonModel::Null,
                    },
                ),
            ),
        ),
{
    let filter = match &request.filter {
        Some(filter) => filter_json(filter),
        None => Json::Null,
    };
    assert(model(filter) == match request.filter {
        Some(filter) => filter_body(filter@),
        None => JsonModel::Null,
    });
    let out = with_field(no_fields(), "limit", Json::Whole(request.limit as u64));
    let out = with_field(out, "with_payload", Json::Bool(request.with_payload));
    let out = with_field(out, "filter", filter);
    object_with(out)
}

/// The body of a request for points by their IDs
pub fn points_body(request: &PointsRequest) -> (r: Json)
    ensures
        model(r) == JsonModel::Object(
            Seq::empty().push(("ids"@, numbers_body(request.ids@))).push(
                ("with_payload"@, JsonModel::Bool(request.with_payload)),
            ),
        ),
{
    let n: usize = request.ids.len();
    let mut ids: Vec<Json> = Vec::new();
    let mut i: usize = 0;
    while i < n
        invariant
            n == request.ids@.len(),
            i <= n,
            ids@.len() == i,
            forall|k: int|
                0 <= k < i ==> model(#[trigger] ids@[k]) == JsonModel::Whole(request.ids@[k]),
        decreases n - i,
    {
        ids.push(Json::Whole(request.ids[i]));
        i = i + 1;
    }
    proof {
        lemma_models(ids@);
        assert(models(ids@) =~= request.ids@.map_values(|n: u64| JsonModel::Whole(n)));
    }
    let out = with_field(no_fields(), "ids", list_with(ids));
    let out = with_field(out, "with_payload", Json::Bool(request.with_payload));
    object_with(out)
}

// ---------------------------------------------------------------------------
// Points
// ---------------------------------------------------------------------------

/// Fields with a text behind them, where there is one.
pub open spec fn with_optional_text(
    fields: Seq<(Seq<char>, JsonModel)>,
    key: Seq<char>,
    value: Option<String>,
) -> Seq<(Seq<char>, JsonModel)> {
    match value {
        Some(s) => fields.push((key, JsonModel::Text(s@))),
        None => fields,
    }
}

/// The payload of a point. A symbol and a breadcrumb are named where there are any.
pub open spec fn payload_fields(p: PointPayload) -> Seq<(Seq<char>, JsonModel)> {
    let place = Seq::empty().push(("text"@, JsonModel::Text(p.text@))).push(
        ("source_uri"@, JsonModel::Text(p.source_uri@)),
    ).push(("source_type"@, JsonModel::Text(p.source_type@))).push(
        ("catalog"@, JsonModel::Text(p.catalog@)),
    ).push(("content_hash"@, JsonModel::Text(p.content_hash@))).push(
        ("start_line"@, JsonModel::Whole(p.start_line as u64)),
    ).push(("end_line"@, JsonModel::Whole(p.end_line as u64)));
    let kind = with_optional_text(place, "symbol_name"@, p.symbol_name).push(
        ("chunk_type"@, JsonModel::Text(p.chunk_type@)),
    ).push(("chunk_kind"@, JsonModel::Text(p.chunk_kind@)));
    with_optional_text(kind, "breadcrumb"@, p.breadcrumb).push(
        ("file_id"@, JsonModel::Text(p.file_id@)),
    ).push(("relative_path"@, JsonModel::Text(p.relative_path@))).push(
        ("chunk_number"@, JsonModel::Whole(p.chunk_number as u64)),
    ).push(("chunk_count"@, JsonModel::Whole(p.chunk_count as u64))).push(
        ("file_complete"@, JsonModel::Bool(p.file_complete)),
    )
}

fn with_text_option(fields: Vec<(String, Json)>, key: &str, value: &Option<String>) -> (r: Vec<
    (String, Json),
>)
    ensures
        field_models(r@) == with_optional_text(field_models(fields@), key@, *value),
{
    match value {
        Some(s) => with_field(fields, key, json_text(s.as_str())),
        None => fields,
    }
}

fn payload_json(p: &PointPayload) -> (r: Json)
    ensures
        model(r) == JsonModel::Object(payload_fields(*p)),
{
    let out = with_field(no_fields(), "text", json_text(p.text.as_str()));
    let out = with_field(out, "source_uri", json_text(p.source_uri.as_str()));
    let out = with_field(out, "source_type", json_text(p.source_type.as_str()));
    let out = with_field(out, "catalog", json_text(p.catalog.as_str()));
    let out = with_field(out, "content_hash", json_text(p.content_hash.as_str()));
    let out = with_field(out, "start_line", Json::Whole(p.start_line as u64));
    let out = with_field(out, "end_line", Json::Whole(p.end_line as u64));
    let out = with_text_option(out, "symbol_name", &p.symbol_name);
    let out = with_field(out, "chunk_type", json_text(p.chunk_type.as_str()));
    let out = with_field(out, "chunk_kind", json_text(p.chunk_kind.as_str()));
    let out = with_text_option(out, "breadcrumb", &p.breadcrumb);
    let out = with_field(out, "file_id", json_text(p.file_id.as_str()));
    let out = with_field(out, "relative_path", json_text(p.relative_path.as_str()));
    let out = with_field(out, "chunk_number", Json::Whole(p.chunk_number as u64));
    let out = with_field(out, "chunk_count", Json::Whole(p.chunk_count as u64));
    let out = with_field(out, "file_complete", Json::Bool(p.file_complete));
    object_with(out)
}

/// A point to be stored, but for its vector
pub fn point_body(point: &Point) -> (r: Json)
    ensures
        model(r) == JsonModel::Object(
            Seq::empty().push(("id"@, JsonModel::Text(point.id@))).push(
                ("payload"@, JsonModel::Object(payload_fields(point.payload))),
            ),
        ),
{
    let out = with_field(no_fields(), "id", json_text(point.id.as_str()));
    let out = with_field(out, "payload", payload_json(&point.payload));
    object_with(out)
}

// ---------------------------------------------------------------------------
// Laws
// ---------------------------------------------------------------------------

/// A filter asks, for each of its conditions in their order, that the field of that name
/// holds that value; without conditions it asks nothing.
pub proof fn law_filters_ask_for_each_condition(conditions: Seq<(Seq<char>, MatchModel)>, i: int)
    requires
        0 <= i < conditions.len(),
    ensures
        filter_body(Seq::empty()) == JsonModel::Object(Seq::empty()),
        filter_body(conditions) matches JsonModel::Object(fields) && fields.len() == 1
            && fields[0].0 == "must"@ && (fields[0].1 matches JsonModel::List(items) && items.len()
            == conditions.len() && (items[i] matches JsonModel::Object(parts) && parts.len() == 2
            && parts[0] == ("key"@, JsonModel::Text(conditions[i].0)) && parts[1].0 == "match"@ && (
        parts[1].1 matches JsonModel::Object(value) && value.len() == 1 && value[0] == (
            "value"@,
            match conditions[i].1 {
                MatchModel::Text(s) => JsonModel::Text(s),
                MatchModel::Integer(n) => JsonModel::Whole(n),
            },
        )))),
{
}

proof fn lemma_pushed(
    fields: Seq<(Seq<char>, JsonModel)>,
    next: (Seq<char>, JsonModel),
    field: (Seq<char>, JsonModel),
)
    ensures
        fields.push(next).contains(next),
        fields.contains(field) ==> fields.push(next).contains(field),
{
    let more = fields.push(next);
    assert(more[fields.len() as int] == next);
    if fields.contains(field) {
        let i = choose|i: int| 0 <= i < fields.len() && fields[i] == field;
        assert(more[i] == field);
    }
}

proof fn lemma_all_pushed(fields: Seq<(Seq<char>, JsonModel)>, next: (Seq<char>, JsonModel))
    ensures
        fields.push(next).contains(next),
        forall|field: (Seq<char>, JsonModel)| #[trigger]
            fields.contains(field) ==> fields.push(next).contains(field),
{
    lemma_pushed(fields, next, next);
    assert forall|field: (Seq<char>, JsonModel)| #[trigger] fields.contains(field) implies fields.push(
        next,
    ).contains(field) by {
        lemma_pushed(fields, next, field);
    }
}

/// A page of points is asked for with the filter, with whether payloads are wanted, with a
/// limit exactly where there is one, and with the start exactly where there is one.
pub proof fn law_pages_are_asked_for_in_full(request: ScrollRequest)
    ensures
        ({
            let fields = scroll_fields(request);
            &&& fields.len() == 2 + (if request.limit is Some {
                1int
            } else {
                0
            }) + if request.offset is Some {
                1int
            } else {
                0
            }
            &&& fields.contains(("filter"@, filter_body(request.filter@)))
            &&& fields.contains(("with_payload"@, JsonModel::Bool(request.with_payload)))
            &&& request.limit matches Some(n) ==> fields.contains(
                ("limit"@, JsonModel::Whole(n as u64)),
            )
            &&& request.offset matches Some(QdrantId::String(s)) ==> fields.contains(
                ("offset"@, JsonModel::Text(s@)),
            )
            &&& request.offset matches Some(QdrantId::Integer(n)) ==> fields.contains(
                ("offset"@, JsonModel::Whole(n)),
            )
        }),
{
    let none = Seq::<(Seq<char>, JsonModel)>::empty();
    let one = ("filter"@, filter_body(request.filter@));
    let two = ("with_payload"@, JsonModel::Bool(request.with_payload));
    lemma_all_pushed(none, one);
    lemma_all_pushed(none.push(one), two);
    let always = none.push(one).push(two);
    let limited = match request.limit {
        Some(n) => always.push(("limit"@, JsonModel::Whole(n as u64))),
        None => always,
    };
    if let Some(n) = request.limit {
        lemma_all_pushed(always, ("limit"@, JsonModel::Whole(n as u64)));
    }
    if let Some(id) = request.offset {
        lemma_all_pushed(limited, ("offset"@, id_body(id)));
    }
}

/// The IDs that are asked for are sent as they are, each once and in their order.
pub proof fn law_ids_are_sent_as_they_are(ids: Seq<u64>, found: Seq<QdrantId>, i: int)
    ensures
        numbers_body(ids) matches JsonModel::List(items) && items.len() == ids.len() && (0 <= i
            < ids.len() ==> items[i] == JsonModel::Whole(ids[i])),
        ids_body(found) matches JsonModel::List(items) && items.len() == found.len() && (0 <= i
            < found.len() ==> items[i] == match found[i] {
            QdrantId::String(s) => JsonModel::Text(s@),
            QdrantId::Integer(n) => JsonModel::Whole(n),
        }),
{
}

/// A stored payload holds each of its fields under its name: a symbol and a breadcrumb
/// exactly where there are any, and all others in any case.
#[verifier::spinoff_prover]
#[verifier::rlimit(30)]
pub proof fn law_payload_is_sent_field_by_field(p: PointPayload)
    ensures
        ({
            let fields = payload_fields(p);
            &&& fields.len() == 14 + (if p.symbol_name is Some {
                1int
            } else {
                0
            }) + if p.breadcrumb is Some {
                1int
            } else {
                0
            }
            &&& fields.contains(("text"@, JsonModel::Text(p.text@)))
            &&& fields.contains(("source_uri"@, JsonModel::Text(p.source_uri@)))
            &&& fields.contains(("source_type"@, JsonModel::Text(p.source_type@)))
            &&& fields.contains(("catalog"@, JsonModel::Text(p.catalog@)))
            &&& fields.contains(("content_hash"@, JsonModel::Text(p.content_hash@)))
            &&& fields.contains(("start_line"@, JsonModel::Whole(p.start_line as u64)))
            &&& fields.contains(("end_line"@, JsonModel::Whole(p.end_line as u64)))
            &&& p.symbol_name matches Some(s) ==> fields.contains(
                ("symbol_name"@, JsonModel::Text(s@)),
            )
            &&& fields.contains(("chunk_type"@, JsonModel::Text(p.chunk_type@)))
            &&& fields.contains(("chunk_kind"@, JsonModel::Text(p.chunk_kind@)))
            &&& p.breadcrumb matches Some(s) ==> fields.contains(
                ("breadcrumb"@, JsonModel::Text(s@)),
            )
            &&& fields.contains(("file_id"@, JsonModel::Text(p.file_id@)))
            &&& fields.contains(("relative_path"@, JsonModel::Text(p.relative_path@)))
            &&& fields.contains(("chunk_number"@, JsonModel::Whole(p.chunk_number as u64)))
            &&& fields.contains(("chunk_count"@, JsonModel::Whole(p.chunk_count as u64)))
            &&& fields.contains(("file_complete"@, JsonModel::Bool(p.file_complete)))
        }),
{
    let f0 = Seq::<(Seq<char>, JsonModel)>::empty();
    let a1 = ("text"@, JsonModel::Text(p.text@));
    let a2 = ("source_uri"@, JsonModel::Text(p.source_uri@));
    let a3 = ("source_type"@, JsonModel::Text(p.source_type@));
    let a4 = ("catalog"@, JsonModel::Text(p.catalog@));
    let a5 = ("content_hash"@, JsonModel::Text(p.content_hash@));
    let a6 = ("start_line"@, JsonModel::Whole(p.start_line as u64));
    let a7 = ("end_line"@, JsonModel::Whole(p.end_line as u64));
    let f1 = f0.push(a1);
    let f2 = f1.push(a2);
    let f3 = f2.push(a3);
    let f4 = f3.push(a4);
    let f5 = f4.push(a5);
    let f6 = f5.push(a6);
    let f7 = f6.push(a7);
    lemma_all_pushed(f0, a1);
    lemma_all_pushed(f1, a2);
    lemma_all_pushed(f2, a3);
    lemma_all_pushed(f3, a4);
    lemma_all_pushed(f4, a5);
    lemma_all_pushed(f5, a6);
    lemma_all_pushed(f6, a7);
    let f8 = with_optional_text(f7, "symbol_name"@, p.symbol_name);
    if let Some(s) = p.symbol_name {
        lemma_all_pushed(f7, ("symbol_name"@, JsonModel::Text(s@)));
    }
    let a9 = ("chunk_type"@, JsonModel::Text(p.chunk_type@));
    let b0 = ("chunk_kind"@, JsonModel::Text(p.chunk_kind@));
    let f9 = f8.push(a9);
    let g0 = f9.push(b0);
    lemma_all_pushed(f8, a9);
    lemma_all_pushed(f9, b0);
    let g1 = with_optional_text(g0, "breadcrumb"@, p.breadcrumb);
    if let Some(s) = p.breadcrumb {
        lemma_all_pushed(g0, ("breadcrumb"@, JsonModel::Text(s@)));
    }
    let b2 = ("file_id"@, JsonModel::Text(p.file_id@));
    let b3 = ("relative_path"@, JsonModel::Text(p.relative_path@));
    let b4 = ("chunk_number"@, JsonModel::Whole(p.chunk_number as u64));
    let b5 = ("chunk_count"@, JsonModel::Whole(p.chunk_count as u64));
    let b6 = ("file_complete"@, JsonModel::Bool(p.file_complete));
    let g2 = g1.push(b2);
    let g3 = g2.push(b3);
    let g4 = g3.push(b4);
    let g5 = g4.push(b5);
    lemma_all_pushed(g1, b2);
    lemma_all_pushed(g2, b3);
    lemma_all_pushed(g3, b4);
    lemma_all_pushed(g4, b5);
    lemma_all_pushed(g5, b6);
    assert(payload_fields(p) == g5.push(b6));
}

} // verus!
