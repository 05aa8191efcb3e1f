//! JSON values.

use vstd::prelude::*;
use vstd::string::*;

use crate::text::same_text;
#[allow(unused_imports)]
use crate::text::texts;

verus! {

/// A JSON value
pub enum Json {
    Null,
    Bool(bool),
    /// A whole number that is not negative
    Whole(u64),
    /// Any other number, as it is written
    Number(String),
    Text(String),
    List(Vec<Json>),
    /// Keys with their values
    Object(Vec<(String, Json)>),
}

/// What a JSON value is, over texts and sequences
pub enum JsonModel {
    Null,
    Bool(bool),
    Whole(u64),
    Number(Seq<char>),
    Text(Seq<char>),
    List(Seq<JsonModel>),
    Object(Seq<(Seq<char>, JsonModel)>),
}

/// What a JSON value is.
pub open spec fn model(value: Json) -> JsonModel
    decreases value,
{
    match value {
        Json::Null => JsonModel::Null,
        Json::Bool(b) => JsonModel::Bool(b),
        Json::Whole(n) => JsonModel::Whole(n),
        Json::Number(s) => JsonModel::Number(s@),
        Json::Text(s) => JsonModel::Text(s@),
        Json::List(items) => JsonModel::List(models(items@)),
        Json::Object(fields) => JsonModel::Object(field_models(fields@)),
    }
}

/// What each of several JSON values is.
pub open spec fn models(items: Seq<Json>) -> Seq<JsonModel>
    decreases items,
{
    if items.len() == 0 {
        Seq::empty()
    } else {
        models(items.subrange(0, items.len() - 1)).push(model(items[items.len() - 1]))
    }
}

/// What the key and the value of each of several fields are.
pub open spec fn field_models(fields: Seq<(String, Json)>) -> Seq<(Seq<char>, JsonModel)>
    decreases fields,
{
    if fields.len() == 0 {
        Seq::empty()
    } else {
        field_models(fields.subrange(0, fields.len() - 1)).push(
            (fields[fields.len() - 1].0@, model(fields[fields.len() - 1].1)),
        )
    }
}

/// What the items of a list of values are, one by one.
pub proof fn lemma_models(items: Seq<Json>)
    ensures
        models(items).len() == items.len(),
        forall|i: int| 0 <= i < items.len() ==> #[trigger] models(items)[i] == model(items[i]),
    decreases items.len(),
{
    if items.len() > 0 {
        let fewer = items.subrange(0, items.len() - 1);
        lemma_models(fewer);
        assert forall|i: int| 0 <= i < items.len() implies #[trigger] models(items)[i] == model(
            items[i],
        ) by {
            if i < fewer.len() {
                assert(models(fewer)[i] == model(fewer[i]));
            }
        }
    }
}

/// What several fields are, one by one.
pub proof fn lemma_field_models(fields: Seq<(String, Json)>)
    ensures
        field_models(fields).len() == fields.len(),
        forall|i: int|
            0 <= i < fields.len() ==> #[trigger] field_models(fields)[i] == (
                fields[i].0@,
                model(fields[i].1),
            ),
    decreases fields.len(),
{
    if fields.len() > 0 {
        let fewer = fields.subrange(0, fields.len() - 1);
        lemma_field_models(fewer);
        assert forall|i: int| 0 <= i < fields.len() implies #[trigger] field_models(fields)[i] == (
            fields[i].0@,
            model(fields[i].1),
        ) by {
            if i < fewer.len() {
                assert(field_models(fewer)[i] == (fewer[i].0@, model(fewer[i].1)));
            }
        }
    }
}

// ---------------------------------------------------------------------------
// Reading
// ---------------------------------------------------------------------------

/// The value of the first field with a key.
pub open spec fn first_with(fields: Seq<(Seq<char>, JsonModel)>, key: Seq<char>) -> Option<
    JsonModel,
>
    decreases fields.len(),
{
    if fields.len() == 0 {
        None
    } else if fields[0].0 == key {
        Some(fields[0].1)
    } else {
        first_with(fields.skip(1), key)
    }
}

/// The value at a key. What is no object has none.
pub open spec fn field_of(value: JsonModel, key: Seq<char>) -> Option<JsonModel> {
    match value {
        JsonModel::Object(fields) => first_with(fields, key),
        _ => None,
    }
}

/// The text at a key, if there is one.
pub open spec fn text_field(value: JsonModel, key: Seq<char>) -> Option<Seq<char>> {
    match field_of(value, key) {
        Some(JsonModel::Text(s)) => Some(s),
        _ => None,
    }
}

/// The whole number at a key, if there is one.
pub open spec fn whole_field(value: JsonModel, key: Seq<char>) -> Option<u64> {
    match field_of(value, key) {
        Some(JsonModel::Whole(n)) => Some(n),
        _ => None,
    }
}

/// The truth value at a key, if there is one.
pub open spec fn bool_field(value: JsonModel, key: Seq<char>) -> Option<bool> {
    match field_of(value, key) {
        Some(JsonModel::Bool(b)) => Some(b),
        _ => None,
    }
}

/// The texts among several values, in their order.
pub open spec fn texts_among(items: Seq<JsonModel>) -> Seq<Seq<char>>
    decreases items.len(),
{
    if items.len() == 0 {
        Seq::empty()
    } else {
        match items.last() {
            JsonModel::Text(s) => texts_among(items.drop_last()).push(s),
            _ => texts_among(items.drop_last()),
        }
    }
}

/// The texts in the list at a key. Where there is no list there are none.
pub open spec fn texts_field(value: JsonModel, key: Seq<char>) -> Seq<Seq<char>> {
    match field_of(value, key) {
        Some(JsonModel::List(items)) => texts_among(items),
        _ => Seq::empty(),
    }
}

impl Json {
    /// The value at a key
    pub fn get(&self, key: &str) -> (r: Option<&Json>)
        ensures
            field_of(model(*self), key@) == match r {
                Some(value) => Some(model(*value)),
                None => None,
            },
    {
        match self {
            Json::Object(fields) => {
                let n: usize = fields.len();
                let ghost all = field_models(fields@);
                let mut i: usize = 0;
                proof {
                    lemma_field_models(fields@);
                    assert(all.skip(0) =~= all);
                }
                while i < n
                    invariant
                        n == fields@.len(),
                        i <= n,
                        all.len() == n,
                        model(*self) == JsonModel::Object(all),
                        forall|k: int|
                            0 <= k < n ==> #[trigger] all[k] == (
                                fields@[k].0@,
                                model(fields@[k].1),
                            ),
                        first_with(all.skip(i as int), key@) == first_with(all, key@),
                    decreases n - i,
                {
                    assert(all.skip(i as int)[0] == all[i as int]);
                    if same_text(fields[i].0.as_str(), key) {
                        return Some(&fields[i].1);
                    }
                    assert(all.skip(i as int).skip(1) =~= all.skip(i + 1));
                    i = i + 1;
                }
                None
            },
            _ => None,
        }
    }

    /// The text at a key, if there is one
    pub fn text_at(&self, key: &str) -> (r: Option<String>)
        ensures
            text_field(model(*self), key@) == match r {
                Some(s) => Some(s@),
                None => None,
            },
    {
        match self.get(key) {
            Some(Json::Text(s)) => Some(s.clone()),
            _ => None,
        }
    }

    /// The whole number at a key, if there is one
    pub fn whole_at(&self, key: &str) -> (r: Option<u64>)
        ensures
            r == whole_field(model(*self), key@),
    {
        match self.get(key) {
            Some(Json::Whole(n)) => Some(*n),
            _ => None,
        }
    }

    /// The truth value at a key, if there is one
    pub fn bool_at(&self, key: &str) -> (r: Option<bool>)
        ensures
            r == bool_field(model(*self), key@),
    {
        match self.get(key) {
            Some(Json::Bool(b)) => Some(*b),
            _ => None,
        }
    }

    /// The texts in the list at a key
    pub fn texts_at(&self, key: &str) -> (r: Vec<String>)
        ensures
            texts(r@) == texts_field(model(*self), key@),
    {
        let mut out: Vec<String> = Vec::new();
        assert(texts(out@) =~= Seq::<Seq<char>>::empty());
        match self.get(key) {
            Some(Json::List(items)) => {
                let n: usize = items.len();
                let ghost all = models(items@);
                let mut i: usize = 0;
                proof {
                    lemma_models(items@);
                }
                while i < n
                    invariant
                        n == items@.len(),
                        i <= n,
                        all.len() == n,
                        forall|k: int| 0 <= k < n ==> #[trigger] all[k] == model(items@[k]),
                        texts(out@) == texts_among(all.take(i as int)),
                    decreases n - i,
                {
                    let ghost before = texts(out@);
                    proof {
                        let now = all.take(i + 1);
                        assert(now.drop_last() =~= all.take(i as int));
                        assert(now.last() == model(items@[i as int]));
                    }
                    match &items[i] {
                        Json::Text(s) => {
                            out.push(s.clone());
                            assert(texts(out@) =~= before.push(s@));
                        },
                        _ => {},
                    }
                    i = i + 1;
                }
                assert(all.take(n as int) =~= all);
            },
            _ => {},
        }
        out
    }
}

// ---------------------------------------------------------------------------
// Building
// ---------------------------------------------------------------------------

/// A text as a JSON value
pub fn json_text(s: &str) -> (r: Json)
    ensures
        model(r) == JsonModel::Text(s@),
{
    Json::Text(s.to_owned())
}

/// An object without fields, to be filled
pub fn no_fields() -> (r: Vec<(String, Json)>)
    ensures
        field_models(r@) == Seq::<(Seq<char>, JsonModel)>::empty(),
{
    Vec::new()
}

/// Fields with one more behind them
pub fn with_field(fields: Vec<(String, Json)>, key: &str, value: Json) -> (r: Vec<(String, Json)>)
    ensures
        field_models(r@) == field_models(fields@).push((key@, model(value))),
{
    let mut out = fields;
    let ghost before = out@;
    out.push((key.to_owned(), value));
    assert(out@.subrange(0, out@.len() - 1) =~= before);
    out
}

/// The object with some fields
pub fn object_with(fields: Vec<(String, Json)>) -> (r: Json)
    ensures
        model(r) == JsonModel::Object(field_models(fields@)),
{
    Json::Object(fields)
}

/// An object with one field
pub fn json_object(key: &str, value: Json) -> (r: Json)
    ensures
        model(r) == JsonModel::Object(Seq::empty().push((key@, model(value)))),
{
    object_with(with_field(no_fields(), key, value))
}

/// The list of some items
pub fn list_with(items: Vec<Json>) -> (r: Json)
    ensures
        model(r) == JsonModel::List(models(items@)),
{
    Json::List(items)
}

/// A list with one item
pub fn json_list(item: Json) -> (r: Json)
    ensures
        model(r) == JsonModel::List(Seq::empty().push(model(item))),
{
    let mut items: Vec<Json> = Vec::new();
    items.push(item);
    proof {
        lemma_models(items@);
        assert(models(items@) =~= Seq::empty().push(model(item)));
    }
    Json::List(items)
}

// ---------------------------------------------------------------------------
// Laws
// ---------------------------------------------------------------------------

/// A field is found under its key, whatever stands behind it, where no field before it has
/// that key; and where no field has the key, nothing is found.
pub proof fn law_first_field_with_a_key_counts(
    before: Seq<(Seq<char>, JsonModel)>,
    key: Seq<char>,
    value: JsonModel,
    behind: Seq<(Seq<char>, JsonModel)>,
)
    requires
        forall|i: int| 0 <= i < before.len() ==> (#[trigger] before[i]).0 != key,
    ensures
        field_of(JsonModel::Object(before), key) is None,
        field_of(JsonModel::Object(before.push((key, value)) + behind), key) == Some(value),
    decreases before.len(),
{
    let all = before.push((key, value)) + behind;
    if before.len() > 0 {
        let fewer = before.skip(1);
        assert forall|i: int| 0 <= i < fewer.len() implies (#[trigger] fewer[i]).0 != key by {
            assert(fewer[i] == before[i + 1]);
        }
        law_first_field_with_a_key_counts(fewer, key, value, behind);
        assert(before[0].0 != key);
        assert(all[0] == before[0]);
        assert(all.skip(1) =~= fewer.push((key, value)) + behind);
    } else {
        assert(all[0] == (key, value));
    }
}

/// Only objects have fields, and a field is read as what it is: a text, a whole number or a
/// truth value is not taken for something else.
pub proof fn law_fields_are_read_as_what_they_are(
    value: JsonModel,
    key: Seq<char>,
    s: Seq<char>,
    n: u64,
    b: bool,
)
    ensures
        !(value is Object) ==> field_of(value, key) is None,
        text_field(value, key) == Some(s) <==> field_of(value, key) == Some(JsonModel::Text(s)),
        whole_field(value, key) == Some(n) <==> field_of(value, key) == Some(JsonModel::Whole(n)),
        bool_field(value, key) == Some(b) <==> field_of(value, key) == Some(JsonModel::Bool(b)),
        !(field_of(value, key) matches Some(JsonModel::List(_))) ==> texts_field(value, key)
            == Seq::<Seq<char>>::empty(),
{
}

/// Of a list all texts are read, in their order, and what is no text is passed over.
pub proof fn law_texts_of_a_list(items: Seq<JsonModel>, next: JsonModel, s: Seq<char>)
    ensures
        texts_among(Seq::empty()) == Seq::<Seq<char>>::empty(),
        texts_among(items.push(JsonModel::Text(s))) == texts_among(items).push(s),
        !(next is Text) ==> texts_among(items.push(next)) == texts_among(items),
{
    assert(items.push(next).drop_last() =~= items);
    assert(items.push(JsonModel::Text(s)).drop_last() =~= items);
}

/// Values keep their kind and content, and lists and objects keep all that they hold, in
/// its order.
pub proof fn law_values_are_what_they_hold(
    s: String,
    n: u64,
    b: bool,
    items: Vec<Json>,
    fields: Vec<(String, Json)>,
    i: int,
)
    ensures
        model(Json::Null) == JsonModel::Null,
        model(Json::Bool(b)) == JsonModel::Bool(b),
        model(Json::Whole(n)) == JsonModel::Whole(n),
        model(Json::Number(s)) == JsonModel::Number(s@),
        model(Json::Text(s)) == JsonModel::Text(s@),
        model(Json::List(items)) matches JsonModel::List(list) && list.len() == items@.len() && (0
            <= i < list.len() ==> list[i] == model(items@[i])),
        model(Json::Object(fields)) matches JsonModel::Object(list) && list.len() == fields@.len()
            && (0 <= i < list.len() ==> list[i] == (fields@[i].0@, model(fields@[i].1))),
{
    lemma_models(items@);
    lemma_field_models(fields@);
}

} // verus!
