//! A JSON value of the library's own, and its mathematical model.
//!
//! JSON Schemas are shaped per request. The library holds them as [`Json`]
//! values; contracts speak of their views, [`JsonValue`], in which strings are
//! character sequences and arrays and objects are sequences. An object is a
//! sequence of key/value entries in document order.
use vstd::prelude::*;

verus! {

broadcast use vstd::std_specs::vec::group_vec_axioms;

/// The mathematical model of a JSON value.
pub enum JsonValue {
    Null,
    Bool(bool),
    /// A number, by its textual form.
    Number(Seq<char>),
    Str(Seq<char>),
    Array(Seq<JsonValue>),
    /// The entries of an object, in order.
    Object(Seq<(Seq<char>, JsonValue)>),
}

/// A JSON value.
///
/// Numbers are held by their textual form. An object is a list of entries;
/// the first entry with a key is the one that a lookup finds.
#[derive(Debug, PartialEq)]
pub enum Json {
    Null,
    Bool(bool),
    Number(String),
    Str(String),
    Array(Vec<Json>),
    Object(Vec<(String, Json)>),
}

/// A JSON object: its entries in order.
pub type JsonObject = Vec<(String, Json)>;

impl View for Json {
    type V = JsonValue;

    open spec fn view(&self) -> JsonValue
        decreases self,
    {
        match self {
            Json::Null => JsonValue::Null,
            Json::Bool(b) => JsonValue::Bool(*b),
            Json::Number(n) => JsonValue::Number(n@),
            Json::Str(s) => JsonValue::Str(s@),
            Json::Array(items) => JsonValue::Array(view_items(items@)),
            Json::Object(entries) => JsonValue::Object(view_entries(entries@)),
        }
    }
}

/// The views of a sequence of values.
pub open spec fn view_items(items: Seq<Json>) -> Seq<JsonValue>
    decreases items,
{
    if items.len() == 0 {
        Seq::empty()
    } else {
        view_items(items.drop_last()).push(items.last().view())
    }
}

/// The views of a sequence of object entries.
pub open spec fn view_entries(entries: Seq<(String, Json)>) -> Seq<(Seq<char>, JsonValue)>
    decreases entries,
{
    if entries.len() == 0 {
        Seq::empty()
    } else {
        view_entries(entries.drop_last()).push((entries.last().0@, entries.last().1.view()))
    }
}

/// The view of an object.
pub open spec fn object_view(o: JsonObject) -> Seq<(Seq<char>, JsonValue)> {
    view_entries(o@)
}

pub proof fn lemma_view_entries(entries: Seq<(String, Json)>)
    ensures
        view_entries(entries).len() == entries.len(),
        forall|i: int|
            0 <= i < entries.len() ==> #[trigger] view_entries(entries)[i] == (
                entries[i].0@,
                entries[i].1@,
            ),
    decreases entries.len(),
{
    if entries.len() > 0 {
        let d = entries.drop_last();
        lemma_view_entries(d);
        assert(view_entries(entries) == view_entries(d).push(
            (entries.last().0@, entries.last().1@),
        ));
        assert forall|i: int| 0 <= i < entries.len() implies #[trigger] view_entries(entries)[i]
            == (entries[i].0@, entries[i].1@) by {
            if i < entries.len() - 1 {
                assert(d[i] == entries[i]);
            }
        }
    }
}

/// One step of `view_items` over a growing prefix.
pub proof fn lemma_view_items_step(items: Seq<Json>, i: int)
    requires
        0 <= i < items.len(),
    ensures
        view_items(items.take(i + 1)) == view_items(items.take(i)).push(items[i]@),
{
    assert(items.take(i + 1).drop_last() =~= items.take(i));
}

/// One step of `view_entries` over a growing prefix.
pub proof fn lemma_view_entries_step(entries: Seq<(String, Json)>, i: int)
    requires
        0 <= i < entries.len(),
    ensures
        view_entries(entries.take(i + 1)) == view_entries(entries.take(i)).push(
            (entries[i].0@, entries[i].1@),
        ),
{
    assert(entries.take(i + 1).drop_last() =~= entries.take(i));
}

/// `view_items` of a sequence extended by one value.
pub proof fn lemma_view_items_push(items: Seq<Json>, x: Json)
    ensures
        view_items(items.push(x)) == view_items(items).push(x@),
{
    assert(items.push(x).drop_last() =~= items);
}

/// `view_entries` of a sequence extended by one entry.
pub proof fn lemma_view_entries_push(entries: Seq<(String, Json)>, e: (String, Json))
    ensures
        view_entries(entries.push(e)) == view_entries(entries).push((e.0@, e.1@)),
{
    assert(entries.push(e).drop_last() =~= entries);
}

/// The value of the first entry of `o` with key `key`, if any.
pub open spec fn lookup(o: Seq<(Seq<char>, JsonValue)>, key: Seq<char>) -> Option<JsonValue>
    decreases o.len(),
{
    if o.len() == 0 {
        None
    } else if lookup(o.drop_last(), key) is Some {
        lookup(o.drop_last(), key)
    } else if o.last().0 == key {
        Some(o.last().1)
    } else {
        None
    }
}

proof fn lemma_lookup_prefix(o: Seq<(Seq<char>, JsonValue)>, key: Seq<char>, j: int)
    requires
        0 <= j <= o.len(),
        lookup(o.take(j), key) is Some,
    ensures
        lookup(o, key) == lookup(o.take(j), key),
    decreases o.len(),
{
    if j == o.len() {
        assert(o.take(j) =~= o);
    } else {
        assert(o.drop_last().take(j) =~= o.take(j));
        lemma_lookup_prefix(o.drop_last(), key, j);
    }
}

/// Finds the value of the first entry of `obj` with key `key`.
pub fn get<'a>(obj: &'a JsonObject, key: &str) -> (r: Option<&'a Json>)
    ensures
        match r {
            Some(v) => lookup(object_view(*obj), key@) == Some(v@),
            None => lookup(object_view(*obj), key@) is None,
        },
{
    let ghost ov = object_view(*obj);
    proof {
        lemma_view_entries(obj@);
    }
    let n = obj.len();
    for i in 0..n
        invariant
            n == obj@.len(),
            ov == object_view(*obj),
            ov.len() == n,
            forall|k: int| 0 <= k < n ==> #[trigger] ov[k] == (obj@[k].0@, obj@[k].1@),
            lookup(ov.take(i as int), key@) is None,
    {
        assert(ov.take(i + 1).drop_last() =~= ov.take(i as int));
        if crate::capability::str_eq(obj[i].0.as_str(), key) {
            assert(lookup(ov.take(i + 1), key@) == Some(obj@[i as int].1@));
            proof {
                lemma_lookup_prefix(ov, key@, i + 1);
            }
            return Some(&obj[i].1);
        }
    }
    assert(ov.take(n as int) =~= ov);
    None
}

fn clone_json(j: &Json) -> (r: Json)
    ensures
        r@ == j@,
    decreases j,
{
    match j {
        Json::Null => Json::Null,
        Json::Bool(b) => Json::Bool(*b),
        Json::Number(n) => Json::Number(n.clone()),
        Json::Str(s) => Json::Str(s.clone()),
        Json::Array(items) => Json::Array(clone_items(items)),
        Json::Object(entries) => Json::Object(clone_entries(entries)),
    }
}

fn clone_items(items: &Vec<Json>) -> (r: Vec<Json>)
    ensures
        view_items(r@) == view_items(items@),
    decreases items,
{
    let mut out: Vec<Json> = Vec::new();
    let n = items.len();
    for i in 0..n
        invariant
            n == items@.len(),
            view_items(out@) == view_items(items@.take(i as int)),
    {
        let ghost before = out@;
        let c = clone_json(&items[i]);
        out.push(c);
        proof {
            lemma_view_items_push(before, c);
            lemma_view_items_step(items@, i as int);
        }
    }
    assert(items@.take(n as int) =~= items@);
    out
}

fn clone_entries(entries: &Vec<(String, Json)>) -> (r: Vec<(String, Json)>)
    ensures
        view_entries(r@) == view_entries(entries@),
    decreases entries,
{
    let mut out: Vec<(String, Json)> = Vec::new();
    let n = entries.len();
    for i in 0..n
        invariant
            n == entries@.len(),
            view_entries(out@) == view_entries(entries@.take(i as int)),
    {
        let ghost before = out@;
        let k = entries[i].0.clone();
        let v = clone_json(&entries[i].1);
        out.push((k, v));
        proof {
            lemma_view_entries_push(before, (k, v));
            lemma_view_entries_step(entries@, i as int);
        }
    }
    assert(entries@.take(n as int) =~= entries@);
    out
}

/// Copies an object entry by entry.
pub fn clone_object(o: &JsonObject) -> (r: JsonObject)
    ensures
        object_view(r) == object_view(*o),
{
    clone_entries(o)
}

impl Clone for Json {
    fn clone(&self) -> (r: Self)
        ensures
            r@ == self@,
    {
        clone_json(self)
    }
}

}
