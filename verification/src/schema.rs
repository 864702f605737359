//! Per-request shaping of JSON Schemas: taking out the properties and the
//! output variants whose capability the caller lacks.
use vstd::prelude::*;

use crate::capability::{str_eq, AuthContext};
use crate::json::{get, lookup, object_view, view_entries, view_items, Json, JsonObject, JsonValue, lemma_view_entries_push, lemma_view_entries_step, lemma_view_items_push, lemma_view_items_step};

verus! {

broadcast use vstd::seq_lib::group_seq_properties;

// ---------------------------------------------------------------------------
// Names
// ---------------------------------------------------------------------------

/// The character sequences of a list of string slices.
pub open spec fn str_views(names: Seq<&str>) -> Seq<Seq<char>> {
    names.map_values(|s: &str| s@)
}

/// Whether `s` is one of `names`.
pub fn contains_str(names: &[&str], s: &str) -> (r: bool)
    ensures
        r == str_views(names@).contains(s@),
{
    let n = names.len();
    for i in 0..n
        invariant
            n == names@.len(),
            forall|j: int| 0 <= j < i ==> names@[j]@ != s@,
    {
        if str_eq(names[i], s) {
            assert(str_views(names@)[i as int] == s@);
            return true;
        }
    }
    assert forall|j: int| 0 <= j < str_views(names@).len() implies str_views(names@)[j] != s@ by {}
    false
}

fn key_is(key: &String, lit: &str) -> (r: bool)
    ensures
        r == (key@ == lit@),
{
    str_eq(key.as_str(), lit)
}

// ---------------------------------------------------------------------------
// The model of shaping
// ---------------------------------------------------------------------------

/// The entries of `o` whose key is not one of `names`.
pub open spec fn drop_keys(o: Seq<(Seq<char>, JsonValue)>, names: Seq<Seq<char>>) -> Seq<
    (Seq<char>, JsonValue),
> {
    o.filter(keeps_key(names))
}

/// Holds of the entries whose key is not one of `names`.
pub open spec fn keeps_key(names: Seq<Seq<char>>) -> spec_fn((Seq<char>, JsonValue)) -> bool {
    |e: (Seq<char>, JsonValue)| !names.contains(e.0)
}

/// Whether `v` is a string that is one of `names`.
pub open spec fn is_listed_name(v: JsonValue, names: Seq<Seq<char>>) -> bool {
    match v {
        JsonValue::Str(s) => names.contains(s),
        _ => false,
    }
}

/// The items of `items` other than the strings that are one of `names`.
pub open spec fn drop_listed_names(items: Seq<JsonValue>, names: Seq<Seq<char>>) -> Seq<JsonValue> {
    items.filter(keeps_unlisted(names))
}

/// Holds of the values that are not a string among `names`.
pub open spec fn keeps_unlisted(names: Seq<Seq<char>>) -> spec_fn(JsonValue) -> bool {
    |x: JsonValue| !is_listed_name(x, names)
}

/// Whether `key` names a list of sub-schemas: `allOf`, `anyOf` or `oneOf`.
pub open spec fn is_composite_key(key: Seq<char>) -> bool {
    key == "allOf"@ || key == "anyOf"@ || key == "oneOf"@
}

/// One entry of a schema object with the fields `names` taken out of it, when
/// the entry is `properties` (an object) or `required` (an array); any other
/// entry is unchanged.
pub open spec fn strip_field_entry(key: Seq<char>, v: JsonValue, names: Seq<Seq<char>>) -> JsonValue {
    if key == "properties"@ {
        match v {
            JsonValue::Object(props) => JsonValue::Object(drop_keys(props, names)),
            _ => v,
        }
    } else if key == "required"@ {
        match v {
            JsonValue::Array(items) => JsonValue::Array(drop_listed_names(items, names)),
            _ => v,
        }
    } else {
        v
    }
}

/// A schema object with the fields `names` taken out of its `properties` and
/// its `required` list, and, in the same way, out of every object listed
/// under `allOf`, `anyOf` or `oneOf`, at any depth of such lists.
pub open spec fn strip_properties(o: Seq<(Seq<char>, JsonValue)>, names: Seq<Seq<char>>) -> Seq<
    (Seq<char>, JsonValue),
>
    decreases o,
{
    if o.len() == 0 {
        Seq::empty()
    } else {
        strip_properties(o.drop_last(), names).push(
            (o.last().0, strip_entry(o.last().0, o.last().1, names)),
        )
    }
}

/// One entry of a schema object, shaped as `strip_properties` shapes it.
pub open spec fn strip_entry(key: Seq<char>, v: JsonValue, names: Seq<Seq<char>>) -> JsonValue
    decreases v,
{
    if is_composite_key(key) {
        match v {
            JsonValue::Array(items) => JsonValue::Array(strip_members(items, names)),
            _ => v,
        }
    } else {
        strip_field_entry(key, v, names)
    }
}

/// The members of a list of sub-schemas, each object among them shaped as
/// `strip_properties` shapes it; other members unchanged.
pub open spec fn strip_members(items: Seq<JsonValue>, names: Seq<Seq<char>>) -> Seq<JsonValue>
    decreases items,
{
    if items.len() == 0 {
        Seq::empty()
    } else {
        strip_members(items.drop_last(), names).push(
            match items.last() {
                JsonValue::Object(o) => JsonValue::Object(strip_properties(o, names)),
                x => x,
            },
        )
    }
}

/// The suffix of `s` after its last `/`, or all of `s` when it has none.
pub open spec fn last_segment(s: Seq<char>) -> Seq<char>
    decreases s.len(),
{
    if s.len() == 0 {
        s
    } else if s.last() == '/' {
        Seq::empty()
    } else {
        last_segment(s.drop_last()).push(s.last())
    }
}

/// The string under `key` in `o`, if `o` has the key and its value is a string.
pub open spec fn string_at(o: Seq<(Seq<char>, JsonValue)>, key: Seq<char>) -> Option<Seq<char>> {
    match lookup(o, key) {
        Some(JsonValue::Str(s)) => Some(s),
        _ => None,
    }
}

/// The object under `key` in `o`, if `o` has the key and its value is an object.
pub open spec fn object_at(o: Seq<(Seq<char>, JsonValue)>, key: Seq<char>) -> Option<
    Seq<(Seq<char>, JsonValue)>,
> {
    match lookup(o, key) {
        Some(JsonValue::Object(x)) => Some(x),
        _ => None,
    }
}

/// The discriminator of an internally tagged variant: `properties.type.const`.
pub open spec fn tag_const(o: Seq<(Seq<char>, JsonValue)>) -> Option<Seq<char>> {
    match object_at(o, "properties"@) {
        Some(p) => match object_at(p, "type"@) {
            Some(t) => string_at(t, "const"@),
            None => None,
        },
        None => None,
    }
}

/// The name of an output variant: its `title`; else the last segment of its
/// `$ref`; else its tag `properties.type.const`; none for anything else.
pub open spec fn variant_name(v: JsonValue) -> Option<Seq<char>> {
    match v {
        JsonValue::Object(o) => if string_at(o, "title"@) is Some {
            string_at(o, "title"@)
        } else if string_at(o, "$ref"@) is Some {
            Some(last_segment(string_at(o, "$ref"@)->0))
        } else {
            tag_const(o)
        },
        _ => None,
    }
}

/// Whether `v` is a variant whose name is one of `names`.
pub open spec fn is_named_variant(v: JsonValue, names: Seq<Seq<char>>) -> bool {
    match variant_name(v) {
        Some(n) => names.contains(n),
        None => false,
    }
}

/// The members of a variant list other than the variants named in `names`.
pub open spec fn drop_variants(items: Seq<JsonValue>, names: Seq<Seq<char>>) -> Seq<JsonValue> {
    items.filter(keeps_variant(names))
}

/// Holds of the values that are not a variant named in `names`.
pub open spec fn keeps_variant(names: Seq<Seq<char>>) -> spec_fn(JsonValue) -> bool {
    |x: JsonValue| !is_named_variant(x, names)
}

/// Whether `key` names a list of variants: `oneOf` or `anyOf`.
pub open spec fn is_variant_list_key(key: Seq<char>) -> bool {
    key == "oneOf"@ || key == "anyOf"@
}

/// One entry of an output schema with the variants `names` taken out of it,
/// when it is a variant list; any other entry is unchanged.
pub open spec fn strip_variant_list_entry(key: Seq<char>, v: JsonValue, names: Seq<Seq<char>>) -> JsonValue {
    if is_variant_list_key(key) {
        match v {
            JsonValue::Array(items) => JsonValue::Array(drop_variants(items, names)),
            _ => v,
        }
    } else {
        v
    }
}

/// An output schema with the variants `names` taken out of its `oneOf` and
/// `anyOf` lists.
pub open spec fn strip_variant_lists(o: Seq<(Seq<char>, JsonValue)>, names: Seq<Seq<char>>) -> Seq<
    (Seq<char>, JsonValue),
> {
    o.map_values(|e: (Seq<char>, JsonValue)| (e.0, strip_variant_list_entry(e.0, e.1, names)))
}

/// The text of a reference to the definition `name`: `#/$defs/` and the name.
pub open spec fn def_ref(name: Seq<char>) -> Seq<char> {
    "#/$defs/"@ + name
}

/// Whether `v` holds, at any depth, an entry `$ref` whose value is the string `target`.
pub open spec fn refers_value(v: JsonValue, target: Seq<char>) -> bool
    decreases v,
{
    match v {
        JsonValue::Array(items) => refers_items(items, target),
        JsonValue::Object(entries) => refers_entries(entries, target),
        _ => false,
    }
}

/// Whether one of the values `items` refers to `target`, as `refers_value` says.
pub open spec fn refers_items(items: Seq<JsonValue>, target: Seq<char>) -> bool
    decreases items,
{
    if items.len() == 0 {
        false
    } else {
        refers_items(items.drop_last(), target) || refers_value(items.last(), target)
    }
}

/// Whether the entries `o` hold, at any depth, an entry `$ref` whose value is
/// the string `target`.
pub open spec fn refers_entries(o: Seq<(Seq<char>, JsonValue)>, target: Seq<char>) -> bool
    decreases o,
{
    if o.len() == 0 {
        false
    } else {
        ||| refers_entries(o.drop_last(), target)
        ||| (o.last().0 == "$ref"@ && o.last().1 == JsonValue::Str(target))
        ||| refers_value(o.last().1, target)
    }
}

/// Holds of the definitions that stay in `$defs`: those not named in `names`,
/// and those still referenced somewhere in `whole`.
pub open spec fn keeps_def(names: Seq<Seq<char>>, whole: Seq<(Seq<char>, JsonValue)>) -> spec_fn(
    (Seq<char>, JsonValue),
) -> bool {
    |e: (Seq<char>, JsonValue)| !names.contains(e.0) || refers_entries(whole, def_ref(e.0))
}

/// One entry of an output schema after pruning `$defs` against `whole`:
/// `$defs` loses the definitions named in `names` that `whole` no longer
/// references; any other entry is unchanged.
pub open spec fn prune_defs_entry(
    key: Seq<char>,
    v: JsonValue,
    names: Seq<Seq<char>>,
    whole: Seq<(Seq<char>, JsonValue)>,
) -> JsonValue {
    if key == "$defs"@ {
        match v {
            JsonValue::Object(defs) => JsonValue::Object(defs.filter(keeps_def(names, whole))),
            _ => v,
        }
    } else {
        v
    }
}

/// An output schema with the variants `names` taken out of `oneOf` and
/// `anyOf`, and then, out of `$defs`, the definitions of those variants that
/// nothing in the filtered schema references any more.
pub open spec fn strip_variants(o: Seq<(Seq<char>, JsonValue)>, names: Seq<Seq<char>>) -> Seq<
    (Seq<char>, JsonValue),
> {
    let lists = strip_variant_lists(o, names);
    lists.map_values(|e: (Seq<char>, JsonValue)| (e.0, prune_defs_entry(e.0, e.1, names, lists)))
}

// ---------------------------------------------------------------------------
// Shaping
// ---------------------------------------------------------------------------

/// The entries of `o` whose key is not one of `names`, copied.
fn remove_keys(o: &JsonObject, names: &[&str]) -> (r: JsonObject)
    ensures
        object_view(r) == drop_keys(object_view(*o), str_views(names@)),
{
    let ghost nv = str_views(names@);
    let mut out: JsonObject = Vec::new();
    let n = o.len();
    for i in 0..n
        invariant
            n == o@.len(),
            nv == str_views(names@),
            object_view(out) == drop_keys(view_entries(o@.take(i as int)), nv),
    {
        let ghost before = out@;
        proof {
            lemma_view_entries_step(o@, i as int);
            view_entries(o@.take(i as int)).lemma_filter_push((o@[i as int].0@, o@[i as int].1@), keeps_key(nv));
        }
        if !contains_str(names, o[i].0.as_str()) {
            let e = (o[i].0.clone(), o[i].1.clone());
            out.push(e);
            proof {
                lemma_view_entries_push(before, e);
            }
        }
    }
    assert(o@.take(n as int) =~= o@);
    out
}

fn is_listed_string(v: &Json, names: &[&str]) -> (r: bool)
    ensures
        r == is_listed_name(v@, str_views(names@)),
{
    match v {
        Json::Str(s) => contains_str(names, s.as_str()),
        _ => false,
    }
}

/// The items of `items` other than the strings that are one of `names`, copied.
fn remove_listed_names(items: &Vec<Json>, names: &[&str]) -> (r: Vec<Json>)
    ensures
        view_items(r@) == drop_listed_names(view_items(items@), str_views(names@)),
{
    let ghost nv = str_views(names@);
    let mut out: Vec<Json> = Vec::new();
    let n = items.len();
    for i in 0..n
        invariant
            n == items@.len(),
            nv == str_views(names@),
            view_items(out@) == drop_listed_names(view_items(items@.take(i as int)), nv),
    {
        let ghost before = out@;
        proof {
            lemma_view_items_step(items@, i as int);
            view_items(items@.take(i as int)).lemma_filter_push(items@[i as int]@, keeps_unlisted(nv));
        }
        if !is_listed_string(&items[i], names) {
            let x = items[i].clone();
            out.push(x);
            proof {
                lemma_view_items_push(before, x);
            }
        }
    }
    assert(items@.take(n as int) =~= items@);
    out
}

fn shape_field_entry(key: &String, v: &Json, names: &[&str]) -> (r: Json)
    ensures
        r@ == strip_field_entry(key@, v@, str_views(names@)),
{
    if key_is(key, "properties") {
        match v {
            Json::Object(props) => Json::Object(remove_keys(props, names)),
            _ => v.clone(),
        }
    } else if key_is(key, "required") {
        match v {
            Json::Array(items) => Json::Array(remove_listed_names(items, names)),
            _ => v.clone(),
        }
    } else {
        v.clone()
    }
}

fn is_composite(key: &String) -> (r: bool)
    ensures
        r == is_composite_key(key@),
{
    key_is(key, "allOf") || key_is(key, "anyOf") || key_is(key, "oneOf")
}

/// Takes the fields `names` out of the `properties` and `required` of a
/// schema object and of the objects listed under its `allOf`, `anyOf` and
/// `oneOf`, recursively.
pub(crate) fn remove_properties(o: &JsonObject, names: &[&str]) -> (r: JsonObject)
    ensures
        object_view(r) == strip_properties(object_view(*o), str_views(names@)),
    decreases o,
{
    let ghost nv = str_views(names@);
    let mut out: JsonObject = Vec::new();
    let n = o.len();
    for i in 0..n
        invariant
            n == o@.len(),
            nv == str_views(names@),
            object_view(out) == strip_properties(view_entries(o@.take(i as int)), nv),
    {
        let ghost before = out@;
        proof {
            lemma_view_entries_step(o@, i as int);
            assert(view_entries(o@.take(i + 1)).drop_last() =~= view_entries(o@.take(i as int)));
        }
        let e = (o[i].0.clone(), shape_entry(&o[i].0, &o[i].1, names));
        out.push(e);
        proof {
            lemma_view_entries_push(before, e);
        }
    }
    assert(o@.take(n as int) =~= o@);
    out
}

fn shape_entry(key: &String, v: &Json, names: &[&str]) -> (r: Json)
    ensures
        r@ == strip_entry(key@, v@, str_views(names@)),
    decreases v,
{
    if is_composite(key) {
        match v {
            Json::Array(items) => Json::Array(shape_members(items, names)),
            _ => v.clone(),
        }
    } else {
        shape_field_entry(key, v, names)
    }
}

fn shape_members(items: &Vec<Json>, names: &[&str]) -> (r: Vec<Json>)
    ensures
        view_items(r@) == strip_members(view_items(items@), str_views(names@)),
    decreases items,
{
    let ghost nv = str_views(names@);
    let mut out: Vec<Json> = Vec::new();
    let n = items.len();
    for i in 0..n
        invariant
            n == items@.len(),
            nv == str_views(names@),
            view_items(out@) == strip_members(view_items(items@.take(i as int)), nv),
    {
        let ghost before = out@;
        proof {
            lemma_view_items_step(items@, i as int);
            assert(view_items(items@.take(i + 1)).drop_last() =~= view_items(items@.take(i as int)));
        }
        let x = match &items[i] {
            Json::Object(member) => Json::Object(remove_properties(member, names)),
            other => other.clone(),
        };
        out.push(x);
        proof {
            lemma_view_items_push(before, x);
        }
    }
    assert(items@.take(n as int) =~= items@);
    out
}


/// The suffix of `s` after its last `/`, or all of `s` when it has none.
fn last_segment_of(s: &str) -> (r: String)
    ensures
        r@ == last_segment(s@),
{
    let n = s.unicode_len();
    let mut start: usize = 0;
    let mut i: usize = 0;
    while i < n
        invariant
            n == s@.len(),
            start <= i <= n,
            last_segment(s@.take(i as int)) == s@.subrange(start as int, i as int),
        decreases n - i,
    {
        assert(s@.take(i + 1).drop_last() =~= s@.take(i as int));
        let c = s.get_char(i);
        if c == '/' {
            start = i + 1;
            assert(s@.subrange(start as int, (i + 1) as int) =~= Seq::<char>::empty());
        } else {
            assert(s@.subrange(start as int, (i + 1) as int) =~= s@.subrange(start as int, i as int).push(c));
        }
        i = i + 1;
    }
    assert(s@.take(n as int) =~= s@);
    String::from_str(s.substring_char(start, n))
}

fn string_field<'a>(o: &'a JsonObject, key: &str) -> (r: Option<&'a String>)
    ensures
        match r {
            Some(x) => string_at(object_view(*o), key@) == Some(x@),
            None => string_at(object_view(*o), key@) is None,
        },
{
    match get(o, key) {
        Some(Json::Str(x)) => Some(x),
        _ => None,
    }
}

fn object_field<'a>(o: &'a JsonObject, key: &str) -> (r: Option<&'a JsonObject>)
    ensures
        match r {
            Some(x) => object_at(object_view(*o), key@) == Some(object_view(*x)),
            None => object_at(object_view(*o), key@) is None,
        },
{
    match get(o, key) {
        Some(Json::Object(x)) => Some(x),
        _ => None,
    }
}

/// The name of an output variant: its `title`, else the last segment of its
/// `$ref`, else its tag `properties.type.const`.
fn variant_name_of(v: &Json) -> (r: Option<String>)
    ensures
        match r {
            Some(n) => variant_name(v@) == Some(n@),
            None => variant_name(v@) is None,
        },
{
    let o = match v {
        Json::Object(o) => o,
        _ => {
            return None;
        },
    };
    if let Some(t) = string_field(o, "title") {
        return Some(t.clone());
    }
    if let Some(r) = string_field(o, "$ref") {
        return Some(last_segment_of(r.as_str()));
    }
    if let Some(props) = object_field(o, "properties") {
        if let Some(tag) = object_field(props, "type") {
            if let Some(c) = string_field(tag, "const") {
                return Some(c.clone());
            }
        }
    }
    None
}

fn is_named(v: &Json, names: &[&str]) -> (r: bool)
    ensures
        r == is_named_variant(v@, str_views(names@)),
{
    match variant_name_of(v) {
        Some(n) => contains_str(names, n.as_str()),
        None => false,
    }
}

/// The members of a variant list other than the variants named in `names`, copied.
fn remove_named_variants(items: &Vec<Json>, names: &[&str]) -> (r: Vec<Json>)
    ensures
        view_items(r@) == drop_variants(view_items(items@), str_views(names@)),
{
    let ghost nv = str_views(names@);
    let mut out: Vec<Json> = Vec::new();
    let n = items.len();
    for i in 0..n
        invariant
            n == items@.len(),
            nv == str_views(names@),
            view_items(out@) == drop_variants(view_items(items@.take(i as int)), nv),
    {
        let ghost before = out@;
        proof {
            lemma_view_items_step(items@, i as int);
            view_items(items@.take(i as int)).lemma_filter_push(items@[i as int]@, keeps_variant(nv));
        }
        if !is_named(&items[i], names) {
            let x = items[i].clone();
            out.push(x);
            proof {
                lemma_view_items_push(before, x);
            }
        }
    }
    assert(items@.take(n as int) =~= items@);
    out
}

fn is_variant_list(key: &String) -> (r: bool)
    ensures
        r == is_variant_list_key(key@),
{
    key_is(key, "oneOf") || key_is(key, "anyOf")
}

fn shape_variant_list_entry(key: &String, v: &Json, names: &[&str]) -> (r: Json)
    ensures
        r@ == strip_variant_list_entry(key@, v@, str_views(names@)),
{
    if is_variant_list(key) {
        match v {
            Json::Array(items) => Json::Array(remove_named_variants(items, names)),
            _ => v.clone(),
        }
    } else {
        v.clone()
    }
}

fn filter_variant_lists(o: &JsonObject, names: &[&str]) -> (r: JsonObject)
    ensures
        object_view(r) == strip_variant_lists(object_view(*o), str_views(names@)),
{
    let ghost nv = str_views(names@);
    let mut out: JsonObject = Vec::new();
    let n = o.len();
    for i in 0..n
        invariant
            n == o@.len(),
            nv == str_views(names@),
            object_view(out) == strip_variant_lists(view_entries(o@.take(i as int)), nv),
    {
        let ghost before = out@;
        proof {
            lemma_view_entries_step(o@, i as int);
        }
        let e = (o[i].0.clone(), shape_variant_list_entry(&o[i].0, &o[i].1, names));
        out.push(e);
        proof {
            lemma_view_entries_push(before, e);
        }
    }
    assert(o@.take(n as int) =~= o@);
    out
}

fn def_ref_of(name: &str) -> (r: String)
    ensures
        r@ == def_ref(name@),
{
    let mut t = String::from_str("#/$defs/");
    t.append(name);
    t
}

fn value_refers(v: &Json, target: &str) -> (r: bool)
    ensures
        r == refers_value(v@, target@),
    decreases v,
{
    match v {
        Json::Array(items) => items_refer(items, target),
        Json::Object(entries) => entries_refer(entries, target),
        _ => false,
    }
}

fn items_refer(items: &Vec<Json>, target: &str) -> (r: bool)
    ensures
        r == refers_items(view_items(items@), target@),
    decreases items,
{
    let n = items.len();
    for i in 0..n
        invariant
            n == items@.len(),
            !refers_items(view_items(items@.take(i as int)), target@),
    {
        proof {
            lemma_view_items_step(items@, i as int);
            assert(view_items(items@.take(i + 1)).drop_last() =~= view_items(items@.take(i as int)));
        }
        if value_refers(&items[i], target) {
            proof {
                lemma_refers_items_prefix(items@, target@, i + 1);
            }
            return true;
        }
    }
    assert(items@.take(n as int) =~= items@);
    false
}

/// Whether the entries `o` refer to `target`, as `refers_entries` says.
fn entries_refer(o: &JsonObject, target: &str) -> (r: bool)
    ensures
        r == refers_entries(object_view(*o), target@),
    decreases o,
{
    let n = o.len();
    for i in 0..n
        invariant
            n == o@.len(),
            !refers_entries(view_entries(o@.take(i as int)), target@),
    {
        proof {
            lemma_view_entries_step(o@, i as int);
            assert(view_entries(o@.take(i + 1)).drop_last() =~= view_entries(o@.take(i as int)));
        }
        let direct = key_is(&o[i].0, "$ref") && match &o[i].1 {
            Json::Str(x) => str_eq(x.as_str(), target),
            _ => false,
        };
        if direct || value_refers(&o[i].1, target) {
            proof {
                lemma_refers_entries_prefix(o@, target@, i + 1);
            }
            return true;
        }
    }
    assert(o@.take(n as int) =~= o@);
    false
}

proof fn lemma_refers_items_prefix(items: Seq<Json>, target: Seq<char>, j: int)
    requires
        0 <= j <= items.len(),
        refers_items(view_items(items.take(j)), target),
    ensures
        refers_items(view_items(items), target),
    decreases items.len(),
{
    if j < items.len() {
        let d = items.drop_last();
        assert(d.take(j) =~= items.take(j));
        lemma_refers_items_prefix(d, target, j);
        assert(view_items(items) == view_items(d).push(items.last()@));
        assert(view_items(items).drop_last() =~= view_items(d));
    } else {
        assert(items.take(j) =~= items);
    }
}

proof fn lemma_refers_entries_prefix(o: Seq<(String, Json)>, target: Seq<char>, j: int)
    requires
        0 <= j <= o.len(),
        refers_entries(view_entries(o.take(j)), target),
    ensures
        refers_entries(view_entries(o), target),
    decreases o.len(),
{
    if j < o.len() {
        let d = o.drop_last();
        assert(d.take(j) =~= o.take(j));
        lemma_refers_entries_prefix(d, target, j);
        assert(view_entries(o) == view_entries(d).push((o.last().0@, o.last().1@)));
        assert(view_entries(o).drop_last() =~= view_entries(d));
    } else {
        assert(o.take(j) =~= o);
    }
}

/// The definitions of `defs` that stay: those not named in `names`, and those
/// that `whole` still references.
fn prune_defs(defs: &JsonObject, names: &[&str], whole: &JsonObject) -> (r: JsonObject)
    ensures
        object_view(r) == object_view(*defs).filter(keeps_def(str_views(names@), object_view(*whole))),
{
    let ghost p = keeps_def(str_views(names@), object_view(*whole));
    let mut out: JsonObject = Vec::new();
    let n = defs.len();
    for i in 0..n
        invariant
            n == defs@.len(),
            p == keeps_def(str_views(names@), object_view(*whole)),
            object_view(out) == view_entries(defs@.take(i as int)).filter(p),
    {
        let ghost before = out@;
        proof {
            lemma_view_entries_step(defs@, i as int);
            view_entries(defs@.take(i as int)).lemma_filter_push((defs@[i as int].0@, defs@[i as int].1@), p);
        }
        let keep = !contains_str(names, defs[i].0.as_str()) || entries_refer(whole, def_ref_of(defs[i].0.as_str()).as_str());
        if keep {
            let e = (defs[i].0.clone(), defs[i].1.clone());
            out.push(e);
            proof {
                lemma_view_entries_push(before, e);
            }
        }
    }
    assert(defs@.take(n as int) =~= defs@);
    out
}

/// Takes the variants `names` out of the `oneOf` and `anyOf` lists of an
/// output schema, and then, out of its `$defs`, the definitions of those
/// variants that the filtered schema no longer references.
pub(crate) fn remove_variants(o: &JsonObject, names: &[&str]) -> (r: JsonObject)
    ensures
        object_view(r) == strip_variants(object_view(*o), str_views(names@)),
{
    let ghost nv = str_views(names@);
    let lists = filter_variant_lists(o, names);
    let ghost lv = object_view(lists);
    let mut out: JsonObject = Vec::new();
    let n = lists.len();
    for i in 0..n
        invariant
            n == lists@.len(),
            nv == str_views(names@),
            lv == object_view(lists),
            object_view(out) == view_entries(lists@.take(i as int)).map_values(
                |e: (Seq<char>, JsonValue)| (e.0, prune_defs_entry(e.0, e.1, nv, lv)),
            ),
    {
        let ghost before = out@;
        proof {
            lemma_view_entries_step(lists@, i as int);
        }
        let v = if key_is(&lists[i].0, "$defs") {
            match &lists[i].1 {
                Json::Object(defs) => Json::Object(prune_defs(defs, names, &lists)),
                other => other.clone(),
            }
        } else {
            lists[i].1.clone()
        };
        let e = (lists[i].0.clone(), v);
        out.push(e);
        proof {
            lemma_view_entries_push(before, e);
        }
    }
    assert(lists@.take(n as int) =~= lists@);
    out
}

// ---------------------------------------------------------------------------
// Requirements
// ---------------------------------------------------------------------------

/// The targets (field or variant names) of the requirements `reqs` whose
/// capability is not in `auth`, in the order of `reqs`.
pub open spec fn unmet_targets(reqs: Seq<(&str, &str)>, auth: Set<Seq<char>>) -> Seq<Seq<char>>
    decreases reqs.len(),
{
    if reqs.len() == 0 {
        Seq::empty()
    } else {
        let rest = unmet_targets(reqs.drop_last(), auth);
        if auth.contains(reqs.last().1@) {
            rest
        } else {
            rest.push(reqs.last().0@)
        }
    }
}

/// The targets of the requirements whose capability `auth` lacks.
pub fn unmet_targets_of<'a>(reqs: &[(&'a str, &str)], auth: &AuthContext) -> (r: Vec<&'a str>)
    ensures
        str_views(r@) == unmet_targets(reqs@, auth@),
{
    let mut out: Vec<&'a str> = Vec::new();
    let n = reqs.len();
    for i in 0..n
        invariant
            n == reqs@.len(),
            str_views(out@) == unmet_targets(reqs@.take(i as int), auth@),
    {
        assert(reqs@.take(i + 1).drop_last() =~= reqs@.take(i as int));
        let (target, cap) = reqs[i];
        if !auth.has(cap) {
            let ghost before = out@;
            out.push(target);
            assert(str_views(out@) =~= str_views(before).push(target@));
        }
    }
    assert(reqs@.take(n as int) =~= reqs@);
    out
}

pub proof fn lemma_unmet_targets_contains(reqs: Seq<(&str, &str)>, auth: Set<Seq<char>>, name: Seq<char>)
    ensures
        unmet_targets(reqs, auth).contains(name) <==> gated_out(reqs, auth, name),
    decreases reqs.len(),
{
    if reqs.len() > 0 {
        let d = reqs.drop_last();
        lemma_unmet_targets_contains(d, auth, name);
        if unmet_targets(reqs, auth).contains(name) {
            if unmet_targets(d, auth).contains(name) {
                let i = choose|i: int| 0 <= i < d.len() && (#[trigger] d[i]).0@ == name && !auth.contains(d[i].1@);
                assert(reqs[i] == d[i]);
            } else {
                assert(reqs[reqs.len() - 1].0@ == name);
            }
        }
        if gated_out(reqs, auth, name) {
            let i = choose|i: int| 0 <= i < reqs.len() && (#[trigger] reqs[i]).0@ == name && !auth.contains(reqs[i].1@);
            if i < reqs.len() - 1 {
                assert(d[i] == reqs[i]);
            } else {
                let u = unmet_targets(d, auth);
                assert(u.push(name)[u.len() as int] == name);
            }
        }
    }
}

/// When `auth` holds the capability of every requirement, no target is unmet.
pub proof fn lemma_unmet_targets_empty(reqs: Seq<(&str, &str)>, auth: Set<Seq<char>>)
    requires
        forall|i: int| 0 <= i < reqs.len() ==> auth.contains(#[trigger] reqs[i].1@),
    ensures
        unmet_targets(reqs, auth) == Seq::<Seq<char>>::empty(),
    decreases reqs.len(),
{
    if reqs.len() > 0 {
        let d = reqs.drop_last();
        assert forall|i: int| 0 <= i < d.len() implies auth.contains(#[trigger] d[i].1@) by {
            assert(d[i] == reqs[i]);
        }
        lemma_unmet_targets_empty(d, auth);
        assert(auth.contains(reqs[reqs.len() - 1].1@));
    }
}

// ---------------------------------------------------------------------------
// Shaping with nothing to take out
// ---------------------------------------------------------------------------

pub(crate) proof fn lemma_filter_keeps_all<A>(s: Seq<A>, p: spec_fn(A) -> bool)
    requires
        forall|i: int| 0 <= i < s.len() ==> p(#[trigger] s[i]),
    ensures
        s.filter(p) == s,
    decreases s.len(),
{
    if s.len() > 0 {
        let d = s.drop_last();
        assert forall|i: int| 0 <= i < d.len() implies p(#[trigger] d[i]) by {
            assert(d[i] == s[i]);
        }
        lemma_filter_keeps_all(d, p);
        d.lemma_filter_push(s.last(), p);
        assert(d.push(s.last()) =~= s);
    }
}

pub(crate) proof fn lemma_drop_keys_none(o: Seq<(Seq<char>, JsonValue)>)
    ensures
        drop_keys(o, Seq::empty()) == o,
{
    lemma_filter_keeps_all(o, keeps_key(Seq::empty()));
}

pub(crate) proof fn lemma_drop_listed_names_none(items: Seq<JsonValue>)
    ensures
        drop_listed_names(items, Seq::empty()) == items,
{
    lemma_filter_keeps_all(items, keeps_unlisted(Seq::empty()));
}

pub(crate) proof fn lemma_drop_variants_none(items: Seq<JsonValue>)
    ensures
        drop_variants(items, Seq::empty()) == items,
{
    lemma_filter_keeps_all(items, keeps_variant(Seq::empty()));
}

/// Taking out no field leaves a schema as it was.
pub proof fn lemma_strip_properties_none(o: Seq<(Seq<char>, JsonValue)>)
    ensures
        strip_properties(o, Seq::empty()) == o,
    decreases o,
{
    if o.len() > 0 {
        lemma_strip_properties_none(o.drop_last());
        lemma_strip_entry_none(o.last().0, o.last().1);
        assert(o.drop_last().push(o.last()) =~= o);
    }
}

proof fn lemma_strip_entry_none(key: Seq<char>, v: JsonValue)
    ensures
        strip_entry(key, v, Seq::empty()) == v,
    decreases v,
{
    if is_composite_key(key) {
        if let JsonValue::Array(items) = v {
            lemma_strip_members_none(items);
        }
    } else {
        match v {
            JsonValue::Object(props) => lemma_drop_keys_none(props),
            JsonValue::Array(items) => lemma_drop_listed_names_none(items),
            _ => {},
        }
    }
}

proof fn lemma_strip_members_none(items: Seq<JsonValue>)
    ensures
        strip_members(items, Seq::empty()) == items,
    decreases items,
{
    if items.len() > 0 {
        lemma_strip_members_none(items.drop_last());
        if let JsonValue::Object(o) = items.last() {
            lemma_strip_properties_none(o);
        }
        assert(items.drop_last().push(items.last()) =~= items);
    }
}

/// Taking out no variant leaves an output schema as it was.
pub proof fn lemma_strip_variants_none(o: Seq<(Seq<char>, JsonValue)>)
    ensures
        strip_variants(o, Seq::empty()) == o,
{
    let lists = strip_variant_lists(o, Seq::empty());
    assert forall|i: int| 0 <= i < o.len() implies #[trigger] lists[i] == o[i] by {
        if let JsonValue::Array(items) = o[i].1 {
            lemma_drop_variants_none(items);
        }
    }
    assert(lists =~= o);
    assert forall|i: int| 0 <= i < o.len() implies #[trigger] strip_variants(o, Seq::empty())[i]
        == o[i] by {
        if let JsonValue::Object(defs) = o[i].1 {
            lemma_filter_keeps_all(defs, keeps_def(Seq::empty(), lists));
        }
    }
    assert(strip_variants(o, Seq::empty()) =~= o);
}

// ---------------------------------------------------------------------------
// The shaper
// ---------------------------------------------------------------------------

/// Shapes JSON Schemas per request by taking out the fields or variants whose
/// capability the caller lacks.
///
/// The full schema is generated once (from the type, by `schemars`); the
/// shaper filters it against the caller's [`AuthContext`].
pub struct SchemaShaper;

impl SchemaShaper {
    /// Shapes an input schema: the fields whose requirement `auth` does not
    /// meet are taken out of `properties` and `required`, here and in the
    /// objects listed under `allOf`, `anyOf` and `oneOf`. When every
    /// requirement is met, the full schema is handed back as it came.
    pub fn shape_input(full_schema: JsonObject, requirements: &[(&str, &str)], auth: &AuthContext) -> (r: JsonObject)
        ensures
            object_view(r) == strip_properties(object_view(full_schema), unmet_targets(requirements@, auth@)),
    {
        let fields = unmet_targets_of(requirements, auth);
        if fields.len() == 0 {
            proof {
                assert(str_views(fields@) =~= Seq::<Seq<char>>::empty());
                lemma_strip_properties_none(object_view(full_schema));
            }
            return full_schema;
        }
        remove_properties(&full_schema, fields.as_slice())
    }

    /// Shapes an output schema: the variants whose requirement `auth` does
    /// not meet are taken out of `oneOf` and `anyOf`, and their definitions
    /// out of `$defs`. When every requirement is met, the full schema is
    /// handed back as it came.
    pub fn shape_output(full_schema: JsonObject, requirements: &[(&str, &str)], auth: &AuthContext) -> (r: JsonObject)
        ensures
            object_view(r) == strip_variants(object_view(full_schema), unmet_targets(requirements@, auth@)),
    {
        let variants = unmet_targets_of(requirements, auth);
        if variants.len() == 0 {
            proof {
                assert(str_views(variants@) =~= Seq::<Seq<char>>::empty());
                lemma_strip_variants_none(object_view(full_schema));
            }
            return full_schema;
        }
        remove_variants(&full_schema, variants.as_slice())
    }
}


// ---------------------------------------------------------------------------
// Laws
// ---------------------------------------------------------------------------

/// Whether `o` has an entry with key `k`.
pub open spec fn has_key(o: Seq<(Seq<char>, JsonValue)>, k: Seq<char>) -> bool {
    exists|j: int| 0 <= j < o.len() && (#[trigger] o[j]).0 == k
}

/// The entries of `v` when it is an object; none otherwise.
pub open spec fn entries_of(v: JsonValue) -> Seq<(Seq<char>, JsonValue)> {
    match v {
        JsonValue::Object(e) => e,
        _ => Seq::empty(),
    }
}

/// The items of `v` when it is an array; none otherwise.
pub open spec fn items_of(v: JsonValue) -> Seq<JsonValue> {
    match v {
        JsonValue::Array(a) => a,
        _ => Seq::empty(),
    }
}

/// Whether some requirement of `reqs` on `target` is for a capability that
/// `auth` does not hold.
pub open spec fn gated_out(reqs: Seq<(&str, &str)>, auth: Set<Seq<char>>, target: Seq<char>) -> bool {
    exists|r: int| 0 <= r < reqs.len() && (#[trigger] reqs[r]).0@ == target && !auth.contains(reqs[r].1@)
}

/// Whether `x` is a string naming a target that `reqs` gates out for `auth`.
pub open spec fn names_gated_out(reqs: Seq<(&str, &str)>, auth: Set<Seq<char>>, x: JsonValue) -> bool {
    match x {
        JsonValue::Str(s) => gated_out(reqs, auth, s),
        _ => false,
    }
}

/// Whether `x` is a variant whose name `reqs` gates out for `auth`.
pub open spec fn variant_gated_out(reqs: Seq<(&str, &str)>, auth: Set<Seq<char>>, x: JsonValue) -> bool {
    match variant_name(x) {
        Some(n) => gated_out(reqs, auth, n),
        None => false,
    }
}

/// A key survives `drop_keys` exactly when it was there and is not one of `names`.
pub proof fn lemma_drop_keys_has_key(o: Seq<(Seq<char>, JsonValue)>, names: Seq<Seq<char>>, k: Seq<char>)
    ensures
        has_key(drop_keys(o, names), k) <==> has_key(o, k) && !names.contains(k),
{
    let f = drop_keys(o, names);
    if has_key(f, k) {
        let j = choose|j: int| 0 <= j < f.len() && (#[trigger] f[j]).0 == k;
        o.lemma_filter_pred(keeps_key(names), j);
        assert(f.contains(f[j]));
        o.lemma_filter_contains_rev(keeps_key(names), f[j]);
        let m = choose|m: int| 0 <= m < o.len() && o[m] == f[j];
        assert(o[m].0 == k);
    }
    if has_key(o, k) && !names.contains(k) {
        let j = choose|j: int| 0 <= j < o.len() && (#[trigger] o[j]).0 == k;
        o.lemma_filter_contains(keeps_key(names), j);
        let m = choose|m: int| 0 <= m < f.len() && f[m] == o[j];
        assert(f[m].0 == k);
    }
}

/// A value survives a filter exactly when it was there and the predicate holds of it.
pub proof fn lemma_filter_member<A>(s: Seq<A>, p: spec_fn(A) -> bool, x: A)
    ensures
        s.filter(p).contains(x) <==> s.contains(x) && p(x),
{
    let f = s.filter(p);
    if f.contains(x) {
        s.lemma_filter_contains_rev(p, x);
        let j = choose|j: int| 0 <= j < f.len() && f[j] == x;
        s.lemma_filter_pred(p, j);
    }
    if s.contains(x) && p(x) {
        let j = choose|j: int| 0 <= j < s.len() && s[j] == x;
        s.lemma_filter_contains(p, j);
    }
}

/// The entries of a shaped schema correspond, one for one, to those of the
/// full schema.
pub proof fn lemma_strip_properties_index(o: Seq<(Seq<char>, JsonValue)>, names: Seq<Seq<char>>)
    ensures
        strip_properties(o, names).len() == o.len(),
        forall|i: int|
            0 <= i < o.len() ==> #[trigger] strip_properties(o, names)[i] == (
                o[i].0,
                strip_entry(o[i].0, o[i].1, names),
            ),
    decreases o.len(),
{
    if o.len() > 0 {
        let d = o.drop_last();
        lemma_strip_properties_index(d, names);
        assert forall|i: int| 0 <= i < o.len() implies #[trigger] strip_properties(o, names)[i] == (
            o[i].0,
            strip_entry(o[i].0, o[i].1, names),
        ) by {
            if i < o.len() - 1 {
                assert(d[i] == o[i]);
            }
        }
    }
}

/// Shaping an input schema: the top-level `properties` object keeps a field
/// exactly when the full schema has it and no requirement on it is unmet,
/// and the top-level `required` list keeps an item exactly when it was
/// there and is not the name of such a field.
pub proof fn lemma_shape_input_hides_gated_fields(
    o: Seq<(Seq<char>, JsonValue)>,
    reqs: Seq<(&str, &str)>,
    auth: Set<Seq<char>>,
    i: int,
    k: Seq<char>,
    x: JsonValue,
)
    requires
        0 <= i < o.len(),
    ensures
        strip_properties(o, unmet_targets(reqs, auth)).len() == o.len(),
        strip_properties(o, unmet_targets(reqs, auth))[i].0 == o[i].0,
        o[i].0 == "properties"@ && o[i].1 is Object ==> strip_properties(o, unmet_targets(reqs, auth))[i].1 is Object,
        o[i].0 == "properties"@ && o[i].1 is Object ==> (has_key(
            entries_of(strip_properties(o, unmet_targets(reqs, auth))[i].1),
            k,
        ) <==> has_key(entries_of(o[i].1), k) && !gated_out(reqs, auth, k)),
        o[i].0 == "required"@ && o[i].1 is Array ==> strip_properties(o, unmet_targets(reqs, auth))[i].1 is Array,
        o[i].0 == "required"@ && o[i].1 is Array ==> (items_of(
            strip_properties(o, unmet_targets(reqs, auth))[i].1,
        ).contains(x) <==> items_of(o[i].1).contains(x) && !names_gated_out(reqs, auth, x)),
{
    let u = unmet_targets(reqs, auth);
    reveal_strlit("properties");
    reveal_strlit("required");
    reveal_strlit("allOf");
    reveal_strlit("anyOf");
    reveal_strlit("oneOf");
    lemma_strip_properties_index(o, u);
    lemma_unmet_targets_contains(reqs, auth, k);
    let r = strip_properties(o, u);
    if o[i].0 == "properties"@ && o[i].1 is Object {
        let props = entries_of(o[i].1);
        assert("properties"@.len() == 10);
        assert(!is_composite_key("properties"@));
        assert(strip_entry("properties"@, o[i].1, u) == strip_field_entry("properties"@, o[i].1, u));
        assert(r[i].1 == JsonValue::Object(drop_keys(props, u)));
        lemma_drop_keys_has_key(props, u, k);
    }
    if o[i].0 == "required"@ && o[i].1 is Array {
        let items = items_of(o[i].1);
        assert("required"@.len() == 8);
        assert(!is_composite_key("required"@));
        assert(strip_entry("required"@, o[i].1, u) == strip_field_entry("required"@, o[i].1, u));
        assert(r[i].1 == JsonValue::Array(drop_listed_names(items, u)));
        lemma_filter_member(items, keeps_unlisted(u), x);
        if let JsonValue::Str(sx) = x {
            lemma_unmet_targets_contains(reqs, auth, sx);
        }
    }
}

/// A definition survives pruning exactly when it was there and either its
/// name is not one of `names` or `whole` still references it.
pub proof fn lemma_prune_defs_has_key(
    defs: Seq<(Seq<char>, JsonValue)>,
    names: Seq<Seq<char>>,
    whole: Seq<(Seq<char>, JsonValue)>,
    k: Seq<char>,
)
    ensures
        has_key(defs.filter(keeps_def(names, whole)), k) <==> has_key(defs, k) && (!names.contains(k)
            || refers_entries(whole, def_ref(k))),
{
    let p = keeps_def(names, whole);
    let f = defs.filter(p);
    if has_key(f, k) {
        let j = choose|j: int| 0 <= j < f.len() && (#[trigger] f[j]).0 == k;
        defs.lemma_filter_pred(p, j);
        assert(f.contains(f[j]));
        defs.lemma_filter_contains_rev(p, f[j]);
        let m = choose|m: int| 0 <= m < defs.len() && defs[m] == f[j];
        assert(defs[m].0 == k);
    }
    if has_key(defs, k) && (!names.contains(k) || refers_entries(whole, def_ref(k))) {
        let j = choose|j: int| 0 <= j < defs.len() && (#[trigger] defs[j]).0 == k;
        defs.lemma_filter_contains(p, j);
        let m = choose|m: int| 0 <= m < f.len() && f[m] == defs[j];
        assert(f[m].0 == k);
    }
}

/// Shaping an output schema: a `oneOf` or `anyOf` list keeps a member exactly
/// when it was there and is not a variant whose name is gated out; `$defs`
/// keeps a definition exactly when it was there and either its name is not
/// gated out or the schema, with its variant lists filtered, still
/// references it.
pub proof fn lemma_shape_output_hides_gated_variants(
    o: Seq<(Seq<char>, JsonValue)>,
    reqs: Seq<(&str, &str)>,
    auth: Set<Seq<char>>,
    i: int,
    k: Seq<char>,
    x: JsonValue,
)
    requires
        0 <= i < o.len(),
    ensures
        strip_variants(o, unmet_targets(reqs, auth)).len() == o.len(),
        strip_variants(o, unmet_targets(reqs, auth))[i].0 == o[i].0,
        is_variant_list_key(o[i].0) && o[i].1 is Array ==> strip_variants(o, unmet_targets(reqs, auth))[i].1 is Array,
        is_variant_list_key(o[i].0) && o[i].1 is Array ==> (items_of(
            strip_variants(o, unmet_targets(reqs, auth))[i].1,
        ).contains(x) <==> items_of(o[i].1).contains(x) && !variant_gated_out(reqs, auth, x)),
        o[i].0 == "$defs"@ && o[i].1 is Object ==> strip_variants(o, unmet_targets(reqs, auth))[i].1 is Object,
        o[i].0 == "$defs"@ && o[i].1 is Object ==> (has_key(
            entries_of(strip_variants(o, unmet_targets(reqs, auth))[i].1),
            k,
        ) <==> has_key(entries_of(o[i].1), k) && (!gated_out(reqs, auth, k) || refers_entries(
            strip_variant_lists(o, unmet_targets(reqs, auth)),
            def_ref(k),
        ))),
{
    let u = unmet_targets(reqs, auth);
    reveal_strlit("$defs");
    reveal_strlit("anyOf");
    reveal_strlit("oneOf");
    lemma_unmet_targets_contains(reqs, auth, k);
    let lists = strip_variant_lists(o, u);
    let r = strip_variants(o, u);
    assert("$defs"@ != "oneOf"@ && "$defs"@ != "anyOf"@) by {
        assert("$defs"@[0] == '$');
        assert("oneOf"@[0] == 'o');
        assert("anyOf"@[0] == 'a');
    }
    if o[i].0 == "$defs"@ && o[i].1 is Object {
        let defs = entries_of(o[i].1);
        assert(lists[i].1 == o[i].1);
        assert(r[i].1 == JsonValue::Object(defs.filter(keeps_def(u, lists))));
        lemma_prune_defs_has_key(defs, u, lists, k);
    }
    if is_variant_list_key(o[i].0) && o[i].1 is Array {
        let items = items_of(o[i].1);
        assert(lists[i].1 == JsonValue::Array(drop_variants(items, u)));
        assert(r[i].1 == lists[i].1);
        lemma_filter_member(items, keeps_variant(u), x);
        if let Some(n) = variant_name(x) {
            lemma_unmet_targets_contains(reqs, auth, n);
        }
    }
}

/// When the caller meets every requirement, shaping hands back the full
/// input and output schemas unchanged.
pub proof fn lemma_full_authorization_keeps_schemas(
    o: Seq<(Seq<char>, JsonValue)>,
    reqs: Seq<(&str, &str)>,
    auth: Set<Seq<char>>,
)
    requires
        forall|i: int| 0 <= i < reqs.len() ==> auth.contains(#[trigger] reqs[i].1@),
    ensures
        strip_properties(o, unmet_targets(reqs, auth)) == o,
        strip_variants(o, unmet_targets(reqs, auth)) == o,
{
    lemma_unmet_targets_empty(reqs, auth);
    lemma_strip_properties_none(o);
    lemma_strip_variants_none(o);
}


/// Filtering by `p` and then by `q` is filtering by `r`, where `r` holds
/// exactly where both do.
pub proof fn lemma_filter_filter<A>(s: Seq<A>, p: spec_fn(A) -> bool, q: spec_fn(A) -> bool, r: spec_fn(A) -> bool)
    requires
        forall|x: A| #[trigger] r(x) == (p(x) && q(x)),
    ensures
        s.filter(p).filter(q) == s.filter(r),
    decreases s.len(),
{
    if s.len() > 0 {
        let d = s.drop_last();
        let x = s.last();
        assert(d.push(x) =~= s);
        lemma_filter_filter(d, p, q, r);
        d.lemma_filter_push(x, p);
        d.lemma_filter_push(x, r);
        if p(x) {
            d.filter(p).lemma_filter_push(x, q);
        }
    }
}

/// Whether `g` holds exactly the names of `f1` and of `f2`.
pub open spec fn names_union(f1: Seq<Seq<char>>, f2: Seq<Seq<char>>, g: Seq<Seq<char>>) -> bool {
    forall|k: Seq<char>| #[trigger] g.contains(k) == (f1.contains(k) || f2.contains(k))
}

/// `f1 + f2` holds exactly the names of `f1` and of `f2`.
pub proof fn lemma_names_union_concat(f1: Seq<Seq<char>>, f2: Seq<Seq<char>>)
    ensures
        names_union(f1, f2, f1 + f2),
{
    assert forall|k: Seq<char>| #[trigger] (f1 + f2).contains(k) == (f1.contains(k) || f2.contains(k)) by {
        if (f1 + f2).contains(k) {
            let j = choose|j: int| 0 <= j < (f1 + f2).len() && (f1 + f2)[j] == k;
            if j < f1.len() {
                assert(f1[j] == k);
            } else {
                assert(f2[j - f1.len()] == k);
            }
        }
        if f1.contains(k) {
            let j = choose|j: int| 0 <= j < f1.len() && f1[j] == k;
            assert((f1 + f2)[j] == k);
        }
        if f2.contains(k) {
            let j = choose|j: int| 0 <= j < f2.len() && f2[j] == k;
            assert((f1 + f2)[f1.len() + j] == k);
        }
    }
}

/// Taking out the fields `f1` and then the fields `f2` is taking out, at
/// once, any list `g` of exactly their names.
pub proof fn lemma_strip_properties_compose_union(
    o: Seq<(Seq<char>, JsonValue)>,
    f1: Seq<Seq<char>>,
    f2: Seq<Seq<char>>,
    g: Seq<Seq<char>>,
)
    requires
        names_union(f1, f2, g),
    ensures
        strip_properties(strip_properties(o, f1), f2) == strip_properties(o, g),
    decreases o,
{
    if o.len() > 0 {
        let d = o.drop_last();
        lemma_strip_properties_compose_union(d, f1, f2, g);
        lemma_strip_entry_compose(o.last().0, o.last().1, f1, f2, g);
        assert(strip_properties(o, f1).drop_last() =~= strip_properties(d, f1));
    }
}

proof fn lemma_strip_entry_compose(
    key: Seq<char>,
    v: JsonValue,
    f1: Seq<Seq<char>>,
    f2: Seq<Seq<char>>,
    g: Seq<Seq<char>>,
)
    requires
        names_union(f1, f2, g),
    ensures
        strip_entry(key, strip_entry(key, v, f1), f2) == strip_entry(key, v, g),
    decreases v,
{
    if is_composite_key(key) {
        if let JsonValue::Array(items) = v {
            lemma_strip_members_compose(items, f1, f2, g);
        }
    } else if key == "properties"@ {
        if let JsonValue::Object(props) = v {
            assert forall|e: (Seq<char>, JsonValue)| #[trigger] keeps_key(g)(e) == (keeps_key(f1)(e) && keeps_key(f2)(e)) by {
                assert(g.contains(e.0) == (f1.contains(e.0) || f2.contains(e.0)));
            }
            lemma_filter_filter(props, keeps_key(f1), keeps_key(f2), keeps_key(g));
        }
    } else if key == "required"@ {
        if let JsonValue::Array(items) = v {
            assert forall|x: JsonValue| #[trigger] keeps_unlisted(g)(x) == (keeps_unlisted(f1)(x) && keeps_unlisted(f2)(x)) by {
                if let JsonValue::Str(n) = x {
                    assert(g.contains(n) == (f1.contains(n) || f2.contains(n)));
                }
            }
            lemma_filter_filter(items, keeps_unlisted(f1), keeps_unlisted(f2), keeps_unlisted(g));
        }
    }
}

proof fn lemma_strip_members_compose(
    items: Seq<JsonValue>,
    f1: Seq<Seq<char>>,
    f2: Seq<Seq<char>>,
    g: Seq<Seq<char>>,
)
    requires
        names_union(f1, f2, g),
    ensures
        strip_members(strip_members(items, f1), f2) == strip_members(items, g),
    decreases items,
{
    if items.len() > 0 {
        let d = items.drop_last();
        lemma_strip_members_compose(d, f1, f2, g);
        if let JsonValue::Object(o) = items.last() {
            lemma_strip_properties_compose_union(o, f1, f2, g);
        }
        assert(strip_members(items, f1).drop_last() =~= strip_members(d, f1));
    }
}

/// Taking fields out of a schema twice in a row is taking the union of the
/// two lists out once; in particular, shaping by the same list twice is
/// shaping by it once.
pub proof fn lemma_strip_properties_compose(o: Seq<(Seq<char>, JsonValue)>, f1: Seq<Seq<char>>, f2: Seq<Seq<char>>)
    ensures
        strip_properties(strip_properties(o, f1), f2) == strip_properties(o, f1 + f2),
        strip_properties(strip_properties(o, f1), f1) == strip_properties(o, f1),
{
    lemma_names_union_concat(f1, f2);
    lemma_strip_properties_compose_union(o, f1, f2, f1 + f2);
    assert(names_union(f1, f1, f1));
    lemma_strip_properties_compose_union(o, f1, f1, f1);
}

}
