//! A JSON document model and loose accessors over it: a missing key or an unexpected type
//! reads as `None` rather than as an error.
use vstd::prelude::*;
use vstd::string::*;

verus! {

broadcast use vstd::std_specs::vec::axiom_vec_index_decreases;

/// The mathematical view of a JSON value. Objects keep their entries in document order;
/// numbers are kept as their JSON text.
#[verifier::ext_equal]
pub enum Json {
    Null,
    Bool(bool),
    Number(Seq<char>),
    Text(Seq<char>),
    Array(Seq<Json>),
    Object(Seq<(Seq<char>, Json)>),
}

/// A JSON value. Objects keep their entries in document order; numbers keep their JSON text.
#[derive(Debug, PartialEq)]
pub enum JsonValue {
    Null,
    Bool(bool),
    Number(String),
    Text(String),
    Array(Vec<JsonValue>),
    Object(Vec<(String, JsonValue)>),
}

/// The view of a JSON value.
pub open spec fn json_view(v: JsonValue) -> Json
    decreases v,
{
    match v {
        JsonValue::Null => Json::Null,
        JsonValue::Bool(b) => Json::Bool(b),
        JsonValue::Number(n) => Json::Number(n@),
        JsonValue::Text(s) => Json::Text(s@),
        JsonValue::Array(items) => Json::Array(
            Seq::new(
                items@.len(),
                |i: int|
                    if 0 <= i < items@.len() {
                        json_view(items@[i])
                    } else {
                        Json::Null
                    },
            ),
        ),
        JsonValue::Object(entries) => Json::Object(
            Seq::new(
                entries@.len(),
                |i: int|
                    if 0 <= i < entries@.len() {
                        (entries@[i].0@, json_view(entries@[i].1))
                    } else {
                        (Seq::empty(), Json::Null)
                    },
            ),
        ),
    }
}

impl View for JsonValue {
    type V = Json;

    open spec fn view(&self) -> Json {
        json_view(*self)
    }
}

/// The view of a list of values.
pub open spec fn items_view(items: Seq<JsonValue>) -> Seq<Json> {
    Seq::new(items.len(), |i: int| json_view(items[i]))
}

/// The view of a list of object entries.
pub open spec fn entries_view(entries: Seq<(String, JsonValue)>) -> Seq<(Seq<char>, Json)> {
    Seq::new(entries.len(), |i: int| (entries[i].0@, json_view(entries[i].1)))
}

/// An array's view is the view of its items.
pub proof fn lemma_array_view(items: Vec<JsonValue>)
    ensures
        json_view(JsonValue::Array(items)) == Json::Array(items_view(items@)),
{
    if let Json::Array(a) = json_view(JsonValue::Array(items)) {
        assert(a =~= items_view(items@));
    }
}

/// An object's view is the view of its entries.
pub proof fn lemma_object_view(entries: Vec<(String, JsonValue)>)
    ensures
        json_view(JsonValue::Object(entries)) == Json::Object(entries_view(entries@)),
{
    if let Json::Object(a) = json_view(JsonValue::Object(entries)) {
        assert(a =~= entries_view(entries@));
    }
}

/// `i` is the position of the first entry named `key`.
pub open spec fn is_first_key(entries: Seq<(Seq<char>, Json)>, key: Seq<char>, i: int) -> bool {
    &&& 0 <= i < entries.len()
    &&& entries[i].0 == key
    &&& forall|j: int| 0 <= j < i ==> entries[j].0 != key
}

/// Position of the first entry named `key`, if there is one.
pub open spec fn key_index(entries: Seq<(Seq<char>, Json)>, key: Seq<char>) -> Option<int> {
    if exists|i: int| is_first_key(entries, key, i) {
        Some(choose|i: int| is_first_key(entries, key, i))
    } else {
        None
    }
}

/// At most one position is the first entry named `key`.
pub proof fn lemma_first_key_unique(entries: Seq<(Seq<char>, Json)>, key: Seq<char>, i: int)
    requires
        is_first_key(entries, key, i),
    ensures
        key_index(entries, key) == Some(i),
{
    let c = choose|k: int| is_first_key(entries, key, k);
    assert(is_first_key(entries, key, c));
    if c < i {
        assert(entries[c].0 != key);
    } else if i < c {
        assert(entries[i].0 != key);
    }
}

/// Without any entry named `key`, there is no first one.
pub proof fn lemma_no_key(entries: Seq<(Seq<char>, Json)>, key: Seq<char>)
    requires
        forall|j: int| 0 <= j < entries.len() ==> entries[j].0 != key,
    ensures
        key_index(entries, key) is None,
{
    if exists|i: int| is_first_key(entries, key, i) {
        let c = choose|k: int| is_first_key(entries, key, k);
        assert(entries[c].0 == key);
    }
}

/// `v[key]` for an object (the first entry with that name); `None` for a missing key or a
/// value that is not an object.
pub open spec fn field(v: Json, key: Seq<char>) -> Option<Json> {
    match v {
        Json::Object(entries) => match key_index(entries, key) {
            Some(i) => Some(entries[i].1),
            None => None,
        },
        _ => None,
    }
}

/// Follow `path` one key at a time from `v`.
pub open spec fn walk(v: Json, path: Seq<Seq<char>>) -> Option<Json>
    decreases path.len(),
{
    if path.len() == 0 {
        Some(v)
    } else {
        match field(v, path[0]) {
            Some(c) => walk(c, path.drop_first()),
            None => None,
        }
    }
}

/// The value at `path`, unless some step is missing or the value found is `null`.
pub open spec fn nested_spec(v: Json, path: Seq<Seq<char>>) -> Option<Json> {
    match walk(v, path) {
        Some(Json::Null) => None,
        other => other,
    }
}

/// The text at `path`, if the value there is a JSON string.
pub open spec fn str_at_spec(v: Json, path: Seq<Seq<char>>) -> Option<Seq<char>> {
    match nested_spec(v, path) {
        Some(Json::Text(s)) => Some(s),
        _ => None,
    }
}

/// The views of a path of keys.
pub open spec fn path_view(path: Seq<&str>) -> Seq<Seq<char>> {
    path.map_values(|k: &str| k@)
}

/// Entries with the first one named `key` given `value` in place, or with `(key, value)`
/// appended when there is none (what inserting into an insertion-ordered map does).
pub open spec fn insert_entry(entries: Seq<(Seq<char>, Json)>, key: Seq<char>, value: Json) -> Seq<
    (Seq<char>, Json),
> {
    match key_index(entries, key) {
        Some(i) => entries.update(i, (key, value)),
        None => entries.push((key, value)),
    }
}

/// Entries without the first one named `key`, the others keeping their order.
pub open spec fn remove_entry(entries: Seq<(Seq<char>, Json)>, key: Seq<char>) -> Seq<
    (Seq<char>, Json),
> {
    match key_index(entries, key) {
        Some(i) => entries.remove(i),
        None => entries,
    }
}

/// A deep copy of `v`.
#[verifier::loop_isolation(false)]
pub fn copy_value(v: &JsonValue) -> (r: JsonValue)
    ensures
        r@ == v@,
    decreases v,
{
    match v {
        JsonValue::Null => JsonValue::Null,
        JsonValue::Bool(b) => JsonValue::Bool(*b),
        JsonValue::Number(n) => JsonValue::Number(n.clone()),
        JsonValue::Text(s) => JsonValue::Text(s.clone()),
        JsonValue::Array(items) => {
            let mut out: Vec<JsonValue> = Vec::new();
            let mut i: usize = 0;
            while i < items.len()
                invariant
                    i <= items.len(),
                    out@.len() == i,
                    forall|j: int|
                        0 <= j < i ==> json_view(#[trigger] out@[j]) == json_view(items@[j]),
                decreases items.len() - i,
            {
                assert(decreases_to!(*items => items[i as int]));
                let c = copy_value(&items[i]);
                out.push(c);
                i = i + 1;
            }
            proof {
                lemma_array_view(out);
                lemma_array_view(*items);
                assert(items_view(out@) =~= items_view(items@));
            }
            JsonValue::Array(out)
        },
        JsonValue::Object(entries) => {
            let mut out: Vec<(String, JsonValue)> = Vec::new();
            let mut i: usize = 0;
            while i < entries.len()
                invariant
                    i <= entries.len(),
                    out@.len() == i,
                    forall|j: int|
                        0 <= j < i ==> (#[trigger] out@[j]).0@ == entries@[j].0@ && json_view(
                            out@[j].1,
                        ) == json_view(entries@[j].1),
                decreases entries.len() - i,
            {
                assert(decreases_to!(*entries => entries[i as int]));
                assert(decreases_to!(entries[i as int] => entries[i as int].1));
                let c = copy_value(&entries[i].1);
                out.push((entries[i].0.clone(), c));
                i = i + 1;
            }
            proof {
                lemma_object_view(out);
                lemma_object_view(*entries);
                assert(entries_view(out@) =~= entries_view(entries@));
            }
            JsonValue::Object(out)
        },
    }
}

/// Position of the first entry named `key`, if any.
pub fn entry_index(entries: &Vec<(String, JsonValue)>, key: &str) -> (r: Option<usize>)
    ensures
        match r {
            Some(i) => key_index(entries_view(entries@), key@) == Some(i as int),
            None => key_index(entries_view(entries@), key@) is None,
        },
{
    let ghost ev = entries_view(entries@);
    let k = String::from_str(key);
    let mut i: usize = 0;
    while i < entries.len()
        invariant
            i <= entries.len(),
            k@ == key@,
            ev == entries_view(entries@),
            forall|j: int| 0 <= j < i ==> ev[j].0 != key@,
        decreases entries.len() - i,
    {
        if entries[i].0 == k {
            proof {
                lemma_first_key_unique(ev, key@, i as int);
            }
            return Some(i);
        }
        i = i + 1;
    }
    proof {
        lemma_no_key(ev, key@);
    }
    None
}

/// `v[key]` (as `serde_json::Value::get` with a string key).
pub fn get<'a>(v: &'a JsonValue, key: &str) -> (r: Option<&'a JsonValue>)
    ensures
        match r {
            Some(x) => field(v@, key@) == Some(x@),
            None => field(v@, key@) is None,
        },
{
    match v {
        JsonValue::Object(entries) => {
            proof {
                lemma_object_view(*entries);
            }
            match entry_index(entries, key) {
                Some(i) => Some(&entries[i].1),
                None => None,
            }
        },
        _ => None,
    }
}

/// Walk a key path, yielding the value only if every step exists and the leaf is non-null.
pub fn nested<'a>(v: &'a JsonValue, path: &[&str]) -> (r: Option<&'a JsonValue>)
    ensures
        match r {
            Some(x) => nested_spec(v@, path_view(path@)) == Some(x@),
            None => nested_spec(v@, path_view(path@)) is None,
        },
{
    let ghost p = path_view(path@);
    let mut cur: &JsonValue = v;
    let mut i: usize = 0;
    assert(p.skip(0) =~= p);
    while i < path.len()
        invariant
            i <= path.len(),
            p == path_view(path@),
            walk(v@, p) == walk(cur@, p.skip(i as int)),
        decreases path.len() - i,
    {
        assert(p.skip(i as int)[0] == path@[i as int]@);
        assert(p.skip(i as int).drop_first() =~= p.skip(i + 1));
        match get(cur, path[i]) {
            Some(next) => {
                cur = next;
            },
            None => {
                return None;
            },
        }
        i = i + 1;
    }
    assert(p.skip(i as int).len() == 0);
    match cur {
        JsonValue::Null => None,
        _ => Some(cur),
    }
}

/// String at a key path.
pub fn str_at<'a>(v: &'a JsonValue, path: &[&str]) -> (r: Option<&'a str>)
    ensures
        match r {
            Some(s) => str_at_spec(v@, path_view(path@)) == Some(s@),
            None => str_at_spec(v@, path_view(path@)) is None,
        },
{
    match nested(v, path) {
        Some(JsonValue::Text(s)) => Some(s.as_str()),
        _ => None,
    }
}

/// Set the value of the first entry named `key`, or append `(key, value)` when there is none.
pub fn object_insert(entries: &mut Vec<(String, JsonValue)>, key: &str, value: JsonValue)
    ensures
        entries_view(final(entries)@) == insert_entry(entries_view(old(entries)@), key@, value@),
{
    match entry_index(entries, key) {
        Some(i) => {
            let ghost before = entries@;
            let name = entries[i].0.clone();
            entries.set(i, (name, value));
            assert(entries_view(entries@) =~= entries_view(before).update(
                i as int,
                (key@, value@),
            ));
        },
        None => {
            let ghost before = entries@;
            entries.push((String::from_str(key), value));
            assert(entries_view(entries@) =~= entries_view(before).push((key@, value@)));
        },
    }
}

/// Remove the first entry named `key`; the others keep their order.
pub fn object_remove(entries: &mut Vec<(String, JsonValue)>, key: &str)
    ensures
        entries_view(final(entries)@) == remove_entry(entries_view(old(entries)@), key@),
{
    match entry_index(entries, key) {
        Some(i) => {
            let ghost before = entries@;
            entries.remove(i);
            assert(entries_view(entries@) =~= entries_view(before).remove(i as int));
        },
        None => {},
    }
}


/// The view of an optional JSON value.
pub open spec fn opt_json(v: Option<JsonValue>) -> Option<Json> {
    match v {
        Some(x) => Some(x@),
        None => None,
    }
}

#[verifier::external_type_specification]
#[verifier::external_body]
pub struct ExSerdeValue(serde_json::Value);

/// The document that `serde_json::from_str::<serde_json::Value>` reads from `text`, as a `Json`
/// (`None` when the text is not valid JSON).
pub uninterp spec fn json_parse(text: Seq<char>) -> Option<Json>;

/// What `serde_json::from_slice::<serde_json::Value>` gives for `body`: the document as a
/// `Json`, or the `Display` text of its error when the bytes are not valid JSON.
pub uninterp spec fn json_read_bytes(body: Seq<u8>) -> Result<Json, Seq<char>>;

/// The text `serde_json::to_string_pretty` writes for the document `v`.
pub uninterp spec fn json_pretty(v: Json) -> Seq<char>;

/// A `serde_json::Value` as a `JsonValue`, variant for variant; a number keeps its JSON text
/// (`Number`'s `Display`). Nothing is claimed of it: only the trusted items below call it.
#[verifier::external_body]
fn json_from_serde(v: &serde_json::Value) -> JsonValue {
    match v {
        serde_json::Value::Null => JsonValue::Null,
        serde_json::Value::Bool(b) => JsonValue::Bool(*b),
        serde_json::Value::Number(n) => JsonValue::Number(n.to_string()),
        serde_json::Value::String(t) => JsonValue::Text(t.clone()),
        serde_json::Value::Array(a) => JsonValue::Array(a.iter().map(json_from_serde).collect()),
        serde_json::Value::Object(m) => JsonValue::Object(
            m.iter().map(|(k, x)| (k.clone(), json_from_serde(x))).collect(),
        ),
    }
}

/// A `JsonValue` as a `serde_json::Value`, variant for variant (a number text that does not
/// parse as a `serde_json::Number` becomes `null`). Nothing is claimed of it: only the trusted
/// items below call it.
#[verifier::external_body]
fn json_to_serde(v: &JsonValue) -> serde_json::Value {
    match v {
        JsonValue::Null => serde_json::Value::Null,
        JsonValue::Bool(b) => serde_json::Value::Bool(*b),
        JsonValue::Number(t) => t.parse().map(serde_json::Value::Number).unwrap_or(serde_json::Value::Null),
        JsonValue::Text(t) => serde_json::Value::String(t.clone()),
        JsonValue::Array(a) => serde_json::Value::Array(a.iter().map(json_to_serde).collect()),
        JsonValue::Object(e) => serde_json::Value::Object(
            e.iter().map(|(k, x)| (k.clone(), json_to_serde(x))).collect(),
        ),
    }
}

/// `serde_json::from_str::<serde_json::Value>`, converted: the result is what `json_parse`
/// names for this text.
#[verifier::external_body]
pub(crate) fn parse_json(text: &str) -> (r: Option<JsonValue>)
    ensures
        opt_json(r) == json_parse(text@),
{
    serde_json::from_str::<serde_json::Value>(text).ok().map(|v| json_from_serde(&v))
}

/// `serde_json::from_slice::<serde_json::Value>`, converted: the document, or the error's
/// `Display` text, is what `json_read_bytes` names for these bytes.
#[verifier::external_body]
pub(crate) fn parse_json_bytes(body: &[u8]) -> (r: Result<JsonValue, String>)
    ensures
        match r {
            Ok(v) => json_read_bytes(body@) == Ok::<Json, Seq<char>>(v@),
            Err(e) => json_read_bytes(body@) == Err::<Json, Seq<char>>(e@),
        },
{
    serde_json::from_slice::<serde_json::Value>(body).map(|v| json_from_serde(&v)).map_err(|e| e.to_string())
}

/// `serde_json::to_string_pretty` of the converted document: the text is what `json_pretty`
/// names for `v@` (serialising a `serde_json::Value` cannot fail: its keys are strings).
#[verifier::external_body]
pub(crate) fn to_pretty(v: &JsonValue) -> (r: String)
    ensures
        r@ == json_pretty(v@),
{
    serde_json::to_string_pretty(&json_to_serde(v)).unwrap_or_default()
}

/// The text of a JSON file holding `v`: the pretty-printed document and a final newline.
pub fn json_file_text(v: &JsonValue) -> (r: String)
    ensures
        r@ == json_pretty(v@).push('\n'),
{
    let mut r = to_pretty(v);
    r.append("\n");
    proof {
        reveal_strlit("\n");
    }
    assert(r@ =~= json_pretty(v@).push('\n'));
    r
}

} // verus!
