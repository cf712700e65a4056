//! The library's view of a parsed JSON document.
//!
//! The JSON grammar is handled by `serde_json`: `json_parse` and the I/O code
//! around the library convert its values one for one into `JsonValue`, keeping
//! each object's keys unique and in the order `serde_json`'s map holds them.
use vstd::prelude::*;
use crate::text::{chars_of, vec_eq};

verus! {

/// A JSON value as read by the library's logic.
#[derive(Debug)]
pub enum JsonValue {
    Null,
    Bool(bool),
    /// A number: its value when it is a non-negative integer that fits a `u64`,
    /// and its text as `serde_json` writes it.
    Number(Option<u64>, String),
    Str(String),
    Array(Vec<JsonValue>),
    Object(Vec<(String, JsonValue)>),
}

/// The value stored under `key` in an object's entries.
pub open spec fn entries_get(entries: Seq<(String, JsonValue)>, key: Seq<char>) -> Option<JsonValue>
    decreases entries.len(),
{
    if entries.len() == 0 {
        None
    } else if entries[0].0@ == key {
        Some(entries[0].1)
    } else {
        entries_get(entries.drop_first(), key)
    }
}

/// Index of the first entry named `key`, or the number of entries.
pub open spec fn entries_index(entries: Seq<(String, JsonValue)>, key: Seq<char>) -> int
    decreases entries.len(),
{
    if entries.len() == 0 {
        0
    } else if entries[0].0@ == key {
        0
    } else {
        1 + entries_index(entries.drop_first(), key)
    }
}

pub proof fn lemma_entries_index(entries: Seq<(String, JsonValue)>, key: Seq<char>)
    ensures
        0 <= entries_index(entries, key) <= entries.len(),
        entries_index(entries, key) < entries.len() ==> entries_get(entries, key) == Some(
            entries[entries_index(entries, key)].1,
        ),
        entries_index(entries, key) == entries.len() ==> entries_get(entries, key) is None,
    decreases entries.len(),
{
    if entries.len() > 0 && entries[0].0@ != key {
        lemma_entries_index(entries.drop_first(), key);
    }
}

/// Index of the first entry named `key`, or the number of entries.
pub fn entries_index_exec(entries: &Vec<(String, JsonValue)>, key: &str) -> (r: usize)
    ensures
        r as int == entries_index(entries@, key@),
        r <= entries.len(),
{
    let k = chars_of(key);
    let mut i: usize = 0;
    assert(entries@.subrange(0, entries@.len() as int) =~= entries@);
    while i < entries.len()
        invariant
            i <= entries.len(),
            k@ == key@,
            entries_index(entries@, key@) == i + entries_index(entries@.subrange(i as int, entries@.len() as int), key@),
        decreases entries.len() - i,
    {
        let ghost rest = entries@.subrange(i as int, entries@.len() as int);
        let name = chars_of(entries[i].0.as_str());
        if vec_eq(&name, &k) {
            assert(rest[0] == entries@[i as int]);
            return i;
        }
        assert(rest.drop_first() =~= entries@.subrange(i + 1, entries@.len() as int));
        i += 1;
    }
    i
}

impl JsonValue {
    /// `value.get(key)`: the member `key` of an object, `None` for other values.
    pub open spec fn spec_get(self, key: Seq<char>) -> Option<JsonValue> {
        match self {
            JsonValue::Object(entries) => entries_get(entries@, key),
            _ => None,
        }
    }

    /// `value.as_str()`.
    pub open spec fn spec_as_str(self) -> Option<Seq<char>> {
        match self {
            JsonValue::Str(s) => Some(s@),
            _ => None,
        }
    }

    /// `value.as_bool()`.
    pub open spec fn spec_as_bool(self) -> Option<bool> {
        match self {
            JsonValue::Bool(b) => Some(b),
            _ => None,
        }
    }

    /// `value.as_u64()`.
    pub open spec fn spec_as_u64(self) -> Option<u64> {
        match self {
            JsonValue::Number(n, _) => n,
            _ => None,
        }
    }

    /// The member `key` of an object.
    pub fn get(&self, key: &str) -> (r: Option<&JsonValue>)
        ensures
            match (r, self.spec_get(key@)) {
                (Some(a), Some(b)) => *a == b,
                (None, None) => true,
                _ => false,
            },
    {
        match self {
            JsonValue::Object(entries) => {
                let k = chars_of(key);
                let mut i: usize = 0;
                assert(entries@.subrange(0, entries@.len() as int) =~= entries@);
                assert(self.spec_get(key@) == entries_get(entries@, key@));
                while i < entries.len()
                    invariant
                        i <= entries.len(),
                        k@ == key@,
                        self.spec_get(key@) == entries_get(entries@, key@),
                        entries_get(entries@, key@) == entries_get(entries@.subrange(i as int, entries@.len() as int), key@),
                    decreases entries.len() - i,
                {
                    let ghost rest = entries@.subrange(i as int, entries@.len() as int);
                    let name = chars_of(entries[i].0.as_str());
                    if vec_eq(&name, &k) {
                        assert(rest[0] == entries@[i as int]);
                        assert(rest.len() > 0);
                        assert(rest[0].0@ == key@);
                        assert(entries_get(rest, key@) == Some(rest[0].1));
                        assert(entries[i as int].1 == entries@[i as int].1);
                        return Some(&entries[i].1);
                    }
                    assert(rest.drop_first() =~= entries@.subrange(i + 1, entries@.len() as int));
                    i += 1;
                }
                None
            },
            _ => None,
        }
    }

    /// The string held by a string value.
    pub fn as_str(&self) -> (r: Option<&str>)
        ensures
            match (r, self.spec_as_str()) {
                (Some(a), Some(b)) => a@ == b,
                (None, None) => true,
                _ => false,
            },
    {
        match self {
            JsonValue::Str(s) => Some(s.as_str()),
            _ => None,
        }
    }

    /// The boolean held by a boolean value.
    pub fn as_bool(&self) -> (r: Option<bool>)
        ensures
            r == self.spec_as_bool(),
    {
        match self {
            JsonValue::Bool(b) => Some(*b),
            _ => None,
        }
    }

    /// The value of a non-negative integer that fits a `u64`.
    pub fn as_u64(&self) -> (r: Option<u64>)
        ensures
            r == self.spec_as_u64(),
    {
        match self {
            JsonValue::Number(n, _) => *n,
            _ => None,
        }
    }

    /// `value.as_array()`.
    pub open spec fn spec_as_array(self) -> Option<Seq<JsonValue>> {
        match self {
            JsonValue::Array(v) => Some(v@),
            _ => None,
        }
    }

    /// The elements of an array value.
    pub fn as_array(&self) -> (r: Option<&Vec<JsonValue>>)
        ensures
            match (r, self.spec_as_array()) {
                (Some(a), Some(b)) => a@ == b,
                (None, None) => true,
                _ => false,
            },
    {
        match self {
            JsonValue::Array(v) => Some(v),
            _ => None,
        }
    }

    /// `value.as_object()`: the entries of an object value.
    pub open spec fn spec_as_object(self) -> Option<Seq<(String, JsonValue)>> {
        match self {
            JsonValue::Object(es) => Some(es@),
            _ => None,
        }
    }

    /// The entries of an object value.
    pub fn as_object(&self) -> (r: Option<&Vec<(String, JsonValue)>>)
        ensures
            match (r, self.spec_as_object()) {
                (Some(a), Some(b)) => a@ == b,
                (None, None) => true,
                _ => false,
            },
    {
        match self {
            JsonValue::Object(es) => Some(es),
            _ => None,
        }
    }
}


/// The content of a JSON value as a mathematical value.
pub ghost enum JsonModel {
    Null,
    Bool(bool),
    Number(Option<u64>, Seq<char>),
    Str(Seq<char>),
    Array(Seq<JsonModel>),
    Object(Seq<(Seq<char>, JsonModel)>),
}

/// The content of `j`.
pub open spec fn json_model(j: JsonValue) -> JsonModel
    decreases j, 0nat,
{
    match j {
        JsonValue::Null => JsonModel::Null,
        JsonValue::Bool(b) => JsonModel::Bool(b),
        JsonValue::Number(n, t) => JsonModel::Number(n, t@),
        JsonValue::Str(s) => JsonModel::Str(s@),
        JsonValue::Array(v) => {
            proof {
                assert(decreases_to!(j => v));
                assert(decreases_to!(v => v@));
            }
            JsonModel::Array(items_model(v@))
        },
        JsonValue::Object(es) => {
            proof {
                assert(decreases_to!(j => es));
                assert(decreases_to!(es => es@));
            }
            JsonModel::Object(entries_model(es@))
        },
    }
}

/// The contents of a list of values.
pub open spec fn items_model(s: Seq<JsonValue>) -> Seq<JsonModel>
    decreases s, 1nat,
{
    if s.len() == 0 {
        Seq::empty()
    } else {
        proof {
            assert(decreases_to!(s => s.drop_last()));
            assert(decreases_to!(s => s[s.len() - 1]));
        }
        items_model(s.drop_last()).push(json_model(s[s.len() - 1]))
    }
}

/// The contents of a list of object entries.
pub open spec fn entries_model(s: Seq<(String, JsonValue)>) -> Seq<(Seq<char>, JsonModel)>
    decreases s, 1nat,
{
    if s.len() == 0 {
        Seq::empty()
    } else {
        proof {
            assert(decreases_to!(s => s.drop_last()));
            assert(decreases_to!(s => s[s.len() - 1]));
            assert(decreases_to!(s[s.len() - 1] => s[s.len() - 1].1));
        }
        entries_model(s.drop_last()).push((s[s.len() - 1].0@, json_model(s[s.len() - 1].1)))
    }
}

/// The first member `key` of an object's content.
pub open spec fn model_entries_get(es: Seq<(Seq<char>, JsonModel)>, key: Seq<char>) -> Option<JsonModel>
    decreases es.len(),
{
    if es.len() == 0 {
        None
    } else if es[0].0 == key {
        Some(es[0].1)
    } else {
        model_entries_get(es.drop_first(), key)
    }
}

/// The member `key` of an object's content; `None` for other values.
pub open spec fn model_get(m: JsonModel, key: Seq<char>) -> Option<JsonModel> {
    match m {
        JsonModel::Object(es) => model_entries_get(es, key),
        _ => None,
    }
}

pub proof fn lemma_items_model(s: Seq<JsonValue>)
    ensures
        items_model(s).len() == s.len(),
        forall|i: int| 0 <= i < s.len() ==> #[trigger] items_model(s)[i] == json_model(s[i]),
    decreases s.len(),
{
    if s.len() > 0 {
        lemma_items_model(s.drop_last());
        assert forall|i: int| 0 <= i < s.len() implies #[trigger] items_model(s)[i] == json_model(s[i]) by {
            if i < s.len() - 1 {
                assert(s.drop_last()[i] == s[i]);
            }
        }
    }
}

pub proof fn lemma_entries_model(s: Seq<(String, JsonValue)>)
    ensures
        entries_model(s).len() == s.len(),
        forall|i: int| 0 <= i < s.len() ==> #[trigger] entries_model(s)[i] == (s[i].0@, json_model(s[i].1)),
    decreases s.len(),
{
    if s.len() > 0 {
        lemma_entries_model(s.drop_last());
        assert forall|i: int| 0 <= i < s.len() implies #[trigger] entries_model(s)[i] == (s[i].0@, json_model(s[i].1)) by {
            if i < s.len() - 1 {
                assert(s.drop_last()[i] == s[i]);
            }
        }
    }
}

proof fn lemma_model_entries_get(es: Seq<(String, JsonValue)>, key: Seq<char>)
    ensures
        match entries_get(es, key) {
            Some(x) => model_entries_get(entries_model(es), key) == Some(json_model(x)),
            None => model_entries_get(entries_model(es), key) is None,
        },
    decreases es.len(),
{
    lemma_entries_model(es);
    if es.len() > 0 {
        let m = entries_model(es);
        assert(m[0] == (es[0].0@, json_model(es[0].1)));
        if es[0].0@ != key {
            lemma_entries_model(es.drop_first());
            assert(m.drop_first() =~= entries_model(es.drop_first()));
            lemma_model_entries_get(es.drop_first(), key);
        }
    }
}

/// Reading a member commutes with taking the content.
pub proof fn lemma_model_get(v: JsonValue, key: Seq<char>)
    ensures
        match v.spec_get(key) {
            Some(x) => model_get(json_model(v), key) == Some(json_model(x)),
            None => model_get(json_model(v), key) is None,
        },
{
    match v {
        JsonValue::Object(es) => {
            lemma_model_entries_get(es@, key);
        },
        _ => {},
    }
}

impl JsonValue {
    /// A copy with the same content.
    pub fn deep_clone(&self) -> (r: JsonValue)
        ensures
            json_model(r) == json_model(*self),
        decreases self,
    {
        match self {
            JsonValue::Null => JsonValue::Null,
            JsonValue::Bool(b) => JsonValue::Bool(*b),
            JsonValue::Number(n, t) => JsonValue::Number(*n, t.clone()),
            JsonValue::Str(s) => JsonValue::Str(s.clone()),
            JsonValue::Array(v) => {
                let mut out: Vec<JsonValue> = Vec::new();
                let mut i: usize = 0;
                assert(items_model(out@) =~= items_model(v@.subrange(0, 0)));
                while i < v.len()
                    invariant
                        i <= v.len(),
                        *self == JsonValue::Array(*v),
                        items_model(out@) == items_model(v@.subrange(0, i as int)),
                    decreases v.len() - i,
                {
                    proof {
                        assert(decreases_to!(*self => self->Array_0));
                        assert(decreases_to!(*v => v@));
                        assert(decreases_to!(v@ => v@[i as int]));
                    }
                    let c = v[i].deep_clone();
                    let ghost before = out@;
                    out.push(c);
                    assert(out@.drop_last() =~= before);
                    assert(v@.subrange(0, i + 1).drop_last() =~= v@.subrange(0, i as int));
                    i += 1;
                }
                assert(v@.subrange(0, v@.len() as int) =~= v@);
                JsonValue::Array(out)
            },
            JsonValue::Object(es) => {
                let mut out: Vec<(String, JsonValue)> = Vec::new();
                let mut i: usize = 0;
                assert(entries_model(out@) =~= entries_model(es@.subrange(0, 0)));
                while i < es.len()
                    invariant
                        i <= es.len(),
                        *self == JsonValue::Object(*es),
                        entries_model(out@) == entries_model(es@.subrange(0, i as int)),
                    decreases es.len() - i,
                {
                    proof {
                        assert(decreases_to!(*self => self->Object_0));
                        assert(decreases_to!(*es => es@));
                        assert(decreases_to!(es@ => es@[i as int]));
                        assert(decreases_to!(es@[i as int] => es@[i as int].1));
                    }
                    let c = es[i].1.deep_clone();
                    let ghost before = out@;
                    out.push((es[i].0.clone(), c));
                    assert(out@.drop_last() =~= before);
                    assert(es@.subrange(0, i + 1).drop_last() =~= es@.subrange(0, i as int));
                    i += 1;
                }
                assert(es@.subrange(0, es@.len() as int) =~= es@);
                JsonValue::Object(out)
            },
        }
    }
}

impl View for JsonValue {
    type V = JsonModel;

    open spec fn view(&self) -> JsonModel {
        json_model(*self)
    }
}

#[verifier::external_type_specification]
#[verifier::external_body]
pub struct ExSerdeJsonValue(serde_json::Value);

/// Builds the `serde_json::Value` with the same content, one node for one node:
/// a number from its text (`null` should the text not be a number), an object's
/// members into `serde_json`'s map, which keeps them sorted by key (a repeated key
/// keeps its last value). Nothing is claimed of the result.
#[verifier::external_body]
fn to_serde_value(v: &JsonValue) -> serde_json::Value {
    match v {
        JsonValue::Null => serde_json::Value::Null,
        JsonValue::Bool(b) => serde_json::Value::Bool(*b),
        JsonValue::Number(_, t) => match t.parse::<serde_json::Number>() {
            Ok(n) => serde_json::Value::Number(n),
            Err(_) => serde_json::Value::Null,
        },
        JsonValue::Str(s) => serde_json::Value::String(s.clone()),
        JsonValue::Array(items) => serde_json::Value::Array(items.iter().map(to_serde_value).collect()),
        JsonValue::Object(es) => serde_json::Value::Object(es.iter().map(|(k, x)| (k.clone(), to_serde_value(x))).collect()),
    }
}

/// The JSON text `serde_json` writes for a value with this content.
pub uninterp spec fn json_text_of(v: JsonModel) -> Seq<char>;

/// Writes `v` as compact JSON text with `serde_json::to_string` (on the
/// `serde_json::Value` of the same content). The contract claims only that the
/// text is the one `json_text_of` names for the value's content.
#[verifier::external_body]
pub(crate) fn json_text(v: &JsonValue) -> (r: String)
    ensures
        r@ == json_text_of(v@),
{
    serde_json::to_string(&to_serde_value(v)).unwrap_or_default()
}

/// What `serde_json::from_str::<serde_json::Value>` makes of `text`: the content
/// of the value it parses (each number with its `Display` text and its `as_u64`
/// value, each object's members as `serde_json`'s map holds them), or the text of
/// the error it reports.
pub uninterp spec fn json_parsed(text: Seq<char>) -> Result<JsonModel, Seq<char>>;

/// The error `serde_json` reports when `text` is not one JSON document, as its
/// message text; `None` when `text` parses.
pub open spec fn json_parse_error(text: Seq<char>) -> Option<Seq<char>> {
    match json_parsed(text) {
        Ok(_) => None,
        Err(e) => Some(e),
    }
}

/// The content `serde_json` parses `text` into; `None` when it is not one JSON
/// document.
pub open spec fn json_value_of(text: Seq<char>) -> Option<JsonModel> {
    match json_parsed(text) {
        Ok(m) => Some(m),
        Err(_) => None,
    }
}

/// The library's value for a `serde_json::Value`, one node for one node: a
/// number as its `as_u64` value and its `Display` text, an object's members in
/// the order its map holds them. Nothing is claimed of the result.
#[verifier::external_body]
fn from_serde_value(v: &serde_json::Value) -> JsonValue {
    match v {
        serde_json::Value::Null => JsonValue::Null,
        serde_json::Value::Bool(b) => JsonValue::Bool(*b),
        serde_json::Value::Number(n) => JsonValue::Number(n.as_u64(), n.to_string()),
        serde_json::Value::String(s) => JsonValue::Str(s.clone()),
        serde_json::Value::Array(items) => JsonValue::Array(items.iter().map(from_serde_value).collect()),
        serde_json::Value::Object(m) => JsonValue::Object(m.iter().map(|(k, x)| (k.clone(), from_serde_value(x))).collect()),
    }
}

/// Parses `text` with `serde_json::from_str::<serde_json::Value>`: the parsed
/// value, converted node for node, or the error's `Display` text. The contract
/// claims only that the outcome is the one `json_parsed` names; it depends on the
/// text alone.
#[verifier::external_body]
pub(crate) fn json_parse(text: &str) -> (r: Result<JsonValue, String>)
    ensures
        match r {
            Ok(v) => json_parsed(text@) == Ok::<JsonModel, Seq<char>>(v@),
            Err(e) => json_parsed(text@) == Err::<JsonModel, Seq<char>>(e@),
        },
{
    match serde_json::from_str::<serde_json::Value>(text) {
        Ok(v) => Ok(from_serde_value(&v)),
        Err(e) => Err(e.to_string()),
    }
}

/// Reads `text` as one JSON document: its content, or the parser's error text.
pub fn parse_json_text(text: &str) -> (r: Result<JsonValue, String>)
    ensures
        match (r, json_parsed(text@)) {
            (Ok(v), Ok(m)) => v@ == m,
            (Err(e), Err(x)) => e@ == x,
            _ => false,
        },
{
    json_parse(text)
}

/// Whether `text` is one JSON document: `None` when it parses, else the error's
/// text.
pub(crate) fn json_check(text: &str) -> (r: Option<String>)
    ensures
        match r {
            Some(e) => json_parse_error(text@) == Some(e@),
            None => json_parse_error(text@) is None,
        },
{
    match json_parse(text) {
        Ok(_) => None,
        Err(e) => Some(e),
    }
}

} // verus!
