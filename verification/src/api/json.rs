//! JSON documents.
use serde_json::{Number, Value};
use vstd::prelude::*;
use vstd::string::*;

use crate::text::{option_text, same_text};

verus! {

broadcast use vstd::string::group_string_axioms;

/// A JSON value. A number is held as its text; the entries of an object have
/// distinct names.
#[derive(Debug)]
pub enum Json {
    Null,
    Bool(bool),
    Number(String),
    Str(String),
    Array(Vec<Json>),
    Object(Vec<(String, Json)>),
}

/// The mathematical content of a `Json`.
pub enum JsonView {
    Null,
    Bool(bool),
    Number(Seq<char>),
    Str(Seq<char>),
    Array(Seq<JsonView>),
    Object(Seq<(Seq<char>, JsonView)>),
}

/// The content of a JSON value.
pub open spec fn json_view(j: Json) -> JsonView
    decreases j,
{
    match j {
        Json::Null => JsonView::Null,
        Json::Bool(b) => JsonView::Bool(b),
        Json::Number(t) => JsonView::Number(t@),
        Json::Str(s) => JsonView::Str(s@),
        Json::Array(v) => JsonView::Array(item_views(v@)),
        Json::Object(v) => JsonView::Object(entry_views(v@)),
    }
}

/// The contents of a list of values.
pub open spec fn item_views(s: Seq<Json>) -> Seq<JsonView>
    decreases s,
{
    if s.len() == 0 {
        Seq::empty()
    } else {
        item_views(s.subrange(0, s.len() - 1)).push(json_view(s[s.len() - 1]))
    }
}

/// The contents of a list of entries.
pub open spec fn entry_views(s: Seq<(String, Json)>) -> Seq<(Seq<char>, JsonView)>
    decreases s,
{
    if s.len() == 0 {
        Seq::empty()
    } else {
        entry_views(s.subrange(0, s.len() - 1)).push(
            (s[s.len() - 1].0@, json_view(s[s.len() - 1].1)),
        )
    }
}

impl View for Json {
    type V = JsonView;

    open spec fn view(&self) -> JsonView {
        json_view(*self)
    }
}

pub proof fn lemma_item_views(s: Seq<Json>)
    ensures
        item_views(s).len() == s.len(),
        forall|i: int| 0 <= i < s.len() ==> #[trigger] item_views(s)[i] == s[i]@,
    decreases s.len(),
{
    if s.len() > 0 {
        let t = s.subrange(0, s.len() - 1);
        lemma_item_views(t);
        assert forall|i: int| 0 <= i < s.len() implies #[trigger] item_views(s)[i] == s[i]@ by {
            if i < t.len() {
                assert(item_views(t)[i] == t[i]@);
            }
        }
    }
}

pub proof fn lemma_entry_views(s: Seq<(String, Json)>)
    ensures
        entry_views(s).len() == s.len(),
        forall|i: int|
            0 <= i < s.len() ==> #[trigger] entry_views(s)[i] == (s[i].0@, s[i].1@),
    decreases s.len(),
{
    if s.len() > 0 {
        let t = s.subrange(0, s.len() - 1);
        lemma_entry_views(t);
        assert forall|i: int| 0 <= i < s.len() implies #[trigger] entry_views(s)[i] == (
            s[i].0@,
            s[i].1@,
        ) by {
            if i < t.len() {
                assert(entry_views(t)[i] == (t[i].0@, t[i].1@));
            }
        }
    }
}

impl JsonView {
    /// The value under a name in a list of entries, from position `i` on.
    pub open spec fn entry(s: Seq<(Seq<char>, JsonView)>, key: Seq<char>, i: int) -> Option<int>
        decreases s.len() - i,
    {
        if i < 0 || i >= s.len() {
            None
        } else if s[i].0 == key {
            Some(i)
        } else {
            Self::entry(s, key, i + 1)
        }
    }

    /// The value under a name. Only objects have such values.
    pub open spec fn get(self, key: Seq<char>) -> Option<JsonView> {
        match self {
            JsonView::Object(s) => match Self::entry(s, key, 0) {
                Some(i) => Some(s[i].1),
                None => None,
            },
            _ => None,
        }
    }

    /// The text of a string.
    pub open spec fn text(self) -> Option<Seq<char>> {
        match self {
            JsonView::Str(s) => Some(s),
            _ => None,
        }
    }

    /// The items of an array.
    pub open spec fn items(self) -> Option<Seq<JsonView>> {
        match self {
            JsonView::Array(s) => Some(s),
            _ => None,
        }
    }

    /// The text of the string under a name.
    pub open spec fn text_at(self, key: Seq<char>) -> Option<Seq<char>> {
        match self.get(key) {
            Some(v) => v.text(),
            None => None,
        }
    }

    /// The items of the array under a name.
    pub open spec fn items_at(self, key: Seq<char>) -> Option<Seq<JsonView>> {
        match self.get(key) {
            Some(v) => v.items(),
            None => None,
        }
    }

    /// With another value under a name that is there.
    pub open spec fn with(self, key: Seq<char>, v: JsonView) -> JsonView {
        match self {
            JsonView::Object(s) => match Self::entry(s, key, 0) {
                Some(i) => JsonView::Object(s.update(i, (key, v))),
                None => self,
            },
            _ => self,
        }
    }
}

impl Json {
    /// The value under a name. Only objects have such values.
    pub fn get(&self, key: &str) -> (r: Option<&Json>)
        ensures
            match r {
                Some(v) => self@.get(key@) == Some(v@),
                None => self@.get(key@) is None,
            },
    {
        match self {
            Json::Object(entries) => {
                proof {
                    lemma_entry_views(entries@);
                }
                let ghost s = entry_views(entries@);
                let mut i: usize = 0;
                while i < entries.len()
                    invariant
                        i <= entries@.len(),
                        s == entry_views(entries@),
                        self@ == JsonView::Object(s),
                        s.len() == entries@.len(),
                        forall|j: int|
                            0 <= j < entries@.len() ==> #[trigger] s[j] == (
                                entries@[j].0@,
                                entries@[j].1@,
                            ),
                        JsonView::entry(s, key@, 0) == JsonView::entry(s, key@, i as int),
                    decreases entries@.len() - i,
                {
                    assert(s[i as int] == (entries@[i as int].0@, entries@[i as int].1@));
                    if same_text(entries[i].0.as_str(), key) {
                        return Some(&entries[i].1);
                    }
                    i += 1;
                }
                None
            },
            _ => None,
        }
    }

    /// The text of a string.
    pub fn as_str(&self) -> (r: Option<&String>)
        ensures
            match r {
                Some(s) => self@.text() == Some(s@),
                None => self@.text() is None,
            },
    {
        match self {
            Json::Str(s) => Some(s),
            _ => None,
        }
    }

    /// The items of an array.
    pub fn as_array(&self) -> (r: Option<&Vec<Json>>)
        ensures
            match r {
                Some(v) => self@.items() == Some(item_views(v@)) && item_views(v@).len()
                    == v@.len(),
                None => self@.items() is None,
            },
    {
        match self {
            Json::Array(v) => {
                proof {
                    lemma_item_views(v@);
                }
                Some(v)
            },
            _ => None,
        }
    }

    /// The text of the string under a name.
    pub fn text_at(&self, key: &str) -> (r: Option<&String>)
        ensures
            match r {
                Some(s) => self@.text_at(key@) == Some(s@),
                None => self@.text_at(key@) is None,
            },
    {
        match self.get(key) {
            Some(v) => v.as_str(),
            None => None,
        }
    }

    /// The items of the array under a name.
    pub fn items_at(&self, key: &str) -> (r: Option<&Vec<Json>>)
        ensures
            match r {
                Some(v) => self@.items_at(key@) == Some(item_views(v@)) && item_views(v@).len()
                    == v@.len(),
                None => self@.items_at(key@) is None,
            },
    {
        match self.get(key) {
            Some(v) => v.as_array(),
            None => None,
        }
    }
}

// ----- building -----

pub proof fn lemma_items_push(s: Seq<Json>, x: Json)
    ensures
        item_views(s.push(x)) == item_views(s).push(x@),
{
    assert(s.push(x).subrange(0, s.len() as int) =~= s);
}

pub proof fn lemma_entries_push(s: Seq<(String, Json)>, x: (String, Json))
    ensures
        entry_views(s.push(x)) == entry_views(s).push((x.0@, x.1@)),
{
    assert(s.push(x).subrange(0, s.len() as int) =~= s);
}

/// The entries with one more at their end.
pub(crate) fn with_entry(v: Vec<(String, Json)>, key: &str, j: Json) -> (r: Vec<(String, Json)>)
    ensures
        entry_views(r@) == entry_views(v@).push((key@, j@)),
{
    let mut r = v;
    let x = (key.to_owned(), j);
    proof {
        lemma_entries_push(r@, x);
    }
    r.push(x);
    r
}

/// A string.
pub(crate) fn json_str(s: &str) -> (r: Json)
    ensures
        r@ == JsonView::Str(s@),
{
    Json::Str(s.to_owned())
}

/// An array of one item.
pub(crate) fn json_list(j: Json) -> (r: Json)
    ensures
        r@ == JsonView::Array(seq![j@]),
{
    let mut v: Vec<Json> = Vec::new();
    proof {
        lemma_items_push(v@, j);
        assert(item_views(v@).push(j@) =~= seq![j@]);
    }
    v.push(j);
    Json::Array(v)
}

/// An object of two entries.
pub(crate) fn json_pair(a: &str, x: Json, b: &str, y: Json) -> (r: Json)
    ensures
        r@ == JsonView::Object(seq![(a@, x@), (b@, y@)]),
{
    let ghost xv = x@;
    let ghost yv = y@;
    let v = with_entry(with_entry(Vec::new(), a, x), b, y);
    assert(entry_views(v@) =~= seq![(a@, xv), (b@, yv)]);
    Json::Object(v)
}

/// An object of one entry.
pub(crate) fn json_single(key: &str, j: Json) -> (r: Json)
    ensures
        r@ == JsonView::Object(seq![(key@, j@)]),
{
    let ghost jv = j@;
    let v = with_entry(Vec::new(), key, j);
    assert(entry_views(v@) =~= seq![(key@, jv)]);
    Json::Object(v)
}

/// An object of three entries.
pub(crate) fn json_triple(a: &str, x: Json, b: &str, y: Json, c: &str, z: Json) -> (r: Json)
    ensures
        r@ == JsonView::Object(seq![(a@, x@), (b@, y@), (c@, z@)]),
{
    let ghost xv = x@;
    let ghost yv = y@;
    let ghost zv = z@;
    let v = with_entry(with_entry(with_entry(Vec::new(), a, x), b, y), c, z);
    assert(entry_views(v@) =~= seq![(a@, xv), (b@, yv), (c@, zv)]);
    Json::Object(v)
}

/// Where an entry of that name stands.
pub(crate) fn find_entry(entries: &Vec<(String, Json)>, key: &str) -> (r: Option<usize>)
    ensures
        match r {
            Some(i) => i < entries@.len() && JsonView::entry(entry_views(entries@), key@, 0)
                == Some(i as int),
            None => JsonView::entry(entry_views(entries@), key@, 0) is None,
        },
{
    proof {
        lemma_entry_views(entries@);
    }
    let ghost s = entry_views(entries@);
    let mut i: usize = 0;
    while i < entries.len()
        invariant
            i <= entries@.len(),
            s == entry_views(entries@),
            s.len() == entries@.len(),
            forall|j: int|
                0 <= j < entries@.len() ==> #[trigger] s[j] == (entries@[j].0@, entries@[j].1@),
            JsonView::entry(s, key@, 0) == JsonView::entry(s, key@, i as int),
        decreases entries@.len() - i,
    {
        assert(s[i as int] == (entries@[i as int].0@, entries@[i as int].1@));
        if same_text(entries[i].0.as_str(), key) {
            return Some(i);
        }
        i += 1;
    }
    None
}

pub proof fn lemma_entries_update(s: Seq<(String, Json)>, i: int, x: (String, Json))
    requires
        0 <= i < s.len(),
    ensures
        entry_views(s.update(i, x)) == entry_views(s).update(i, (x.0@, x.1@)),
{
    lemma_entry_views(s);
    lemma_entry_views(s.update(i, x));
    assert(entry_views(s.update(i, x)) =~= entry_views(s).update(i, (x.0@, x.1@)));
}

pub proof fn lemma_entry_found(s: Seq<(Seq<char>, JsonView)>, key: Seq<char>, i: int)
    ensures
        JsonView::entry(s, key, i) matches Some(p) ==> i <= p < s.len() && s[p].0 == key,
    decreases s.len() - i,
{
    if 0 <= i < s.len() && s[i].0 != key {
        lemma_entry_found(s, key, i + 1);
    }
}

/// With items added at the end of the array under a name, if there is one.
pub open spec fn with_items(doc: JsonView, key: Seq<char>, extra: Seq<JsonView>) -> JsonView {
    match doc.items_at(key) {
        Some(items) => doc.with(key, JsonView::Array(items + extra)),
        None => doc,
    }
}

/// Adds items at the end of the array under a name, if there is one.
pub(crate) fn append_items(doc: Json, key: &str, extra: Vec<Json>) -> (r: Json)
    ensures
        r@ == with_items(doc@, key@, item_views(extra@)),
{
    let ghost before = doc@;
    let ghost ev = item_views(extra@);
    match doc {
        Json::Object(entries) => {
            let mut entries = entries;
            let ghost s = entries@;
            match find_entry(&entries, key) {
                Some(i) => {
                    proof {
                        lemma_entry_views(s);
                        lemma_entry_found(entry_views(s), key@, 0);
                        assert(entry_views(s)[i as int] == (s[i as int].0@, s[i as int].1@));
                    }
                    let (name, value) = entries.remove(i);
                    match value {
                        Json::Array(items) => {
                            let ghost iv = item_views(items@);
                            let all = join_items(items, extra);
                            let x = (name, Json::Array(all));
                            let ghost xv = x;
                            entries.insert(i, x);
                            proof {
                                assert(entries@ =~= s.update(i as int, xv));
                                lemma_entries_update(s, i as int, xv);
                            }
                            Json::Object(entries)
                        },
                        other => {
                            entries.insert(i, (name, other));
                            assert(entries@ =~= s);
                            Json::Object(entries)
                        },
                    }
                },
                None => Json::Object(entries),
            }
        },
        other => other,
    }
}

/// The items of both lists.
fn join_items(a: Vec<Json>, b: Vec<Json>) -> (r: Vec<Json>)
    ensures
        item_views(r@) == item_views(a@) + item_views(b@),
{
    let ghost x = a@;
    let ghost y = b@;
    let mut r = a;
    let mut b = b;
    r.append(&mut b);
    proof {
        lemma_item_views(x);
        lemma_item_views(y);
        lemma_item_views(r@);
        assert(item_views(r@) =~= item_views(x) + item_views(y));
    }
    r
}

// ----- reading and writing -----

/// What a text means as a JSON document, if it is one.
pub uninterp spec fn json_document(bytes: Seq<u8>) -> Option<JsonView>;

/// The JSON text of a value.
pub uninterp spec fn json_text(v: JsonView) -> Seq<char>;

/// The JSON texts of the items of a JSON array.
pub uninterp spec fn raw_items(bytes: Seq<u8>) -> Option<Seq<Seq<u8>>>;

/// The text that a JSON string means.
pub uninterp spec fn raw_string(bytes: Seq<u8>) -> Option<Seq<char>>;

/// The byte strings in a list.
pub open spec fn byte_views(s: Seq<Vec<u8>>) -> Seq<Seq<u8>> {
    s.map_values(|v: Vec<u8>| v@)
}

/// A value as serde_json holds it.
#[verifier::external_type_specification]
#[verifier::external_body]
pub struct ExValue(serde_json::Value);

/// Takes a parsed value apart. The number keeps the text that serde_json
/// prints for it.
#[verifier::external_body]
fn from_value(v: Value) -> Json {
    match v {
        Value::Null => Json::Null,
        Value::Bool(b) => Json::Bool(b),
        Value::Number(n) => Json::Number(n.to_string()),
        Value::String(s) => Json::Str(s),
        Value::Array(a) => Json::Array(a.into_iter().map(from_value).collect()),
        Value::Object(m) => Json::Object(
            m.into_iter().map(|(k, v)| (k, from_value(v))).collect(),
        ),
    }
}

/// Puts a value together for serde_json. A number is read from its text with
/// `str::parse`, which gives back the very number that serde_json printed. A
/// text that is no number becomes null.
#[verifier::external_body]
fn to_value(j: &Json) -> Value {
    match j {
        Json::Null => Value::Null,
        Json::Bool(b) => Value::Bool(*b),
        Json::Number(t) => t.parse::<u64>().map(Value::from)
            .or_else(|_| t.parse::<i64>().map(Value::from))
            .unwrap_or_else(
                |_| t.parse().ok().and_then(Number::from_f64).map_or(Value::Null, Value::Number)
            ),
        Json::Str(s) => Value::String(s.clone()),
        Json::Array(a) => Value::Array(a.iter().map(to_value).collect()),
        Json::Object(m) => Value::Object(
            m.iter().map(|(k, v)| (k.clone(), to_value(v))).collect(),
        ),
    }
}

/// Reads a JSON document with `serde_json::from_slice`. The claim is that what
/// comes out depends on the bytes alone, and that nothing comes out exactly
/// where that function fails.
#[verifier::external_body]
pub(crate) fn parse_json(bytes: &[u8]) -> (r: Option<Json>)
    ensures
        match r {
            Some(j) => json_document(bytes@) == Some(j@),
            None => json_document(bytes@) is None,
        },
{
    serde_json::from_slice(bytes).ok().map(from_value)
}

/// Writes a JSON document with `serde_json::to_string`. The claim is that the
/// text depends on the value alone.
#[verifier::external_body]
pub(crate) fn render_json(j: &Json) -> (r: String)
    ensures
        r@ == json_text(j@),
{
    serde_json::to_string(&to_value(j)).unwrap_or_default()
}

/// Reads a JSON array with `serde_json::from_slice`, without reading its
/// items. The claim is that what comes out depends on the bytes alone, and
/// that nothing comes out exactly where that function fails.
#[verifier::external_body]
pub(crate) fn parse_items(bytes: &[u8]) -> (r: Option<Vec<Vec<u8>>>)
    ensures
        match r {
            Some(v) => raw_items(bytes@) == Some(byte_views(v@)),
            None => raw_items(bytes@) is None,
        },
{
    serde_json::from_slice::<Vec<Box<serde_json::value::RawValue>>>(bytes).ok().map(
        |a| a.into_iter().map(|v| v.get().as_bytes().to_vec()).collect(),
    )
}

/// Reads a JSON string with `serde_json::from_slice`. The claim is that what
/// comes out depends on the bytes alone, and that nothing comes out exactly
/// where that function fails.
#[verifier::external_body]
pub(crate) fn parse_string(bytes: &[u8]) -> (r: Option<String>)
    ensures
        option_text(r) == raw_string(bytes@),
{
    serde_json::from_slice(bytes).ok()
}

} // verus!
