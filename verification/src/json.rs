//! JSON documents: a plain tree that the library reads, the text parser that
//! builds it (serde_json), and the accessors that the server's logic uses.

use vstd::prelude::*;

verus! {

/// A JSON value. Numbers keep their decimal text; object members keep the
/// order in which the parser hands them out.
#[derive(Debug, PartialEq)]
pub enum Json {
    Null,
    Bool(bool),
    Number(String),
    Str(String),
    Array(Vec<Json>),
    Object(Vec<(String, Json)>),
}

/// The mathematical form of a [`Json`] value.
pub enum JsonView {
    Null,
    Bool(bool),
    Number(Seq<char>),
    Str(Seq<char>),
    Array(Seq<JsonView>),
    Object(Seq<(Seq<char>, JsonView)>),
}

impl Json {
    /// The mathematical form of this value.
    pub open spec fn view_of(self) -> JsonView
        decreases self,
    {
        match self {
            Json::Null => JsonView::Null,
            Json::Bool(b) => JsonView::Bool(b),
            Json::Number(n) => JsonView::Number(n@),
            Json::Str(s) => JsonView::Str(s@),
            Json::Array(items) => JsonView::Array(
                Seq::new(
                    items@.len(),
                    |i: int|
                        if 0 <= i < items@.len() {
                            items@[i].view_of()
                        } else {
                            JsonView::Null
                        },
                ),
            ),
            Json::Object(entries) => JsonView::Object(
                Seq::new(
                    entries@.len(),
                    |i: int|
                        if 0 <= i < entries@.len() {
                            (entries@[i].0@, entries@[i].1.view_of())
                        } else {
                            (Seq::empty(), JsonView::Null)
                        },
                ),
            ),
        }
    }
}

impl View for Json {
    type V = JsonView;

    open spec fn view(&self) -> JsonView {
        self.view_of()
    }
}

/// The value of the first member named `key` of a list of object members.
pub open spec fn lookup(entries: Seq<(Seq<char>, JsonView)>, key: Seq<char>) -> Option<JsonView>
    decreases entries.len(),
{
    if entries.len() == 0 {
        None
    } else if entries[0].0 == key {
        Some(entries[0].1)
    } else {
        lookup(entries.drop_first(), key)
    }
}

/// What `Value::get(key)` gives: the member `key` of an object, `None` for
/// anything else.
pub open spec fn json_get(v: JsonView, key: Seq<char>) -> Option<JsonView> {
    match v {
        JsonView::Object(entries) => lookup(entries, key),
        _ => None,
    }
}

/// What `Value::as_str` gives: the text of a string.
pub open spec fn json_as_str(v: JsonView) -> Option<Seq<char>> {
    match v {
        JsonView::Str(s) => Some(s),
        _ => None,
    }
}

/// What `Value::as_array` gives: the items of an array.
pub open spec fn json_as_array(v: JsonView) -> Option<Seq<JsonView>> {
    match v {
        JsonView::Array(items) => Some(items),
        _ => None,
    }
}

/// The text of the string member `key`, if there is one: `v.get(key).and_then(Value::as_str)`.
pub open spec fn json_str_member(v: JsonView, key: Seq<char>) -> Option<Seq<char>> {
    match json_get(v, key) {
        Some(m) => json_as_str(m),
        None => None,
    }
}

proof fn lemma_lookup_skip(entries: Seq<(Seq<char>, JsonView)>, key: Seq<char>, i: int)
    requires
        0 <= i <= entries.len(),
        forall|j: int| 0 <= j < i ==> (#[trigger] entries[j]).0 != key,
    ensures
        lookup(entries, key) == lookup(entries.skip(i), key),
    decreases i,
{
    if i > 0 {
        let d = entries.drop_first();
        assert forall|j: int| 0 <= j < i - 1 implies (#[trigger] d[j]).0 != key by {
            assert(d[j] == entries[j + 1]);
        }
        lemma_lookup_skip(d, key, i - 1);
        assert(d.skip(i - 1) =~= entries.skip(i));
        assert(entries[0].0 != key);
    } else {
        assert(entries.skip(0) =~= entries);
    }
}

/// A copy of a list of JSON values.
pub(crate) fn copy_items(items: &Vec<Json>) -> (res: Vec<Json>)
    ensures
        res@.len() == items@.len(),
        forall|i: int| 0 <= i < items@.len() ==> (#[trigger] res@[i])@ == items@[i]@,
    decreases items@,
{
    let mut out: Vec<Json> = Vec::new();
    let mut i: usize = 0;
    while i < items.len()
        invariant
            i <= items.len(),
            out@.len() == i,
            forall|j: int| 0 <= j < i ==> (#[trigger] out@[j])@ == items@[j]@,
        decreases items.len() - i,
    {
        assert(decreases_to!(items@ => items@[i as int]));
        out.push(items[i].copy());
        i = i + 1;
    }
    out
}

/// A copy of a list of object members.
fn copy_entries(entries: &Vec<(String, Json)>) -> (res: Vec<(String, Json)>)
    ensures
        res@.len() == entries@.len(),
        forall|j: int|
            0 <= j < entries@.len() ==> (#[trigger] res@[j]).0@ == entries@[j].0@ && res@[j].1@
                == entries@[j].1@,
    decreases entries@,
{
    let mut out: Vec<(String, Json)> = Vec::new();
    let mut i: usize = 0;
    while i < entries.len()
        invariant
            i <= entries.len(),
            out@.len() == i,
            forall|j: int|
                0 <= j < i ==> (#[trigger] out@[j]).0@ == entries@[j].0@ && out@[j].1@
                    == entries@[j].1@,
        decreases entries.len() - i,
    {
        assert(decreases_to!(entries@ => entries@[i as int]));
        assert(decreases_to!(entries@[i as int] => entries@[i as int].1));
        let k = entries[i].0.clone();
        let v = entries[i].1.copy();
        out.push((k, v));
        i = i + 1;
    }
    out
}

impl Json {
    /// A deep copy of this value.
    pub fn copy(&self) -> (res: Json)
        ensures
            res@ == self@,
        decreases self,
    {
        match self {
            Json::Null => Json::Null,
            Json::Bool(b) => Json::Bool(*b),
            Json::Number(n) => Json::Number(n.clone()),
            Json::Str(s) => Json::Str(s.clone()),
            Json::Array(items) => {
                let out = copy_items(items);
                assert(out@.len() == items@.len());
                let r = Json::Array(out);
                assert(r@ == self@) by {
                    if let (JsonView::Array(a), JsonView::Array(b)) = (r@, self@) {
                        assert(a =~= b);
                    }
                }
                r
            },
            Json::Object(entries) => {
                let out = copy_entries(entries);
                let r = Json::Object(out);
                assert(r@ == self@) by {
                    if let (JsonView::Object(a), JsonView::Object(b)) = (r@, self@) {
                        assert(a =~= b);
                    }
                }
                r
            },
        }
    }
}


impl Clone for Json {
    /// A deep copy of this value.
    fn clone(&self) -> (res: Self)
        ensures
            res@ == self@,
    {
        self.copy()
    }
}

impl Json {
    /// The member `key` of an object (`Value::get`).
    pub fn get(&self, key: &str) -> (res: Option<&Json>)
        ensures
            match res {
                Some(m) => json_get(self@, key@) == Some(m@),
                None => json_get(self@, key@) is None,
            },
    {
        match self {
            Json::Object(entries) => {
                let k = key.to_string();
                let ghost ev = match self@ {
                    JsonView::Object(es) => es,
                    _ => Seq::empty(),
                };
                assert(ev.len() == entries@.len());
                let mut i: usize = 0;
                while i < entries.len()
                    invariant
                        i <= entries.len() == ev.len(),
                        k@ == key@,
                        self@ == JsonView::Object(ev),
                        forall|j: int| 0 <= j < ev.len() ==> #[trigger] ev[j] == (entries@[j].0@, entries@[j].1@),
                        forall|j: int| 0 <= j < i ==> (#[trigger] ev[j]).0 != key@,
                    decreases entries.len() - i,
                {
                    if entries[i].0 == k {
                        proof {
                            lemma_lookup_skip(ev, key@, i as int);
                            assert(ev.skip(i as int)[0] == ev[i as int]);
                        }
                        return Some(&entries[i].1);
                    }
                    assert(ev[i as int].0 != key@);
                    i = i + 1;
                }
                proof {
                    lemma_lookup_skip(ev, key@, i as int);
                    assert(ev.skip(i as int).len() == 0);
                }
                None
            },
            _ => None,
        }
    }

    /// The text of a string (`Value::as_str`).
    pub fn as_str(&self) -> (res: Option<&String>)
        ensures
            match res {
                Some(s) => json_as_str(self@) == Some(s@),
                None => json_as_str(self@) is None,
            },
    {
        match self {
            Json::Str(s) => Some(s),
            _ => None,
        }
    }

    /// The items of an array (`Value::as_array`).
    pub fn as_array(&self) -> (res: Option<&Vec<Json>>)
        ensures
            match res {
                Some(items) => json_as_array(self@) == Some(
                    items@.map_values(|j: Json| j@),
                ),
                None => json_as_array(self@) is None,
            },
    {
        match self {
            Json::Array(items) => {
                assert(self@ == JsonView::Array(items@.map_values(|j: Json| j@))) by {
                    if let JsonView::Array(a) = self@ {
                        assert(a =~= items@.map_values(|j: Json| j@));
                    }
                }
                Some(items)
            },
            _ => None,
        }
    }

    /// The text of the string member `key` (`v.get(key).and_then(Value::as_str)`).
    pub fn str_member(&self, key: &str) -> (res: Option<&String>)
        ensures
            match res {
                Some(s) => json_str_member(self@, key@) == Some(s@),
                None => json_str_member(self@, key@) is None,
            },
    {
        match self.get(key) {
            Some(m) => m.as_str(),
            None => None,
        }
    }
}


/// A parsed serde_json document, held only to be converted into a [`Json`].
#[verifier::external_type_specification]
#[verifier::external_body]
pub struct ExValue(serde_json::Value);

/// What serde_json's `from_str::<Value>` makes of a text, as a [`JsonView`]:
/// `None` where it refuses the text.
pub uninterp spec fn json_parse(text: Seq<char>) -> Option<JsonView>;

/// Converts a `serde_json::Value` into a [`Json`], variant by variant; a
/// number keeps the text that its `Display` writes. Nothing is stated of the
/// result: the outside value is opaque here.
#[verifier::external_body]
fn from_value(v: serde_json::Value) -> Json {
    match v {
        serde_json::Value::Null => Json::Null,
        serde_json::Value::Bool(b) => Json::Bool(b),
        serde_json::Value::Number(n) => Json::Number(n.to_string()),
        serde_json::Value::String(s) => Json::Str(s),
        serde_json::Value::Array(a) => Json::Array(a.into_iter().map(from_value).collect()),
        serde_json::Value::Object(m) => Json::Object(m.into_iter().map(|(k, x)| (k, from_value(x))).collect()),
    }
}

/// Parses a JSON text with `serde_json::from_str::<serde_json::Value>`. The
/// contract names the result: it is a function of the text alone (`None`
/// where serde_json returns an error); what that function is, is not stated.
#[verifier::external_body]
pub(crate) fn parse_json(text: &str) -> (res: Option<Json>)
    ensures
        match res {
            Some(j) => json_parse(text@) == Some(j@),
            None => json_parse(text@) is None,
        },
{
    match serde_json::from_str::<serde_json::Value>(text) {
        Ok(v) => Some(from_value(v)),
        Err(_) => None,
    }
}

} // verus!
