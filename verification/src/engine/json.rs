//! JSON documents as values.
//!
//! Text is read and written by `serde_json`; the rest of the crate works on
//! the tree that comes out of it.

use vstd::prelude::*;
use crate::engine::text::{owned, same_text, texts};

verus! {

broadcast use vstd::std_specs::vec::axiom_vec_index_decreases;

/// `serde_json::Number`, carried through as it is.
#[verifier::external_type_specification]
#[verifier::external_body]
pub struct ExNumber(serde_json::Number);

/// `serde_json::Value`, which documents are read into and written from.
#[verifier::external_type_specification]
#[verifier::external_body]
pub struct ExValue(serde_json::Value);

/// A JSON value. An object keeps its members in document order.
#[derive(Debug)]
pub enum Json {
    Null,
    Bool(bool),
    Number(serde_json::Number),
    Text(String),
    Array(Vec<Json>),
    Object(Vec<(String, Json)>),
}

/// A JSON value as a plain value: texts as character sequences, arrays and
/// objects as sequences, numbers as they are.
pub enum JsonView {
    Null,
    Bool(bool),
    Number(serde_json::Number),
    Text(Seq<char>),
    Array(Seq<JsonView>),
    Object(Seq<(Seq<char>, JsonView)>),
}

/// `value` as a plain value.
pub open spec fn json_view(value: Json) -> JsonView
    decreases value,
{
    match value {
        Json::Null => JsonView::Null,
        Json::Bool(b) => JsonView::Bool(b),
        Json::Number(n) => JsonView::Number(n),
        Json::Text(s) => JsonView::Text(s@),
        Json::Array(items) => JsonView::Array(
            Seq::new(
                items.len() as nat,
                |i: int|
                    if 0 <= i < items.len() {
                        json_view(items[i])
                    } else {
                        JsonView::Null
                    },
            ),
        ),
        Json::Object(members) => JsonView::Object(
            Seq::new(
                members.len() as nat,
                |i: int|
                    if 0 <= i < members.len() {
                        (members[i].0@, json_view(members[i].1))
                    } else {
                        (Seq::empty(), JsonView::Null)
                    },
            ),
        ),
    }
}

impl View for Json {
    type V = JsonView;

    open spec fn view(&self) -> JsonView {
        json_view(*self)
    }
}

/// Each value of `items` as a plain value.
pub open spec fn document_views(items: Seq<Json>) -> Seq<JsonView> {
    items.map_values(|j: Json| j@)
}

/// Each member of `members` as a plain value.
pub open spec fn member_views(members: Seq<(String, Json)>) -> Seq<(Seq<char>, JsonView)> {
    members.map_values(|m: (String, Json)| (m.0@, m.1@))
}

/// An array as a plain value holds its items as plain values.
pub proof fn lemma_array_view(items: Vec<Json>)
    ensures
        Json::Array(items)@ == JsonView::Array(document_views(items@)),
{
    assert(Json::Array(items)@->Array_0 =~= document_views(items@));
}

/// An object as a plain value holds its members as plain values.
pub proof fn lemma_object_view(members: Vec<(String, Json)>)
    ensures
        Json::Object(members)@ == JsonView::Object(member_views(members@)),
{
    assert(Json::Object(members)@->Object_0 =~= member_views(members@));
}

/// The string values that spell `list`.
pub open spec fn text_documents(list: Seq<Seq<char>>) -> Seq<JsonView> {
    list.map_values(|t: Seq<char>| JsonView::Text(t))
}

/// The plain value of what was parsed, if anything was.
pub open spec fn parsed_view(parsed: Option<Json>) -> Option<JsonView> {
    match parsed {
        Some(doc) => Some(doc@),
        None => None,
    }
}

/// The value of the first member called `name`.
pub open spec fn member(members: Seq<(Seq<char>, JsonView)>, name: Seq<char>) -> Option<JsonView>
    decreases members.len(),
{
    if members.len() == 0 {
        None
    } else if members[0].0 == name {
        Some(members[0].1)
    } else {
        member(members.drop_first(), name)
    }
}

/// The member `name` of an object.
pub open spec fn field(value: JsonView, name: Seq<char>) -> Option<JsonView> {
    match value {
        JsonView::Object(members) => member(members, name),
        _ => None,
    }
}

/// The text of a string value.
pub open spec fn text_of(value: JsonView) -> Option<Seq<char>> {
    match value {
        JsonView::Text(s) => Some(s),
        _ => None,
    }
}

/// The text of the string member `name` of an object.
pub open spec fn text_field(value: JsonView, name: Seq<char>) -> Option<Seq<char>> {
    match field(value, name) {
        Some(v) => text_of(v),
        None => None,
    }
}

/// The items of an array value.
pub open spec fn array_of(value: JsonView) -> Option<Seq<JsonView>> {
    match value {
        JsonView::Array(items) => Some(items),
        _ => None,
    }
}

/// The items of the array member `name` of an object.
pub open spec fn array_field(value: JsonView, name: Seq<char>) -> Option<Seq<JsonView>> {
    match field(value, name) {
        Some(v) => array_of(v),
        None => None,
    }
}

/// The members of an object value.
pub open spec fn object_of(value: JsonView) -> Option<Seq<(Seq<char>, JsonView)>> {
    match value {
        JsonView::Object(members) => Some(members),
        _ => None,
    }
}

/// The members of the object member `name` of an object.
pub open spec fn object_field(value: JsonView, name: Seq<char>) -> Option<
    Seq<(Seq<char>, JsonView)>,
> {
    match field(value, name) {
        Some(v) => object_of(v),
        None => None,
    }
}

/// The texts of a list of string values; nothing if one is no string.
pub open spec fn texts_of_json(items: Seq<JsonView>) -> Option<Seq<Seq<char>>>
    decreases items.len(),
{
    if items.len() == 0 {
        Some(Seq::empty())
    } else {
        match (texts_of_json(items.drop_last()), text_of(items.last())) {
            (Some(head), Some(t)) => Some(head.push(t)),
            _ => None,
        }
    }
}

/// A member is found under its name where no earlier member has that name.
pub proof fn lemma_member_at(members: Seq<(Seq<char>, JsonView)>, i: int)
    requires
        0 <= i < members.len(),
        forall|k: int| 0 <= k < i ==> (#[trigger] members[k]).0 != members[i].0,
    ensures
        member(members, members[i].0) == Some(members[i].1),
    decreases i,
{
    if i > 0 {
        let rest = members.drop_first();
        assert(rest[i - 1] == members[i]);
        assert forall|k: int| 0 <= k < i - 1 implies (#[trigger] rest[k]).0 != rest[i - 1].0 by {
            assert(rest[k] == members[k + 1]);
        }
        lemma_member_at(rest, i - 1);
        assert(members[0].0 != members[i].0);
    }
}

/// Reads a list of string values.
pub fn texts_from_json(items: &Vec<Json>) -> (r: Option<Vec<String>>)
    ensures
        match r {
            Some(list) => texts_of_json(document_views(items@)) == Some(texts(list@)),
            None => texts_of_json(document_views(items@)).is_none(),
        },
{
    let ghost all = document_views(items@);
    let mut out: Vec<String> = Vec::new();
    let mut i: usize = 0;
    assert(all.take(0) =~= Seq::empty());
    assert(texts(out@) =~= Seq::empty());
    while i < items.len()
        invariant
            i <= items.len(),
            all == document_views(items@),
            texts_of_json(all.take(i as int)) == Some(texts(out@)),
        decreases items.len() - i,
    {
        proof {
            let t = all.take(i + 1);
            assert(t.drop_last() =~= all.take(i as int));
            assert(t.last() == items@[i as int]@);
            lemma_texts_failure(all, i as int + 1);
        }
        match items[i].as_text() {
            Some(s) => {
                let ghost before = out@;
                out.push(s.clone());
                assert(texts(out@) =~= texts(before).push(s@));
            },
            None => {
                return None;
            },
        }
        i += 1;
    }
    assert(all.take(items.len() as int) =~= all);
    Some(out)
}

/// Where a prefix of a list holds a value that is no string, so does the list.
pub proof fn lemma_texts_failure(items: Seq<JsonView>, n: int)
    requires
        0 <= n <= items.len(),
    ensures
        texts_of_json(items.take(n)).is_none() ==> texts_of_json(items).is_none(),
    decreases items.len() - n,
{
    if n < items.len() {
        assert(items.take(n + 1).drop_last() =~= items.take(n));
        lemma_texts_failure(items, n + 1);
    } else {
        assert(items.take(n) =~= items);
    }
}

/// The string values that spell a list read back as that list.
pub proof fn lemma_text_documents(list: Seq<Seq<char>>)
    ensures
        texts_of_json(text_documents(list)) == Some(list),
    decreases list.len(),
{
    if list.len() > 0 {
        lemma_text_documents(list.drop_last());
        assert(text_documents(list).drop_last() =~= text_documents(list.drop_last()));
        assert(list.drop_last().push(list.last()) =~= list);
    } else {
        assert(text_documents(list) =~= Seq::empty());
        assert(list =~= Seq::empty());
    }
}

/// Writes a list of strings as string values.
pub fn texts_to_json(list: &Vec<String>) -> (r: Vec<Json>)
    ensures
        document_views(r@) == text_documents(texts(list@)),
{
    let mut out: Vec<Json> = Vec::new();
    let mut i: usize = 0;
    assert(document_views(out@) =~= text_documents(texts(list@).take(0)));
    while i < list.len()
        invariant
            i <= list.len(),
            document_views(out@) == text_documents(texts(list@).take(i as int)),
        decreases list.len() - i,
    {
        let ghost before = out@;
        let item = Json::Text(list[i].clone());
        assert(item@ == JsonView::Text(list@[i as int]@));
        out.push(item);
        proof {
            assert(texts(list@).take(i + 1) =~= texts(list@).take(i as int).push(list@[i as int]@));
            assert(document_views(out@) =~= document_views(before).push(item@));
            assert(text_documents(texts(list@).take(i + 1)) =~= text_documents(
                texts(list@).take(i as int),
            ).push(JsonView::Text(list@[i as int]@)));
        }
        i += 1;
    }
    assert(texts(list@).take(list.len() as int) =~= texts(list@));
    out
}

/// A string member of an object.
pub fn text_member(name: &str, value: &str) -> (r: (String, Json))
    ensures
        r.0@ == name@,
        r.1@ == JsonView::Text(value@),
{
    (owned(name), Json::Text(owned(value)))
}

impl Json {
    /// The member `name` of this object; nothing if this is no object or has
    /// no such member.
    pub fn get(&self, name: &str) -> (r: Option<&Json>)
        ensures
            match r {
                Some(v) => field(self@, name@) == Some(v@),
                None => field(self@, name@).is_none(),
            },
    {
        match self {
            Json::Object(members) => {
                let ghost all = member_views(members@);
                proof {
                    lemma_object_view(*members);
                }
                let mut i: usize = 0;
                assert(all.skip(0) == all);
                while i < members.len()
                    invariant
                        i <= members.len(),
                        all == member_views(members@),
                        field(self@, name@) == member(all, name@),
                        member(all, name@) == member(all.skip(i as int), name@),
                    decreases members.len() - i,
                {
                    assert(all.skip(i as int)[0] == (members@[i as int].0@, members@[i as int].1@));
                    assert(all.skip(i as int).drop_first() == all.skip(i + 1));
                    if same_text(members[i].0.as_str(), name) {
                        return Some(&members[i].1);
                    }
                    i += 1;
                }
                None
            },
            _ => None,
        }
    }

    /// The text of this string value.
    pub fn as_text(&self) -> (r: Option<&String>)
        ensures
            match r {
                Some(s) => text_of(self@) == Some(s@),
                None => text_of(self@).is_none(),
            },
    {
        match self {
            Json::Text(s) => Some(s),
            _ => None,
        }
    }

    /// The text of the string member `name`.
    pub fn text(&self, name: &str) -> (r: Option<&String>)
        ensures
            match r {
                Some(s) => text_field(self@, name@) == Some(s@),
                None => text_field(self@, name@).is_none(),
            },
    {
        match self.get(name) {
            Some(v) => v.as_text(),
            None => None,
        }
    }

    /// The items of this array.
    pub fn as_array(&self) -> (r: Option<&Vec<Json>>)
        ensures
            match r {
                Some(items) => array_of(self@) == Some(document_views(items@)),
                None => array_of(self@).is_none(),
            },
    {
        match self {
            Json::Array(items) => {
                proof {
                    lemma_array_view(*items);
                }
                Some(items)
            },
            _ => None,
        }
    }

    /// The members of this object.
    pub fn as_object(&self) -> (r: Option<&Vec<(String, Json)>>)
        ensures
            match r {
                Some(members) => object_of(self@) == Some(member_views(members@)),
                None => object_of(self@).is_none(),
            },
    {
        match self {
            Json::Object(members) => {
                proof {
                    lemma_object_view(*members);
                }
                Some(members)
            },
            _ => None,
        }
    }

    /// The items of the array member `name`.
    pub fn array(&self, name: &str) -> (r: Option<&Vec<Json>>)
        ensures
            match r {
                Some(items) => array_field(self@, name@) == Some(document_views(items@)),
                None => array_field(self@, name@).is_none(),
            },
    {
        match self.get(name) {
            Some(v) => v.as_array(),
            None => None,
        }
    }

    /// The members of the object member `name`.
    pub fn object(&self, name: &str) -> (r: Option<&Vec<(String, Json)>>)
        ensures
            match r {
                Some(members) => object_field(self@, name@) == Some(member_views(members@)),
                None => object_field(self@, name@).is_none(),
            },
    {
        match self.get(name) {
            Some(v) => v.as_object(),
            None => None,
        }
    }
}

/// Rebuilds a `serde_json::Value` as a `Json`, variant by variant.
#[verifier::external_body]
fn from_value(value: &serde_json::Value) -> Json {
    match value {
        serde_json::Value::Null => Json::Null,
        serde_json::Value::Bool(b) => Json::Bool(*b),
        serde_json::Value::Number(n) => Json::Number(n.clone()),
        serde_json::Value::String(s) => Json::Text(s.clone()),
        serde_json::Value::Array(items) => Json::Array(items.iter().map(from_value).collect()),
        serde_json::Value::Object(members) => Json::Object(
            members.iter().map(|(k, v)| (k.clone(), from_value(v))).collect(),
        ),
    }
}

/// Rebuilds a `Json` as a `serde_json::Value`, variant by variant.
#[verifier::external_body]
fn to_value(value: &Json) -> serde_json::Value {
    match value {
        Json::Null => serde_json::Value::Null,
        Json::Bool(b) => serde_json::Value::Bool(*b),
        Json::Number(n) => serde_json::Value::Number(n.clone()),
        Json::Text(s) => serde_json::Value::String(s.clone()),
        Json::Array(items) => serde_json::Value::Array(items.iter().map(to_value).collect()),
        Json::Object(members) => serde_json::Value::Object(
            members.iter().map(|(k, v)| (k.clone(), to_value(v))).collect(),
        ),
    }
}

/// The document that `serde_json` reads from a text; nothing where the text
/// is not JSON.
pub uninterp spec fn json_parsed(text: Seq<char>) -> Option<JsonView>;

/// Reads `text` with `serde_json::from_str`.
#[verifier::external_body]
pub(crate) fn parse_json(text: &str) -> (r: Option<Json>)
    ensures
        parsed_view(r) == json_parsed(text@),
{
    let value = serde_json::from_str::<serde_json::Value>(text).ok()?;
    Some(from_value(&value))
}

/// The indented text that `serde_json` writes for a document; nothing where
/// it refuses to write it.
pub uninterp spec fn json_rendered(value: JsonView) -> Option<Seq<char>>;

/// Writes `value` with `serde_json::to_string_pretty`.
#[verifier::external_body]
pub(crate) fn render_json(value: &Json) -> (r: Option<String>)
    ensures
        match r {
            Some(text) => json_rendered(value@) == Some(text@),
            None => json_rendered(value@).is_none(),
        },
{
    serde_json::to_string_pretty(&to_value(value)).ok()
}

} // verus!
