//! JSON values.
//!
//! [`Json`] is what the crate's logic reads and builds. Text becomes a value
//! and a value becomes text through `serde_json`, and nowhere else.

use crate::text;
use crate::text::{same, Text};
use serde_json::{Number, Value};
use vstd::prelude::*;

verus! {

/// A JSON value. A number is kept as an integer where it is one that fits, and
/// otherwise as the text it prints as.
#[derive(Debug, PartialEq, Eq)]
pub enum Json {
    Null,
    Bool(bool),
    Int(i64),
    UInt(u64),
    Float(String),
    Text(String),
    Array(Vec<Json>),
    Object(Vec<(String, Json)>),
}

/// What a [`Json`] holds, as the contracts see it.
pub enum JsonView {
    Null,
    Bool(bool),
    Int(i64),
    UInt(u64),
    Float(Text),
    Text(Text),
    Array(Seq<JsonView>),
    Object(Seq<(Text, JsonView)>),
}

impl Json {
    pub open spec fn holds(self) -> JsonView
        decreases self,
    {
        match self {
            Json::Null => JsonView::Null,
            Json::Bool(b) => JsonView::Bool(b),
            Json::Int(n) => JsonView::Int(n),
            Json::UInt(n) => JsonView::UInt(n),
            Json::Float(s) => JsonView::Float(s@),
            Json::Text(s) => JsonView::Text(s@),
            Json::Array(list) => JsonView::Array(
                Seq::new(
                    list@.len(),
                    |i: int|
                        if 0 <= i < list@.len() {
                            list@[i].holds()
                        } else {
                            JsonView::Null
                        },
                ),
            ),
            Json::Object(list) => JsonView::Object(
                Seq::new(
                    list@.len(),
                    |i: int|
                        if 0 <= i < list@.len() {
                            (list@[i].0@, list@[i].1.holds())
                        } else {
                            (Seq::empty(), JsonView::Null)
                        },
                ),
            ),
        }
    }
}

impl View for Json {
    type V = JsonView;

    open spec fn view(&self) -> JsonView {
        self.holds()
    }
}

/// What a list of values holds.
pub open spec fn values(list: Seq<Json>) -> Seq<JsonView> {
    list.map_values(|j: Json| j@)
}

/// What a list of named values holds.
pub open spec fn named_values(list: Seq<(String, Json)>) -> Seq<(Text, JsonView)> {
    list.map_values(|p: (String, Json)| (p.0@, p.1@))
}

pub proof fn lemma_array_holds(list: Vec<Json>)
    ensures
        Json::Array(list)@ == JsonView::Array(values(list@)),
{
    assert(Json::Array(list)@->Array_0 =~= values(list@));
}

pub proof fn lemma_object_holds(list: Vec<(String, Json)>)
    ensures
        Json::Object(list)@ == JsonView::Object(named_values(list@)),
{
    assert(Json::Object(list)@->Object_0 =~= named_values(list@));
}

proof fn lemma_item_is_smaller(whole: Json, list: Vec<Json>, i: int)
    requires
        whole == Json::Array(list),
        0 <= i < list@.len(),
    ensures
        decreases_to!(whole => list@[i]),
{
    assert(decreases_to!(whole => whole->Array_0));
    assert(decreases_to!(list => list@));
    assert(decreases_to!(list@ => list@[i]));
}

proof fn lemma_member_is_smaller(whole: Json, list: Vec<(String, Json)>, i: int)
    requires
        whole == Json::Object(list),
        0 <= i < list@.len(),
    ensures
        decreases_to!(whole => list@[i].1),
{
    assert(decreases_to!(whole => whole->Object_0));
    assert(decreases_to!(list => list@));
    assert(decreases_to!(list@ => list@[i]));
    assert(decreases_to!(list@[i] => list@[i].1));
}

impl Clone for Json {
    fn clone(&self) -> (r: Self)
        ensures
            r@ == self@,
        decreases self,
    {
        match self {
            Json::Null => Json::Null,
            Json::Bool(b) => Json::Bool(*b),
            Json::Int(n) => Json::Int(*n),
            Json::UInt(n) => Json::UInt(*n),
            Json::Float(s) => Json::Float(s.clone()),
            Json::Text(s) => Json::Text(s.clone()),
            Json::Array(list) => {
                let mut out: Vec<Json> = Vec::new();
                let mut i: usize = 0;
                while i < list.len()
                    invariant
                        i <= list@.len(),
                        out@.len() == i,
                        self == Json::Array(*list),
                        forall|j: int| 0 <= j < i ==> (#[trigger] out@[j])@ == list@[j]@,
                    decreases list@.len() - i,
                {
                    proof {
                        lemma_item_is_smaller(*self, *list, i as int);
                    }
                    out.push((&list[i]).clone());
                    i += 1;
                }
                proof {
                    lemma_array_holds(out);
                    lemma_array_holds(*list);
                    assert(values(out@) =~= values(list@));
                }
                Json::Array(out)
            },
            Json::Object(list) => {
                let mut out: Vec<(String, Json)> = Vec::new();
                let mut i: usize = 0;
                while i < list.len()
                    invariant
                        i <= list@.len(),
                        out@.len() == i,
                        self == Json::Object(*list),
                        forall|j: int|
                            0 <= j < i ==> (#[trigger] out@[j]).0@ == list@[j].0@ && out@[j].1@
                                == list@[j].1@,
                    decreases list@.len() - i,
                {
                    proof {
                        lemma_member_is_smaller(*self, *list, i as int);
                    }
                    out.push((list[i].0.clone(), (&list[i].1).clone()));
                    i += 1;
                }
                proof {
                    lemma_object_holds(out);
                    lemma_object_holds(*list);
                    assert(named_values(out@) =~= named_values(list@));
                }
                Json::Object(out)
            },
        }
    }
}

// ---- reading ----

/// The value of the first entry named `key`.
pub open spec fn entry_named(entries: Seq<(Text, JsonView)>, key: Text) -> Option<JsonView>
    decreases entries.len(),
{
    if entries.len() == 0 {
        None
    } else if entries[0].0 == key {
        Some(entries[0].1)
    } else {
        entry_named(entries.drop_first(), key)
    }
}

/// A list with one more entry at its end holds what it held, and the new entry
/// where it held none of that name.
pub proof fn lemma_entry_push(entries: Seq<(Text, JsonView)>, one: (Text, JsonView), key: Text)
    ensures
        entry_named(entries.push(one), key) == (match entry_named(entries, key) {
            Some(v) => Some(v),
            None => if one.0 == key {
                Some(one.1)
            } else {
                None
            },
        }),
    decreases entries.len(),
{
    if entries.len() == 0 {
        assert(entries.push(one)[0] == one);
        assert(entry_named(entries.push(one).drop_first(), key) is None);
    } else if entries[0].0 == key {
        assert(entries.push(one)[0] == entries[0]);
    } else {
        assert(entries.push(one)[0] == entries[0]);
        lemma_entry_push(entries.drop_first(), one, key);
        assert(entries.push(one).drop_first() =~= entries.drop_first().push(one));
    }
}

impl JsonView {
    /// The member of an object, or nothing where the value is no object or has
    /// no such member.
    pub open spec fn member(self, key: Text) -> Option<JsonView> {
        match self {
            JsonView::Object(entries) => entry_named(entries, key),
            _ => None,
        }
    }

    pub open spec fn text(self) -> Option<Text> {
        match self {
            JsonView::Text(s) => Some(s),
            _ => None,
        }
    }

    pub open spec fn boolean(self) -> Option<bool> {
        match self {
            JsonView::Bool(b) => Some(b),
            _ => None,
        }
    }

    pub open spec fn integer(self) -> Option<i64> {
        match self {
            JsonView::Int(n) => Some(n),
            _ => None,
        }
    }

    pub open spec fn items(self) -> Option<Seq<JsonView>> {
        match self {
            JsonView::Array(list) => Some(list),
            _ => None,
        }
    }

    pub open spec fn entries(self) -> Option<Seq<(Text, JsonView)>> {
        match self {
            JsonView::Object(list) => Some(list),
            _ => None,
        }
    }

    /// The text of a member, where there is such a member and it is text.
    pub open spec fn member_text(self, key: Text) -> Option<Text> {
        match self.member(key) {
            Some(v) => v.text(),
            None => None,
        }
    }
}

impl Json {
    pub fn get(&self, key: &str) -> (r: Option<&Json>)
        ensures
            match r {
                Some(v) => self@.member(key@) == Some(v@),
                None => self@.member(key@) is None,
            },
    {
        match self {
            Json::Object(list) => {
                let ghost entries = named_values(list@);
                proof {
                    lemma_object_holds(*list);
                    assert(entries.skip(0) == entries);
                }
                let mut i: usize = 0;
                while i < list.len()
                    invariant
                        i <= list@.len(),
                        entries == named_values(list@),
                        self@ == JsonView::Object(entries),
                        entry_named(entries, key@) == entry_named(entries.skip(i as int), key@),
                    decreases list@.len() - i,
                {
                    assert(entries[i as int] == (list@[i as int].0@, list@[i as int].1@));
                    if same(list[i].0.as_str(), key) {
                        return Some(&list[i].1);
                    }
                    assert(entries.skip(i as int).drop_first() == entries.skip(i + 1));
                    i += 1;
                }
                None
            },
            _ => None,
        }
    }

    pub fn as_str(&self) -> (r: Option<&str>)
        ensures
            match r {
                Some(s) => self@.text() == Some(s@),
                None => self@.text() is None,
            },
    {
        match self {
            Json::Text(s) => Some(s.as_str()),
            _ => None,
        }
    }

    pub fn as_bool(&self) -> (r: Option<bool>)
        ensures
            r == self@.boolean(),
    {
        match self {
            Json::Bool(b) => Some(*b),
            _ => None,
        }
    }

    pub fn as_i64(&self) -> (r: Option<i64>)
        ensures
            r == self@.integer(),
    {
        match self {
            Json::Int(n) => Some(*n),
            _ => None,
        }
    }

    pub fn as_array(&self) -> (r: Option<&Vec<Json>>)
        ensures
            match r {
                Some(list) => self@.items() == Some(values(list@)),
                None => self@.items() is None,
            },
    {
        match self {
            Json::Array(list) => {
                proof {
                    lemma_array_holds(*list);
                }
                Some(list)
            },
            _ => None,
        }
    }

    pub fn as_object(&self) -> (r: Option<&Vec<(String, Json)>>)
        ensures
            match r {
                Some(list) => self@.entries() == Some(named_values(list@)),
                None => self@.entries() is None,
            },
    {
        match self {
            Json::Object(list) => {
                proof {
                    lemma_object_holds(*list);
                }
                Some(list)
            },
            _ => None,
        }
    }

    /// The text of a member, where there is such a member and it is text.
    pub fn get_str(&self, key: &str) -> (r: Option<&str>)
        ensures
            match r {
                Some(s) => self@.member_text(key@) == Some(s@),
                None => self@.member_text(key@) is None,
            },
    {
        match self.get(key) {
            Some(v) => v.as_str(),
            None => None,
        }
    }
}

// ---- building ----

/// An object under construction, entry by entry.
pub struct Fields {
    pub entries: Vec<(String, Json)>,
}

impl View for Fields {
    type V = Seq<(Text, JsonView)>;

    open spec fn view(&self) -> Seq<(Text, JsonView)> {
        named_values(self.entries@)
    }
}

impl Fields {
    pub fn new() -> (r: Fields)
        ensures
            r@ == Seq::<(Text, JsonView)>::empty(),
    {
        let r = Fields { entries: Vec::new() };
        assert(r@ =~= Seq::<(Text, JsonView)>::empty());
        r
    }

    pub fn put(&mut self, key: &str, value: Json)
        ensures
            final(self)@ == old(self)@.push((key@, value@)),
    {
        let ghost before = self@;
        let ghost entry = (key@, value@);
        self.entries.push((key.to_string(), value));
        assert(self@ =~= before.push(entry));
    }

    pub fn put_text(&mut self, key: &str, value: &str)
        ensures
            final(self)@ == old(self)@.push((key@, JsonView::Text(value@))),
    {
        self.put(key, Json::Text(value.to_string()));
    }

    pub fn object(self) -> (r: Json)
        ensures
            r@ == JsonView::Object(self@),
    {
        proof {
            lemma_object_holds(self.entries);
        }
        Json::Object(self.entries)
    }
}

/// A count as a value.
pub open spec fn number(n: u64) -> JsonView {
    if n <= i64::MAX {
        JsonView::Int(n as i64)
    } else {
        JsonView::UInt(n)
    }
}

/// A count as a value.
pub fn number_of(n: u64) -> (r: Json)
    ensures
        r@ == number(n),
{
    if n <= 0x7fff_ffff_ffff_ffff {
        Json::Int(n as i64)
    } else {
        Json::UInt(n)
    }
}

/// An array of the given texts.
pub open spec fn text_values(list: Seq<Text>) -> Seq<JsonView> {
    list.map_values(|s: Text| JsonView::Text(s))
}

/// An array of the given texts.
pub fn text_array(list: &Vec<String>) -> (r: Json)
    ensures
        r@ == JsonView::Array(text_values(text::texts(list@))),
{
    let mut out: Vec<Json> = Vec::new();
    let mut i: usize = 0;
    while i < list.len()
        invariant
            i <= list@.len(),
            out@.len() == i,
            forall|j: int| 0 <= j < i ==> (#[trigger] out@[j])@ == JsonView::Text(list@[j]@),
        decreases list@.len() - i,
    {
        out.push(Json::Text(list[i].clone()));
        i += 1;
    }
    assert(values(out@) =~= text_values(text::texts(list@)));
    array(out)
}

/// An array of the given values.
pub fn array(list: Vec<Json>) -> (r: Json)
    ensures
        r@ == JsonView::Array(values(list@)),
{
    proof {
        lemma_array_holds(list);
    }
    Json::Array(list)
}

/// A copy of every value, in order.
pub fn copies(list: &Vec<Json>) -> (r: Vec<Json>)
    ensures
        values(r@) == values(list@),
{
    let mut out: Vec<Json> = Vec::new();
    let mut i: usize = 0;
    while i < list.len()
        invariant
            i <= list@.len(),
            out@.len() == i,
            forall|j: int| 0 <= j < i ==> (#[trigger] out@[j])@ == list@[j]@,
        decreases list@.len() - i,
    {
        out.push((&list[i]).clone());
        i += 1;
    }
    assert(values(out@) =~= values(list@));
    out
}

// ---- text ----

/// What `serde_json::from_str` makes of a text: the value it denotes, or the
/// message of the error.
pub uninterp spec fn json_parse(text: Seq<char>) -> Result<JsonView, Seq<char>>;

/// What `serde_json::to_string` prints a value as.
pub uninterp spec fn json_compact(value: JsonView) -> Seq<char>;

/// What `serde_json::to_string_pretty` prints a value as.
pub uninterp spec fn json_pretty(value: JsonView) -> Seq<char>;

/// `serde_json`'s own tree of a value.
#[verifier::external_type_specification]
#[verifier::external_body]
pub struct ExValue(serde_json::Value);

/// A `serde_json::Value` as a [`Json`], variant by variant. Nothing is claimed
/// of it here: [`read`] names what the two steps come to.
#[verifier::external_body]
fn from_value(value: Value) -> Json {
    match value {
        Value::Null => Json::Null,
        Value::Bool(b) => Json::Bool(b),
        Value::Number(n) => match (n.as_i64(), n.as_u64()) {
            (Some(i), _) => Json::Int(i),
            (None, Some(u)) => Json::UInt(u),
            (None, None) => Json::Float(n.to_string()),
        },
        Value::String(s) => Json::Text(s),
        Value::Array(a) => Json::Array(a.into_iter().map(from_value).collect()),
        Value::Object(o) => Json::Object(o.into_iter().map(|(k, v)| (k, from_value(v))).collect()),
    }
}

/// A [`Json`] as a `serde_json::Value`, variant by variant. A float comes out as
/// it went in: its text is the shortest that is read as it. Nothing is claimed
/// of it here: [`compact`] and [`pretty`] name what comes of it.
#[verifier::external_body]
fn to_value(value: &Json) -> Value {
    match value {
        Json::Null => Value::Null,
        Json::Bool(b) => Value::Bool(*b),
        Json::Int(n) => Value::from(*n),
        Json::UInt(n) => Value::from(*n),
        Json::Float(s) => s.parse().ok().and_then(Number::from_f64).map_or(Value::Null, Value::Number),
        Json::Text(s) => Value::String(s.clone()),
        Json::Array(a) => Value::Array(a.iter().map(to_value).collect()),
        Json::Object(o) => Value::Object(o.iter().map(|(k, v)| (k.clone(), to_value(v))).collect()),
    }
}

/// `serde_json::from_str`: the result is the value that the text denotes, or
/// the message of the error, and depends on the text alone.
#[verifier::external_body]
fn read(text: &str) -> (r: Result<Json, String>)
    ensures
        match r {
            Ok(v) => json_parse(text@) == Ok::<JsonView, Seq<char>>(v@),
            Err(e) => json_parse(text@) == Err::<JsonView, Seq<char>>(e@),
        },
{
    match serde_json::from_str::<serde_json::Value>(text) {
        Ok(value) => Ok(from_value(value)),
        Err(error) => Err(error.to_string()),
    }
}

/// `serde_json::to_string`: one line of text, which depends on the value alone.
#[verifier::external_body]
fn compact(value: &Json) -> (r: String)
    ensures
        r@ == json_compact(value@),
{
    serde_json::to_string(&to_value(value)).unwrap_or_else(|error| format!("JSON error: {error}"))
}

/// `serde_json::to_string_pretty`: indented text, which depends on the value
/// alone.
#[verifier::external_body]
fn pretty(value: &Json) -> (r: String)
    ensures
        r@ == json_pretty(value@),
{
    serde_json::to_string_pretty(&to_value(value)).unwrap_or_else(|error| format!("JSON error: {error}"))
}

impl Json {
    /// The value that a text denotes, or the message that says why it denotes
    /// none.
    pub fn parse(text: &str) -> (r: Result<Json, String>)
        ensures
            match r {
                Ok(v) => json_parse(text@) == Ok::<JsonView, Seq<char>>(v@),
                Err(e) => json_parse(text@) == Err::<JsonView, Seq<char>>(e@),
            },
    {
        read(text)
    }

    /// The value as one line of text, which is what a request body carries.
    pub fn to_line(&self) -> (r: String)
        ensures
            r@ == json_compact(self@),
    {
        compact(self)
    }

    /// The value as indented text, which is what `--json` prints.
    pub fn to_pretty(&self) -> (r: String)
        ensures
            r@ == json_pretty(self@),
    {
        pretty(self)
    }
}

/// A member of an object is the first of its name, and there is none where no entry
/// has the name.
pub proof fn a_member_is_the_first_of_its_name(entries: Seq<(Text, JsonView)>, key: Text)
    ensures
        match JsonView::Object(entries).member(key) {
            Some(v) => exists|i: int|
                0 <= i < entries.len() && #[trigger] entries[i] == (key, v) && forall|j: int|
                    0 <= j < i ==> (#[trigger] entries[j]).0 != key,
            None => forall|i: int| 0 <= i < entries.len() ==> (#[trigger] entries[i]).0 != key,
        },
    decreases entries.len(),
{
    if entries.len() > 0 {
        let rest = entries.drop_first();
        a_member_is_the_first_of_its_name(rest, key);
        if entries[0].0 == key {
            assert(entries[0] == (key, entries[0].1));
        } else {
            match entry_named(rest, key) {
                Some(v) => {
                    let i = choose|i: int|
                        0 <= i < rest.len() && #[trigger] rest[i] == (key, v) && forall|j: int|
                            0 <= j < i ==> (#[trigger] rest[j]).0 != key;
                    assert(entries[i + 1] == (key, v));
                    assert forall|j: int| 0 <= j < i + 1 implies (#[trigger] entries[j]).0
                        != key by {
                        if j > 0 {
                            assert(rest[j - 1] == entries[j]);
                        }
                    }
                },
                None => {
                    assert forall|j: int| 0 <= j < entries.len() implies (#[trigger] entries[j]).0
                        != key by {
                        if j > 0 {
                            assert(rest[j - 1] == entries[j]);
                        }
                    }
                },
            }
        }
    }
}

/// A count is written as the number that it is, and a text as itself.
pub proof fn a_count_is_written_as_it_is(n: u64, list: Seq<Text>, i: int)
    ensures
        match number(n) {
            JsonView::Int(k) => k == n,
            JsonView::UInt(k) => k == n && n > i64::MAX,
            _ => false,
        },
        text_values(list).len() == list.len(),
        0 <= i < list.len() ==> text_values(list)[i] == JsonView::Text(list[i]),
{
}

} // verus!
