//! Names, as people write them, and the things they name.
//!
//! A state, a label or a project is found whatever its case and separators;
//! a name that finds nothing is an error that lists what there is.

use crate::error::Error;
use crate::json;
use crate::json::{Json, JsonView};
use crate::text;
use crate::text::Text;
use vstd::prelude::*;

verus! {

broadcast use crate::text::lemma_texts_push;

// ---- names ----

pub open spec fn is_separator(c: char) -> bool {
    c == ' ' || c == '-' || c == '_'
}

/// A name as it is compared: without separators, in lower case.
pub open spec fn folded(s: Text) -> Text
    decreases s.len(),
{
    if s.len() == 0 {
        Seq::empty()
    } else if is_separator(s.last()) {
        folded(s.drop_last())
    } else {
        folded(s.drop_last()) + text::lowercase_char(s.last())
    }
}

/// An ASCII name as it is compared, spelled out.
pub open spec fn ascii_folded(s: Text) -> Text
    decreases s.len(),
{
    if s.len() == 0 {
        Seq::empty()
    } else if is_separator(s.last()) {
        ascii_folded(s.drop_last())
    } else {
        ascii_folded(s.drop_last()).push(text::ascii_lower(s.last()))
    }
}

/// A name without case, spaces, hyphens and underscores.
pub fn normalize(s: &str) -> (r: String)
    ensures
        r@ == folded(s@),
        text::all_ascii(s@) ==> r@ == ascii_folded(s@),
{
    let chars = text::chars_of(s);
    let mut out: String = String::new();
    let mut i: usize = 0;
    while i < chars.len()
        invariant
            chars@ == s@,
            i <= chars@.len(),
            out@ == folded(s@.take(i as int)),
            text::all_ascii(s@) ==> out@ == ascii_folded(s@.take(i as int)),
        decreases chars@.len() - i,
    {
        let c: char = chars[i];
        assert(s@.take(i + 1).drop_last() == s@.take(i as int));
        assert(s@.take(i + 1).last() == c);
        if c != ' ' && c != '-' && c != '_' {
            let lower = text::to_lowercase_char(c);
            let ghost before = out@;
            let mut k: usize = 0;
            while k < lower.len()
                invariant
                    k <= lower@.len(),
                    out@ == before + lower@.take(k as int),
                decreases lower@.len() - k,
            {
                out.push(lower[k]);
                assert(out@ =~= before + lower@.take(k + 1));
                k += 1;
            }
            assert(lower@.take(lower@.len() as int) == lower@);
            assert(text::all_ascii(s@) ==> out@ =~= ascii_folded(s@.take(i + 1)));
        }
        i += 1;
    }
    assert(s@.take(s@.len() as int) == s@);
    out
}

/// Valid `priority` values on an issue.
pub const PRIORITIES: [&'static str; 5] = ["urgent", "high", "medium", "low", "none"];

/// Whether CE accepts a priority.
pub open spec fn is_priority(p: Text) -> bool {
    exists|i: int| 0 <= i < 5 && #[trigger] PRIORITIES@[i]@ == p
}

/// The priority that a name stands for.
pub open spec fn priority_of(p: Text) -> Result<Text, Seq<Text>> {
    if is_priority(folded(text::trimmed(p))) {
        Ok(folded(text::trimmed(p)))
    } else {
        Err(
            seq![
                "Invalid priority \""@ + p
                    + "\". Use one of: urgent, high, medium, low, none"@,
            ],
        )
    }
}

/// Whether a name, already in the form in which names are compared, is a
/// priority.
pub fn known_priority(p: &str) -> (r: bool)
    ensures
        r == is_priority(p@),
{
    let mut i: usize = 0;
    while i < 5
        invariant
            i <= 5,
            forall|j: int| 0 <= j < i ==> #[trigger] PRIORITIES@[j]@ != p@,
        decreases 5 - i,
    {
        if text::same(PRIORITIES[i], p) {
            assert(PRIORITIES@[i as int]@ == p@);
            return true;
        }
        i += 1;
    }
    false
}

/// Validate a priority against the values CE accepts. Like every other name it
/// is matched without case and separators.
pub fn normalize_priority(p: &str) -> (r: Result<String, Error>)
    ensures
        match r {
            Ok(v) => priority_of(p@) == Ok::<Text, Seq<Text>>(v@),
            Err(e) => priority_of(p@) == Err::<Text, Seq<Text>>(e@),
        },
        text::all_ascii(p@) ==> (r is Ok <==> is_priority(ascii_folded(text::trimmed(p@)))),
        text::all_ascii(p@) && r is Ok ==> r->Ok_0@ == ascii_folded(text::trimmed(p@)),
{
    proof {
        text::lemma_trimmed_within(p@);
    }
    let name = normalize(text::trim(p));
    if known_priority(name.as_str()) {
        Ok(name)
    } else {
        Err(
            Error::new(
                "Invalid priority \"".to_string().concat(p).concat(
                    "\". Use one of: urgent, high, medium, low, none",
                ),
            ),
        )
    }
}

// ---- dates ----

/// The shape `YYYY-MM-DD`, which is the only form CE takes.
pub open spec fn is_date(d: Text) -> bool {
    &&& d.len() == 10
    &&& d[4] == '-'
    &&& d[7] == '-'
    &&& forall|i: int| 0 <= i < 10 && i != 4 && i != 7 ==> text::is_digit(#[trigger] d[i])
}

pub open spec fn date_of(d: Text) -> Result<Text, Seq<Text>> {
    if is_date(text::trimmed(d)) {
        Ok(text::trimmed(d))
    } else {
        Err(seq!["Invalid date \""@ + text::trimmed(d) + "\". Use YYYY-MM-DD."@])
    }
}

/// Validate a `YYYY-MM-DD` date.
pub fn validate_date(d: &str) -> (r: Result<String, Error>)
    ensures
        match r {
            Ok(v) => date_of(d@) == Ok::<Text, Seq<Text>>(v@),
            Err(e) => date_of(d@) == Err::<Text, Seq<Text>>(e@),
        },
{
    let d: &str = text::trim(d);
    let chars = text::chars_of(d);
    let mut shaped: bool = chars.len() == 10 && chars[4] == '-' && chars[7] == '-';
    let mut i: usize = 0;
    while shaped && i < 10
        invariant
            chars@ == d@,
            i <= 10,
            shaped ==> d@.len() == 10 && d@[4] == '-' && d@[7] == '-' && forall|j: int|
                0 <= j < i && j != 4 && j != 7 ==> text::is_digit(#[trigger] d@[j]),
            !shaped ==> !is_date(d@),
        decreases 10 - i,
            (if shaped {
                1int
            } else {
                0
            }),
    {
        if i != 4 && i != 7 && !text::digit(chars[i]) {
            shaped = false;
        } else {
            i += 1;
        }
    }
    if shaped {
        Ok(d.to_string())
    } else {
        Err(
            Error::new(
                "Invalid date \"".to_string().concat(d).concat("\". Use YYYY-MM-DD."),
            ),
        )
    }
}

// ---- issue references ----

pub open spec fn all_alphanumeric(s: Text) -> bool {
    forall|i: int| 0 <= i < s.len() ==> text::is_alphanumeric(#[trigger] s[i])
}

pub open spec fn all_digits(s: Text) -> bool {
    forall|i: int| 0 <= i < s.len() ==> text::is_digit(#[trigger] s[i])
}

/// Whether a text is an identifier, a hyphen and a number.
pub open spec fn is_reference(s: Text) -> bool {
    let i = text::position(s, '-') as int;
    &&& 0 < i < s.len() - 1
    &&& all_alphanumeric(s.take(i))
    &&& all_digits(s.skip(i + 1))
}

/// A reference with its identifier in upper case.
pub open spec fn reference_text(s: Text) -> Text {
    let i = text::position(s, '-') as int;
    text::ascii_uppered(s.take(i)) + "-"@ + s.skip(i + 1)
}

/// The reference that a user typed.
pub open spec fn reference_of(s: Text) -> Result<Text, Seq<Text>> {
    if is_reference(text::trimmed(s)) {
        Ok(reference_text(text::trimmed(s)))
    } else {
        Err(
            seq![
                "Invalid issue reference \""@ + text::trimmed(s) + "\". Expected e.g. RES-12."@,
            ],
        )
    }
}

/// A human issue reference such as `RES-12`.
#[derive(Debug)]
pub struct IssueRef {
    text: String,
}

impl View for IssueRef {
    type V = Text;

    closed spec fn view(&self) -> Text {
        self.text@
    }
}

impl Clone for IssueRef {
    fn clone(&self) -> (r: Self)
        ensures
            r@ == self@,
    {
        IssueRef { text: self.text.clone() }
    }
}

fn alphanumeric_between(chars: &Vec<char>, from: usize, to: usize) -> (r: bool)
    requires
        from <= to <= chars@.len(),
    ensures
        r == all_alphanumeric(chars@.subrange(from as int, to as int)),
{
    let ghost part = chars@.subrange(from as int, to as int);
    let mut i: usize = from;
    while i < to
        invariant
            from <= i <= to <= chars@.len(),
            part == chars@.subrange(from as int, to as int),
            forall|j: int| 0 <= j < i - from ==> text::is_alphanumeric(#[trigger] part[j]),
        decreases to - i,
    {
        if !text::alphanumeric(chars[i]) {
            assert(!text::is_alphanumeric(part[i - from]));
            return false;
        }
        i += 1;
    }
    true
}

fn digits_between(chars: &Vec<char>, from: usize, to: usize) -> (r: bool)
    requires
        from <= to <= chars@.len(),
    ensures
        r == all_digits(chars@.subrange(from as int, to as int)),
{
    let ghost part = chars@.subrange(from as int, to as int);
    let mut i: usize = from;
    while i < to
        invariant
            from <= i <= to <= chars@.len(),
            part == chars@.subrange(from as int, to as int),
            forall|j: int| 0 <= j < i - from ==> text::is_digit(#[trigger] part[j]),
        decreases to - i,
    {
        if !text::digit(chars[i]) {
            assert(!text::is_digit(part[i - from]));
            return false;
        }
        i += 1;
    }
    true
}

impl IssueRef {
    pub fn parse(s: &str) -> (r: Result<IssueRef, Error>)
        ensures
            match r {
                Ok(v) => reference_of(s@) == Ok::<Text, Seq<Text>>(v@),
                Err(e) => reference_of(s@) == Err::<Text, Seq<Text>>(e@),
            },
    {
        let s: &str = text::trim(s);
        let chars = text::chars_of(s);
        let n: usize = chars.len();
        let dash: usize = text::find_char(&chars, '-');
        if 0 < dash && dash < n && dash + 1 < n {
            assert(s@.take(dash as int) == s@.subrange(0, dash as int));
            assert(s@.skip(dash + 1) == s@.subrange(dash + 1, n as int));
            if alphanumeric_between(&chars, 0, dash) && digits_between(&chars, dash + 1, n) {
                let ident = text::ascii_uppercase(s.substring_char(0, dash));
                let number: &str = s.substring_char(dash + 1, n);
                return Ok(IssueRef { text: ident.concat("-").concat(number) });
            }
        }
        Err(
            Error::new(
                "Invalid issue reference \"".to_string().concat(s).concat(
                    "\". Expected e.g. RES-12.",
                ),
            ),
        )
    }

    pub fn as_str(&self) -> (r: &str)
        ensures
            r@ == self@,
    {
        self.text.as_str()
    }
}

// ---- names of things in a project ----

/// The name of a thing as it is compared.
pub open spec fn key_of(item: JsonView) -> Option<Text> {
    match item.member_text("name"@) {
        Some(name) => Some(folded(name)),
        None => None,
    }
}

pub open spec fn keys_of(items: Seq<JsonView>) -> Seq<Option<Text>> {
    items.map_values(|item: JsonView| key_of(item))
}

/// The position of the first key that equals `wanted`, or the number of keys.
pub open spec fn first_key(keys: Seq<Option<Text>>, wanted: Text) -> nat
    decreases keys.len(),
{
    if keys.len() == 0 || keys[0] == Some(wanted) {
        0
    } else {
        1 + first_key(keys.drop_first(), wanted)
    }
}

/// What [`first_key`] is: no earlier key equals `wanted`, and the key there does
/// unless none does.
pub proof fn lemma_first_key(keys: Seq<Option<Text>>, wanted: Text)
    ensures
        first_key(keys, wanted) <= keys.len(),
        forall|j: int| 0 <= j < first_key(keys, wanted) ==> keys[j] != Some(wanted),
        first_key(keys, wanted) < keys.len() ==> keys[first_key(keys, wanted) as int] == Some(
            wanted,
        ),
    decreases keys.len(),
{
    if keys.len() > 0 && keys[0] != Some(wanted) {
        lemma_first_key(keys.drop_first(), wanted);
        assert forall|j: int| 0 <= j < first_key(keys, wanted) implies keys[j] != Some(wanted) by {
            if j > 0 {
                assert(keys.drop_first()[j - 1] == keys[j]);
            }
        }
    }
}

/// The first thing whose name matches, without case and separators.
pub open spec fn item_named(items: Seq<JsonView>, name: Text) -> Option<JsonView> {
    let i = first_key(keys_of(items), folded(name)) as int;
    if i < items.len() {
        Some(items[i])
    } else {
        None
    }
}

/// The name of a thing as ASCII names are compared.
pub open spec fn ascii_key_of(item: JsonView) -> Option<Text> {
    match item.member_text("name"@) {
        Some(name) => Some(ascii_folded(name)),
        None => None,
    }
}

pub open spec fn ascii_keys_of(items: Seq<JsonView>) -> Seq<Option<Text>> {
    items.map_values(|item: JsonView| ascii_key_of(item))
}

/// Whether the name of every thing that has one is ASCII.
pub open spec fn names_are_ascii(items: Seq<JsonView>) -> bool {
    forall|i: int|
        0 <= i < items.len() ==> ((#[trigger] items[i]).member_text("name"@) matches Some(name)
            ==> text::all_ascii(name))
}

/// The first thing whose name matches, as ASCII names are compared.
pub open spec fn ascii_item_named(items: Seq<JsonView>, name: Text) -> Option<JsonView> {
    let i = first_key(ascii_keys_of(items), ascii_folded(name)) as int;
    if i < items.len() {
        Some(items[i])
    } else {
        None
    }
}

/// The position of the first key that equals `wanted`, or the number of keys.
pub fn find_key(keys: &Vec<Option<String>>, wanted: &str) -> (r: usize)
    ensures
        r == first_key(keys@.map_values(|k: Option<String>| text::text_option(k)), wanted@),
        r <= keys@.len(),
{
    let ghost all = keys@.map_values(|k: Option<String>| text::text_option(k));
    let mut i: usize = 0;
    assert(all.skip(0) == all);
    while i < keys.len()
        invariant
            i <= keys@.len(),
            all == keys@.map_values(|k: Option<String>| text::text_option(k)),
            first_key(all, wanted@) == i + first_key(all.skip(i as int), wanted@),
        decreases keys@.len() - i,
    {
        assert(all[i as int] == text::text_option(keys@[i as int]));
        match &keys[i] {
            Some(key) => {
                if text::same(key.as_str(), wanted) {
                    return i;
                }
            },
            None => {},
        }
        assert(all.skip(i as int).drop_first() == all.skip(i + 1));
        i += 1;
    }
    i
}

/// Match on `name`, ignoring case, spaces, hyphens and underscores.
pub fn find_by_name<'a>(items: &'a Vec<Json>, name: &str) -> (r: Option<&'a Json>)
    ensures
        match r {
            Some(item) => item_named(json::values(items@), name@) == Some(item@),
            None => item_named(json::values(items@), name@) is None,
        },
        text::all_ascii(name@) && names_are_ascii(json::values(items@)) ==> item_named(
            json::values(items@),
            name@,
        ) == ascii_item_named(json::values(items@), name@),
{
    let ghost all = json::values(items@);
    let ghost wanted_keys = keys_of(all);
    let mut keys: Vec<Option<String>> = Vec::new();
    let mut i: usize = 0;
    while i < items.len()
        invariant
            i <= items@.len(),
            keys@.len() == i,
            all == json::values(items@),
            wanted_keys == keys_of(all),
            forall|j: int|
                0 <= j < i ==> text::text_option(#[trigger] keys@[j]) == wanted_keys[j],
            names_are_ascii(all) ==> forall|j: int|
                0 <= j < i ==> #[trigger] wanted_keys[j] == ascii_key_of(all[j]),
        decreases items@.len() - i,
    {
        assert(all[i as int] == items@[i as int]@);
        assert(wanted_keys[i as int] == key_of(all[i as int]));
        let key: Option<String> = match items[i].get_str("name") {
            Some(n) => Some(normalize(n)),
            None => None,
        };
        keys.push(key);
        i += 1;
    }
    assert(keys@.map_values(|k: Option<String>| text::text_option(k)) =~= wanted_keys);
    assert(names_are_ascii(all) ==> wanted_keys =~= ascii_keys_of(all));
    let wanted = normalize(name);
    let at: usize = find_key(&keys, wanted.as_str());
    if at < items.len() {
        Some(&items[at])
    } else {
        None
    }
}

/// The names that a project really has.
pub open spec fn names_in(items: Seq<JsonView>) -> Seq<Text>
    decreases items.len(),
{
    if items.len() == 0 {
        Seq::empty()
    } else {
        match items.last().member_text("name"@) {
            Some(name) => names_in(items.drop_last()).push(name),
            None => names_in(items.drop_last()),
        }
    }
}

/// The one message for a name that matched nothing, listing what the project
/// really has.
pub open spec fn missing(kind: Text, name: Text, items: Seq<JsonView>) -> Text {
    "No "@ + kind + " named \""@ + name + "\" in this project. Available: "@ + (if names_in(
        items,
    ).len() == 0 {
        "none"@
    } else {
        text::joined(names_in(items), ", "@)
    })
}

/// The names that a project really has.
pub fn name_list(items: &Vec<Json>) -> (r: Vec<String>)
    ensures
        text::texts(r@) == names_in(json::values(items@)),
{
    let ghost all = json::values(items@);
    let mut names: Vec<String> = Vec::new();
    let mut i: usize = 0;
    assert(text::texts(names@) =~= names_in(all.take(0)));
    while i < items.len()
        invariant
            i <= items@.len(),
            all == json::values(items@),
            text::texts(names@) == names_in(all.take(i as int)),
        decreases items@.len() - i,
    {
        assert(all.take(i + 1).drop_last() == all.take(i as int));
        assert(all.take(i + 1).last() == items@[i as int]@);
        match items[i].get_str("name") {
            Some(n) => {
                names.push(n.to_string());
            },
            None => {},
        }
        i += 1;
    }
    assert(all.take(all.len() as int) == all);
    names
}

pub fn no_such_name(kind: &str, name: &str, items: &Vec<Json>) -> (r: Error)
    ensures
        r@ == seq![missing(kind@, name@, json::values(items@))],
{
    let names = name_list(items);
    let available = if names.len() == 0 {
        "none".to_string()
    } else {
        text::join(&names, ", ")
    };
    Error::new(
        "No ".to_string().concat(kind).concat(" named \"").concat(name).concat(
            "\" in this project. Available: ",
        ).concat(available.as_str()),
    )
}

/// The thing with a name, or the error that lists the names there are.
pub open spec fn picked(kind: Text, items: Seq<JsonView>, name: Text) -> Result<
    JsonView,
    Seq<Text>,
> {
    match item_named(items, name) {
        Some(item) => Ok(item),
        None => Err(seq![missing(kind, name, items)]),
    }
}

pub fn pick(kind: &str, items: &Vec<Json>, name: &str) -> (r: Result<Json, Error>)
    ensures
        json_result(r) == picked(kind@, json::values(items@), name@),
{
    match find_by_name(items, name) {
        Some(item) => Ok(item.clone()),
        None => Err(no_such_name(kind, name, items)),
    }
}

/// What the outcome of a call holds.
pub open spec fn json_result(r: Result<Json, Error>) -> Result<JsonView, Seq<Text>> {
    match r {
        Ok(v) => Ok(v@),
        Err(e) => Err(e@),
    }
}

/// What an outcome that is text holds.
pub open spec fn text_result(r: Result<String, Error>) -> Result<Text, Seq<Text>> {
    match r {
        Ok(v) => Ok(v@),
        Err(e) => Err(e@),
    }
}

/// What an outcome that is a list of values holds.
pub open spec fn list_result(r: Result<Vec<Json>, Error>) -> Result<Seq<JsonView>, Seq<Text>> {
    match r {
        Ok(v) => Ok(json::values(v@)),
        Err(e) => Err(e@),
    }
}

/// What an outcome that is a list of texts holds.
pub open spec fn texts_result(r: Result<Vec<String>, Error>) -> Result<Seq<Text>, Seq<Text>> {
    match r {
        Ok(v) => Ok(text::texts(v@)),
        Err(e) => Err(e@),
    }
}

/// The UUID of the thing with a name. `title` is the kind as a sentence begins
/// with it.
pub open spec fn picked_id(
    kind: Text,
    title: Text,
    items: Seq<JsonView>,
    name: Text,
) -> Result<Text, Seq<Text>> {
    match picked(kind, items, name) {
        Ok(item) => match item.member_text("id"@) {
            Some(id) => Ok(id),
            None => Err(seq![title + " \""@ + name + "\" has no id"@]),
        },
        Err(e) => Err(e),
    }
}

/// Resolve a name to the UUID the API writes.
pub fn pick_id(kind: &str, title: &str, items: &Vec<Json>, name: &str) -> (r: Result<
    String,
    Error,
>)
    ensures
        text_result(r) == picked_id(kind@, title@, json::values(items@), name@),
{
    match find_by_name(items, name) {
        Some(item) => match item.get_str("id") {
            Some(id) => Ok(id.to_string()),
            None => Err(
                Error::new(
                    title.to_string().concat(" \"").concat(name).concat("\" has no id"),
                ),
            ),
        },
        None => Err(no_such_name(kind, name, items)),
    }
}

/// The identity of a thing, for telling two matches apart.
pub open spec fn id_of(item: JsonView) -> Text {
    match item.member_text("id"@) {
        Some(id) => id,
        None => Seq::empty(),
    }
}

pub open spec fn holds_id(items: Seq<JsonView>, id: Text) -> bool {
    exists|i: int| 0 <= i < items.len() && id_of(#[trigger] items[i]) == id
}

/// Every requested name matched against `items`, each thing once, in the order
/// asked for; the first name that matches nothing is an error.
pub open spec fn all_picked(kind: Text, items: Seq<JsonView>, names: Seq<Text>) -> Result<
    Seq<JsonView>,
    Seq<Text>,
>
    decreases names.len(),
{
    if names.len() == 0 {
        Ok(Seq::empty())
    } else {
        match all_picked(kind, items, names.drop_last()) {
            Ok(found) => match picked(kind, items, names.last()) {
                Ok(item) => if holds_id(found, id_of(item)) {
                    Ok(found)
                } else {
                    Ok(found.push(item))
                },
                Err(e) => Err(e),
            },
            Err(e) => Err(e),
        }
    }
}

proof fn lemma_miss_is_final(kind: Text, items: Seq<JsonView>, names: Seq<Text>, i: int)
    requires
        0 <= i <= names.len(),
        all_picked(kind, items, names.take(i)) is Err,
    ensures
        all_picked(kind, items, names) == all_picked(kind, items, names.take(i)),
    decreases names.len() - i,
{
    if i < names.len() {
        assert(names.take(i + 1).drop_last() == names.take(i));
        lemma_miss_is_final(kind, items, names, i + 1);
    } else {
        assert(names.take(i) == names);
    }
}

/// Match every requested name against `items`, erroring on the first miss: a
/// label silently dropped from a write is indistinguishable from one that was
/// never asked for.
pub fn resolve_all(items: &Vec<Json>, names: &Vec<String>, kind: &str) -> (r: Result<
    Vec<Json>,
    Error,
>)
    ensures
        list_result(r) == all_picked(kind@, json::values(items@), text::texts(names@)),
{
    let ghost all = json::values(items@);
    let ghost wanted = text::texts(names@);
    let mut out: Vec<Json> = Vec::new();
    let mut i: usize = 0;
    assert(json::values(out@) =~= Seq::empty());
    while i < names.len()
        invariant
            i <= names@.len(),
            all == json::values(items@),
            wanted == text::texts(names@),
            all_picked(kind@, all, wanted.take(i as int)) == Ok::<Seq<JsonView>, Seq<Text>>(
                json::values(out@),
            ),
        decreases names@.len() - i,
    {
        assert(wanted.take(i + 1).drop_last() == wanted.take(i as int));
        assert(wanted.take(i + 1).last() == names@[i as int]@);
        match pick(kind, items, names[i].as_str()) {
            Ok(found) => {
                if !listed_id(&out, id_text(&found).as_str()) {
                    let ghost before = json::values(out@);
                    out.push(found);
                    assert(json::values(out@) =~= before.push(found@));
                }
            },
            Err(e) => {
                proof {
                    lemma_miss_is_final(kind@, all, wanted, i + 1);
                }
                return Err(e);
            },
        }
        i += 1;
    }
    assert(wanted.take(wanted.len() as int) == wanted);
    Ok(out)
}

fn id_text(item: &Json) -> (r: String)
    ensures
        r@ == id_of(item@),
{
    match item.get_str("id") {
        Some(id) => id.to_string(),
        None => String::new(),
    }
}

fn listed_id(items: &Vec<Json>, id: &str) -> (r: bool)
    ensures
        r == holds_id(json::values(items@), id@),
{
    let ghost all = json::values(items@);
    let mut i: usize = 0;
    while i < items.len()
        invariant
            i <= items@.len(),
            all == json::values(items@),
            forall|j: int| 0 <= j < i ==> id_of(#[trigger] all[j]) != id@,
        decreases items@.len() - i,
    {
        assert(all[i as int] == items@[i as int]@);
        if text::same(id_text(&items[i]).as_str(), id) {
            return true;
        }
        i += 1;
    }
    false
}

/// The UUIDs that a write carries for labels.
pub open spec fn ids_of(labels: Seq<JsonView>) -> Result<Seq<Text>, Seq<Text>>
    decreases labels.len(),
{
    if labels.len() == 0 {
        Ok(Seq::empty())
    } else {
        match ids_of(labels.drop_last()) {
            Ok(ids) => match labels.last().member_text("id"@) {
                Some(id) => Ok(ids.push(id)),
                None => Err(
                    seq![
                        "Label \""@ + (match labels.last().member_text("name"@) {
                            Some(name) => name,
                            None => Seq::empty(),
                        }) + "\" has no id"@,
                    ],
                ),
            },
            Err(e) => Err(e),
        }
    }
}

proof fn lemma_no_id_is_final(labels: Seq<JsonView>, i: int)
    requires
        0 <= i <= labels.len(),
        ids_of(labels.take(i)) is Err,
    ensures
        ids_of(labels) == ids_of(labels.take(i)),
    decreases labels.len() - i,
{
    if i < labels.len() {
        assert(labels.take(i + 1).drop_last() == labels.take(i));
        lemma_no_id_is_final(labels, i + 1);
    } else {
        assert(labels.take(i) == labels);
    }
}

/// The UUIDs that a write carries for labels.
pub fn label_ids(found: &Vec<Json>) -> (r: Result<Vec<String>, Error>)
    ensures
        texts_result(r) == ids_of(json::values(found@)),
{
    let ghost all = json::values(found@);
    let mut ids: Vec<String> = Vec::new();
    let mut i: usize = 0;
    assert(text::texts(ids@) =~= Seq::empty());
    while i < found.len()
        invariant
            i <= found@.len(),
            all == json::values(found@),
            ids_of(all.take(i as int)) == Ok::<Seq<Text>, Seq<Text>>(text::texts(ids@)),
        decreases found@.len() - i,
    {
        assert(all.take(i + 1).drop_last() == all.take(i as int));
        assert(all.take(i + 1).last() == found@[i as int]@);
        match found[i].get_str("id") {
            Some(id) => {
                ids.push(id.to_string());
            },
            None => {
                let name: &str = match found[i].get_str("name") {
                    Some(name) => name,
                    None => "",
                };
                proof {
                    reveal_strlit("");
                    assert(""@ =~= Seq::<char>::empty());
                    lemma_no_id_is_final(all, i + 1);
                }
                return Err(
                    Error::new("Label \"".to_string().concat(name).concat("\" has no id")),
                );
            },
        }
        i += 1;
    }
    assert(all.take(all.len() as int) == all);
    Ok(ids)
}

// ---- projects ----

/// Whether a project carries an identifier, without ASCII case.
pub open spec fn has_identifier(project: JsonView, wanted: Text) -> bool {
    match project.member_text("identifier"@) {
        Some(identifier) => text::ascii_lowered(identifier) == text::ascii_lowered(wanted),
        None => false,
    }
}

/// The first project with an identifier.
pub open spec fn project_with(projects: Seq<JsonView>, wanted: Text) -> Option<JsonView>
    decreases projects.len(),
{
    if projects.len() == 0 {
        None
    } else if has_identifier(projects[0], wanted) {
        Some(projects[0])
    } else {
        project_with(projects.drop_first(), wanted)
    }
}

/// The first project with an identifier, compared without ASCII case.
pub fn find_identifier<'a>(projects: &'a Vec<Json>, wanted: &str) -> (r: Option<&'a Json>)
    ensures
        match r {
            Some(p) => project_with(json::values(projects@), wanted@) == Some(p@),
            None => project_with(json::values(projects@), wanted@) is None,
        },
{
    let ghost all = json::values(projects@);
    let folded_wanted = text::ascii_lowercase(wanted);
    let mut i: usize = 0;
    assert(all.skip(0) == all);
    while i < projects.len()
        invariant
            i <= projects@.len(),
            all == json::values(projects@),
            folded_wanted@ == text::ascii_lowered(wanted@),
            project_with(all, wanted@) == project_with(all.skip(i as int), wanted@),
        decreases projects@.len() - i,
    {
        assert(all[i as int] == projects@[i as int]@);
        match projects[i].get_str("identifier") {
            Some(identifier) => {
                if text::ascii_lowercase(identifier) == folded_wanted {
                    return Some(&projects[i]);
                }
            },
            None => {},
        }
        assert(all.skip(i as int).drop_first() == all.skip(i + 1));
        i += 1;
    }
    None
}

/// The project that a user named.
pub open spec fn project_named(projects: Seq<JsonView>, identifier: Text) -> Result<
    JsonView,
    Seq<Text>,
> {
    let wanted = text::uppercase(text::trimmed(identifier));
    match project_with(projects, wanted) {
        Some(p) => Ok(p),
        None => Err(
            seq!["No project with identifier "@ + wanted + ". Try `plane project list`."@],
        ),
    }
}

/// Look up a project by its identifier (`RES`), case-insensitively.
pub fn find_project(projects: &Vec<Json>, identifier: &str) -> (r: Result<Json, Error>)
    ensures
        json_result(r) == project_named(json::values(projects@), identifier@),
{
    let wanted = text::to_uppercase(text::trim(identifier));
    match find_identifier(projects, wanted.as_str()) {
        Some(p) => Ok(p.clone()),
        None => Err(
            Error::new(
                "No project with identifier ".to_string().concat(wanted.as_str()).concat(
                    ". Try `plane project list`.",
                ),
            ),
        ),
    }
}

// ---- laws ----

/// A name is compared piece by piece.
pub proof fn folding_joins(a: Text, b: Text)
    ensures
        folded(a + b) == folded(a) + folded(b),
    decreases b.len(),
{
    if b.len() == 0 {
        assert(a + b =~= a);
        assert(folded(a) + folded(b) =~= folded(a));
    } else {
        folding_joins(a, b.drop_last());
        assert((a + b).drop_last() =~= a + b.drop_last());
        assert((a + b).last() == b.last());
        if !is_separator(b.last()) {
            assert(folded(a + b) =~= folded(a) + folded(b));
        }
    }
}

/// Spaces, hyphens and underscores do not matter to a name, wherever they stand.
pub proof fn separators_do_not_matter(a: Text, b: Text, c: char)
    requires
        is_separator(c),
    ensures
        folded(a.push(c) + b) == folded(a + b),
        folded(seq![c]) == Seq::<char>::empty(),
{
    assert(seq![c].drop_last() =~= Seq::<char>::empty());
    assert(folded(seq![c]) == folded(seq![c].drop_last()));
    folding_joins(a.push(c), b);
    folding_joins(a, b);
    assert(a.push(c).drop_last() =~= a);
}

/// ASCII case does not matter to a name, as far as a name is ASCII.
pub proof fn ascii_case_does_not_matter(s: Text)
    ensures
        ascii_folded(text::ascii_uppered(s)) == ascii_folded(s),
        ascii_folded(text::ascii_lowered(s)) == ascii_folded(s),
    decreases s.len(),
{
    if s.len() > 0 {
        ascii_case_does_not_matter(s.drop_last());
        assert(text::ascii_uppered(s).drop_last() =~= text::ascii_uppered(s.drop_last()));
        assert(text::ascii_lowered(s).drop_last() =~= text::ascii_lowered(s.drop_last()));
        assert(text::ascii_uppered(s).last() == text::ascii_upper(s.last()));
        assert(text::ascii_lowered(s).last() == text::ascii_lower(s.last()));
    } else {
        assert(text::ascii_uppered(s) =~= s);
        assert(text::ascii_lowered(s) =~= s);
    }
}

/// Whether lowering a character once is enough: what it becomes is lower case
/// already, and no separator.
pub open spec fn settles(c: char) -> bool {
    forall|k: int|
        0 <= k < text::lowercase_char(c).len() ==> is_settled(#[trigger] text::lowercase_char(c)[k])
}

/// Whether a character of a name stays as it is where names are compared.
pub open spec fn is_settled(c: char) -> bool {
    !is_separator(c) && text::lowercase_char(c) == seq![c]
}

proof fn lemma_settled(s: Text)
    requires
        forall|k: int| 0 <= k < s.len() ==> is_settled(#[trigger] s[k]),
    ensures
        folded(s) == s,
    decreases s.len(),
{
    if s.len() > 0 {
        let front = s.drop_last();
        assert forall|k: int| 0 <= k < front.len() implies is_settled(#[trigger] front[k]) by {
            assert(front[k] == s[k]);
        }
        lemma_settled(front);
        assert(is_settled(s[s.len() - 1]));
        assert(front + seq![s.last()] =~= s);
    }
}

/// A name in the form in which names are compared stays as it is, whatever its
/// letters are, as long as lowering each of them once is enough.
pub proof fn folding_again_changes_nothing(s: Text)
    requires
        forall|i: int| 0 <= i < s.len() ==> is_separator(#[trigger] s[i]) || settles(s[i]),
    ensures
        folded(folded(s)) == folded(s),
    decreases s.len(),
{
    if s.len() > 0 {
        let front = s.drop_last();
        let c = s.last();
        assert forall|i: int| 0 <= i < front.len() implies is_separator(#[trigger] front[i])
            || settles(front[i]) by {
            assert(front[i] == s[i]);
        }
        folding_again_changes_nothing(front);
        if !is_separator(c) {
            assert(settles(s[s.len() - 1]));
            folding_joins(folded(front), text::lowercase_char(c));
            lemma_settled(text::lowercase_char(c));
        }
    }
}

/// An ASCII name in the form in which names are compared stays as it is.
pub proof fn ascii_folding_again_changes_nothing(s: Text)
    ensures
        ascii_folded(ascii_folded(s)) == ascii_folded(s),
        text::all_ascii(s) ==> text::all_ascii(ascii_folded(s)),
    decreases s.len(),
{
    if s.len() > 0 {
        let front = s.drop_last();
        ascii_folding_again_changes_nothing(front);
        assert(text::all_ascii(s) ==> text::all_ascii(front));
        if !is_separator(s.last()) {
            let c = text::ascii_lower(s.last());
            assert(!is_separator(c) && text::ascii_lower(c) == c);
            assert(ascii_folded(front).push(c).drop_last() =~= ascii_folded(front));
        }
    }
}

/// Two spellings of a name find the same thing.
pub proof fn spellings_find_the_same(items: Seq<JsonView>, a: Text, b: Text)
    requires
        folded(a) == folded(b),
    ensures
        item_named(items, a) == item_named(items, b),
{
}

/// However the letters of an ASCII name are cased, it finds the same thing.
pub proof fn ascii_cases_find_the_same(items: Seq<JsonView>, name: Text)
    ensures
        ascii_item_named(items, text::ascii_uppered(name)) == ascii_item_named(items, name),
        ascii_item_named(items, text::ascii_lowered(name)) == ascii_item_named(items, name),
{
    ascii_case_does_not_matter(name);
}

/// A name that is found is the name of a thing that there is, and no earlier
/// thing has it. A name that is not found is the name of none.
pub proof fn the_first_match_is_found(items: Seq<JsonView>, name: Text)
    ensures
        match item_named(items, name) {
            Some(item) => exists|i: int|
                0 <= i < items.len() && #[trigger] items[i] == item && key_of(items[i]) == Some(
                    folded(name),
                ) && forall|j: int|
                    0 <= j < i ==> key_of(#[trigger] items[j]) != Some(folded(name)),
            None => forall|j: int|
                0 <= j < items.len() ==> key_of(#[trigger] items[j]) != Some(folded(name)),
        },
{
    let keys = keys_of(items);
    lemma_first_key(keys, folded(name));
    let i = first_key(keys, folded(name)) as int;
    assert forall|j: int| 0 <= j < i && j < items.len() implies key_of(#[trigger] items[j])
        != Some(folded(name)) by {
        assert(keys[j] == key_of(items[j]));
    }
    if i < items.len() {
        assert(keys[i] == key_of(items[i]));
        assert(items[i] == item_named(items, name)->0);
    }
}

/// No thing comes out twice, however often it was asked for.
pub proof fn no_thing_is_picked_twice(kind: Text, items: Seq<JsonView>, names: Seq<Text>)
    ensures
        all_picked(kind, items, names) is Ok ==> forall|i: int, j: int|
            0 <= i < j < all_picked(kind, items, names)->Ok_0.len() ==> id_of(
                #[trigger] all_picked(kind, items, names)->Ok_0[i],
            ) != id_of(#[trigger] all_picked(kind, items, names)->Ok_0[j]),
    decreases names.len(),
{
    if names.len() > 0 {
        no_thing_is_picked_twice(kind, items, names.drop_last());
    }
}

/// Every name that was asked for is among what comes out, or the whole fails: no
/// label is silently dropped from a write.
pub proof fn no_name_is_dropped(kind: Text, items: Seq<JsonView>, names: Seq<Text>, i: int)
    requires
        0 <= i < names.len(),
    ensures
        match all_picked(kind, items, names) {
            Ok(found) => item_named(items, names[i]) is Some && holds_id(
                found,
                id_of(item_named(items, names[i])->0),
            ),
            Err(e) => exists|k: int|
                0 <= k < names.len() && e == seq![missing(kind, #[trigger] names[k], items)]
                    && item_named(items, names[k]) is None,
        },
    decreases names.len(),
{
    let front = names.drop_last();
    let last = names.len() - 1;
    if front.len() > 0 {
        let k = if i < last {
            i
        } else {
            0
        };
        no_name_is_dropped(kind, items, front, k);
    }
    match all_picked(kind, items, front) {
        Ok(before) => {
            match item_named(items, names[last]) {
                Some(item) => {
                    let found = all_picked(kind, items, names)->Ok_0;
                    if !holds_id(before, id_of(item)) {
                        assert(found[before.len() as int] == item);
                    }
                    if i < last {
                        assert(front[i] == names[i]);
                        let id = id_of(item_named(items, names[i])->0);
                        let k = choose|k: int|
                            0 <= k < before.len() && id_of(#[trigger] before[k]) == id;
                        assert(found[k] == before[k]);
                    }
                },
                None => {
                    assert(names[last] == names.last());
                },
            }
        },
        Err(e) => {
            if front.len() > 0 {
                let k = choose|k: int|
                    0 <= k < front.len() && e == seq![missing(kind, #[trigger] front[k], items)]
                        && item_named(items, front[k]) is None;
                assert(front[k] == names[k]);
            }
        },
    }
}

proof fn lemma_position_is(s: Text, c: char, i: int)
    requires
        0 <= i < s.len(),
        s[i] == c,
        forall|j: int| 0 <= j < i ==> s[j] != c,
    ensures
        text::position(s, c) == i,
{
    text::lemma_position(s, c);
}

/// A reference that was accepted is accepted again, as it is.
pub proof fn references_are_fixed_points(s: Text)
    requires
        reference_of(s) is Ok,
    ensures
        reference_of(reference_of(s)->Ok_0) == reference_of(s),
{
    let typed = text::trimmed(s);
    let r = reference_of(s)->Ok_0;
    let i = text::position(typed, '-') as int;
    reveal_strlit("-");
    let ident = text::ascii_uppered(typed.take(i));
    let number = typed.skip(i + 1);
    assert(r == ident + "-"@ + number);
    assert forall|j: int| 0 <= j < i implies text::is_alphanumeric(#[trigger] ident[j])
        && text::ascii_upper(ident[j]) == ident[j] by {
        assert(text::is_alphanumeric(typed.take(i)[j]));
    }
    assert forall|j: int| 0 <= j < i implies r[j] != '-' by {
        assert(r[j] == ident[j]);
    }
    lemma_position_is(r, '-', i);
    assert(r.take(i) =~= ident);
    assert(r.skip(i + 1) =~= number);
    assert(text::ascii_uppered(ident) =~= ident);
    assert(r[0] == ident[0]);
    assert(r.last() == number.last());
    assert(text::is_digit(number[number.len() - 1]));
    text::lemma_trim_nothing(r);
}

/// A name is folded letter by letter: a separator vanishes, and any other
/// character becomes its lower case. With [`folding_joins`] this is all that
/// folding does.
pub proof fn folding_goes_letter_by_letter(c: char)
    ensures
        folded(Seq::<char>::empty()) == Seq::<char>::empty(),
        folded(seq![c]) == (if c == ' ' || c == '-' || c == '_' {
            Seq::empty()
        } else {
            text::lowercase_char(c)
        }),
{
    let front = seq![c].drop_last();
    assert(front =~= Seq::<char>::empty());
    assert(folded(front) =~= Seq::<char>::empty());
    assert(Seq::<char>::empty() + text::lowercase_char(c) =~= text::lowercase_char(c));
}

/// The id that a name resolves to is the id of the thing with that name, and a
/// name resolves exactly where there is such a thing and it has an id.
pub proof fn a_name_resolves_to_the_id_of_its_thing(
    kind: Text,
    title: Text,
    items: Seq<JsonView>,
    name: Text,
)
    ensures
        match picked_id(kind, title, items, name) {
            Ok(id) => item_named(items, name) is Some && item_named(items, name)->0.member("id"@)
                == Some(JsonView::Text(id)),
            Err(_) => item_named(items, name) is None || !(item_named(items, name)->0.member("id"@)
                matches Some(JsonView::Text(_))),
        },
{
}

/// Everything that comes out was asked for by a name, and what a longer list of
/// names adds comes behind what the shorter one gave: the order is the one of the
/// names.
pub proof fn what_is_picked_was_asked_for(
    kind: Text,
    items: Seq<JsonView>,
    names: Seq<Text>,
    more: Seq<Text>,
)
    requires
        all_picked(kind, items, names + more) is Ok,
    ensures
        all_picked(kind, items, names) is Ok,
        all_picked(kind, items, names)->Ok_0.len() <= all_picked(
            kind,
            items,
            names + more,
        )->Ok_0.len(),
        all_picked(kind, items, names)->Ok_0 == all_picked(kind, items, names + more)->Ok_0.take(
            all_picked(kind, items, names)->Ok_0.len() as int,
        ),
        forall|i: int|
            0 <= i < all_picked(kind, items, names + more)->Ok_0.len() ==> exists|k: int|
                0 <= k < (names + more).len() && item_named(items, #[trigger] (names + more)[k])
                    == Some(#[trigger] all_picked(kind, items, names + more)->Ok_0[i]),
    decreases names.len() + more.len(),
{
    let all = names + more;
    if more.len() == 0 {
        assert(all =~= names);
        let found = all_picked(kind, items, names)->Ok_0;
        assert(found.take(found.len() as int) =~= found);
        if names.len() > 0 {
            let front = names.drop_last();
            assert(front + Seq::<Text>::empty() =~= front);
            what_is_picked_was_asked_for(kind, items, front, Seq::empty());
            lemma_sources(kind, items, names);
        }
    } else {
        let front = more.drop_last();
        assert(all.drop_last() =~= names + front);
        what_is_picked_was_asked_for(kind, items, names, front);
        let before = all_picked(kind, items, names + front)->Ok_0;
        let after = all_picked(kind, items, all)->Ok_0;
        let n = all_picked(kind, items, names)->Ok_0.len() as int;
        assert(after.take(n) =~= before.take(n));
        lemma_sources(kind, items, all);
    }
}

proof fn lemma_sources(kind: Text, items: Seq<JsonView>, names: Seq<Text>)
    requires
        all_picked(kind, items, names) is Ok,
    ensures
        forall|i: int|
            0 <= i < all_picked(kind, items, names)->Ok_0.len() ==> exists|k: int|
                0 <= k < names.len() && item_named(items, #[trigger] names[k]) == Some(
                    #[trigger] all_picked(kind, items, names)->Ok_0[i],
                ),
    decreases names.len(),
{
    if names.len() > 0 {
        let front = names.drop_last();
        lemma_sources(kind, items, front);
        let before = all_picked(kind, items, front)->Ok_0;
        let after = all_picked(kind, items, names)->Ok_0;
        assert forall|i: int| 0 <= i < after.len() implies exists|k: int|
            0 <= k < names.len() && item_named(items, #[trigger] names[k]) == Some(
                #[trigger] after[i],
            ) by {
            if i < before.len() {
                assert(after[i] == before[i]);
                let k = choose|k: int|
                    0 <= k < front.len() && item_named(items, #[trigger] front[k]) == Some(
                        before[i],
                    );
                assert(names[k] == front[k]);
            } else {
                assert(item_named(items, names[names.len() - 1]) == Some(after[i]));
            }
        }
    }
}

/// The ids that a write carries are those of the labels, one for each and in
/// their order.
pub proof fn each_label_gives_its_id(labels: Seq<JsonView>)
    ensures
        match ids_of(labels) {
            Ok(ids) => ids.len() == labels.len() && forall|i: int|
                0 <= i < labels.len() ==> (#[trigger] labels[i]).member("id"@) == Some(
                    JsonView::Text(ids[i]),
                ),
            Err(_) => exists|i: int|
                0 <= i < labels.len() && (#[trigger] labels[i]).member_text("id"@) is None,
        },
    decreases labels.len(),
{
    if labels.len() > 0 {
        let front = labels.drop_last();
        each_label_gives_its_id(front);
        match ids_of(front) {
            Ok(ids) => {
                assert forall|i: int| 0 <= i < front.len() implies (#[trigger] labels[i]).member(
                    "id"@,
                ) == Some(JsonView::Text(ids[i])) by {
                    assert(front[i] == labels[i]);
                }
                assert(labels[labels.len() - 1] == labels.last());
            },
            Err(_) => {
                let i = choose|i: int|
                    0 <= i < front.len() && (#[trigger] front[i]).member_text("id"@) is None;
                assert(labels[i] == front[i]);
            },
        }
    }
}

/// A project is found by its identifier, whatever the case of its ASCII letters:
/// it is the first that has it, and none is found only where none has it.
pub proof fn the_first_project_with_the_identifier_is_found(projects: Seq<JsonView>, wanted: Text)
    ensures
        match project_with(projects, wanted) {
            Some(p) => exists|i: int|
                0 <= i < projects.len() && #[trigger] projects[i] == p && has_identifier(p, wanted)
                    && forall|j: int|
                    0 <= j < i ==> !has_identifier(#[trigger] projects[j], wanted),
            None => forall|j: int|
                0 <= j < projects.len() ==> !has_identifier(#[trigger] projects[j], wanted),
        },
    decreases projects.len(),
{
    if projects.len() > 0 && !has_identifier(projects[0], wanted) {
        let rest = projects.drop_first();
        the_first_project_with_the_identifier_is_found(rest, wanted);
        match project_with(rest, wanted) {
            Some(p) => {
                let i = choose|i: int|
                    0 <= i < rest.len() && #[trigger] rest[i] == p && has_identifier(p, wanted)
                        && forall|j: int|
                        0 <= j < i ==> !has_identifier(#[trigger] rest[j], wanted);
                assert(projects[i + 1] == p);
                assert forall|j: int| 0 <= j < i + 1 implies !has_identifier(
                    #[trigger] projects[j],
                    wanted,
                ) by {
                    if j > 0 {
                        assert(rest[j - 1] == projects[j]);
                    }
                }
            },
            None => {
                assert forall|j: int| 0 <= j < projects.len() implies !has_identifier(
                    #[trigger] projects[j],
                    wanted,
                ) by {
                    if j > 0 {
                        assert(rest[j - 1] == projects[j]);
                    }
                }
            },
        }
    }
}

/// An identifier is that of a project where both are the same in ASCII lower
/// case; a project without one has none.
pub proof fn an_identifier_is_compared_without_case(project: JsonView, wanted: Text)
    ensures
        match project.member("identifier"@) {
            Some(JsonView::Text(identifier)) => has_identifier(project, wanted) == (
            text::ascii_lowered(identifier) == text::ascii_lowered(wanted)),
            _ => !has_identifier(project, wanted),
        },
{
}

/// An identifier, a hyphen and a number are a reference, and it comes out with
/// the identifier in upper case and the number as it is. Nothing else is one.
pub proof fn a_reference_is_an_identifier_and_a_number(ident: Text, number: Text, s: Text)
    ensures
        ident.len() > 0 && all_alphanumeric(ident) && number.len() > 0 && all_digits(number)
            ==> reference_of(ident + "-"@ + number) == Ok::<Text, Seq<Text>>(
            text::ascii_uppered(ident) + "-"@ + number,
        ),
        reference_of(s) is Ok ==> exists|a: Text, b: Text|
            a.len() > 0 && b.len() > 0 && #[trigger] all_alphanumeric(a) && #[trigger] all_digits(
                b,
            ) && text::trimmed(s) == a + "-"@ + b && reference_of(s)->Ok_0 == text::ascii_uppered(a)
                + "-"@ + b,
{
    reveal_strlit("-");
    if ident.len() > 0 && all_alphanumeric(ident) && number.len() > 0 && all_digits(number) {
        let whole = ident + "-"@ + number;
        let n = ident.len() as int;
        assert(text::is_alphanumeric(ident[0]));
        assert(text::is_digit(number[number.len() - 1]));
        assert(whole.last() == number.last());
        assert(whole[0] == ident[0]);
        text::lemma_trim_nothing(whole);
        assert forall|j: int| 0 <= j < n implies whole[j] != '-' by {
            assert(text::is_alphanumeric(ident[j]));
        }
        lemma_position_is(whole, '-', n);
        assert(whole.take(n) =~= ident);
        assert(whole.skip(n + 1) =~= number);
    }
    if reference_of(s) is Ok {
        let typed = text::trimmed(s);
        let n = text::position(typed, '-') as int;
        text::lemma_position(typed, '-');
        let a = typed.take(n);
        let b = typed.skip(n + 1);
        assert(typed =~= a + "-"@ + b);
        assert(all_alphanumeric(a) && all_digits(b));
    }
}

/// Four digits, two digits and two digits with hyphens between them are a date,
/// which comes out as it is; nothing else is one.
pub proof fn a_date_is_year_month_and_day(y: Text, m: Text, d: Text, s: Text)
    ensures
        y.len() == 4 && m.len() == 2 && d.len() == 2 && all_digits(y) && all_digits(m)
            && all_digits(d) ==> date_of(y + "-"@ + m + "-"@ + d) == Ok::<Text, Seq<Text>>(
            y + "-"@ + m + "-"@ + d,
        ),
        date_of(s) matches Ok(v) ==> v == text::trimmed(s) && v.len() == 10 && v[4] == '-' && v[7]
            == '-' && all_digits(v.take(4)) && all_digits(v.subrange(5, 7)) && all_digits(
            v.skip(8),
        ),
{
    reveal_strlit("-");
    if y.len() == 4 && m.len() == 2 && d.len() == 2 && all_digits(y) && all_digits(m)
        && all_digits(d) {
        let v = y + "-"@ + m + "-"@ + d;
        assert forall|i: int| 0 <= i < 10 && i != 4 && i != 7 implies text::is_digit(
            #[trigger] v[i],
        ) by {
            if i < 4 {
                assert(v[i] == y[i]);
            } else if i < 7 {
                assert(v[i] == m[i - 5]);
            } else {
                assert(v[i] == d[i - 8]);
            }
        }
        assert(v[4] == '-' && v[7] == '-' && v.len() == 10);
        assert(text::is_digit(v[0]) && text::is_digit(v[9]));
        text::lemma_trim_nothing(v);
    }
}

/// A priority is one of the five that CE takes, as the name that was given folds
/// to it; a name that folds to none of them is refused.
pub proof fn a_priority_is_one_of_five(p: Text)
    ensures
        match priority_of(p) {
            Ok(v) => v == folded(text::trimmed(p)) && (v == "urgent"@ || v == "high"@ || v
                == "medium"@ || v == "low"@ || v == "none"@),
            Err(_) => ({
                let v = folded(text::trimmed(p));
                v != "urgent"@ && v != "high"@ && v != "medium"@ && v != "low"@ && v != "none"@
            }),
        },
{
    let v = folded(text::trimmed(p));
    assert(PRIORITIES@[0]@ == "urgent"@);
    assert(PRIORITIES@[1]@ == "high"@);
    assert(PRIORITIES@[2]@ == "medium"@);
    assert(PRIORITIES@[3]@ == "low"@);
    assert(PRIORITIES@[4]@ == "none"@);
    if is_priority(v) {
        let i = choose|i: int| 0 <= i < 5 && #[trigger] PRIORITIES@[i]@ == v;
        assert(i == 0 || i == 1 || i == 2 || i == 3 || i == 4);
    }
}

/// The names of some things are the names that the things have.
pub proof fn names_are_those_of_the_things(items: Seq<JsonView>, name: Text)
    ensures
        names_in(items).contains(name) <==> exists|i: int|
            0 <= i < items.len() && (#[trigger] items[i]).member("name"@) == Some(
                JsonView::Text(name),
            ),
    decreases items.len(),
{
    if items.len() > 0 {
        let front = items.drop_last();
        names_are_those_of_the_things(front, name);
        assert(forall|i: int| 0 <= i < front.len() ==> #[trigger] front[i] == items[i]);
        let before = names_in(front);
        if names_in(items).contains(name) && !before.contains(name) {
            let k = names_in(items).index_of(name);
            assert(k < before.len() ==> before[k] == name);
            assert(items[items.len() - 1].member("name"@) == Some(JsonView::Text(name)));
        }
        if before.contains(name) {
            let k = before.index_of(name);
            assert(names_in(items)[k] == name);
        }
        if items.last().member("name"@) == Some(JsonView::Text(name)) {
            assert(names_in(items)[names_in(items).len() - 1] == name);
        }
        if exists|i: int|
            0 <= i < items.len() && (#[trigger] items[i]).member("name"@) == Some(
                JsonView::Text(name),
            ) {
            let i = choose|i: int|
                0 <= i < items.len() && (#[trigger] items[i]).member("name"@) == Some(
                    JsonView::Text(name),
                );
            if i < front.len() {
                assert(front[i].member("name"@) == Some(JsonView::Text(name)));
            }
        }
    }
}

/// What was typed wrong is said again in the error, with what would have done.
pub proof fn what_was_typed_wrong_is_said(s: Text)
    ensures
        priority_of(s) matches Err(e) ==> e == seq![
            "Invalid priority \""@ + s + "\". Use one of: urgent, high, medium, low, none"@,
        ],
        date_of(s) matches Err(e) ==> e == seq![
            "Invalid date \""@ + text::trimmed(s) + "\". Use YYYY-MM-DD."@,
        ],
        reference_of(s) matches Err(e) ==> e == seq![
            "Invalid issue reference \""@ + text::trimmed(s) + "\". Expected e.g. RES-12."@,
        ],
{
}

/// A name that matches nothing is said in the error, with its kind and with every
/// name that there is.
pub proof fn a_miss_says_what_there_is(kind: Text, name: Text, items: Seq<JsonView>, i: int)
    ensures
        item_named(items, name) is None ==> picked(kind, items, name) == Err::<JsonView, Seq<Text>>(
            seq![missing(kind, name, items)],
        ),
        text::starts(
            missing(kind, name, items),
            "No "@ + kind + " named \""@ + name + "\" in this project. Available: "@,
        ),
        0 <= i < names_in(items).len() ==> text::occurs(
            missing(kind, name, items),
            names_in(items)[i],
        ),
        names_in(items).len() == 0 ==> missing(kind, name, items) == "No "@ + kind + " named \""@
            + name + "\" in this project. Available: "@ + "none"@,
{
    let front = "No "@ + kind + " named \""@ + name + "\" in this project. Available: "@;
    let whole = missing(kind, name, items);
    assert(whole.subrange(0, front.len() as int) =~= front);
    if 0 <= i < names_in(items).len() {
        text::joining_keeps_each_piece(names_in(items), ", "@, i);
        let none = Seq::<char>::empty();
        let list = text::joined(names_in(items), ", "@);
        text::lemma_occurs_within(front, list, none, names_in(items)[i]);
        assert(front + list + none =~= whole);
    }
}

/// A project that is not there is said in the error as it was looked for.
pub proof fn a_missing_project_is_said(projects: Seq<JsonView>, identifier: Text)
    ensures
        project_named(projects, identifier) matches Err(e) ==> e.len() == 1 && text::occurs(
            e[0],
            text::uppercase(text::trimmed(identifier)),
        ),
{
    text::lemma_between(
        "No project with identifier "@,
        text::uppercase(text::trimmed(identifier)),
        ". Try `plane project list`."@,
    );
}

} // verus!
