//! What an issue write carries.

use crate::client;
use crate::client::{Client, ClientView};
use crate::json;
use crate::json::JsonView;
use crate::markdown;
use crate::names;
use crate::script;
use crate::script::{AnswerView, Ask, AskView, Heard, Stop, Talk, TalkView};
use crate::text;
use crate::text::Text;
use vstd::prelude::*;

verus! {

broadcast use crate::text::lemma_texts_push;

/// The fields of an issue write, already resolved to what the API takes.
pub struct IssueFields {
    pub name: Option<String>,
    pub description_html: Option<String>,
    pub state_id: Option<String>,
    pub priority: Option<String>,
    pub target_date: Option<String>,
    pub label_ids: Option<Vec<String>>,
}

/// What an [`IssueFields`] holds.
pub struct FieldsView {
    pub name: Option<Text>,
    pub description_html: Option<Text>,
    pub state_id: Option<Text>,
    pub priority: Option<Text>,
    pub target_date: Option<Text>,
    pub label_ids: Option<Seq<Text>>,
}

pub open spec fn texts_option(list: Option<Vec<String>>) -> Option<Seq<Text>> {
    match list {
        Some(list) => Some(text::texts(list@)),
        None => None,
    }
}

impl View for IssueFields {
    type V = FieldsView;

    open spec fn view(&self) -> FieldsView {
        FieldsView {
            name: text::text_option(self.name),
            description_html: text::text_option(self.description_html),
            state_id: text::text_option(self.state_id),
            priority: text::text_option(self.priority),
            target_date: text::text_option(self.target_date),
            label_ids: texts_option(self.label_ids),
        }
    }
}

impl Default for IssueFields {
    fn default() -> (r: Self)
        ensures
            r@ == (FieldsView {
                name: None,
                description_html: None,
                state_id: None,
                priority: None,
                target_date: None,
                label_ids: None,
            }),
    {
        IssueFields {
            name: None,
            description_html: None,
            state_id: None,
            priority: None,
            target_date: None,
            label_ids: None,
        }
    }
}

/// The entries with one more where there is a text for it.
pub open spec fn with_text(
    entries: Seq<(Text, JsonView)>,
    key: Text,
    value: Option<Text>,
) -> Seq<(Text, JsonView)> {
    match value {
        Some(v) => entries.push((key, JsonView::Text(v))),
        None => entries,
    }
}

/// The body of an issue write: a key for each field that is set.
pub open spec fn body_of(f: FieldsView) -> Seq<(Text, JsonView)> {
    let entries = with_text(Seq::empty(), "name"@, f.name);
    let entries = with_text(entries, "description_html"@, f.description_html);
    let entries = with_text(entries, "state"@, f.state_id);
    let entries = with_text(entries, "priority"@, f.priority);
    let entries = with_text(entries, "target_date"@, f.target_date);
    match f.label_ids {
        Some(ids) => entries.push(("labels"@, JsonView::Array(json::text_values(ids)))),
        None => entries,
    }
}

fn put_option(fields: &mut json::Fields, key: &str, value: &Option<String>)
    ensures
        final(fields)@ == with_text(old(fields)@, key@, text::text_option(*value)),
{
    match value {
        Some(v) => {
            fields.put_text(key, v.as_str());
        },
        None => {},
    }
}

/// Assemble an issue write body.
///
/// The key that matters is `labels`. Its plausible spelling `label_ids` is
/// accepted with a 200 and silently ignored, so renaming this key would stop
/// writing labels without failing anything.
pub fn write_body(f: &IssueFields) -> (r: json::Fields)
    ensures
        r@ == body_of(f@),
{
    let mut body = json::Fields::new();
    put_option(&mut body, "name", &f.name);
    put_option(&mut body, "description_html", &f.description_html);
    put_option(&mut body, "state", &f.state_id);
    put_option(&mut body, "priority", &f.priority);
    put_option(&mut body, "target_date", &f.target_date);
    match &f.label_ids {
        Some(ids) => {
            body.put("labels", json::text_array(ids));
        },
        None => {},
    }
    body
}

// ---- resolving it ----

pub open spec fn heard_option(r: Result<Option<String>, Stop>, t: TalkView) -> Heard<
    Option<Text>,
> {
    match r {
        Ok(v) => Heard::Got(text::text_option(v), t),
        Err(s) => script::stopped(s, t),
    }
}

pub open spec fn heard_ids(r: Result<Option<Vec<String>>, Stop>, t: TalkView) -> Heard<
    Option<Seq<Text>>,
> {
    match r {
        Ok(v) => Heard::Got(texts_option(v), t),
        Err(s) => script::stopped(s, t),
    }
}

/// Markdown from the argument, or from standard input when it is `-`.
pub open spec fn markdown_heard(arg: Text, t: TalkView) -> Heard<Text> {
    if arg == "-"@ {
        script::told(t, AskView::ReadStdin).context("Could not read markdown from stdin"@)
    } else {
        Heard::Got(arg, t)
    }
}

/// Take markdown from the argument, or from stdin when it is `-`.
pub(crate) fn read_markdown(arg: &str, talk: &mut Talk) -> (r: Result<String, Stop>)
    ensures
        script::heard_text(r, final(talk)@) == markdown_heard(arg@, old(talk)@),
{
    if text::same(arg, "-") {
        match talk.text(Ask::ReadStdin) {
            Ok(s) => Ok(s),
            Err(stop) => Err(stop.context("Could not read markdown from stdin".to_string())),
        }
    } else {
        Ok(arg.to_string())
    }
}

/// The description that a write carries, as HTML.
pub open spec fn description_heard(md: Option<Text>, t: TalkView) -> Heard<Option<Text>> {
    match md {
        Some(arg) => markdown_heard(arg, t).next(
            |md: Text, t: TalkView| Heard::Got(Some(markdown::html_of(md)), t),
        ),
        None => Heard::Got(None, t),
    }
}

pub(crate) fn read_description(md: &Option<String>, talk: &mut Talk) -> (r: Result<Option<String>, Stop>)
    ensures
        heard_option(r, final(talk)@) == description_heard(text::text_option(*md), old(talk)@),
{
    match md {
        Some(arg) => {
            let source = read_markdown(arg.as_str(), talk)?;
            Ok(Some(markdown::to_html(source.as_str())))
        },
        None => Ok(None),
    }
}

/// The state that a write carries, by id.
pub open spec fn state_heard(
    c: ClientView,
    project: Text,
    state: Option<Text>,
    t: TalkView,
) -> Heard<Option<Text>> {
    match state {
        Some(name) => c.resolve_state(project, name, t).next(
            |id: Text, t: TalkView| Heard::Got(Some(id), t),
        ),
        None => Heard::Got(None, t),
    }
}

pub(crate) fn read_state(c: &Client, project_id: &str, state: &Option<String>, talk: &mut Talk) -> (r: Result<
    Option<String>,
    Stop,
>)
    ensures
        heard_option(r, final(talk)@) == state_heard(
            c@,
            project_id@,
            text::text_option(*state),
            old(talk)@,
        ),
{
    match state {
        Some(name) => Ok(Some(c.resolve_state(talk, project_id, name.as_str())?)),
        None => Ok(None),
    }
}

/// The priority that a write carries.
pub open spec fn priority_heard(priority: Option<Text>, t: TalkView) -> Heard<Option<Text>> {
    match priority {
        Some(p) => match names::priority_of(p) {
            Ok(v) => Heard::Got(Some(v), t),
            Err(e) => Heard::Failed(e, t),
        },
        None => Heard::Got(None, t),
    }
}

pub(crate) fn read_priority(priority: &Option<String>) -> (r: Result<Option<String>, Stop>)
    ensures
        forall|t: TalkView| #[trigger]
            heard_option(r, t) == priority_heard(text::text_option(*priority), t),
{
    match priority {
        Some(p) => match names::normalize_priority(p.as_str()) {
            Ok(v) => Ok(Some(v)),
            Err(e) => Err(Stop::Fail(e)),
        },
        None => Ok(None),
    }
}

/// The due date that a write carries.
pub open spec fn date_heard(due: Option<Text>, t: TalkView) -> Heard<Option<Text>> {
    match due {
        Some(d) => match names::date_of(d) {
            Ok(v) => Heard::Got(Some(v), t),
            Err(e) => Heard::Failed(e, t),
        },
        None => Heard::Got(None, t),
    }
}

pub(crate) fn read_date(due: &Option<String>) -> (r: Result<Option<String>, Stop>)
    ensures
        forall|t: TalkView| #[trigger]
            heard_option(r, t) == date_heard(text::text_option(*due), t),
{
    match due {
        Some(d) => match names::validate_date(d.as_str()) {
            Ok(v) => Ok(Some(v)),
            Err(e) => Err(Stop::Fail(e)),
        },
        None => Ok(None),
    }
}

/// Label names as the UUIDs the API writes.
pub open spec fn label_ids_heard(
    c: ClientView,
    project: Text,
    wanted: Seq<Text>,
    t: TalkView,
) -> Heard<Seq<Text>> {
    c.find_labels(project, wanted, t).next(
        |found: Seq<JsonView>, t: TalkView| script::ruled(names::ids_of(found), t),
    )
}

/// Resolve label names to the UUIDs the API writes, in one fetch.
///
/// Named for what it does rather than for `label_ids`, which is the request key
/// that looks plausible, is accepted with a 200, and is silently ignored.
fn resolve_label_ids(c: &Client, project_id: &str, wanted: &Vec<String>, talk: &mut Talk) -> (r:
    Result<Vec<String>, Stop>)
    ensures
        script::heard_texts(r, final(talk)@) == label_ids_heard(
            c@,
            project_id@,
            text::texts(wanted@),
            old(talk)@,
        ),
{
    let found = c.find_labels(talk, project_id, wanted)?;
    script::rule(names::label_ids(&found))
}

/// The labels that a write carries, by id. None at all is not the same as an
/// empty set, which would clear the labels of the issue.
pub open spec fn labels_heard(
    c: ClientView,
    project: Text,
    wanted: Seq<Text>,
    t: TalkView,
) -> Heard<Option<Seq<Text>>> {
    if wanted.len() == 0 {
        Heard::Got(None, t)
    } else {
        label_ids_heard(c, project, wanted, t).next(
            |ids: Seq<Text>, t: TalkView| Heard::Got(Some(ids), t),
        )
    }
}

pub(crate) fn read_labels(c: &Client, project_id: &str, wanted: &Vec<String>, talk: &mut Talk) -> (r: Result<
    Option<Vec<String>>,
    Stop,
>)
    ensures
        heard_ids(r, final(talk)@) == labels_heard(
            c@,
            project_id@,
            text::texts(wanted@),
            old(talk)@,
        ),
{
    if wanted.len() == 0 {
        return Ok(None);
    }
    Ok(Some(resolve_label_ids(c, project_id, wanted, talk)?))
}

// ---- laws ----

/// What a text field comes to in a body.
pub open spec fn text_member(value: Option<Text>) -> Option<JsonView> {
    match value {
        Some(v) => Some(JsonView::Text(v)),
        None => None,
    }
}

proof fn lemma_with_text(
    entries: Seq<(Text, JsonView)>,
    key: Text,
    value: Option<Text>,
    wanted: Text,
)
    ensures
        json::entry_named(with_text(entries, key, value), wanted) == (match json::entry_named(
            entries,
            wanted,
        ) {
            Some(v) => Some(v),
            None => if key == wanted {
                text_member(value)
            } else {
                None
            },
        }),
{
    match value {
        Some(v) => {
            json::lemma_entry_push(entries, (key, JsonView::Text(v)), wanted);
        },
        None => {},
    }
}

/// The keys of a body are different ones.
proof fn lemma_keys_differ()
    ensures
        "name"@ != "description_html"@,
        "name"@ != "state"@,
        "name"@ != "priority"@,
        "name"@ != "target_date"@,
        "name"@ != "labels"@,
        "name"@ != "label_ids"@,
        "description_html"@ != "state"@,
        "description_html"@ != "priority"@,
        "description_html"@ != "target_date"@,
        "description_html"@ != "labels"@,
        "description_html"@ != "label_ids"@,
        "state"@ != "priority"@,
        "state"@ != "target_date"@,
        "state"@ != "labels"@,
        "state"@ != "label_ids"@,
        "priority"@ != "target_date"@,
        "priority"@ != "labels"@,
        "priority"@ != "label_ids"@,
        "target_date"@ != "labels"@,
        "target_date"@ != "label_ids"@,
        "labels"@ != "label_ids"@,
{
    reveal_strlit("name");
    reveal_strlit("description_html");
    reveal_strlit("state");
    reveal_strlit("priority");
    reveal_strlit("target_date");
    reveal_strlit("labels");
    reveal_strlit("label_ids");
    assert("name"@.len() == 4);
    assert("description_html"@.len() == 16);
    assert("state"@.len() == 5);
    assert("priority"@.len() == 8);
    assert("target_date"@.len() == 11);
    assert("labels"@.len() == 6);
    assert("label_ids"@.len() == 9);
}

proof fn lemma_body_member(f: FieldsView, wanted: Text)
    requires
        wanted == "name"@ || wanted == "description_html"@ || wanted == "state"@ || wanted
            == "priority"@ || wanted == "target_date"@ || wanted == "labels"@ || wanted
            == "label_ids"@,
    ensures
        JsonView::Object(body_of(f)).member(wanted) == (if wanted == "name"@ {
            text_member(f.name)
        } else if wanted == "description_html"@ {
            text_member(f.description_html)
        } else if wanted == "state"@ {
            text_member(f.state_id)
        } else if wanted == "priority"@ {
            text_member(f.priority)
        } else if wanted == "target_date"@ {
            text_member(f.target_date)
        } else if wanted == "labels"@ {
            match f.label_ids {
                Some(ids) => Some(JsonView::Array(json::text_values(ids))),
                None => None,
            }
        } else {
            None
        }),
{
    lemma_keys_differ();
    let e0 = Seq::<(Text, JsonView)>::empty();
    let e1 = with_text(e0, "name"@, f.name);
    let e2 = with_text(e1, "description_html"@, f.description_html);
    let e3 = with_text(e2, "state"@, f.state_id);
    let e4 = with_text(e3, "priority"@, f.priority);
    let e5 = with_text(e4, "target_date"@, f.target_date);
    lemma_with_text(e0, "name"@, f.name, wanted);
    lemma_with_text(e1, "description_html"@, f.description_html, wanted);
    lemma_with_text(e2, "state"@, f.state_id, wanted);
    lemma_with_text(e3, "priority"@, f.priority, wanted);
    lemma_with_text(e4, "target_date"@, f.target_date, wanted);
    match f.label_ids {
        Some(ids) => {
            json::lemma_entry_push(
                e5,
                ("labels"@, JsonView::Array(json::text_values(ids))),
                wanted,
            );
        },
        None => {},
    }
}

/// Labels are written under `labels`, all of them in one array, and never under
/// `label_ids`, which the API accepts and ignores.
pub proof fn labels_are_written_under_labels(f: FieldsView)
    ensures
        JsonView::Object(body_of(f)).member("labels"@) == (match f.label_ids {
            Some(ids) => Some(JsonView::Array(json::text_values(ids))),
            None => None,
        }),
        JsonView::Object(body_of(f)).member("label_ids"@) is None,
{
    lemma_keys_differ();
    lemma_body_member(f, "labels"@);
    lemma_body_member(f, "label_ids"@);
}

/// A field that is set is written as it is, and one that is not is absent rather
/// than null: a body is a delta, and null would clear the field.
pub proof fn unset_fields_are_absent(f: FieldsView)
    ensures
        JsonView::Object(body_of(f)).member("name"@) == text_member(f.name),
        JsonView::Object(body_of(f)).member("description_html"@) == text_member(
            f.description_html,
        ),
        JsonView::Object(body_of(f)).member("state"@) == text_member(f.state_id),
        JsonView::Object(body_of(f)).member("priority"@) == text_member(f.priority),
        JsonView::Object(body_of(f)).member("target_date"@) == text_member(f.target_date),
        f.name is None && f.description_html is None && f.state_id is None && f.priority is None
            && f.target_date is None && f.label_ids is None ==> body_of(f).len() == 0,
{
    lemma_keys_differ();
    lemma_body_member(f, "name"@);
    lemma_body_member(f, "description_html"@);
    lemma_body_member(f, "state"@);
    lemma_body_member(f, "priority"@);
    lemma_body_member(f, "target_date"@);
}

/// Resolving what a write carries writes nothing.
pub proof fn resolving_only_reads(
    c: ClientView,
    project: Text,
    state: Option<Text>,
    labels: Seq<Text>,
    md: Option<Text>,
    t: TalkView,
)
    ensures
        state_heard(c, project, state, t) matches Heard::Asks(a) ==> !client::writes(a),
        labels_heard(c, project, labels, t) matches Heard::Asks(a) ==> !client::writes(a),
        description_heard(md, t) matches Heard::Asks(a) ==> !client::writes(a),
{
    client::lookups_only_read(c, project, Seq::empty(), t);
}

/// Where an argument is `-`, the markdown is what standard input says, and
/// nothing else is asked; any other argument is the markdown itself.
pub proof fn markdown_is_the_argument_or_standard_input(arg: Text, t: TalkView)
    ensures
        arg != "-"@ ==> markdown_heard(arg, t) == Heard::Got(arg, t),
        arg == "-"@ && t.at >= t.answers.len() ==> markdown_heard(arg, t) == Heard::<Text>::Asks(
            AskView::ReadStdin,
        ),
        arg == "-"@ && t.at < t.answers.len() ==> match t.answers[t.at as int] {
            AnswerView::Text(s) => markdown_heard(arg, t) == Heard::Got(s, t.further()),
            _ => markdown_heard(arg, t) is Failed,
        },
{
}

/// A description is written as the HTML of its markdown, wherever the markdown
/// came from; none is written where none was given.
pub proof fn a_description_is_written_as_html(arg: Text, t: TalkView)
    ensures
        description_heard(None, t) == Heard::Got(None::<Text>, t),
        arg != "-"@ ==> description_heard(Some(arg), t) == Heard::Got(
            Some(markdown::html_of(arg)),
            t,
        ),
        arg == "-"@ && t.at >= t.answers.len() ==> description_heard(Some(arg), t) == Heard::<
            Option<Text>,
        >::Asks(AskView::ReadStdin),
        arg == "-"@ && t.at < t.answers.len() ==> match t.answers[t.at as int] {
            AnswerView::Text(s) => description_heard(Some(arg), t) == Heard::Got(
                Some(markdown::html_of(s)),
                t.further(),
            ),
            _ => description_heard(Some(arg), t) is Failed,
        },
{
}

/// A state is written as the id of the state with that name among the states of
/// the project; none is looked up where none was given.
pub proof fn a_state_is_written_by_its_id(c: ClientView, project: Text, name: Text, t: TalkView)
    ensures
        state_heard(c, project, None, t) == Heard::Got(None::<Text>, t),
        match c.states(project, t) {
            Heard::Got(items, end) => match names::item_named(items, name) {
                Some(item) => match item.member("id"@) {
                    Some(JsonView::Text(id)) => state_heard(c, project, Some(name), t)
                        == Heard::Got(Some(id), end),
                    _ => state_heard(c, project, Some(name), t) is Failed,
                },
                None => state_heard(c, project, Some(name), t) is Failed,
            },
            Heard::Failed(e, end) => state_heard(c, project, Some(name), t) == Heard::<
                Option<Text>,
            >::Failed(e, end),
            Heard::Asks(a) => state_heard(c, project, Some(name), t) == Heard::<
                Option<Text>,
            >::Asks(a),
        },
{
}

/// Labels are written as the ids of the labels with those names among the labels
/// of the project, in one fetch; none are looked up where none were given, and
/// then none are written.
pub proof fn labels_are_written_by_their_ids(
    c: ClientView,
    project: Text,
    wanted: Seq<Text>,
    t: TalkView,
)
    ensures
        wanted.len() == 0 ==> labels_heard(c, project, wanted, t) == Heard::Got(
            None::<Seq<Text>>,
            t,
        ),
        wanted.len() > 0 ==> match c.labels(project, t) {
            Heard::Got(items, end) => match labels_heard(c, project, wanted, t) {
                Heard::Got(ids, t2) => t2 == end && ids is Some && are_ids(items, wanted, ids->0),
                Heard::Failed(_, t2) => t2 == end && exists|k: int|
                    0 <= k < wanted.len() && id_named(items, #[trigger] wanted[k]) is None,
                Heard::Asks(_) => false,
            },
            Heard::Failed(e, end) => labels_heard(c, project, wanted, t) == Heard::<
                Option<Seq<Text>>,
            >::Failed(e, end),
            Heard::Asks(a) => labels_heard(c, project, wanted, t) == Heard::<
                Option<Seq<Text>>,
            >::Asks(a),
        },
{
    if wanted.len() > 0 {
        if let Heard::Got(items, end) = c.labels(project, t) {
            match names::all_picked("label"@, items, wanted) {
                Ok(found) => {
                    names::each_label_gives_its_id(found);
                    assert(wanted + Seq::<Text>::empty() =~= wanted);
                    names::what_is_picked_was_asked_for("label"@, items, wanted, Seq::empty());
                    assert forall|k: int| 0 <= k < wanted.len() implies names::item_named(
                        items,
                        #[trigger] wanted[k],
                    ) is Some && names::holds_id(
                        found,
                        names::id_of(names::item_named(items, wanted[k])->0),
                    ) by {
                        names::no_name_is_dropped("label"@, items, wanted, k);
                    }
                    match names::ids_of(found) {
                        Ok(ids) => {
                            assert(labels_heard(c, project, wanted, t) == Heard::Got(
                                Some(ids),
                                end,
                            ));
                            lemma_ids(items, wanted, found, ids);
                        },
                        Err(_) => {
                            let i = choose|i: int|
                                0 <= i < found.len() && (#[trigger] found[i]).member_text("id"@)
                                    is None;
                            let k = choose|k: int|
                                0 <= k < wanted.len() && names::item_named(
                                    items,
                                    #[trigger] wanted[k],
                                ) == Some(found[i]);
                            assert(id_named(items, wanted[k]) is None);
                        },
                    }
                },
                Err(e) => {
                    names::no_name_is_dropped("label"@, items, wanted, 0);
                    let k = choose|k: int|
                        0 <= k < wanted.len() && e == seq![
                            names::missing("label"@, #[trigger] wanted[k], items),
                        ] && names::item_named(items, wanted[k]) is None;
                    assert(id_named(items, wanted[k]) is None);
                },
            }
        }
    }
}

/// The id of the thing with a name.
pub open spec fn id_named(items: Seq<JsonView>, name: Text) -> Option<Text> {
    match names::item_named(items, name) {
        Some(item) => item.member_text("id"@),
        None => None,
    }
}

/// Whether some ids are those of the things with the given names: each name gives
/// one of them, and each of them comes from a name.
pub open spec fn are_ids(items: Seq<JsonView>, wanted: Seq<Text>, ids: Seq<Text>) -> bool {
    &&& forall|k: int|
        0 <= k < wanted.len() ==> names::item_named(items, #[trigger] wanted[k]) is Some
            && ids.contains(names::id_of(names::item_named(items, wanted[k])->0))
    &&& forall|i: int|
        0 <= i < ids.len() ==> is_id_of_one(items, wanted, #[trigger] ids[i])
}

/// Whether an id is that of the thing with one of the given names.
pub open spec fn is_id_of_one(items: Seq<JsonView>, wanted: Seq<Text>, id: Text) -> bool {
    exists|k: int| 0 <= k < wanted.len() && id_named(items, #[trigger] wanted[k]) == Some(id)
}

proof fn lemma_ids(
    items: Seq<JsonView>,
    wanted: Seq<Text>,
    found: Seq<JsonView>,
    ids: Seq<Text>,
)
    requires
        ids.len() == found.len(),
        forall|i: int|
            0 <= i < found.len() ==> (#[trigger] found[i]).member("id"@) == Some(
                JsonView::Text(ids[i]),
            ),
        forall|i: int|
            0 <= i < found.len() ==> exists|k: int|
                0 <= k < wanted.len() && names::item_named(items, #[trigger] wanted[k]) == Some(
                    #[trigger] found[i],
                ),
        forall|k: int|
            0 <= k < wanted.len() ==> names::item_named(items, #[trigger] wanted[k]) is Some
                && names::holds_id(found, names::id_of(names::item_named(items, wanted[k])->0)),
    ensures
        are_ids(items, wanted, ids),
{
    assert forall|k: int| 0 <= k < wanted.len() implies names::item_named(
        items,
        #[trigger] wanted[k],
    ) is Some && ids.contains(names::id_of(names::item_named(items, wanted[k])->0)) by {
        let id = names::id_of(names::item_named(items, wanted[k])->0);
        let i = choose|i: int| 0 <= i < found.len() && names::id_of(#[trigger] found[i]) == id;
        assert(found[i].member("id"@) == Some(JsonView::Text(ids[i])));
        assert(ids[i] == id);
    }
    assert forall|i: int| 0 <= i < ids.len() implies is_id_of_one(
        items,
        wanted,
        #[trigger] ids[i],
    ) by {
        let one = found[i];
        let k = choose|k: int|
            0 <= k < wanted.len() && names::item_named(items, #[trigger] wanted[k]) == Some(one);
        assert(one.member("id"@) == Some(JsonView::Text(ids[i])));
        assert(id_named(items, wanted[k]) == Some(ids[i]));
    }
}

/// Whether the markdown of an argument is `source`, once `after` has been heard:
/// the argument itself, or what standard input says where it is `-`.
pub open spec fn says(arg: Text, source: Text, before: TalkView, after: TalkView) -> bool {
    if arg == "-"@ {
        &&& before.at < before.answers.len()
        &&& before.answers[before.at as int] == AnswerView::Text(source)
        &&& after == before.further()
    } else {
        source == arg && after == before
    }
}

/// Whether a body carries the given fields and no other: the members that are
/// `None` are absent.
pub open spec fn carries(
    body: JsonView,
    name: Option<Text>,
    description_html: Option<Text>,
    state: Option<Text>,
    priority: Option<Text>,
    target_date: Option<Text>,
    labels: Option<Seq<Text>>,
) -> bool {
    &&& body is Object
    &&& body.member("name"@) == text_member(name)
    &&& body.member("description_html"@) == text_member(description_html)
    &&& body.member("state"@) == text_member(state)
    &&& body.member("priority"@) == text_member(priority)
    &&& body.member("target_date"@) == text_member(target_date)
    &&& body.member("labels"@) == (match labels {
        Some(ids) => Some(JsonView::Array(json::text_values(ids))),
        None => None,
    })
    &&& forall|key: Text| #[trigger]
        body.member(key) is Some ==> key == "name"@ || key == "description_html"@ || key
            == "state"@ || key == "priority"@ || key == "target_date"@ || key == "labels"@
}

/// A body carries the fields that it was made of, and is empty only where there
/// are none.
pub proof fn a_body_carries_its_fields(f: FieldsView)
    ensures
        carries(
            JsonView::Object(body_of(f)),
            f.name,
            f.description_html,
            f.state_id,
            f.priority,
            f.target_date,
            f.label_ids,
        ),
        body_of(f).len() == 0 <==> f.name is None && f.description_html is None && f.state_id
            is None && f.priority is None && f.target_date is None && f.label_ids is None,
{
    unset_fields_are_absent(f);
    labels_are_written_under_labels(f);
    let body = JsonView::Object(body_of(f));
    assert forall|key: Text| #[trigger] body.member(key) is Some implies key == "name"@ || key
        == "description_html"@ || key == "state"@ || key == "priority"@ || key == "target_date"@
        || key == "labels"@ by {
        let e0 = Seq::<(Text, JsonView)>::empty();
        let e1 = with_text(e0, "name"@, f.name);
        let e2 = with_text(e1, "description_html"@, f.description_html);
        let e3 = with_text(e2, "state"@, f.state_id);
        let e4 = with_text(e3, "priority"@, f.priority);
        let e5 = with_text(e4, "target_date"@, f.target_date);
        lemma_with_text(e0, "name"@, f.name, key);
        lemma_with_text(e1, "description_html"@, f.description_html, key);
        lemma_with_text(e2, "state"@, f.state_id, key);
        lemma_with_text(e3, "priority"@, f.priority, key);
        lemma_with_text(e4, "target_date"@, f.target_date, key);
        match f.label_ids {
            Some(ids) => {
                json::lemma_entry_push(
                    e5,
                    ("labels"@, JsonView::Array(json::text_values(ids))),
                    key,
                );
            },
            None => {},
        }
    }
}

/// A priority is written as CE spells it and a due date as it was given; one that
/// is neither fails, and none is written where none was given.
pub proof fn a_priority_and_a_date_are_written_as_given(
    priority: Option<Text>,
    due: Option<Text>,
    t: TalkView,
)
    ensures
        match priority {
            None => priority_heard(priority, t) == Heard::Got(None::<Text>, t),
            Some(p) => match names::priority_of(p) {
                Ok(v) => priority_heard(priority, t) == Heard::Got(Some(v), t),
                Err(e) => priority_heard(priority, t) == Heard::<Option<Text>>::Failed(e, t),
            },
        },
        match due {
            None => date_heard(due, t) == Heard::Got(None::<Text>, t),
            Some(d) => match names::date_of(d) {
                Ok(v) => date_heard(due, t) == Heard::Got(Some(v), t),
                Err(e) => date_heard(due, t) == Heard::<Option<Text>>::Failed(e, t),
            },
        },
{
}

/// The due date that an argument stands for.
pub open spec fn date_asked(due: Option<Text>, v: Option<Text>) -> bool {
    match due {
        None => v is None,
        Some(d) => v is Some && names::date_of(d) == Ok::<Text, Seq<Text>>(v->0),
    }
}

/// The priority that an argument stands for.
pub open spec fn priority_asked(priority: Option<Text>, v: Option<Text>) -> bool {
    match priority {
        None => v is None,
        Some(p) => v is Some && names::priority_of(p) == Ok::<Text, Seq<Text>>(v->0),
    }
}

/// Standard input that could not be read is named in front of what was wrong.
pub proof fn unreadable_standard_input_is_named(t: TalkView, e: Seq<Text>)
    requires
        t.at < t.answers.len(),
        t.answers[t.at as int] == AnswerView::Failed(e),
    ensures
        markdown_heard("-"@, t) == Heard::<Text>::Failed(
            seq!["Could not read markdown from stdin"@] + e,
            t.further(),
        ),
{
}

} // verus!
