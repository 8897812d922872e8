//! Showing and listing issues.

use crate::client;
use crate::client::{Client, ClientView};
use crate::cmd::common;
use crate::cmd::common::AddressedView;
use crate::cmd::sorting;
use crate::json;
use crate::json::{Json, JsonView};
use crate::names;
use crate::output;
use crate::script;
use crate::script::{Answer, AskView, Finish, FinishView, Heard, Method, Step, Stop, Talk, TalkView};
use crate::store::{World, WorldView};
use crate::text;
use crate::text::Text;
use vstd::prelude::*;

verus! {

broadcast use crate::text::lemma_texts_push;

/// Shows an issue.
pub open spec fn getting(
    reference: Text,
    as_json: bool,
    world: WorldView,
    t: TalkView,
) -> Heard<FinishView> {
    client::connecting(world, t).next(
        |c: ClientView, t: TalkView|
            common::addressing(c, reference, t).next(
                |found: AddressedView, t: TalkView|
                    Heard::Got(
                        script::prints(
                            output::emitted(
                                found.issue,
                                as_json,
                                output::detail_of(
                                    found.issue,
                                    found.reference,
                                    c.workspace,
                                    c.web_base,
                                ),
                            ),
                        ),
                        t,
                    ),
            ),
    )
}

fn get_issue(reference: &str, as_json: bool, world: &World, talk: &mut Talk) -> (r: Result<
    Finish,
    Stop,
>)
    ensures
        script::heard_finish(r, final(talk)@) == getting(
            reference@,
            as_json,
            world@,
            old(talk)@,
        ),
{
    let c = Client::new(world, talk)?;
    let found = common::address(&c, reference, talk)?;
    let shown = output::issue_detail(
        &found.issue,
        found.reference.as_str(),
        c.workspace(),
        &c.web_base,
    );
    Ok(common::printed(output::emit(&found.issue, as_json, shown)))
}

/// Show one issue by its identifier. One call: the workspace-level identifier
/// endpoint, state expanded in place. No project lookup, no issue scan.
pub fn issue_get(reference: &str, as_json: bool, world: &World, answers: &Vec<Answer>) -> (r: Step)
    ensures
        r@ == script::concluded(
            getting(reference@, as_json, world@, script::opening(script::answers_of(answers@))),
        ),
{
    let mut talk = Talk::new(answers);
    let r = get_issue(reference, as_json, world, &mut talk);
    assert(script::heard_finish(r, talk@) == getting(
        reference@,
        as_json,
        world@,
        script::opening(script::answers_of(answers@)),
    ));
    script::conclude(r)
}

/// A project as a command addresses it.
pub struct ProjectView {
    pub id: Text,
    pub identifier: Text,
}

/// A list of issues and what it is a list of.
pub struct ListingView {
    pub issues: Seq<JsonView>,
    pub heading: Text,
}

/// A list of issues and what it is a list of.
pub struct Listing {
    pub issues: Vec<Json>,
    pub heading: String,
}

impl View for Listing {
    type V = ListingView;

    open spec fn view(&self) -> ListingView {
        ListingView { issues: json::values(self.issues@), heading: self.heading@ }
    }
}

pub open spec fn heard_listing(r: Result<Listing, Stop>, t: TalkView) -> Heard<ListingView> {
    match r {
        Ok(v) => Heard::Got(v@, t),
        Err(s) => script::stopped(s, t),
    }
}

/// The issues of a project, or of one of its modules.
pub open spec fn issues_heard(
    c: ClientView,
    project: ProjectView,
    module: Option<Text>,
    t: TalkView,
) -> Heard<ListingView> {
    match module {
        None => c.issues(project.id, t).next(
            |issues: Seq<JsonView>, t: TalkView|
                Heard::Got(ListingView { issues, heading: project.identifier }, t),
        ),
        Some(name) => c.find_module(project.id, name, t).next(
            |module: JsonView, t: TalkView|
                c.module_issues(project.id, output::field_of(module, "id"@), t).next(
                    |issues: Seq<JsonView>, t: TalkView|
                        Heard::Got(
                            ListingView {
                                issues,
                                heading: project.identifier + " / "@ + output::field_of(
                                    module,
                                    "name"@,
                                ),
                            },
                            t,
                        ),
                ),
        ),
    }
}

fn read_issues(
    c: &Client,
    project_id: &str,
    identifier: &str,
    module: Option<&str>,
    talk: &mut Talk,
) -> (r: Result<Listing, Stop>)
    ensures
        heard_listing(r, final(talk)@) == issues_heard(
            c@,
            ProjectView { id: project_id@, identifier: identifier@ },
            common::str_option(module),
            old(talk)@,
        ),
{
    match module {
        None => {
            let issues = c.issues(talk, project_id)?;
            Ok(Listing { issues, heading: identifier.to_string() })
        },
        Some(name) => {
            let module = c.find_module(talk, project_id, name)?;
            let issues = c.module_issues(talk, project_id, output::field(&module, "id"))?;
            let heading = identifier.to_string().concat(" / ").concat(
                output::field(&module, "name"),
            );
            Ok(Listing { issues, heading })
        },
    }
}

/// Whether an issue is in a state. `key` is the name of the state as names are
/// compared.
pub open spec fn stands_in(key: Text) -> spec_fn(JsonView) -> bool {
    |issue: JsonView| names::folded(output::state_of(issue)) == key
}

/// The issues in a state.
pub open spec fn in_state(issues: Seq<JsonView>, key: Text) -> Seq<JsonView> {
    issues.filter(stands_in(key))
}

/// Whether one of some names is `key`, as names are compared.
pub open spec fn any_folds_to(list: Seq<Text>, key: Text) -> bool {
    exists|i: int| 0 <= i < list.len() && names::folded(#[trigger] list[i]) == key
}

/// Whether an issue has a label. `key` is the name of the label as names are
/// compared.
pub open spec fn carries(key: Text) -> spec_fn(JsonView) -> bool {
    |issue: JsonView| any_folds_to(output::labels_of(issue), key)
}

/// The issues with a label.
pub open spec fn with_label(issues: Seq<JsonView>, key: Text) -> Seq<JsonView> {
    issues.filter(carries(key))
}

fn keep_state(issues: &Vec<Json>, key: &str) -> (r: Vec<Json>)
    ensures
        json::values(r@) == in_state(json::values(issues@), key@),
{
    let ghost all = json::values(issues@);
    let mut out: Vec<Json> = Vec::new();
    let mut i: usize = 0;
    assert(json::values(out@) =~= in_state(all.take(0), key@));
    while i < issues.len()
        invariant
            i <= issues@.len(),
            all == json::values(issues@),
            json::values(out@) == in_state(all.take(i as int), key@),
        decreases issues@.len() - i,
    {
        reveal(Seq::filter);
        assert(all.take(i + 1).drop_last() == all.take(i as int));
        assert(all.take(i + 1).last() == issues@[i as int]@);
        if text::same(names::normalize(output::state_name(&issues[i])).as_str(), key) {
            let ghost before = json::values(out@);
            out.push((&issues[i]).clone());
            assert(json::values(out@) =~= before.push(issues@[i as int]@));
        }
        i += 1;
    }
    assert(all.take(all.len() as int) == all);
    out
}

fn any_folds(list: &Vec<String>, key: &str) -> (r: bool)
    ensures
        r == any_folds_to(text::texts(list@), key@),
{
    let ghost all = text::texts(list@);
    let mut i: usize = 0;
    while i < list.len()
        invariant
            i <= list@.len(),
            all == text::texts(list@),
            forall|j: int| 0 <= j < i ==> names::folded(#[trigger] all[j]) != key@,
        decreases list@.len() - i,
    {
        assert(all[i as int] == list@[i as int]@);
        if text::same(names::normalize(list[i].as_str()).as_str(), key) {
            return true;
        }
        i += 1;
    }
    false
}

fn keep_label(issues: &Vec<Json>, key: &str) -> (r: Vec<Json>)
    ensures
        json::values(r@) == with_label(json::values(issues@), key@),
{
    let ghost all = json::values(issues@);
    let mut out: Vec<Json> = Vec::new();
    let mut i: usize = 0;
    assert(json::values(out@) =~= with_label(all.take(0), key@));
    while i < issues.len()
        invariant
            i <= issues@.len(),
            all == json::values(issues@),
            json::values(out@) == with_label(all.take(i as int), key@),
        decreases issues@.len() - i,
    {
        reveal(Seq::filter);
        assert(all.take(i + 1).drop_last() == all.take(i as int));
        assert(all.take(i + 1).last() == issues@[i as int]@);
        if any_folds(&output::label_names(&issues[i]), key) {
            let ghost before = json::values(out@);
            out.push((&issues[i]).clone());
            assert(json::values(out@) =~= before.push(issues@[i as int]@));
        }
        i += 1;
    }
    assert(all.take(all.len() as int) == all);
    out
}

/// Keeps the issues in a state, where one is named. The name is resolved first,
/// so a typo errors with the real list instead of filtering everything out.
pub open spec fn state_filtered(
    c: ClientView,
    project: Text,
    state: Option<Text>,
    listing: ListingView,
    t: TalkView,
) -> Heard<ListingView> {
    match state {
        None => Heard::Got(listing, t),
        Some(want) => c.find_state(project, want, t).next(
            |found: JsonView, t: TalkView|
                {
                    let canonical = output::field_of(found, "name"@);
                    Heard::Got(
                        ListingView {
                            issues: in_state(listing.issues, names::folded(canonical)),
                            heading: listing.heading + " ["@ + canonical + "]"@,
                        },
                        t,
                    )
                },
        ),
    }
}

fn filter_state(
    c: &Client,
    project_id: &str,
    state: Option<&str>,
    listing: Listing,
    talk: &mut Talk,
) -> (r: Result<Listing, Stop>)
    ensures
        heard_listing(r, final(talk)@) == state_filtered(
            c@,
            project_id@,
            common::str_option(state),
            listing@,
            old(talk)@,
        ),
{
    match state {
        None => Ok(listing),
        Some(want) => {
            let found = c.find_state(talk, project_id, want)?;
            let canonical: &str = output::field(&found, "name");
            let key = names::normalize(canonical);
            Ok(
                Listing {
                    issues: keep_state(&listing.issues, key.as_str()),
                    heading: listing.heading.concat(" [").concat(canonical).concat("]"),
                },
            )
        },
    }
}

/// Keeps the issues with a label, where one is named. The name is resolved
/// first, so a typo names the real labels instead of returning an empty list.
pub open spec fn label_filtered(
    c: ClientView,
    project: Text,
    label: Option<Text>,
    listing: ListingView,
    t: TalkView,
) -> Heard<ListingView> {
    match label {
        None => Heard::Got(listing, t),
        Some(want) => c.find_label(project, want, t).next(
            |found: JsonView, t: TalkView|
                {
                    let canonical = output::field_of(found, "name"@);
                    Heard::Got(
                        ListingView {
                            issues: with_label(listing.issues, names::folded(canonical)),
                            heading: listing.heading + " ["@ + canonical + "]"@,
                        },
                        t,
                    )
                },
        ),
    }
}

fn filter_label(
    c: &Client,
    project_id: &str,
    label: Option<&str>,
    listing: Listing,
    talk: &mut Talk,
) -> (r: Result<Listing, Stop>)
    ensures
        heard_listing(r, final(talk)@) == label_filtered(
            c@,
            project_id@,
            common::str_option(label),
            listing@,
            old(talk)@,
        ),
{
    match label {
        None => Ok(listing),
        Some(want) => {
            let found = c.find_label(talk, project_id, want)?;
            let canonical: &str = output::field(&found, "name");
            let key = names::normalize(canonical);
            Ok(
                Listing {
                    issues: keep_label(&listing.issues, key.as_str()),
                    heading: listing.heading.concat(" [").concat(canonical).concat("]"),
                },
            )
        },
    }
}

/// Lists the issues of a project.
pub open spec fn listing_issues(
    project: Text,
    state: Option<Text>,
    module: Option<Text>,
    label: Option<Text>,
    as_json: bool,
    world: WorldView,
    t: TalkView,
) -> Heard<FinishView> {
    client::connecting(world, t).next(
        |c: ClientView, t: TalkView|
            c.project_by_identifier(project, t).next(
                |found: JsonView, t: TalkView|
                    {
                        let id = output::field_of(found, "id"@);
                        let identifier = output::field_of(found, "identifier"@);
                        issues_heard(c, ProjectView { id, identifier }, module, t).next(
                            |listing: ListingView, t: TalkView|
                                state_filtered(c, id, state, listing, t).next(
                                    |listing: ListingView, t: TalkView|
                                        label_filtered(c, id, label, listing, t).next(
                                            |listing: ListingView, t: TalkView|
                                                {
                                                    let issues = sorting::by_sequence(listing.issues);
                                                    Heard::Got(
                                                        script::prints(
                                                            output::emitted(
                                                                output::list_value(issues),
                                                                as_json,
                                                                output::issues_shown(
                                                                    issues,
                                                                    identifier,
                                                                    listing.heading,
                                                                ),
                                                            ),
                                                        ),
                                                        t,
                                                    )
                                                },
                                        ),
                                ),
                        )
                    },
            ),
    )
}

fn list_issues(
    project: &str,
    state: Option<&str>,
    module: Option<&str>,
    label: Option<&str>,
    as_json: bool,
    world: &World,
    talk: &mut Talk,
) -> (r: Result<Finish, Stop>)
    ensures
        script::heard_finish(r, final(talk)@) == listing_issues(
            project@,
            common::str_option(state),
            common::str_option(module),
            common::str_option(label),
            as_json,
            world@,
            old(talk)@,
        ),
{
    let c = Client::new(world, talk)?;
    let found = c.project_by_identifier(talk, project)?;
    let project_id: &str = output::field(&found, "id");
    let identifier: &str = output::field(&found, "identifier");
    let listing = read_issues(&c, project_id, identifier, module, talk)?;
    let listing = filter_state(&c, project_id, state, listing, talk)?;
    let listing = filter_label(&c, project_id, label, listing, talk)?;
    let issues = sorting::sort_by_sequence(&listing.issues);
    let shown = output::issue_list(&issues, identifier, listing.heading.as_str());
    Ok(common::printed(output::emit(&output::list_json(&issues), as_json, shown)))
}

/// List the issues of a project.
pub fn issue_list(
    project: &str,
    state: Option<&str>,
    module: Option<&str>,
    label: Option<&str>,
    as_json: bool,
    world: &World,
    answers: &Vec<Answer>,
) -> (r: Step)
    ensures
        r@ == script::concluded(
            listing_issues(
                project@,
                common::str_option(state),
                common::str_option(module),
                common::str_option(label),
                as_json,
                world@,
                script::opening(script::answers_of(answers@)),
            ),
        ),
{
    let mut talk = Talk::new(answers);
    let r = list_issues(project, state, module, label, as_json, world, &mut talk);
    assert(script::heard_finish(r, talk@) == listing_issues(
        project@,
        common::str_option(state),
        common::str_option(module),
        common::str_option(label),
        as_json,
        world@,
        script::opening(script::answers_of(answers@)),
    ));
    script::conclude(r)
}

// ---- laws ----

/// Showing an issue is one call: the client set up, the only thing asked is the
/// issue by its reference, with state and labels in place, and the command ends
/// with what is answered.
pub proof fn getting_is_one_call(
    reference: Text,
    as_json: bool,
    world: WorldView,
    t: TalkView,
    r: Text,
)
    requires
        names::reference_of(reference) == Ok::<Text, Seq<Text>>(r),
    ensures
        client::connecting(world, t) matches Heard::Got(c, t1) ==> match getting(
            reference,
            as_json,
            world,
            t,
        ) {
            Heard::Asks(a) => t1.at >= t1.answers.len() && a == AskView::Send(
                c.request(Method::Get, "issues/"@ + r + "/"@, client::expanded(), None),
            ),
            Heard::Got(_, end) => t1.at < t1.answers.len() && end == t1.further(),
            Heard::Failed(_, end) => t1.at < t1.answers.len() && end == t1.further(),
        },
{
}

/// Showing an issue and listing issues write nothing.
pub proof fn reading_issues_writes_nothing(
    wanted: Text,
    state: Option<Text>,
    module: Option<Text>,
    label: Option<Text>,
    as_json: bool,
    world: WorldView,
    t: TalkView,
)
    ensures
        getting(wanted, as_json, world, t) matches Heard::Asks(a) ==> !client::writes(a),
        listing_issues(wanted, state, module, label, as_json, world, t) matches Heard::Asks(a)
            ==> !client::writes(a),
{
    client::connecting_sends_nothing(world, t);
    if let Heard::Got(c, t1) = client::connecting(world, t) {
        let none = Seq::<char>::empty();
        client::lookups_only_read(c, none, none, t1);
        if let Heard::Got(found, t2) = c.project_by_identifier(wanted, t1) {
            let id = output::field_of(found, "id"@);
            let project = ProjectView { id, identifier: output::field_of(found, "identifier"@) };
            client::lookups_only_read(c, id, none, t2);
            if let Some(name) = module {
                if let Heard::Got(m, t3) = c.find_module(id, name, t2) {
                    client::lookups_only_read(c, id, output::field_of(m, "id"@), t3);
                }
            }
            if let Heard::Got(listing, t3) = issues_heard(c, project, module, t2) {
                client::lookups_only_read(c, id, none, t3);
                if let Heard::Got(_, t4) = state_filtered(c, id, state, listing, t3) {
                    client::lookups_only_read(c, id, none, t4);
                }
            }
        }
    }
}

/// A filter by a name that matches nothing is an error that lists the real
/// options, never a list without rows.
pub proof fn a_mistyped_filter_fails(
    c: ClientView,
    project: Text,
    want: Text,
    listing: ListingView,
    t: TalkView,
)
    ensures
        c.states(project, t) matches Heard::Got(items, end) ==> names::item_named(items, want)
            is None ==> state_filtered(c, project, Some(want), listing, t) == Heard::<
            ListingView,
        >::Failed(seq![names::missing("state"@, want, items)], end),
        c.labels(project, t) matches Heard::Got(items, end) ==> names::item_named(items, want)
            is None ==> label_filtered(c, project, Some(want), listing, t) == Heard::<
            ListingView,
        >::Failed(seq![names::missing("label"@, want, items)], end),
{
}

proof fn lemma_filtered(issues: Seq<JsonView>, matching: spec_fn(JsonView) -> bool, issue: JsonView)
    ensures
        issues.filter(matching).contains(issue) <==> issues.contains(issue) && matching(issue),
{
    let kept = issues.filter(matching);
    if kept.contains(issue) {
        let i = choose|i: int| 0 <= i < kept.len() && kept[i] == issue;
        issues.lemma_filter_pred(matching, i);
        issues.lemma_filter_contains_rev(matching, issue);
    }
    if issues.contains(issue) && matching(issue) {
        let i = choose|i: int| 0 <= i < issues.len() && issues[i] == issue;
        issues.lemma_filter_contains(matching, i);
    }
}

/// A filter keeps exactly the issues that match: every one of them, and no
/// other.
pub proof fn a_filter_keeps_what_matches(issues: Seq<JsonView>, key: Text, issue: JsonView)
    ensures
        in_state(issues, key).contains(issue) <==> issues.contains(issue) && names::folded(
            output::state_of(issue),
        ) == key,
        with_label(issues, key).contains(issue) <==> issues.contains(issue) && any_folds_to(
            output::labels_of(issue),
            key,
        ),
{
    lemma_filtered(issues, stands_in(key), issue);
    lemma_filtered(issues, carries(key), issue);
}

/// Whether the issues of a listing were fetched: those of the module that was
/// named, or of the whole project.
pub open spec fn are_fetched(
    c: ClientView,
    project: Text,
    module: Option<Text>,
    before: TalkView,
    issues: Seq<JsonView>,
    in_module: Option<JsonView>,
    after: TalkView,
) -> bool {
    match module {
        None => in_module is None && c.issues(project, before) == Heard::Got(issues, after),
        Some(name) => {
            &&& in_module is Some
            &&& c.find_module(project, name, before) matches Heard::Got(found, end)
            &&& found == in_module->0
            &&& c.module_issues(project, output::field_of(found, "id"@), end) == Heard::Got(
                issues,
                after,
            )
        },
    }
}

/// Whether an issue is in the state and has the label that a listing is about, as
/// far as it is about any.
pub open spec fn is_asked_for(state: Option<Text>, label: Option<Text>) -> spec_fn(
    JsonView,
) -> bool {
    |issue: JsonView|
        {
            &&& state is Some ==> names::folded(output::state_of(issue)) == names::folded(state->0)
            &&& label is Some ==> exists|i: int|
                0 <= i < output::labels_of(issue).len() && names::folded(
                    #[trigger] output::labels_of(issue)[i],
                ) == names::folded(label->0)
        }
}

/// The name of a thing, where there is one.
pub open spec fn name_of(thing: Option<JsonView>) -> Option<Text> {
    match thing {
        Some(v) => Some(output::field_of(v, "name"@)),
        None => None,
    }
}

/// What a listing is headed with: the project, the module, and in brackets the
/// state and the label.
pub open spec fn heading_of(
    identifier: Text,
    module: Option<Text>,
    state: Option<Text>,
    label: Option<Text>,
) -> Text {
    let whole = match module {
        Some(name) => identifier + " / "@ + name,
        None => identifier,
    };
    let stated = match state {
        Some(name) => whole + " ["@ + name + "]"@,
        None => whole,
    };
    match label {
        Some(name) => stated + " ["@ + name + "]"@,
        None => stated,
    }
}

proof fn lemma_filtered_twice(
    issues: Seq<JsonView>,
    one: spec_fn(JsonView) -> bool,
    another: spec_fn(JsonView) -> bool,
    both: spec_fn(JsonView) -> bool,
)
    requires
        forall|v: JsonView| #[trigger] both(v) == (one(v) && another(v)),
    ensures
        issues.filter(one).filter(another) == issues.filter(both),
    decreases issues.len(),
{
    reveal(Seq::filter);
    if issues.len() > 0 {
        let front = issues.drop_last();
        let last = issues.last();
        lemma_filtered_twice(front, one, another, both);
        assert(both(last) == (one(last) && another(last)));
        if one(last) {
            assert(front.filter(one).push(last).drop_last() =~= front.filter(one));
        }
    } else {
        assert(issues.filter(one) =~= issues);
    }
}

proof fn lemma_filter_all(issues: Seq<JsonView>, all: spec_fn(JsonView) -> bool)
    requires
        forall|v: JsonView| #[trigger] all(v),
    ensures
        issues.filter(all) == issues,
    decreases issues.len(),
{
    reveal(Seq::filter);
    if issues.len() > 0 {
        lemma_filter_all(issues.drop_last(), all);
        assert(all(issues.last()));
        assert(issues.drop_last().push(issues.last()) =~= issues);
    }
}

/// A listing shows, of the issues that were fetched, exactly those that are in
/// the state and have the label that were asked for, whichever of the two were,
/// in the order of their numbers.
#[verifier::rlimit(40)]
pub proof fn a_listing_shows_what_was_asked_for(
    project: Text,
    state: Option<Text>,
    module: Option<Text>,
    label: Option<Text>,
    as_json: bool,
    world: WorldView,
    t: TalkView,
    c: ClientView,
    t1: TalkView,
    found: JsonView,
    t2: TalkView,
    issues: Seq<JsonView>,
    in_module: Option<JsonView>,
    t3: TalkView,
    in_the_state: Option<JsonView>,
    t4: TalkView,
    with_the_label: Option<JsonView>,
    t5: TalkView,
)
    requires
        client::connecting(world, t) == Heard::Got(c, t1),
        c.project_by_identifier(project, t1) == Heard::Got(found, t2),
        are_fetched(c, output::field_of(found, "id"@), module, t2, issues, in_module, t3),
        state is None ==> in_the_state is None && t4 == t3,
        state is Some ==> in_the_state is Some && c.find_state(
            output::field_of(found, "id"@),
            state->0,
            t3,
        ) == Heard::Got(in_the_state->0, t4),
        label is None ==> with_the_label is None && t5 == t4,
        label is Some ==> with_the_label is Some && c.find_label(
            output::field_of(found, "id"@),
            label->0,
            t4,
        ) == Heard::Got(with_the_label->0, t5),
    ensures
        exists|shown: Seq<JsonView>| #[trigger]
            sorting::is_in_order_of_numbers(
                issues.filter(is_asked_for(name_of(in_the_state), name_of(with_the_label))),
                shown,
            ) && (forall|issue: JsonView| #[trigger]
                shown.contains(issue) <==> issues.contains(issue) && is_asked_for(
                    name_of(in_the_state),
                    name_of(with_the_label),
                )(issue)) && listing_issues(project, state, module, label, as_json, world, t) == Heard::Got(
                script::prints(
                    output::emitted(
                        JsonView::Object(
                            seq![
                                ("count"@, json::number(shown.len() as u64)),
                                ("results"@, JsonView::Array(shown)),
                            ],
                        ),
                        as_json,
                        output::issues_shown(
                            shown,
                            output::field_of(found, "identifier"@),
                            heading_of(
                                output::field_of(found, "identifier"@),
                                name_of(in_module),
                                name_of(in_the_state),
                                name_of(with_the_label),
                            ),
                        ),
                    ),
                ),
                t5,
            ),
{
    let s = name_of(in_the_state);
    let l = name_of(with_the_label);
    let stated = match in_the_state {
        Some(v) => in_state(issues, names::folded(output::field_of(v, "name"@))),
        None => issues,
    };
    let kept = match with_the_label {
        Some(v) => with_label(stated, names::folded(output::field_of(v, "name"@))),
        None => stated,
    };
    let by_state = is_asked_for(s, None);
    let by_label = is_asked_for(None, l);
    let both = is_asked_for(s, l);
    if let Some(v) = in_the_state {
        assert(stands_in(names::folded(output::field_of(v, "name"@))) =~= by_state);
    } else {
        lemma_filter_all(issues, by_state);
    }
    if let Some(v) = with_the_label {
        assert(carries(names::folded(output::field_of(v, "name"@))) =~= by_label);
    } else {
        lemma_filter_all(stated, by_label);
    }
    lemma_filtered_twice(issues, by_state, by_label, both);
    assert(kept == issues.filter(both));
    sorting::lists_come_in_their_order(kept, Seq::empty());
    let shown = sorting::by_sequence(kept);
    assert(sorting::is_in_order_of_numbers(issues.filter(both), shown));
    assert forall|issue: JsonView| #[trigger]
        shown.contains(issue) <==> issues.contains(issue) && both(issue) by {
        lemma_filtered(issues, both, issue);
        shown.to_multiset_ensures();
        kept.to_multiset_ensures();
        assert(shown.contains(issue) <==> shown.to_multiset().count(issue) > 0);
        assert(kept.contains(issue) <==> kept.to_multiset().count(issue) > 0);
    }
}

/// A listing by a state or a label that cannot be found fails, whatever else was
/// asked for: it never falls back to a longer list.
#[verifier::rlimit(40)]
pub proof fn a_listing_by_a_name_that_is_not_there_fails(
    project: Text,
    state: Option<Text>,
    module: Option<Text>,
    label: Option<Text>,
    as_json: bool,
    world: WorldView,
    t: TalkView,
    c: ClientView,
    t1: TalkView,
    found: JsonView,
    t2: TalkView,
    issues: Seq<JsonView>,
    in_module: Option<JsonView>,
    t3: TalkView,
    t4: TalkView,
)
    requires
        client::connecting(world, t) == Heard::Got(c, t1),
        c.project_by_identifier(project, t1) == Heard::Got(found, t2),
    ensures
        module is Some && c.find_module(output::field_of(found, "id"@), module->0, t2) is Failed
            ==> listing_issues(project, state, module, label, as_json, world, t) is Failed,
        are_fetched(c, output::field_of(found, "id"@), module, t2, issues, in_module, t3) ==> {
            &&& state is Some && c.find_state(output::field_of(found, "id"@), state->0, t3)
                is Failed ==> listing_issues(project, state, module, label, as_json, world, t)
                is Failed
            &&& (state is None ==> t4 == t3) && (state is Some ==> (c.find_state(
                output::field_of(found, "id"@),
                state->0,
                t3,
            ) matches Heard::Got(_, end) && end == t4)) && label is Some && c.find_label(
                output::field_of(found, "id"@),
                label->0,
                t4,
            ) is Failed ==> listing_issues(project, state, module, label, as_json, world, t)
                is Failed
        },
{
}

/// What is printed of one issue is what the API answered for its reference: the
/// value itself under `--json`, and else the issue in full.
pub proof fn an_issue_is_shown_as_it_was_answered(
    reference: Text,
    as_json: bool,
    world: WorldView,
    t: TalkView,
    c: ClientView,
    t1: TalkView,
    r: Text,
    issue: JsonView,
    t2: TalkView,
)
    requires
        client::connecting(world, t) == Heard::Got(c, t1),
        names::reference_of(reference) == Ok::<Text, Seq<Text>>(r),
        c.issue_by_ref(r, t1) == Heard::Got(issue, t2),
    ensures
        getting(reference, as_json, world, t) == Heard::Got(
            script::prints(
                if as_json {
                    Some(json::json_pretty(issue))
                } else {
                    Some(output::detail_of(issue, r, c.workspace, c.web_base))
                },
            ),
            t2,
        ),
{
    output::an_issue_in_full_says_its_fields(issue, r, c.workspace, c.web_base, Seq::empty());
}

} // verus!
