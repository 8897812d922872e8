//! Updating an issue.

use crate::client;
use crate::client::{Client, ClientView};
use crate::cmd::common;
use crate::cmd::common::AddressedView;
use crate::cmd::create;
use crate::cmd::fields;
use crate::cmd::fields::{FieldsView, IssueFields};
use crate::error::Error;
use crate::json;
use crate::json::JsonView;
use crate::names;
use crate::output;
use crate::script;
use crate::script::{Answer, AskView, Finish, FinishView, Heard, Method, Step, Stop, Talk, TalkView};
use crate::store::{World, WorldView};
use crate::text;
use crate::text::Text;
use vstd::prelude::*;

verus! {

broadcast use crate::text::lemma_texts_push;

pub struct UpdateArgs {
    pub reference: String,
    pub state: Option<String>,
    pub priority: Option<String>,
    pub due: Option<String>,
    pub title: Option<String>,
    pub module: Option<String>,
    pub labels: Vec<String>,
    pub json: bool,
}

/// What an [`UpdateArgs`] holds.
pub struct UpdateView {
    pub reference: Text,
    pub state: Option<Text>,
    pub priority: Option<Text>,
    pub due: Option<Text>,
    pub title: Option<Text>,
    pub module: Option<Text>,
    pub labels: Seq<Text>,
    pub json: bool,
}

impl View for UpdateArgs {
    type V = UpdateView;

    open spec fn view(&self) -> UpdateView {
        UpdateView {
            reference: self.reference@,
            state: text::text_option(self.state),
            priority: text::text_option(self.priority),
            due: text::text_option(self.due),
            title: text::text_option(self.title),
            module: text::text_option(self.module),
            labels: text::texts(self.labels@),
            json: self.json,
        }
    }
}

/// Whether an update names nothing to change.
pub open spec fn changes_nothing(args: UpdateView) -> bool {
    &&& args.state is None
    &&& args.priority is None
    &&& args.due is None
    &&& args.title is None
    &&& args.module is None
    &&& args.labels.len() == 0
}

pub open spec fn nothing_to_update() -> Text {
    "Nothing to update. Pass at least one of --state, --priority, --due, --title, --module, --label."@
}

/// What the write of an update carries.
pub open spec fn changed_fields(
    args: UpdateView,
    c: ClientView,
    project: Text,
    t: TalkView,
) -> Heard<FieldsView> {
    fields::state_heard(c, project, args.state, t).next(
        |state_id: Option<Text>, t: TalkView|
            fields::priority_heard(args.priority, t).next(
                |priority: Option<Text>, t: TalkView|
                    fields::date_heard(args.due, t).next(
                        |target_date: Option<Text>, t: TalkView|
                            fields::labels_heard(c, project, args.labels, t).next(
                                |label_ids: Option<Seq<Text>>, t: TalkView|
                                    Heard::Got(
                                        FieldsView {
                                            name: args.title,
                                            description_html: None,
                                            state_id,
                                            priority,
                                            target_date,
                                            label_ids,
                                        },
                                        t,
                                    ),
                            ),
                    ),
            ),
    )
}

/// Writes the fields of an issue, where there are any.
pub open spec fn patching(
    c: ClientView,
    reference: Text,
    project: Text,
    issue: Text,
    fields: FieldsView,
    t: TalkView,
) -> Heard<()> {
    if fields::body_of(fields).len() == 0 {
        Heard::Got((), t)
    } else {
        c.update_issue(project, issue, JsonView::Object(fields::body_of(fields)), t).context(
            "Could not update "@ + reference,
        ).next(|v: JsonView, t: TalkView| Heard::Got((), t))
    }
}

/// Moves an issue into a module, where one is named. A module is not a field of
/// an issue: the relation lives in a join table.
pub open spec fn moving(
    c: ClientView,
    reference: Text,
    project: Text,
    issue: Text,
    module: Option<Text>,
    t: TalkView,
) -> Heard<()> {
    match module {
        None => Heard::Got((), t),
        Some(name) => c.resolve_module(project, name, t).next(
            |id: Text, t: TalkView|
                c.add_issue_to_module(project, id, issue, t).context(
                    "Could not attach "@ + reference + " to module \""@ + name + "\""@,
                ).next(|v: JsonView, t: TalkView| Heard::Got((), t)),
        ),
    }
}

/// Changes an issue that has been read.
pub open spec fn changing(
    args: UpdateView,
    c: ClientView,
    reference: Text,
    project: Text,
    issue: Text,
    t: TalkView,
) -> Heard<()> {
    changed_fields(args, c, project, t).next(
        |fields: FieldsView, t: TalkView|
            patching(c, reference, project, issue, fields, t).next(
                |u: (), t: TalkView| moving(c, reference, project, issue, args.module, t),
            ),
    )
}

/// What is printed about an updated issue. It is read once more, so the output
/// shows resolved names rather than the UUIDs that were written.
pub open spec fn updated_text(c: ClientView, reference: Text, updated: JsonView) -> Text {
    "Updated "@ + reference + "\n"@ + output::detail_of(
        updated,
        reference,
        c.workspace,
        c.web_base,
    )
}

/// Updates an issue.
pub open spec fn updating(args: UpdateView, world: WorldView, t: TalkView) -> Heard<FinishView> {
    if changes_nothing(args) {
        Heard::Failed(seq![nothing_to_update()], t)
    } else {
        client::connecting(world, t).next(
            |c: ClientView, t: TalkView|
                common::addressing(c, args.reference, t).next(
                    |found: AddressedView, t: TalkView|
                        {
                            let r = found.reference;
                            match output::required_of(found.issue, "id"@, r) {
                                Err(e) => Heard::Failed(e, t),
                                Ok(issue) => match output::required_of(
                                    found.issue,
                                    "project"@,
                                    r,
                                ) {
                                    Err(e) => Heard::Failed(e, t),
                                    Ok(project) => changing(args, c, r, project, issue, t).next(
                                        |u: (), t: TalkView|
                                            c.issue_by_ref(r, t).next(
                                                |updated: JsonView, t: TalkView|
                                                    Heard::Got(
                                                        script::prints(
                                                            output::emitted(
                                                                updated,
                                                                args.json,
                                                                updated_text(c, r, updated),
                                                            ),
                                                        ),
                                                        t,
                                                    ),
                                            ),
                                    ),
                                },
                            }
                        },
                ),
        )
    }
}

fn read_changed_fields(args: &UpdateArgs, c: &Client, project_id: &str, talk: &mut Talk) -> (r:
    Result<IssueFields, Stop>)
    ensures
        create::heard_fields(r, final(talk)@) == changed_fields(args@, c@, project_id@, old(talk)@),
{
    let state_id = fields::read_state(c, project_id, &args.state, talk)?;
    let r = fields::read_priority(&args.priority);
    assert(fields::heard_option(r, talk@) == fields::priority_heard(text::text_option(args.priority), talk@));
    let priority = r?;
    let r = fields::read_date(&args.due);
    assert(fields::heard_option(r, talk@) == fields::date_heard(text::text_option(args.due), talk@));
    let target_date = r?;
    let label_ids = fields::read_labels(c, project_id, &args.labels, talk)?;
    Ok(
        IssueFields {
            name: args.title.clone(),
            description_html: None,
            state_id,
            priority,
            target_date,
            label_ids,
        },
    )
}

fn patch_fields(
    c: &Client,
    reference: &str,
    project_id: &str,
    issue_id: &str,
    fields: &IssueFields,
    talk: &mut Talk,
) -> (r: Result<(), Stop>)
    ensures
        script::heard_done(r, final(talk)@) == patching(
            c@,
            reference@,
            project_id@,
            issue_id@,
            fields@,
            old(talk)@,
        ),
{
    let body = fields::write_body(fields);
    if body.entries.len() == 0 {
        return Ok(());
    }
    match c.update_issue(talk, project_id, issue_id, body.object()) {
        Ok(_) => Ok(()),
        Err(stop) => Err(stop.context("Could not update ".to_string().concat(reference))),
    }
}

fn move_issue(
    c: &Client,
    reference: &str,
    project_id: &str,
    issue_id: &str,
    module: &Option<String>,
    talk: &mut Talk,
) -> (r: Result<(), Stop>)
    ensures
        script::heard_done(r, final(talk)@) == moving(
            c@,
            reference@,
            project_id@,
            issue_id@,
            text::text_option(*module),
            old(talk)@,
        ),
{
    match module {
        None => Ok(()),
        Some(name) => {
            let id = c.resolve_module(talk, project_id, name.as_str())?;
            match c.add_issue_to_module(talk, project_id, id.as_str(), issue_id) {
                Ok(_) => Ok(()),
                Err(stop) => Err(
                    stop.context(
                        "Could not attach ".to_string().concat(reference).concat(
                            " to module \"",
                        ).concat(name.as_str()).concat("\""),
                    ),
                ),
            }
        },
    }
}

fn change(
    args: &UpdateArgs,
    c: &Client,
    reference: &str,
    project_id: &str,
    issue_id: &str,
    talk: &mut Talk,
) -> (r: Result<(), Stop>)
    ensures
        script::heard_done(r, final(talk)@) == changing(
            args@,
            c@,
            reference@,
            project_id@,
            issue_id@,
            old(talk)@,
        ),
{
    let fields = read_changed_fields(args, c, project_id, talk)?;
    patch_fields(c, reference, project_id, issue_id, &fields, talk)?;
    move_issue(c, reference, project_id, issue_id, &args.module, talk)
}

fn update(args: &UpdateArgs, world: &World, talk: &mut Talk) -> (r: Result<Finish, Stop>)
    ensures
        script::heard_finish(r, final(talk)@) == updating(args@, world@, old(talk)@),
{
    if args.state.is_none() && args.priority.is_none() && args.due.is_none()
        && args.title.is_none() && args.module.is_none() && args.labels.len() == 0 {
        return Err(
            Stop::Fail(
                Error::new(
                    "Nothing to update. Pass at least one of --state, --priority, --due, --title, --module, --label.".to_string(),
                ),
            ),
        );
    }
    let c = Client::new(world, talk)?;
    let found = common::address(&c, args.reference.as_str(), talk)?;
    let r: &str = found.reference.as_str();
    let issue_id = script::rule(output::required_field(&found.issue, "id", r))?;
    let project_id = script::rule(output::required_field(&found.issue, "project", r))?;
    change(args, &c, r, project_id.as_str(), issue_id.as_str(), talk)?;
    let updated = c.issue_by_ref(talk, &found.reference)?;
    let shown = "Updated ".to_string().concat(r).concat("\n").concat(
        output::issue_detail(&updated, r, c.workspace(), &c.web_base).as_str(),
    );
    Ok(common::printed(output::emit(&updated, args.json, shown)))
}

/// Update an issue. Closing one is `--state done`.
pub fn issue_update(args: &UpdateArgs, world: &World, answers: &Vec<Answer>) -> (r: Step)
    ensures
        r@ == script::concluded(
            updating(args@, world@, script::opening(script::answers_of(answers@))),
        ),
{
    let mut talk = Talk::new(answers);
    let r = update(args, world, &mut talk);
    assert(script::heard_finish(r, talk@) == updating(
        args@,
        world@,
        script::opening(script::answers_of(answers@)),
    ));
    script::conclude(r)
}

// ---- laws ----

/// The fields of an update are written only once every state, label, priority
/// and date among them has been resolved.
pub proof fn names_resolve_before_fields_are_written(
    args: UpdateView,
    c: ClientView,
    reference: Text,
    project: Text,
    issue: Text,
    t: TalkView,
)
    ensures
        changing(args, c, reference, project, issue, t) matches Heard::Asks(a) ==> client::writes(
            a,
        ) ==> changed_fields(args, c, project, t) is Got,
{
    let none = None::<Text>;
    fields::resolving_only_reads(c, project, args.state, args.labels, none, t);
    if let Heard::Got(_, t2) = fields::state_heard(c, project, args.state, t) {
        fields::resolving_only_reads(c, project, args.state, args.labels, none, t2);
    }
}

/// An update that names no field writes none: moving an issue into a module
/// does not touch the issue.
pub proof fn moving_alone_writes_no_fields(
    args: UpdateView,
    c: ClientView,
    reference: Text,
    project: Text,
    issue: Text,
    t: TalkView,
)
    requires
        args.state is None,
        args.priority is None,
        args.due is None,
        args.title is None,
        args.labels.len() == 0,
    ensures
        changing(args, c, reference, project, issue, t) == moving(
            c,
            reference,
            project,
            issue,
            args.module,
            t,
        ),
{
}

/// An update that names nothing asks nothing.
pub proof fn an_empty_update_asks_nothing(args: UpdateView, world: WorldView, t: TalkView)
    requires
        changes_nothing(args),
    ensures
        updating(args, world, t) == Heard::<FinishView>::Failed(seq![nothing_to_update()], t),
{
}

/// An update writes the fields that were asked for, each as it was asked for, and
/// no other: the title, the id of the state, the priority, the due date, and the
/// ids of the labels. Where any of them was given there is a write.
pub proof fn an_update_writes_what_was_asked_for(
    args: UpdateView,
    world: WorldView,
    t: TalkView,
    c: ClientView,
    t1: TalkView,
    r: Text,
    issue: JsonView,
    t2: TalkView,
    project: Text,
    id: Text,
    state: Option<Text>,
    t3: TalkView,
    priority: Option<Text>,
    due: Option<Text>,
    labels: Option<Seq<Text>>,
    t4: TalkView,
)
    requires
        client::connecting(world, t) == Heard::Got(c, t1),
        names::reference_of(args.reference) == Ok::<Text, Seq<Text>>(r),
        c.issue_by_ref(r, t1) == Heard::Got(issue, t2),
        common::is_addressed(issue, project, id),
        fields::state_heard(c, project, args.state, t2) == Heard::Got(state, t3),
        fields::priority_asked(args.priority, priority),
        fields::date_asked(args.due, due),
        fields::labels_heard(c, project, args.labels, t3) == Heard::Got(labels, t4),
        args.title is Some || args.state is Some || args.priority is Some || args.due is Some
            || args.labels.len() > 0,
        t4.at >= t4.answers.len(),
    ensures
        updating(args, world, t) matches Heard::Asks(AskView::Send(request)) && request.method
            == Method::Patch && request.url == c.base + "/workspaces/"@ + c.workspace + "/"@ + (
        "projects/"@ + project + "/issues/"@ + id + "/"@) && request.api_key == c.key
            && request.query.len() == 0 && request.body is Some && fields::carries(
            request.body->0,
            args.title,
            None,
            state,
            priority,
            due,
            labels,
        ),
{
    let f = FieldsView {
        name: args.title,
        description_html: None,
        state_id: state,
        priority,
        target_date: due,
        label_ids: labels,
    };
    fields::a_body_carries_its_fields(f);
    fields::labels_are_written_by_their_ids(c, project, args.labels, t3);
    if let Some(name) = args.state {
        fields::a_state_is_written_by_its_id(c, project, name, t2);
    }
    assert(changed_fields(args, c, project, t2) == Heard::Got(f, t4));
    client::writes_go_where_they_belong(
        c,
        project,
        id,
        Seq::empty(),
        JsonView::Object(fields::body_of(f)),
        0,
        Seq::empty(),
        t4,
    );
}

/// A priority or a date that is none makes an update fail: nothing is written.
pub proof fn an_invalid_field_writes_nothing(
    args: UpdateView,
    c: ClientView,
    reference: Text,
    project: Text,
    issue: Text,
    state: Option<Text>,
    t: TalkView,
    t2: TalkView,
)
    requires
        fields::state_heard(c, project, args.state, t) == Heard::Got(state, t2),
        (args.priority is Some && names::priority_of(args.priority->0) is Err) || (args.due is Some
            && names::date_of(args.due->0) is Err),
    ensures
        changing(args, c, reference, project, issue, t) is Failed,
{
}

/// What is left of an update once its fields are written, or where there are
/// none: the issue goes into the module that was named, by the module's id, and
/// only then is it read again, and what is printed is that reading.
pub proof fn an_update_moves_the_issue_and_reads_it_again(
    args: UpdateView,
    world: WorldView,
    t: TalkView,
    c: ClientView,
    t1: TalkView,
    r: Text,
    issue: JsonView,
    t2: TalkView,
    project: Text,
    id: Text,
    f: FieldsView,
    t3: TalkView,
    t4: TalkView,
)
    requires
        client::connecting(world, t) == Heard::Got(c, t1),
        names::reference_of(args.reference) == Ok::<Text, Seq<Text>>(r),
        c.issue_by_ref(r, t1) == Heard::Got(issue, t2),
        common::is_addressed(issue, project, id),
        !changes_nothing(args),
        changed_fields(args, c, project, t2) == Heard::Got(f, t3),
        fields::body_of(f).len() == 0 ==> t4 == t3,
        fields::body_of(f).len() > 0 ==> t3.at < t3.answers.len() && client::response(
            c,
            t3.answers[t3.at as int],
        ) is Ok && t4 == t3.further(),
    ensures
        match args.module {
            None => updating(args, world, t) == read_again(args, c, r, t4),
            Some(name) => match c.resolve_module(project, name, t4) {
                Heard::Asks(a) => updating(args, world, t) == Heard::<FinishView>::Asks(a),
                Heard::Failed(_, _) => updating(args, world, t) is Failed,
                Heard::Got(module, t5) => if t5.at >= t5.answers.len() {
                    updating(args, world, t) == Heard::<FinishView>::Asks(
                        client::request_for(
                            c,
                            Method::Post,
                            "projects/"@ + project + "/modules/"@ + module + "/module-issues/"@,
                            Seq::empty(),
                            Some(
                                JsonView::Object(
                                    seq![("issues"@, JsonView::Array(seq![JsonView::Text(id)]))],
                                ),
                            ),
                        ),
                    )
                } else {
                    match client::response(c, t5.answers[t5.at as int]) {
                        Ok(_) => updating(args, world, t) == read_again(args, c, r, t5.further()),
                        Err(_) => updating(args, world, t) is Failed,
                    }
                },
            },
        },
{
    if let Some(name) = args.module {
        if let Heard::Got(module, t5) = c.resolve_module(project, name, t4) {
            if t5.at >= t5.answers.len() {
                client::writes_go_where_they_belong(
                    c,
                    project,
                    id,
                    module,
                    JsonView::Null,
                    0,
                    Seq::empty(),
                    t5,
                );
            }
        }
    }
}

/// The end of an update: the issue is asked for by its reference, and printed.
pub open spec fn read_again(args: UpdateView, c: ClientView, r: Text, t: TalkView) -> Heard<
    FinishView,
> {
    match c.issue_by_ref(r, t) {
        Heard::Asks(a) => Heard::Asks(a),
        Heard::Failed(e, end) => Heard::Failed(e, end),
        Heard::Got(updated, end) => Heard::Got(
            FinishView {
                out: Some(
                    if args.json {
                        json::json_pretty(updated)
                    } else {
                        "Updated "@ + r + "\n"@ + output::detail_of(
                            updated,
                            r,
                            c.workspace,
                            c.web_base,
                        )
                    },
                ),
                error: None,
            },
            end,
        ),
    }
}

/// A refused write ends an update: the issue is not moved, and not reported as
/// updated.
pub proof fn a_refused_write_ends_an_update(
    args: UpdateView,
    c: ClientView,
    reference: Text,
    project: Text,
    issue: Text,
    t: TalkView,
    f: FieldsView,
    t2: TalkView,
)
    requires
        changed_fields(args, c, project, t) == Heard::Got(f, t2),
        fields::body_of(f).len() > 0,
        t2.at < t2.answers.len(),
        client::response(c, t2.answers[t2.at as int]) is Err,
    ensures
        changing(args, c, reference, project, issue, t) is Failed,
{
}

/// A write that failed says which issue it was about, and which module, in front of
/// what was wrong.
pub proof fn a_failed_write_says_what_it_was_about(
    c: ClientView,
    reference: Text,
    project: Text,
    issue: Text,
    fields: FieldsView,
    module: Text,
    id: Text,
    t: TalkView,
    t1: TalkView,
    e: Seq<Text>,
    end: TalkView,
)
    ensures
        fields::body_of(fields).len() > 0 && c.update_issue(
            project,
            issue,
            JsonView::Object(fields::body_of(fields)),
            t,
        ) == Heard::<JsonView>::Failed(e, end) ==> patching(c, reference, project, issue, fields, t)
            == Heard::<()>::Failed(seq!["Could not update "@ + reference] + e, end),
        c.resolve_module(project, module, t) == Heard::Got(id, t1) && c.add_issue_to_module(
            project,
            id,
            issue,
            t1,
        ) == Heard::<JsonView>::Failed(e, end) ==> moving(
            c,
            reference,
            project,
            issue,
            Some(module),
            t,
        ) == Heard::<()>::Failed(
            seq!["Could not attach "@ + reference + " to module \""@ + module + "\""@] + e,
            end,
        ),
{
}

} // verus!
