//! Creating an issue.

use crate::client;
use crate::client::{Client, ClientView};
use crate::cmd::fields;
use crate::cmd::fields::{FieldsView, IssueFields};
use crate::error;
use crate::error::Error;
use crate::json;
use crate::json::{Json, JsonView};
use crate::markdown;
use crate::names;
use crate::note;
use crate::output;
use crate::script;
use crate::script::{
    Answer, AskView, Finish, FinishView, Heard, Method, Step, Stop, Talk, TalkView,
};
use crate::store::{World, WorldView};
use crate::text;
use crate::text::Text;
use vstd::prelude::*;

verus! {

broadcast use crate::text::lemma_texts_push;

pub struct CreateArgs {
    pub project: Option<String>,
    pub title: Option<String>,
    /// The path of the note, as it is shown.
    pub from_note: Option<String>,
    pub module: Option<String>,
    pub state: Option<String>,
    pub priority: Option<String>,
    pub due: Option<String>,
    pub desc_md: Option<String>,
    pub labels: Vec<String>,
    pub json: bool,
}

/// What a [`CreateArgs`] holds.
pub struct CreateView {
    pub project: Option<Text>,
    pub title: Option<Text>,
    pub from_note: Option<Text>,
    pub module: Option<Text>,
    pub state: Option<Text>,
    pub priority: Option<Text>,
    pub due: Option<Text>,
    pub desc_md: Option<Text>,
    pub labels: Seq<Text>,
    pub json: bool,
}

impl View for CreateArgs {
    type V = CreateView;

    open spec fn view(&self) -> CreateView {
        CreateView {
            project: text::text_option(self.project),
            title: text::text_option(self.title),
            from_note: text::text_option(self.from_note),
            module: text::text_option(self.module),
            state: text::text_option(self.state),
            priority: text::text_option(self.priority),
            due: text::text_option(self.due),
            desc_md: text::text_option(self.desc_md),
            labels: text::texts(self.labels@),
            json: self.json,
        }
    }
}

/// The title of a new issue. With a note there is no project on the command
/// line, so the single positional, which is the title, stands in its place.
pub open spec fn title_of(args: CreateView) -> Result<Text, Seq<Text>> {
    if args.from_note is Some && args.title is Some {
        Err(seq!["Pass either a project or --from-note, not both."@])
    } else {
        match (if args.from_note is Some {
            args.project
        } else {
            args.title
        }) {
            Some(title) => Ok(title),
            None => Err(seq!["A title is required."@]),
        }
    }
}

/// Where a new issue goes: its project, and the module to attach it to.
pub struct TargetView {
    pub project_id: Text,
    pub identifier: Option<Text>,
    pub module_id: Option<Text>,
    pub module_label: Option<Text>,
}

/// Where a new issue goes.
pub struct Target {
    pub project_id: String,
    pub identifier: Option<String>,
    pub module_id: Option<String>,
    pub module_label: Option<String>,
}

impl View for Target {
    type V = TargetView;

    open spec fn view(&self) -> TargetView {
        TargetView {
            project_id: self.project_id@,
            identifier: text::text_option(self.identifier),
            module_id: text::text_option(self.module_id),
            module_label: text::text_option(self.module_label),
        }
    }
}

pub open spec fn heard_target(r: Result<Target, Stop>, t: TalkView) -> Heard<TargetView> {
    match r {
        Ok(v) => Heard::Got(v@, t),
        Err(s) => script::stopped(s, t),
    }
}

/// The project of a new issue, and the module of the note.
pub open spec fn project_heard(args: CreateView, c: ClientView, t: TalkView) -> Heard<TargetView> {
    match args.from_note {
        Some(path) => note::reading(path, t).next(
            |refs: note::NoteView, t: TalkView|
                Heard::Got(
                    TargetView {
                        project_id: refs.project_id,
                        identifier: refs.project_identifier,
                        module_id: refs.module_id,
                        module_label: refs.module_name,
                    },
                    t,
                ),
        ),
        None => match args.project {
            None => Heard::Failed(
                seq!["A project identifier is required (or use --from-note)."@],
                t,
            ),
            Some(identifier) => c.project_by_identifier(identifier, t).next(
                |project: JsonView, t: TalkView|
                    Heard::Got(
                        TargetView {
                            project_id: output::field_of(project, "id"@),
                            identifier: Some(output::field_of(project, "identifier"@)),
                            module_id: None,
                            module_label: None,
                        },
                        t,
                    ),
            ),
        },
    }
}

/// Where a new issue goes. An explicit module wins over the note's.
pub open spec fn target_heard(args: CreateView, c: ClientView, t: TalkView) -> Heard<TargetView> {
    project_heard(args, c, t).next(
        |target: TargetView, t: TalkView|
            match args.module {
                None => Heard::Got(target, t),
                Some(name) => c.resolve_module(target.project_id, name, t).next(
                    |id: Text, t: TalkView|
                        Heard::Got(
                            TargetView {
                                project_id: target.project_id,
                                identifier: target.identifier,
                                module_id: Some(id),
                                module_label: Some(name),
                            },
                            t,
                        ),
                ),
            },
    )
}

fn read_project(args: &CreateArgs, c: &Client, talk: &mut Talk) -> (r: Result<Target, Stop>)
    ensures
        heard_target(r, final(talk)@) == project_heard(args@, c@, old(talk)@),
{
    match &args.from_note {
        Some(path) => {
            // A note with no plane_module_id creates at project level.
            let refs = note::read(path.as_str(), talk)?;
            Ok(
                Target {
                    project_id: refs.project_id,
                    identifier: refs.project_identifier,
                    module_id: refs.module_id,
                    module_label: refs.module_name,
                },
            )
        },
        None => match &args.project {
            None => Err(
                Stop::Fail(
                    Error::new(
                        "A project identifier is required (or use --from-note).".to_string(),
                    ),
                ),
            ),
            Some(identifier) => {
                let project = c.project_by_identifier(talk, identifier.as_str())?;
                Ok(
                    Target {
                        project_id: output::field(&project, "id").to_string(),
                        identifier: Some(output::field(&project, "identifier").to_string()),
                        module_id: None,
                        module_label: None,
                    },
                )
            },
        },
    }
}

fn read_target(args: &CreateArgs, c: &Client, talk: &mut Talk) -> (r: Result<Target, Stop>)
    ensures
        heard_target(r, final(talk)@) == target_heard(args@, c@, old(talk)@),
{
    let target = read_project(args, c, talk)?;
    match &args.module {
        None => Ok(target),
        Some(name) => {
            let id = c.resolve_module(talk, target.project_id.as_str(), name.as_str())?;
            Ok(
                Target {
                    project_id: target.project_id,
                    identifier: target.identifier,
                    module_id: Some(id),
                    module_label: Some(name.clone()),
                },
            )
        },
    }
}

pub open spec fn heard_fields(r: Result<IssueFields, Stop>, t: TalkView) -> Heard<FieldsView> {
    match r {
        Ok(v) => Heard::Got(v@, t),
        Err(s) => script::stopped(s, t),
    }
}

/// What the write of a new issue carries. Every name is resolved here, before
/// anything is written.
pub open spec fn new_fields(
    args: CreateView,
    title: Text,
    c: ClientView,
    project: Text,
    t: TalkView,
) -> Heard<FieldsView> {
    fields::labels_heard(c, project, args.labels, t).next(
        |label_ids: Option<Seq<Text>>, t: TalkView|
            fields::description_heard(args.desc_md, t).next(
                |description_html: Option<Text>, t: TalkView|
                    fields::state_heard(c, project, args.state, t).next(
                        |state_id: Option<Text>, t: TalkView|
                            fields::priority_heard(args.priority, t).next(
                                |priority: Option<Text>, t: TalkView|
                                    fields::date_heard(args.due, t).next(
                                        |target_date: Option<Text>, t: TalkView|
                                            Heard::Got(
                                                FieldsView {
                                                    name: Some(title),
                                                    description_html,
                                                    state_id,
                                                    priority,
                                                    target_date,
                                                    label_ids,
                                                },
                                                t,
                                            ),
                                    ),
                            ),
                    ),
            ),
    )
}

fn read_new_fields(
    args: &CreateArgs,
    title: &str,
    c: &Client,
    project_id: &str,
    talk: &mut Talk,
) -> (r: Result<IssueFields, Stop>)
    ensures
        heard_fields(r, final(talk)@) == new_fields(args@, title@, c@, project_id@, old(talk)@),
{
    let label_ids = fields::read_labels(c, project_id, &args.labels, talk)?;
    let description_html = fields::read_description(&args.desc_md, talk)?;
    let state_id = fields::read_state(c, project_id, &args.state, talk)?;
    let r = fields::read_priority(&args.priority);
    assert(fields::heard_option(r, talk@) == fields::priority_heard(text::text_option(args.priority), talk@));
    let priority = r?;
    let r = fields::read_date(&args.due);
    assert(fields::heard_option(r, talk@) == fields::date_heard(text::text_option(args.due), talk@));
    let target_date = r?;
    Ok(
        IssueFields {
            name: Some(title.to_string()),
            description_html,
            state_id,
            priority,
            target_date,
            label_ids,
        },
    )
}

/// The project with an id.
pub open spec fn project_with_id(projects: Seq<JsonView>, id: Text) -> Option<JsonView>
    decreases projects.len(),
{
    if projects.len() == 0 {
        None
    } else if output::field_of(projects[0], "id"@) == id {
        Some(projects[0])
    } else {
        project_with_id(projects.drop_first(), id)
    }
}

fn find_project_id(projects: &Vec<Json>, id: &str) -> (r: Option<String>)
    ensures
        text::text_option(r) == (match project_with_id(json::values(projects@), id@) {
            Some(p) => Some(output::field_of(p, "identifier"@)),
            None => None,
        }),
{
    let ghost all = json::values(projects@);
    let mut i: usize = 0;
    assert(all.skip(0) == all);
    while i < projects.len()
        invariant
            i <= projects@.len(),
            all == json::values(projects@),
            project_with_id(all, id@) == project_with_id(all.skip(i as int), id@),
        decreases projects@.len() - i,
    {
        assert(all[i as int] == projects@[i as int]@);
        if text::same(output::field(&projects[i], "id"), id) {
            return Some(output::field(&projects[i], "identifier").to_string());
        }
        assert(all.skip(i as int).drop_first() == all.skip(i + 1));
        i += 1;
    }
    None
}

/// The identifier of a project. A note may carry the project UUID without its
/// identifier; it is looked up so the printed reference is usable.
pub open spec fn identifier_heard(c: ClientView, target: TargetView, t: TalkView) -> Heard<
    Option<Text>,
> {
    match target.identifier {
        Some(identifier) => Heard::Got(Some(identifier), t),
        None => c.projects(t).next(
            |projects: Seq<JsonView>, t: TalkView|
                Heard::Got(
                    match project_with_id(projects, target.project_id) {
                        Some(p) => Some(output::field_of(p, "identifier"@)),
                        None => None,
                    },
                    t,
                ),
        ),
    }
}

fn read_identifier(c: &Client, target: &Target, talk: &mut Talk) -> (r: Result<
    Option<String>,
    Stop,
>)
    ensures
        fields::heard_option(r, final(talk)@) == identifier_heard(c@, target@, old(talk)@),
{
    match &target.identifier {
        Some(identifier) => Ok(Some(identifier.clone())),
        None => {
            let projects = c.projects(talk)?;
            Ok(find_project_id(&projects, target.project_id.as_str()))
        },
    }
}

/// The reference of a new issue.
pub open spec fn new_reference(identifier: Option<Text>, created: JsonView) -> Text {
    (match identifier {
        Some(identifier) => identifier,
        None => "?"@,
    }) + "-"@ + output::sequence_text(created)
}

/// How many labels a created issue came back with.
pub open spec fn written_labels(created: JsonView) -> nat {
    match created.member("labels"@) {
        Some(JsonView::Array(labels)) => labels.len(),
        _ => 0,
    }
}

/// How many labels were asked for.
pub open spec fn wanted_labels(label_ids: Option<Seq<Text>>) -> nat {
    match label_ids {
        Some(ids) => ids.len(),
        None => 0,
    }
}

/// How a module is named to the user: by the label, else by the id.
pub open spec fn module_shown(target: TargetView) -> Option<Text> {
    match target.module_label {
        Some(label) => Some(label),
        None => target.module_id,
    }
}

pub open spec fn label_or_question(target: TargetView) -> Text {
    match target.module_label {
        Some(label) => label,
        None => "?"@,
    }
}

/// What is printed about a new issue.
pub open spec fn created_text(
    args: CreateView,
    c: ClientView,
    target: TargetView,
    created: JsonView,
    reference: Text,
    wanted: nat,
    attached: bool,
) -> Text {
    let head = "Created "@ + reference + "  "@ + output::field_of(created, "name"@);
    let url = match output::url_of(c.web_base, c.workspace, reference) {
        Some(url) => "\n  url:      "@ + url,
        None => Seq::empty(),
    };
    let labels = if wanted > 0 && written_labels(created) >= wanted {
        "\n  labels:   "@ + text::joined(args.labels, ", "@)
    } else {
        Seq::empty()
    };
    let module = match module_shown(target) {
        Some(label) => if attached {
            "\n  module:   "@ + label + " (attached)"@
        } else {
            Seq::empty()
        },
        None => Seq::empty(),
    };
    head + url + labels + module
}

/// What went wrong after an issue was created, if anything did. The issue
/// exists, so a retry must not create it again.
pub open spec fn created_error(
    target: TargetView,
    created: JsonView,
    reference: Text,
    wanted: nat,
    attach_error: Option<Seq<Text>>,
) -> Option<Seq<Text>> {
    match attach_error {
        Some(e) => Some(
            seq![
                reference + " was created, but attaching it to module \""@ + label_or_question(
                    target,
                ) + "\" failed: "@ + error::outermost(e)
                    + "\nThe issue exists: link it with `plane issue update "@ + reference
                    + " --module \""@ + label_or_question(target)
                    + "\"` rather than creating it again."@,
            ],
        ),
        None => if written_labels(created) < wanted {
            Some(
                seq![
                    reference + " was created, but Plane returned "@ + text::decimal(
                        written_labels(created),
                    ) + " of the "@ + text::decimal(wanted)
                        + " labels it was given, so they did not all land.\nThe issue exists: set them with `plane issue update "@
                        + reference + " --label ...` rather than creating it again."@,
                ],
            )
        } else {
            None
        },
    }
}

/// How the creation of an issue ends.
pub open spec fn created_end(
    args: CreateView,
    c: ClientView,
    target: TargetView,
    created: JsonView,
    reference: Text,
    wanted: nat,
    attach_error: Option<Seq<Text>>,
) -> FinishView {
    FinishView {
        out: Some(
            if args.json {
                json::json_pretty(created)
            } else {
                created_text(args, c, target, created, reference, wanted, attach_error is None)
            },
        ),
        error: created_error(target, created, reference, wanted, attach_error),
    }
}

/// What is left to do once an issue has been created: name it, and attach it to
/// its module. A failure to attach does not hide that the issue exists.
pub open spec fn after_create(
    args: CreateView,
    c: ClientView,
    target: TargetView,
    wanted: nat,
    created: JsonView,
    t: TalkView,
) -> Heard<FinishView> {
    match output::required_of(created, "id"@, "the created issue"@) {
        Err(e) => Heard::Failed(e, t),
        Ok(issue_id) => identifier_heard(c, target, t).next(
            |identifier: Option<Text>, t: TalkView|
                {
                    let reference = new_reference(identifier, created);
                    match target.module_id {
                        None => Heard::Got(
                            created_end(args, c, target, created, reference, wanted, None),
                            t,
                        ),
                        Some(module) => match c.add_issue_to_module(
                            target.project_id,
                            module,
                            issue_id,
                            t,
                        ) {
                            Heard::Got(_, t) => Heard::Got(
                                created_end(args, c, target, created, reference, wanted, None),
                                t,
                            ),
                            Heard::Failed(e, t) => Heard::Got(
                                created_end(args, c, target, created, reference, wanted, Some(e)),
                                t,
                            ),
                            Heard::Asks(a) => Heard::Asks(a),
                        },
                    }
                },
        ),
    }
}

/// Creates an issue.
pub open spec fn creating(args: CreateView, world: WorldView, t: TalkView) -> Heard<FinishView> {
    match title_of(args) {
        Err(e) => Heard::Failed(e, t),
        Ok(title) => client::connecting(world, t).next(
            |c: ClientView, t: TalkView|
                target_heard(args, c, t).next(
                    |target: TargetView, t: TalkView|
                        new_fields(args, title, c, target.project_id, t).next(
                            |fields: FieldsView, t: TalkView|
                                c.create_issue(
                                    target.project_id,
                                    JsonView::Object(fields::body_of(fields)),
                                    t,
                                ).next(
                                    |created: JsonView, t: TalkView|
                                        after_create(
                                            args,
                                            c,
                                            target,
                                            wanted_labels(fields.label_ids),
                                            created,
                                            t,
                                        ),
                                ),
                        ),
                ),
        ),
    }
}

fn title_for(args: &CreateArgs) -> (r: Result<String, Error>)
    ensures
        names::text_result(r) == title_of(args@),
{
    if args.from_note.is_some() && args.title.is_some() {
        return Err(
            Error::new("Pass either a project or --from-note, not both.".to_string()),
        );
    }
    let title: Option<String> = if args.from_note.is_some() {
        args.project.clone()
    } else {
        args.title.clone()
    };
    match title {
        Some(title) => Ok(title),
        None => Err(Error::new("A title is required.".to_string())),
    }
}

fn count_labels(created: &Json) -> (r: usize)
    ensures
        r == written_labels(created@),
{
    match created.get("labels") {
        Some(v) => match v.as_array() {
            Some(list) => list.len(),
            None => 0,
        },
        None => 0,
    }
}

fn create_end(
    args: &CreateArgs,
    c: &Client,
    target: &Target,
    created: &Json,
    reference: &str,
    wanted: usize,
    attach_error: Option<Error>,
) -> (r: Finish)
    ensures
        r@ == created_end(
            args@,
            c@,
            target@,
            created@,
            reference@,
            wanted as nat,
            script::error_option(attach_error),
        ),
{
    let written: usize = count_labels(created);
    let out: String = if args.json {
        created.to_pretty()
    } else {
        let head = "Created ".to_string().concat(reference).concat("  ").concat(
            output::field(created, "name"),
        );
        let url: String = match output::issue_url(&c.web_base, c.workspace(), reference) {
            Some(url) => "\n  url:      ".to_string().concat(url.as_str()),
            None => String::new(),
        };
        let labels: String = if wanted > 0 && written >= wanted {
            "\n  labels:   ".to_string().concat(text::join(&args.labels, ", ").as_str())
        } else {
            String::new()
        };
        let shown: Option<&String> = match &target.module_label {
            Some(label) => Some(label),
            None => match &target.module_id {
                Some(id) => Some(id),
                None => None,
            },
        };
        let module: String = match shown {
            Some(label) => if attach_error.is_none() {
                "\n  module:   ".to_string().concat(label.as_str()).concat(" (attached)")
            } else {
                String::new()
            },
            None => String::new(),
        };
        head.concat(url.as_str()).concat(labels.as_str()).concat(module.as_str())
    };
    let label: &str = match &target.module_label {
        Some(label) => label.as_str(),
        None => "?",
    };
    let error: Option<Error> = match &attach_error {
        Some(e) => Some(
            Error::new(
                reference.to_string().concat(" was created, but attaching it to module \"").concat(
                    label,
                ).concat("\" failed: ").concat(e.message().as_str()).concat(
                    "\nThe issue exists: link it with `plane issue update ",
                ).concat(reference).concat(" --module \"").concat(label).concat(
                    "\"` rather than creating it again.",
                ),
            ),
        ),
        None => if written < wanted {
            Some(
                Error::new(
                    reference.to_string().concat(" was created, but Plane returned ").concat(
                        text::decimal_text(written as u64).as_str(),
                    ).concat(" of the ").concat(text::decimal_text(wanted as u64).as_str()).concat(
                        " labels it was given, so they did not all land.\nThe issue exists: set them with `plane issue update ",
                    ).concat(reference).concat(
                        " --label ...` rather than creating it again.",
                    ),
                ),
            )
        } else {
            None
        },
    };
    Finish { out: Some(out), error }
}

fn finish_create(
    args: &CreateArgs,
    c: &Client,
    target: &Target,
    wanted: usize,
    created: &Json,
    talk: &mut Talk,
) -> (r: Result<Finish, Stop>)
    ensures
        script::heard_finish(r, final(talk)@) == after_create(
            args@,
            c@,
            target@,
            wanted as nat,
            created@,
            old(talk)@,
        ),
{
    let issue_id = script::rule(output::required_field(created, "id", "the created issue"))?;
    let identifier = read_identifier(c, target, talk)?;
    let name: &str = match &identifier {
        Some(identifier) => identifier.as_str(),
        None => "?",
    };
    let reference = name.to_string().concat("-").concat(output::sequence(created).as_str());
    let attach_error: Option<Error> = match &target.module_id {
        None => None,
        Some(module) => match c.add_issue_to_module(
            talk,
            target.project_id.as_str(),
            module.as_str(),
            issue_id.as_str(),
        ) {
            Ok(_) => None,
            Err(Stop::Fail(e)) => Some(e),
            Err(Stop::Ask(a)) => {
                return Err(Stop::Ask(a));
            },
        },
    };
    Ok(create_end(args, c, target, created, reference.as_str(), wanted, attach_error))
}

fn create(args: &CreateArgs, world: &World, talk: &mut Talk) -> (r: Result<Finish, Stop>)
    ensures
        script::heard_finish(r, final(talk)@) == creating(args@, world@, old(talk)@),
{
    let title = script::rule(title_for(args))?;
    let c = Client::new(world, talk)?;
    let target = read_target(args, &c, talk)?;
    let fields = read_new_fields(args, title.as_str(), &c, target.project_id.as_str(), talk)?;
    let body = fields::write_body(&fields).object();
    let created = c.create_issue(talk, target.project_id.as_str(), body)?;
    let wanted: usize = match &fields.label_ids {
        Some(ids) => ids.len(),
        None => 0,
    };
    finish_create(args, &c, &target, wanted, &created, talk)
}

/// Create an issue.
pub fn issue_create(args: &CreateArgs, world: &World, answers: &Vec<Answer>) -> (r: Step)
    ensures
        r@ == script::concluded(
            creating(args@, world@, script::opening(script::answers_of(answers@))),
        ),
{
    let mut talk = Talk::new(answers);
    let r = create(args, world, &mut talk);
    assert(script::heard_finish(r, talk@) == creating(
        args@,
        world@,
        script::opening(script::answers_of(answers@)),
    ));
    script::conclude(r)
}

// ---- laws ----

proof fn lemma_target_only_reads(args: CreateView, c: ClientView, t: TalkView)
    ensures
        target_heard(args, c, t) matches Heard::Asks(a) ==> !client::writes(a),
{
    client::lookups_only_read(c, Seq::empty(), Seq::empty(), t);
    match project_heard(args, c, t) {
        Heard::Got(target, t2) => {
            client::lookups_only_read(c, target.project_id, Seq::empty(), t2);
        },
        _ => {},
    }
}

proof fn lemma_new_fields_only_read(
    args: CreateView,
    title: Text,
    c: ClientView,
    project: Text,
    t: TalkView,
)
    ensures
        new_fields(args, title, c, project, t) matches Heard::Asks(a) ==> !client::writes(a),
{
    fields::resolving_only_reads(c, project, args.state, args.labels, args.desc_md, t);
    match fields::labels_heard(c, project, args.labels, t) {
        Heard::Got(_, t2) => {
            fields::resolving_only_reads(c, project, args.state, args.labels, args.desc_md, t2);
            match fields::description_heard(args.desc_md, t2) {
                Heard::Got(_, t3) => {
                    fields::resolving_only_reads(
                        c,
                        project,
                        args.state,
                        args.labels,
                        args.desc_md,
                        t3,
                    );
                },
                _ => {},
            }
        },
        _ => {},
    }
}

/// Whether everything that a new issue is made of is known by now.
pub open spec fn all_resolved(args: CreateView, world: WorldView, t: TalkView) -> bool {
    match title_of(args) {
        Err(_) => false,
        Ok(title) => match client::connecting(world, t) {
            Heard::Got(c, t) => match target_heard(args, c, t) {
                Heard::Got(target, t) => new_fields(args, title, c, target.project_id, t) is Got,
                _ => false,
            },
            _ => false,
        },
    }
}

/// Nothing is written before the project, the module, and every state, label,
/// priority and date has been resolved: a typo leaves nothing behind.
pub proof fn names_resolve_before_anything_is_written(
    args: CreateView,
    world: WorldView,
    t: TalkView,
)
    ensures
        creating(args, world, t) matches Heard::Asks(a) ==> client::writes(a) ==> all_resolved(
            args,
            world,
            t,
        ),
{
    if let Ok(title) = title_of(args) {
        client::connecting_sends_nothing(world, t);
        if let Heard::Got(c, t1) = client::connecting(world, t) {
            lemma_target_only_reads(args, c, t1);
            if let Heard::Got(target, t2) = target_heard(args, c, t1) {
                lemma_new_fields_only_read(args, title, c, target.project_id, t2);
            }
        }
    }
}

/// An issue that was created and can be addressed is reported, whatever becomes
/// of attaching it to its module.
pub proof fn a_created_issue_is_reported(
    args: CreateView,
    c: ClientView,
    target: TargetView,
    wanted: nat,
    created: JsonView,
    t: TalkView,
)
    requires
        output::field_of(created, "id"@).len() > 0,
        target.identifier is Some,
    ensures
        match after_create(args, c, target, wanted, created, t) {
            Heard::Got(end, _) => end.out is Some,
            Heard::Failed(_, _) => false,
            Heard::Asks(_) => true,
        },
{
}

/// Labels that did not all land make the command fail, though the issue exists.
pub proof fn labels_that_did_not_land_are_an_error(
    args: CreateView,
    c: ClientView,
    target: TargetView,
    created: JsonView,
    reference: Text,
    wanted: nat,
    attach_error: Option<Seq<Text>>,
)
    ensures
        created_end(args, c, target, created, reference, wanted, attach_error).error is None
            <==> attach_error is None && written_labels(created) >= wanted,
{
}

/// Whether a new issue gets this title: the one behind the project, or the only
/// positional where a note says the project.
pub open spec fn is_title(args: CreateView, title: Text) -> bool {
    if args.from_note is Some {
        args.title is None && args.project == Some(title)
    } else {
        args.title == Some(title)
    }
}

/// Whether a new issue goes into this project, once `after` has been heard: the
/// one that the note names by its UUID, or the one with the identifier.
pub open spec fn is_project(
    args: CreateView,
    c: ClientView,
    before: TalkView,
    project: Text,
    identifier: Option<Text>,
    noted_id: Option<Text>,
    noted_name: Option<Text>,
    after: TalkView,
) -> bool {
    match args.from_note {
        Some(path) => note::reading(path, before) == Heard::Got(
            note::NoteView {
                project_id: project,
                module_id: noted_id,
                project_identifier: identifier,
                module_name: noted_name,
            },
            after,
        ),
        None => {
            &&& args.project is Some
            &&& c.project_by_identifier(args.project->0, before) matches Heard::Got(found, end)
            &&& end == after
            &&& project == output::field_of(found, "id"@)
            &&& identifier == Some(output::field_of(found, "identifier"@))
            &&& noted_id is None
            &&& noted_name is None
        },
    }
}

/// Whether a new issue is attached to this module: the one that was named, by its
/// id, or else the one of the note.
pub open spec fn is_module(
    args: CreateView,
    c: ClientView,
    project: Text,
    before: TalkView,
    noted_id: Option<Text>,
    noted_name: Option<Text>,
    module: Option<Text>,
    label: Option<Text>,
    after: TalkView,
) -> bool {
    match args.module {
        Some(name) => module is Some && label == Some(name) && c.resolve_module(
            project,
            name,
            before,
        ) == Heard::Got(module->0, after),
        None => module == noted_id && label == noted_name && after == before,
    }
}

/// A new issue is posted to the project that was named, by identifier or by a
/// note, with the title, the description as HTML, the id of the state, the
/// priority, the due date and the ids of the labels that were asked for, and
/// nothing that was not. Once it is created, what is left concerns that issue and
/// the module that was named, before the one of the note.
pub proof fn a_new_issue_carries_what_was_asked_for(
    args: CreateView,
    title: Text,
    world: WorldView,
    t: TalkView,
    c: ClientView,
    t1: TalkView,
    target: TargetView,
    noted_id: Option<Text>,
    noted_name: Option<Text>,
    t2: TalkView,
    t3: TalkView,
    labels: Option<Seq<Text>>,
    t4: TalkView,
    source: Text,
    t5: TalkView,
    state: Option<Text>,
    t6: TalkView,
    priority: Option<Text>,
    due: Option<Text>,
)
    requires
        is_title(args, title),
        client::connecting(world, t) == Heard::Got(c, t1),
        is_project(
            args,
            c,
            t1,
            target.project_id,
            target.identifier,
            noted_id,
            noted_name,
            t2,
        ),
        is_module(
            args,
            c,
            target.project_id,
            t2,
            noted_id,
            noted_name,
            target.module_id,
            target.module_label,
            t3,
        ),
        fields::labels_heard(c, target.project_id, args.labels, t3) == Heard::Got(labels, t4),
        args.desc_md is None ==> t5 == t4,
        args.desc_md is Some ==> fields::says(args.desc_md->0, source, t4, t5),
        fields::state_heard(c, target.project_id, args.state, t5) == Heard::Got(state, t6),
        fields::priority_asked(args.priority, priority),
        fields::date_asked(args.due, due),
    ensures
        t6.at >= t6.answers.len() ==> (creating(args, world, t) matches Heard::Asks(
            AskView::Send(request),
        ) && request.method == Method::Post && request.url == c.base + "/workspaces/"@ + c.workspace
            + "/"@ + ("projects/"@ + target.project_id + "/issues/"@) && request.api_key == c.key
            && request.query.len() == 0 && request.body is Some && fields::carries(
            request.body->0,
            Some(title),
            match args.desc_md {
                Some(_) => Some(markdown::html_of(source)),
                None => None,
            },
            state,
            priority,
            due,
            labels,
        )),
        t6.at < t6.answers.len() ==> match client::response(c, t6.answers[t6.at as int]) {
            Ok(created) => creating(args, world, t) == after_create(
                args,
                c,
                target,
                match labels {
                    Some(ids) => ids.len(),
                    None => 0,
                },
                created,
                t6.further(),
            ),
            Err(_) => creating(args, world, t) is Failed,
        },
{
    let f = FieldsView {
        name: Some(title),
        description_html: match args.desc_md {
            Some(_) => Some(markdown::html_of(source)),
            None => None,
        },
        state_id: state,
        priority,
        target_date: due,
        label_ids: labels,
    };
    assert(title_of(args) == Ok::<Text, Seq<Text>>(title));
    assert(target_heard(args, c, t1) == Heard::Got(target, t3));
    if let Some(arg) = args.desc_md {
        fields::a_description_is_written_as_html(arg, t4);
    }
    assert(fields::description_heard(args.desc_md, t4) == Heard::Got(f.description_html, t5));
    fields::a_priority_and_a_date_are_written_as_given(args.priority, args.due, t6);
    assert(new_fields(args, title, c, target.project_id, t3) == Heard::Got(f, t6));
    fields::a_body_carries_its_fields(f);
    if t6.at >= t6.answers.len() {
        client::writes_go_where_they_belong(
            c,
            target.project_id,
            Seq::empty(),
            Seq::empty(),
            JsonView::Object(fields::body_of(f)),
            0,
            Seq::empty(),
            t6,
        );
    }
}

/// What is typed wrong creates nothing: no title, a title and a note both, a
/// priority or a date that is none.
pub proof fn what_is_typed_wrong_creates_nothing(
    args: CreateView,
    title: Text,
    world: WorldView,
    c: ClientView,
    project: Text,
    t: TalkView,
)
    ensures
        args.from_note is Some && (args.title is Some || args.project is None) ==> creating(
            args,
            world,
            t,
        ) is Failed && creating(args, world, t)->Failed_1 == t,
        args.from_note is None && args.title is None ==> creating(args, world, t) is Failed
            && creating(args, world, t)->Failed_1 == t,
        (args.priority is Some && names::priority_of(args.priority->0) is Err) || (args.due is Some
            && names::date_of(args.due->0) is Err) ==> new_fields(
            args,
            title,
            c,
            project,
            t,
        ) !is Got,
{
}

/// The reference of a new issue as it is printed: the identifier of its project
/// and its number.
pub open spec fn is_reference_of(
    reference: Text,
    identifier: Option<Text>,
    created: JsonView,
) -> bool {
    reference == (match identifier {
        Some(identifier) => identifier,
        None => "?"@,
    }) + "-"@ + (match created.member("sequence_id"@) {
        Some(JsonView::Int(n)) => text::signed_decimal(n as int),
        _ => "?"@,
    })
}

/// A created issue whose project is known is attached to its module, where it has
/// one, by its own id; what is printed says that it was created, and the command
/// fails afterwards exactly where the attaching failed or labels are missing.
pub proof fn a_created_issue_is_attached_and_reported(
    args: CreateView,
    c: ClientView,
    target: TargetView,
    wanted: nat,
    created: JsonView,
    start: TalkView,
    identifier: Option<Text>,
    t: TalkView,
    id: Text,
    reference: Text,
)
    requires
        identifier_heard(c, target, start) == Heard::Got(identifier, t),
        created.member("id"@) == Some(JsonView::Text(id)),
        id.len() > 0,
        is_reference_of(reference, identifier, created),
    ensures
        ({
            let landed = match created.member("labels"@) {
                Some(JsonView::Array(list)) => list.len() >= wanted,
                _ => wanted == 0,
            };
            let h = after_create(args, c, target, wanted, created, start);
            match target.module_id {
                None => h matches Heard::Got(end, t2) && t2 == t && reported(
                    args,
                    created,
                    reference,
                    end,
                ) && (end.error is None <==> landed),
                Some(module) => if t.at >= t.answers.len() {
                    h == Heard::<FinishView>::Asks(
                        client::request_for(
                            c,
                            Method::Post,
                            "projects/"@ + target.project_id + "/modules/"@ + module
                                + "/module-issues/"@,
                            Seq::empty(),
                            Some(
                                JsonView::Object(
                                    seq![("issues"@, JsonView::Array(seq![JsonView::Text(id)]))],
                                ),
                            ),
                        ),
                    )
                } else {
                    h matches Heard::Got(end, t2) && t2 == t.further() && reported(
                        args,
                        created,
                        reference,
                        end,
                    ) && (end.error is None <==> landed && client::response(
                        c,
                        t.answers[t.at as int],
                    ) is Ok)
                },
            }
        }),
{
    reveal_strlit("Created ");
    if let Some(module) = target.module_id {
        if t.at >= t.answers.len() {
            client::writes_go_where_they_belong(
                c,
                target.project_id,
                id,
                module,
                JsonView::Null,
                0,
                Seq::empty(),
                t,
            );
        }
    }
    if let Heard::Got(end, _) = after_create(args, c, target, wanted, created, start) {
        if !args.json {
            let head = "Created "@ + reference + "  "@ + output::field_of(created, "name"@);
            let out = end.out->0;
            assert(new_reference(identifier, created) == reference);
            assert(out.subrange(0, head.len() as int) =~= head);
        }
    }
}

/// Whether a new issue is reported: as the API answered it, or by its reference
/// and its title.
pub open spec fn reported(
    args: CreateView,
    created: JsonView,
    reference: Text,
    end: FinishView,
) -> bool {
    &&& end.out is Some
    &&& args.json ==> end.out->0 == json::json_pretty(created)
    &&& !args.json ==> text::starts(
        end.out->0,
        "Created "@ + reference + "  "@ + output::field_of(created, "name"@),
    )
}

/// A note that names its project by the UUID alone has the identifier looked up
/// among the projects, by that UUID.
pub proof fn an_identifier_is_looked_up_by_the_uuid(
    c: ClientView,
    target: TargetView,
    t: TalkView,
)
    ensures
        target.identifier is Some ==> identifier_heard(c, target, t) == Heard::Got(
            target.identifier,
            t,
        ),
        target.identifier is None ==> match c.projects(t) {
            Heard::Asks(a) => identifier_heard(c, target, t) == Heard::<Option<Text>>::Asks(a),
            Heard::Failed(e, end) => identifier_heard(c, target, t) == Heard::<
                Option<Text>,
            >::Failed(e, end),
            Heard::Got(projects, end) => match identifier_heard(c, target, t) {
                Heard::Got(Some(identifier), t2) => t2 == end && exists|i: int|
                    0 <= i < projects.len() && output::field_of(#[trigger] projects[i], "id"@)
                        == target.project_id && output::field_of(projects[i], "identifier"@)
                        == identifier,
                Heard::Got(None, t2) => t2 == end && forall|i: int|
                    0 <= i < projects.len() ==> output::field_of(#[trigger] projects[i], "id"@)
                        != target.project_id,
                _ => false,
            },
        },
{
    if target.identifier is None {
        if let Heard::Got(projects, _) = c.projects(t) {
            lemma_project_with_id(projects, target.project_id);
        }
    }
}

proof fn lemma_project_with_id(projects: Seq<JsonView>, id: Text)
    ensures
        match project_with_id(projects, id) {
            Some(p) => exists|i: int|
                0 <= i < projects.len() && #[trigger] projects[i] == p && output::field_of(
                    p,
                    "id"@,
                ) == id,
            None => forall|i: int|
                0 <= i < projects.len() ==> output::field_of(#[trigger] projects[i], "id"@) != id,
        },
    decreases projects.len(),
{
    if projects.len() > 0 && output::field_of(projects[0], "id"@) != id {
        let rest = projects.drop_first();
        lemma_project_with_id(rest, id);
        match project_with_id(rest, id) {
            Some(p) => {
                let i = choose|i: int|
                    0 <= i < rest.len() && #[trigger] rest[i] == p && output::field_of(p, "id"@)
                        == id;
                assert(projects[i + 1] == p);
            },
            None => {
                assert forall|i: int| 0 <= i < projects.len() implies output::field_of(
                    #[trigger] projects[i],
                    "id"@,
                ) != id by {
                    if i > 0 {
                        assert(rest[i - 1] == projects[i]);
                    }
                }
            },
        }
    }
}

/// A report says where the issue is, which labels it has and which module it is
/// in, each where that is so, and an error names the issue that exists.
pub proof fn a_report_says_what_landed(
    args: CreateView,
    c: ClientView,
    target: TargetView,
    created: JsonView,
    reference: Text,
    wanted: nat,
    attach_error: Option<Seq<Text>>,
)
    requires
        !args.json,
    ensures
        ({
            let end = created_end(args, c, target, created, reference, wanted, attach_error);
            &&& c.web_base is Some ==> text::occurs(
                end.out->0,
                c.web_base->0 + "/"@ + c.workspace + "/browse/"@ + reference + "/"@,
            )
            &&& attach_error is None && target.module_label is Some ==> text::occurs(
                end.out->0,
                target.module_label->0 + " (attached)"@,
            )
            &&& attach_error is None && target.module_label is None && target.module_id is Some
                ==> text::occurs(end.out->0, target.module_id->0 + " (attached)"@)
            &&& wanted > 0 && (created.member("labels"@) matches Some(JsonView::Array(list))
                && list.len() >= wanted) ==> text::occurs(
                end.out->0,
                text::joined(args.labels, ", "@),
            )
            &&& end.error is Some ==> end.error->0.len() == 1 && text::starts(
                end.error->0[0],
                reference + " was created, but "@,
            )
        }),
{
    let end = created_end(args, c, target, created, reference, wanted, attach_error);
    let out = end.out->0;
    let head = "Created "@ + reference + "  "@ + output::field_of(created, "name"@);
    let url = match output::url_of(c.web_base, c.workspace, reference) {
        Some(url) => "\n  url:      "@ + url,
        None => Seq::empty(),
    };
    let labels = if wanted > 0 && written_labels(created) >= wanted {
        "\n  labels:   "@ + text::joined(args.labels, ", "@)
    } else {
        Seq::empty()
    };
    if c.web_base is Some {
        let link = c.web_base->0 + "/"@ + c.workspace + "/browse/"@ + reference + "/"@;
        let at = (head.len() + "\n  url:      "@.len()) as int;
        assert(out.subrange(at, at + link.len()) =~= link);
        assert(text::occurs_at(out, link, at));
    }
    if wanted > 0 && written_labels(created) >= wanted {
        let list = text::joined(args.labels, ", "@);
        let at = (head.len() + url.len() + "\n  labels:   "@.len()) as int;
        assert(out.subrange(at, at + list.len()) =~= list);
        assert(text::occurs_at(out, list, at));
    }
    if attach_error is None && module_shown(target) is Some {
        let shown = module_shown(target)->0 + " (attached)"@;
        let at = (head.len() + url.len() + labels.len() + "\n  module:   "@.len()) as int;
        assert(out.subrange(at, at + shown.len()) =~= shown);
        assert(text::occurs_at(out, shown, at));
    }
    if end.error is Some {
        reveal_strlit(" was created, but ");
        reveal_strlit(" was created, but attaching it to module \"");
        reveal_strlit(" was created, but Plane returned ");
        let front = reference + " was created, but "@;
        assert(end.error->0[0].subrange(0, front.len() as int) =~= front);
    }
}

/// Where a new issue could not be attached to its module, the report reads as if no
/// module had been asked for, and the error says which module, why, and how to
/// attach the issue without creating it again.
#[verifier::rlimit(40)]
pub proof fn a_failed_attachment_is_not_reported_as_done(
    args: CreateView,
    c: ClientView,
    target: TargetView,
    created: JsonView,
    reference: Text,
    wanted: nat,
    e: Seq<Text>,
    module: Text,
)
    requires
        target.module_label == Some(module),
        e.len() > 0,
    ensures
        ({
            let end = created_end(args, c, target, created, reference, wanted, Some(e));
            let bare = TargetView { module_id: None, module_label: None, ..target };
            &&& end.out == created_end(args, c, bare, created, reference, wanted, None).out
            &&& end.error matches Some(said)
            &&& said.len() == 1
            &&& text::occurs(said[0], module)
            &&& text::occurs(said[0], e[0])
            &&& text::occurs(said[0], "plane issue update "@ + reference + " --module \""@ + module)
        }),
{
    let p0 = " was created, but attaching it to module \""@;
    let p1 = "\" failed: "@;
    let p2 = "\nThe issue exists: link it with `plane issue update "@;
    let p3 = " --module \""@;
    let p4 = "\"` rather than creating it again."@;
    let whole = reference + p0 + module + p1 + e[0] + p2 + reference + p3 + module + p4;
    assert(whole =~= reference + p0 + module + (p1 + e[0] + p2 + reference + p3 + module + p4));
    text::lemma_between(reference + p0, module, p1 + e[0] + p2 + reference + p3 + module + p4);
    assert(whole =~= reference + p0 + module + p1 + e[0] + (p2 + reference + p3 + module + p4));
    text::lemma_between(reference + p0 + module + p1, e[0], p2 + reference + p3 + module + p4);
    reveal_strlit("\nThe issue exists: link it with `plane issue update ");
    reveal_strlit("plane issue update ");
    let hint = "plane issue update "@ + reference + p3 + module;
    let before = "\nThe issue exists: link it with `"@;
    reveal_strlit("\nThe issue exists: link it with `");
    assert(p2 =~= before + "plane issue update "@);
    assert(whole =~= reference + p0 + module + p1 + e[0] + before + hint + p4);
    text::lemma_between(reference + p0 + module + p1 + e[0] + before, hint, p4);
}

/// Labels that did not land are counted, and the issue that exists is named.
pub proof fn labels_that_did_not_land_are_counted(
    target: TargetView,
    created: JsonView,
    reference: Text,
    wanted: nat,
    written: nat,
)
    requires
        written == (match created.member("labels"@) {
            Some(JsonView::Array(labels)) => labels.len(),
            _ => 0,
        }),
    ensures
        created_error(target, created, reference, wanted, None) is Some <==> written < wanted,
        written < wanted ==> text::starts(
            created_error(target, created, reference, wanted, None)->0[0],
            reference + " was created, but Plane returned "@ + text::decimal(written) + " of the "@
                + text::decimal(wanted) + " labels"@,
        ),
{
    if written < wanted {
        let said = created_error(target, created, reference, wanted, None)->0[0];
        let front = reference + " was created, but Plane returned "@ + text::decimal(written)
            + " of the "@ + text::decimal(wanted) + " labels"@;
        reveal_strlit(" labels");
        reveal_strlit(
            " labels it was given, so they did not all land.\nThe issue exists: set them with `plane issue update ",
        );
        assert(said.subrange(0, front.len() as int) =~= front);
    }
}

} // verus!
