//! Listing projects, and the modules, labels and states of one.

use crate::client;
use crate::client::{Client, ClientView};
use crate::cmd::common;
use crate::cmd::sorting;
use crate::json;
use crate::json::JsonView;
use crate::output;
use crate::script;
use crate::script::{Answer, Finish, FinishView, Heard, Step, Stop, Talk, TalkView};
use crate::store::{World, WorldView};
use crate::text::Text;
use vstd::prelude::*;

verus! {

broadcast use crate::text::lemma_texts_push;

/// Lists the projects of the workspace.
pub open spec fn listing_projects(as_json: bool, world: WorldView, t: TalkView) -> Heard<
    FinishView,
> {
    client::connecting(world, t).next(
        |c: ClientView, t: TalkView|
            c.projects(t).next(
                |projects: Seq<JsonView>, t: TalkView|
                    {
                        let projects = sorting::by_field(projects, "identifier"@);
                        Heard::Got(
                            script::prints(
                                output::emitted(
                                    output::list_value(projects),
                                    as_json,
                                    output::projects_shown(projects),
                                ),
                            ),
                            t,
                        )
                    },
            ),
    )
}

fn list_projects(as_json: bool, world: &World, talk: &mut Talk) -> (r: Result<Finish, Stop>)
    ensures
        script::heard_finish(r, final(talk)@) == listing_projects(as_json, world@, old(talk)@),
{
    let c = Client::new(world, talk)?;
    let found = c.projects(talk)?;
    let projects = sorting::sort_by_field(&found, "identifier");
    let shown = output::project_list(&projects);
    Ok(common::printed(output::emit(&output::list_json(&projects), as_json, shown)))
}

/// List every project in the workspace.
pub fn project_list(as_json: bool, world: &World, answers: &Vec<Answer>) -> (r: Step)
    ensures
        r@ == script::concluded(
            listing_projects(as_json, world@, script::opening(script::answers_of(answers@))),
        ),
{
    let mut talk = Talk::new(answers);
    let r = list_projects(as_json, world, &mut talk);
    assert(script::heard_finish(r, talk@) == listing_projects(
        as_json,
        world@,
        script::opening(script::answers_of(answers@)),
    ));
    script::conclude(r)
}

/// The things of a kind that a project has, in the order they are listed.
/// States keep the order of the workflow.
pub open spec fn things_heard(
    kind: output::Kind,
    c: ClientView,
    project: Text,
    t: TalkView,
) -> Heard<Seq<JsonView>> {
    match kind {
        output::Kind::Modules => c.modules(project, t).next(
            |items: Seq<JsonView>, t: TalkView| Heard::Got(sorting::by_name(items), t),
        ),
        output::Kind::Labels => c.labels(project, t).next(
            |items: Seq<JsonView>, t: TalkView| Heard::Got(sorting::by_name(items), t),
        ),
        _ => c.states(project, t),
    }
}

/// Lists the modules, labels or states of a project.
pub open spec fn listing_things(
    kind: output::Kind,
    project: Text,
    as_json: bool,
    world: WorldView,
    t: TalkView,
) -> Heard<FinishView> {
    client::connecting(world, t).next(
        |c: ClientView, t: TalkView|
            c.project_by_identifier(project, t).next(
                |found: JsonView, t: TalkView|
                    things_heard(kind, c, output::field_of(found, "id"@), t).next(
                        |items: Seq<JsonView>, t: TalkView|
                            Heard::Got(
                                script::prints(
                                    output::emitted(
                                        output::list_value(items),
                                        as_json,
                                        output::things_shown(
                                            kind,
                                            items,
                                            output::field_of(found, "identifier"@),
                                        ),
                                    ),
                                ),
                                t,
                            ),
                    ),
            ),
    )
}

fn list_modules(project: &str, as_json: bool, world: &World, talk: &mut Talk) -> (r: Result<
    Finish,
    Stop,
>)
    ensures
        script::heard_finish(r, final(talk)@) == listing_things(
            output::Kind::Modules,
            project@,
            as_json,
            world@,
            old(talk)@,
        ),
{
    let c = Client::new(world, talk)?;
    let found = c.project_by_identifier(talk, project)?;
    let listed = c.modules(talk, output::field(&found, "id"))?;
    let modules = sorting::sort_by_name(&listed);
    let shown = output::module_list(&modules, output::field(&found, "identifier"));
    Ok(common::printed(output::emit(&output::list_json(&modules), as_json, shown)))
}

fn list_labels(project: &str, as_json: bool, world: &World, talk: &mut Talk) -> (r: Result<
    Finish,
    Stop,
>)
    ensures
        script::heard_finish(r, final(talk)@) == listing_things(
            output::Kind::Labels,
            project@,
            as_json,
            world@,
            old(talk)@,
        ),
{
    let c = Client::new(world, talk)?;
    let found = c.project_by_identifier(talk, project)?;
    let listed = c.labels(talk, output::field(&found, "id"))?;
    let labels = sorting::sort_by_name(&listed);
    let shown = output::label_list(&labels, output::field(&found, "identifier"));
    Ok(common::printed(output::emit(&output::list_json(&labels), as_json, shown)))
}

fn list_states(project: &str, as_json: bool, world: &World, talk: &mut Talk) -> (r: Result<
    Finish,
    Stop,
>)
    ensures
        script::heard_finish(r, final(talk)@) == listing_things(
            output::Kind::States,
            project@,
            as_json,
            world@,
            old(talk)@,
        ),
{
    let c = Client::new(world, talk)?;
    let found = c.project_by_identifier(talk, project)?;
    let states = c.states(talk, output::field(&found, "id"))?;
    let shown = output::state_list(&states, output::field(&found, "identifier"));
    Ok(common::printed(output::emit(&output::list_json(&states), as_json, shown)))
}

/// List the modules of a project.
pub fn module_list(project: &str, as_json: bool, world: &World, answers: &Vec<Answer>) -> (r: Step)
    ensures
        r@ == script::concluded(
            listing_things(
                output::Kind::Modules,
                project@,
                as_json,
                world@,
                script::opening(script::answers_of(answers@)),
            ),
        ),
{
    let mut talk = Talk::new(answers);
    let r = list_modules(project, as_json, world, &mut talk);
    assert(script::heard_finish(r, talk@) == listing_things(
        output::Kind::Modules,
        project@,
        as_json,
        world@,
        script::opening(script::answers_of(answers@)),
    ));
    script::conclude(r)
}

/// List the labels of a project.
pub fn label_list(project: &str, as_json: bool, world: &World, answers: &Vec<Answer>) -> (r: Step)
    ensures
        r@ == script::concluded(
            listing_things(
                output::Kind::Labels,
                project@,
                as_json,
                world@,
                script::opening(script::answers_of(answers@)),
            ),
        ),
{
    let mut talk = Talk::new(answers);
    let r = list_labels(project, as_json, world, &mut talk);
    assert(script::heard_finish(r, talk@) == listing_things(
        output::Kind::Labels,
        project@,
        as_json,
        world@,
        script::opening(script::answers_of(answers@)),
    ));
    script::conclude(r)
}

/// List the states of a project.
pub fn state_list(project: &str, as_json: bool, world: &World, answers: &Vec<Answer>) -> (r: Step)
    ensures
        r@ == script::concluded(
            listing_things(
                output::Kind::States,
                project@,
                as_json,
                world@,
                script::opening(script::answers_of(answers@)),
            ),
        ),
{
    let mut talk = Talk::new(answers);
    let r = list_states(project, as_json, world, &mut talk);
    assert(script::heard_finish(r, talk@) == listing_things(
        output::Kind::States,
        project@,
        as_json,
        world@,
        script::opening(script::answers_of(answers@)),
    ));
    script::conclude(r)
}

// ---- laws ----

/// Listing writes nothing.
pub proof fn listing_writes_nothing(
    kind: output::Kind,
    project: Text,
    as_json: bool,
    world: WorldView,
    t: TalkView,
)
    ensures
        listing_projects(as_json, world, t) matches Heard::Asks(a) ==> !client::writes(a),
        listing_things(kind, project, as_json, world, t) matches Heard::Asks(a)
            ==> !client::writes(a),
{
    client::connecting_sends_nothing(world, t);
    if let Heard::Got(c, t1) = client::connecting(world, t) {
        let none = Seq::<char>::empty();
        client::lookups_only_read(c, none, none, t1);
        if let Heard::Got(found, t2) = c.project_by_identifier(project, t1) {
            client::lookups_only_read(c, output::field_of(found, "id"@), none, t2);
        }
    }
}

/// The projects of the workspace are listed by identifier, and the modules and
/// labels of a project by name without case; states keep the order of the
/// workflow. Each list holds everything that was fetched.
pub proof fn a_list_shows_all_there_is(
    kind: output::Kind,
    project: Text,
    as_json: bool,
    world: WorldView,
    t: TalkView,
    c: ClientView,
    t1: TalkView,
    projects: Seq<JsonView>,
    found: JsonView,
    items: Seq<JsonView>,
    t2: TalkView,
    t3: TalkView,
)
    requires
        client::connecting(world, t) == Heard::Got(c, t1),
    ensures
        c.projects(t1) == Heard::Got(projects, t2) ==> exists|shown: Seq<JsonView>| #[trigger]
            sorting::is_in_order_of(projects, shown, "identifier"@) && listing_projects(
                as_json,
                world,
                t,
            ) == Heard::Got(
                script::prints(
                    output::emitted(
                        JsonView::Object(
                            seq![
                                ("count"@, json::number(shown.len() as u64)),
                                ("results"@, JsonView::Array(shown)),
                            ],
                        ),
                        as_json,
                        output::projects_shown(shown),
                    ),
                ),
                t2,
            ),
        c.project_by_identifier(project, t1) == Heard::Got(found, t2) && are_things(
            kind,
            c,
            output::field_of(found, "id"@),
            t2,
            items,
            t3,
        ) ==> exists|shown: Seq<JsonView>| #[trigger]
            in_the_order_of(kind, items, shown) && listing_things(
                kind,
                project,
                as_json,
                world,
                t,
            ) == Heard::Got(
                script::prints(
                    output::emitted(
                        JsonView::Object(
                            seq![
                                ("count"@, json::number(shown.len() as u64)),
                                ("results"@, JsonView::Array(shown)),
                            ],
                        ),
                        as_json,
                        output::things_shown(
                            kind,
                            shown,
                            output::field_of(found, "identifier"@),
                        ),
                    ),
                ),
                t3,
            ),
{
    sorting::lists_come_in_their_order(projects, "identifier"@);
    assert(sorting::is_in_order_of(
        projects,
        sorting::by_field(projects, "identifier"@),
        "identifier"@,
    ));
    sorting::lists_come_in_their_order(items, "name"@);
    let shown = match kind {
        output::Kind::Modules => sorting::by_name(items),
        output::Kind::Labels => sorting::by_name(items),
        _ => items,
    };
    assert(in_the_order_of(kind, items, shown));
}

/// Whether the things of a kind that a project has were fetched.
pub open spec fn are_things(
    kind: output::Kind,
    c: ClientView,
    project: Text,
    before: TalkView,
    items: Seq<JsonView>,
    after: TalkView,
) -> bool {
    match kind {
        output::Kind::Modules => c.modules(project, before) == Heard::Got(items, after),
        output::Kind::Labels => c.labels(project, before) == Heard::Got(items, after),
        output::Kind::States => c.states(project, before) == Heard::Got(items, after),
        _ => false,
    }
}

/// Whether a list holds what was fetched in the order that its kind is listed in.
pub open spec fn in_the_order_of(
    kind: output::Kind,
    items: Seq<JsonView>,
    shown: Seq<JsonView>,
) -> bool {
    match kind {
        output::Kind::Modules => sorting::is_in_order_of_names(items, shown),
        output::Kind::Labels => sorting::is_in_order_of_names(items, shown),
        _ => shown == items,
    }
}

} // verus!
