//! Commenting on an issue.

use crate::client;
use crate::client::{Client, ClientView};
use crate::cmd::common;
use crate::cmd::common::AddressedView;
use crate::cmd::fields;
use crate::json;
use crate::json::JsonView;
use crate::markdown;
use crate::names;
use crate::output;
use crate::script;
use crate::script::{Answer, AskView, Finish, FinishView, Heard, Method, Step, Stop, Talk, TalkView};
use crate::store::{World, WorldView};
use crate::text::Text;
use vstd::prelude::*;

verus! {

broadcast use crate::text::lemma_texts_push;

/// Comments on an issue.
pub open spec fn commenting(
    reference: Text,
    comment: Text,
    as_json: bool,
    world: WorldView,
    t: TalkView,
) -> Heard<FinishView> {
    client::connecting(world, t).next(
        |c: ClientView, t: TalkView|
            common::addressing(c, reference, t).next(
                |found: AddressedView, t: TalkView|
                    fields::markdown_heard(comment, t).next(
                        |md: Text, t: TalkView|
                            {
                                let r = found.reference;
                                match output::required_of(found.issue, "project"@, r) {
                                    Err(e) => Heard::Failed(e, t),
                                    Ok(project) => match output::required_of(
                                        found.issue,
                                        "id"@,
                                        r,
                                    ) {
                                        Err(e) => Heard::Failed(e, t),
                                        Ok(issue) => c.create_comment(
                                            project,
                                            issue,
                                            markdown::html_of(md),
                                            t,
                                        ).next(
                                            |created: JsonView, t: TalkView|
                                                Heard::Got(
                                                    script::prints(
                                                        output::emitted(
                                                            created,
                                                            as_json,
                                                            "Commented on "@ + r,
                                                        ),
                                                    ),
                                                    t,
                                                ),
                                        ),
                                    },
                                }
                            },
                    ),
            ),
    )
}

fn write_comment(reference: &str, comment: &str, as_json: bool, world: &World, talk: &mut Talk) -> (r:
    Result<Finish, Stop>)
    ensures
        script::heard_finish(r, final(talk)@) == commenting(
            reference@,
            comment@,
            as_json,
            world@,
            old(talk)@,
        ),
{
    let c = Client::new(world, talk)?;
    let found = common::address(&c, reference, talk)?;
    let r: &str = found.reference.as_str();
    let md = fields::read_markdown(comment, talk)?;
    let project_id = script::rule(output::required_field(&found.issue, "project", r))?;
    let issue_id = script::rule(output::required_field(&found.issue, "id", r))?;
    let html = markdown::to_html(md.as_str());
    let created = c.create_comment(talk, project_id.as_str(), issue_id.as_str(), html.as_str())?;
    let shown = "Commented on ".to_string().concat(r);
    Ok(common::printed(output::emit(&created, as_json, shown)))
}

/// Comment on an issue.
pub fn issue_comment(
    reference: &str,
    text: &str,
    as_json: bool,
    world: &World,
    answers: &Vec<Answer>,
) -> (r: Step)
    ensures
        r@ == script::concluded(
            commenting(
                reference@,
                text@,
                as_json,
                world@,
                script::opening(script::answers_of(answers@)),
            ),
        ),
{
    let mut talk = Talk::new(answers);
    let r = write_comment(reference, text, as_json, world, &mut talk);
    assert(script::heard_finish(r, talk@) == commenting(
        reference@,
        text@,
        as_json,
        world@,
        script::opening(script::answers_of(answers@)),
    ));
    script::conclude(r)
}

// ---- laws ----

/// A comment is posted to the issue that was named, as the HTML of its markdown,
/// whether the markdown is the argument or what standard input says; it is over
/// once it has been answered.
pub proof fn a_comment_is_what_was_said(
    reference: Text,
    arg: Text,
    as_json: bool,
    world: WorldView,
    t: TalkView,
    c: ClientView,
    t1: TalkView,
    r: Text,
    issue: JsonView,
    t2: TalkView,
    project: Text,
    id: Text,
    source: Text,
    t3: TalkView,
)
    requires
        client::connecting(world, t) == Heard::Got(c, t1),
        names::reference_of(reference) == Ok::<Text, Seq<Text>>(r),
        c.issue_by_ref(r, t1) == Heard::Got(issue, t2),
        common::is_addressed(issue, project, id),
        fields::says(arg, source, t2, t3),
    ensures
        t3.at >= t3.answers.len() ==> commenting(reference, arg, as_json, world, t) == Heard::<
            FinishView,
        >::Asks(
            client::request_for(
                c,
                Method::Post,
                "projects/"@ + project + "/issues/"@ + id + "/comments/"@,
                Seq::empty(),
                Some(
                    JsonView::Object(
                        seq![("comment_html"@, JsonView::Text(markdown::html_of(source)))],
                    ),
                ),
            ),
        ),
        t3.at < t3.answers.len() ==> match client::response(c, t3.answers[t3.at as int]) {
            Ok(created) => commenting(reference, arg, as_json, world, t) == Heard::Got(
                FinishView {
                    out: Some(
                        if as_json {
                            json::json_pretty(created)
                        } else {
                            "Commented on "@ + r
                        },
                    ),
                    error: None,
                },
                t3.further(),
            ),
            Err(_) => commenting(reference, arg, as_json, world, t) is Failed,
        },
{
    reveal_strlit("Commented on ");
    if t3.at >= t3.answers.len() {
        client::writes_go_where_they_belong(
            c,
            project,
            id,
            markdown::html_of(source),
            JsonView::Null,
            0,
            Seq::empty(),
            t3,
        );
    }
}

/// Where standard input is to be read, it is asked for before anything is
/// posted.
pub proof fn standard_input_is_read_before_a_comment_is_posted(
    reference: Text,
    as_json: bool,
    world: WorldView,
    t: TalkView,
    c: ClientView,
    t1: TalkView,
    r: Text,
    issue: JsonView,
    t2: TalkView,
)
    requires
        client::connecting(world, t) == Heard::Got(c, t1),
        names::reference_of(reference) == Ok::<Text, Seq<Text>>(r),
        c.issue_by_ref(r, t1) == Heard::Got(issue, t2),
        t2.at >= t2.answers.len(),
    ensures
        commenting(reference, "-"@, as_json, world, t) == Heard::<FinishView>::Asks(
            AskView::ReadStdin,
        ),
{
}

} // verus!
