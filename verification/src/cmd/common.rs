//! What several commands share: how one ends, and which issue it is about.

use crate::client::{Client, ClientView};
use crate::json::{Json, JsonView};
use crate::names;
use crate::names::IssueRef;
use crate::script;
use crate::script::{Finish, Heard, Stop, Talk, TalkView};
use crate::text;
use crate::text::Text;
use vstd::prelude::*;

verus! {

broadcast use crate::text::lemma_texts_push;

/// A successful end.
pub(crate) fn printed(out: Option<String>) -> (r: Finish)
    ensures
        r@ == script::prints(text::text_option(out)),
{
    Finish { out, error: None }
}

// ---- the issue a command is about ----

/// An issue as a command addresses it.
pub struct AddressedView {
    pub reference: Text,
    pub issue: JsonView,
}

/// An issue as a command addresses it.
pub struct Addressed {
    pub reference: IssueRef,
    pub issue: Json,
}

impl View for Addressed {
    type V = AddressedView;

    open spec fn view(&self) -> AddressedView {
        AddressedView { reference: self.reference@, issue: self.issue@ }
    }
}

pub open spec fn heard_addressed(r: Result<Addressed, Stop>, t: TalkView) -> Heard<AddressedView> {
    match r {
        Ok(v) => Heard::Got(v@, t),
        Err(s) => script::stopped(s, t),
    }
}

/// Looks an issue up by its reference, in one call.
pub open spec fn addressing(c: ClientView, reference: Text, t: TalkView) -> Heard<AddressedView> {
    match names::reference_of(reference) {
        Err(e) => Heard::Failed(e, t),
        Ok(r) => c.issue_by_ref(r, t).next(
            |issue: JsonView, t: TalkView| Heard::Got(AddressedView { reference: r, issue }, t),
        ),
    }
}

pub(crate) fn address(c: &Client, reference: &str, talk: &mut Talk) -> (r: Result<Addressed, Stop>)
    ensures
        heard_addressed(r, final(talk)@) == addressing(c@, reference@, old(talk)@),
{
    let r = script::rule(IssueRef::parse(reference))?;
    let issue = c.issue_by_ref(talk, &r)?;
    Ok(Addressed { reference: r, issue })
}

pub open spec fn str_option(s: Option<&str>) -> Option<Text> {
    match s {
        Some(s) => Some(s@),
        None => None,
    }
}

// ---- laws ----

/// An issue is looked up by the reference that was typed, in one call; what is no
/// reference asks nothing.
pub proof fn an_issue_is_looked_up_by_its_reference(c: ClientView, reference: Text, t: TalkView)
    ensures
        match names::reference_of(reference) {
            Err(e) => addressing(c, reference, t) == Heard::<AddressedView>::Failed(e, t),
            Ok(r) => match c.issue_by_ref(r, t) {
                Heard::Got(issue, end) => addressing(c, reference, t) == Heard::Got(
                    AddressedView { reference: r, issue },
                    end,
                ),
                Heard::Failed(e, end) => addressing(c, reference, t) == Heard::<
                    AddressedView,
                >::Failed(e, end),
                Heard::Asks(a) => addressing(c, reference, t) == Heard::<AddressedView>::Asks(a),
            },
        },
{
}

/// Whether an issue says of itself which project it is in and which id it has.
pub open spec fn is_addressed(issue: JsonView, project: Text, id: Text) -> bool {
    &&& issue.member("project"@) == Some(JsonView::Text(project))
    &&& issue.member("id"@) == Some(JsonView::Text(id))
    &&& project.len() > 0
    &&& id.len() > 0
}

} // verus!
