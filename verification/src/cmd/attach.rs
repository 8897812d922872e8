//! Attaching files, and listing what is attached.

use crate::client;
use crate::client::{Client, ClientView};
use crate::cmd::common;
use crate::cmd::common::AddressedView;
use crate::cmd::sorting;
use crate::error::Error;
use crate::json;
use crate::json::{Json, JsonView};
use crate::mime;
use crate::names;
use crate::output;
use crate::script;
use crate::script::{
    Answer, AnswerView, Ask, AskView, Finish, FinishView, Heard, Method, Step, Stop, Talk, TalkView,
};
use crate::store::{World, WorldView};
use crate::text;
use crate::text::Text;
use vstd::prelude::*;

verus! {

broadcast use crate::text::lemma_texts_push;

pub open spec fn no_usable_name(path: Text) -> Text {
    path + " has no usable file name to upload under."@
}

/// The file name and MIME type to declare for a file.
pub open spec fn meta_of(path: Text, size: u64) -> Result<(Text, Text), Seq<Text>> {
    match mime::name_in(path) {
        None => Err(seq![no_usable_name(path)]),
        Some(name) => if size == 0 {
            Err(
                seq![
                    path
                        + " is empty, and Plane's presigned upload requires at least one byte."@,
                ],
            )
        } else {
            Ok((name, mime::type_of_path(path)))
        },
    }
}

/// The file name and MIME type to declare in step one of the upload.
///
/// Both are fixed into the presigned policy before a byte moves, and the policy
/// also pins the byte count with a minimum of 1, so an empty file is rejected
/// here with something legible rather than by S3 with a 403 and XML.
pub fn attachment_meta(path: &str, size: u64) -> (r: Result<(String, &'static str), Error>)
    ensures
        (match r {
            Ok((name, mime)) => Ok((name@, mime@)),
            Err(e) => Err(e@),
        }) == meta_of(path@, size),
{
    match mime::file_name(path) {
        None => Err(
            Error::new(path.to_string().concat(" has no usable file name to upload under.")),
        ),
        Some(name) => if size == 0 {
            Err(
                Error::new(
                    path.to_string().concat(
                        " is empty, and Plane's presigned upload requires at least one byte.",
                    ),
                ),
            )
        } else {
            Ok((name, mime::from_path(path)))
        },
    }
}

/// Byte counts as they are shown. Nothing is asked where there are none.
pub open spec fn sizes_heard(sizes: Seq<JsonView>, t: TalkView) -> Heard<Seq<Text>> {
    if sizes.len() == 0 {
        Heard::Got(Seq::empty(), t)
    } else {
        script::asked(t, AskView::RenderSizes(sizes)).next(
            |answer: AnswerView, t: TalkView|
                match answer {
                    AnswerView::Sizes(shown) => if shown.len() == sizes.len() {
                        Heard::Got(shown, t)
                    } else {
                        Heard::Failed(script::misfit(), t)
                    },
                    _ => Heard::Failed(script::misfit(), t),
                },
        )
    }
}

fn read_sizes(sizes: Vec<Json>, talk: &mut Talk) -> (r: Result<Vec<String>, Stop>)
    ensures
        script::heard_texts(r, final(talk)@) == sizes_heard(json::values(sizes@), old(talk)@),
        r is Ok ==> r->Ok_0@.len() == sizes@.len(),
{
    let n: usize = sizes.len();
    if n == 0 {
        let none: Vec<String> = Vec::new();
        assert(text::texts(none@) =~= Seq::empty());
        return Ok(none);
    }
    match talk.hear(Ask::RenderSizes(sizes))? {
        Answer::Sizes(shown) => {
            if shown.len() == n {
                let mut out: Vec<String> = Vec::new();
                let mut i: usize = 0;
                while i < n
                    invariant
                        n == shown@.len(),
                        i <= n,
                        out@.len() == i,
                        forall|j: int| 0 <= j < i ==> (#[trigger] out@[j])@ == shown@[j]@,
                    decreases n - i,
                {
                    out.push(shown[i].clone());
                    i += 1;
                }
                assert(text::texts(out@) =~= text::texts(shown@));
                Ok(out)
            } else {
                Err(Stop::Fail(script::misfit_error()))
            }
        },
        _ => Err(Stop::Fail(script::misfit_error())),
    }
}

/// The size of a file on the command line. A file whose name is no text cannot
/// be uploaded.
pub open spec fn size_heard(file: nat, path: Text, t: TalkView) -> Heard<u64> {
    script::asked(t, AskView::Measure(file)).context("Could not read "@ + path).next(
        |answer: AnswerView, t: TalkView|
            match answer {
                AnswerView::Measured(size, named) => if named {
                    Heard::Got(size, t)
                } else {
                    Heard::Failed(seq![no_usable_name(path)], t)
                },
                _ => Heard::Failed(script::misfit(), t),
            },
    )
}

fn read_size(file: usize, path: &str, talk: &mut Talk) -> (r: Result<u64, Stop>)
    ensures
        (match r {
            Ok(size) => Heard::Got(size, final(talk)@),
            Err(s) => script::stopped(s, final(talk)@),
        }) == size_heard(file as nat, path@, old(talk)@),
{
    let answer = match talk.hear(Ask::Measure(file)) {
        Ok(answer) => answer,
        Err(stop) => {
            return Err(stop.context("Could not read ".to_string().concat(path)));
        },
    };
    match answer {
        Answer::Measured(size, named) => if *named {
            Ok(*size)
        } else {
            Err(
                Stop::Fail(
                    Error::new(
                        path.to_string().concat(" has no usable file name to upload under."),
                    ),
                ),
            )
        },
        _ => Err(Stop::Fail(script::misfit_error())),
    }
}

/// What is reported about an attached file.
pub open spec fn attached_entry(
    asset: Text,
    name: Text,
    size: u64,
    mime: Text,
    requested: JsonView,
) -> JsonView {
    JsonView::Object(
        seq![
            ("id"@, JsonView::Text(asset)),
            ("name"@, JsonView::Text(name)),
            ("size"@, json::number(size)),
            ("type"@, JsonView::Text(mime)),
            (
                "asset_url"@,
                match requested.member("asset_url"@) {
                    Some(v) => v,
                    None => JsonView::Null,
                },
            ),
        ],
    )
}

/// Puts a file behind a slot that was granted: posts it, and confirms.
pub open spec fn filling(
    c: ClientView,
    project: Text,
    issue: Text,
    file: nat,
    path: Text,
    reference: Text,
    name: Text,
    size: u64,
    mime: Text,
    requested: JsonView,
    t: TalkView,
) -> Heard<JsonView> {
    match requested.member("upload_data"@) {
        None => Heard::Failed(
            seq!["Plane's response for "@ + name + " carries no `upload_data`."@],
            t,
        ),
        Some(data) => match output::required_of(requested, "asset_id"@, name) {
            Err(e) => Heard::Failed(e, t),
            Ok(asset) => c.upload_attachment(data, file, path, mime, t).next(
                |u: (), t: TalkView|
                    c.confirm_attachment(project, issue, asset, t).context(
                        name + " uploaded but the confirm failed, so it stays invisible on "@
                            + reference,
                    ).next(
                        |v: JsonView, t: TalkView|
                            Heard::Got(attached_entry(asset, name, size, mime, requested), t),
                    ),
            ),
        },
    }
}

/// Uploads one file: asks for a slot, posts it, confirms.
pub open spec fn attaching_one(
    c: ClientView,
    project: Text,
    issue: Text,
    file: nat,
    path: Text,
    reference: Text,
    t: TalkView,
) -> Heard<JsonView> {
    size_heard(file, path, t).next(
        |size: u64, t: TalkView|
            match meta_of(path, size) {
                Err(e) => Heard::Failed(e, t),
                Ok((name, mime)) => c.request_attachment(
                    project,
                    issue,
                    name,
                    size,
                    mime,
                    t,
                ).context("Could not request an upload slot for "@ + name).next(
                    |requested: JsonView, t: TalkView|
                        filling(
                            c,
                            project,
                            issue,
                            file,
                            path,
                            reference,
                            name,
                            size,
                            mime,
                            requested,
                            t,
                        ),
                ),
            },
    )
}

fn fill(
    c: &Client,
    project_id: &str,
    issue_id: &str,
    file: usize,
    path: &str,
    reference: &str,
    name: &str,
    size: u64,
    mime: &str,
    requested: &Json,
    talk: &mut Talk,
) -> (r: Result<Json, Stop>)
    ensures
        script::heard_json(r, final(talk)@) == filling(
            c@,
            project_id@,
            issue_id@,
            file as nat,
            path@,
            reference@,
            name@,
            size,
            mime@,
            requested@,
            old(talk)@,
        ),
{
    let data = match requested.get("upload_data") {
        Some(data) => data,
        None => {
            return Err(
                Stop::Fail(
                    Error::new(
                        "Plane's response for ".to_string().concat(name).concat(
                            " carries no `upload_data`.",
                        ),
                    ),
                ),
            );
        },
    };
    let asset_id = script::rule(output::required_field(requested, "asset_id", name))?;
    c.upload_attachment(talk, data, file, path, mime)?;
    match c.confirm_attachment(talk, project_id, issue_id, asset_id.as_str()) {
        Ok(_) => {},
        Err(stop) => {
            return Err(
                stop.context(
                    name.to_string().concat(
                        " uploaded but the confirm failed, so it stays invisible on ",
                    ).concat(reference),
                ),
            );
        },
    }
    let mut entry = json::Fields::new();
    entry.put_text("id", asset_id.as_str());
    entry.put_text("name", name);
    entry.put("size", json::number_of(size));
    entry.put_text("type", mime);
    let url: Json = match requested.get("asset_url") {
        Some(v) => v.clone(),
        None => Json::Null,
    };
    entry.put("asset_url", url);
    assert(entry@ =~= attached_entry(asset_id@, name@, size, mime@, requested@)->Object_0);
    Ok(entry.object())
}

/// Upload one file: request a slot, POST it, confirm.
fn attach_one(
    c: &Client,
    project_id: &str,
    issue_id: &str,
    file: usize,
    path: &str,
    reference: &str,
    talk: &mut Talk,
) -> (r: Result<Json, Stop>)
    ensures
        script::heard_json(r, final(talk)@) == attaching_one(
            c@,
            project_id@,
            issue_id@,
            file as nat,
            path@,
            reference@,
            old(talk)@,
        ),
{
    let size: u64 = read_size(file, path, talk)?;
    let (name, mime) = match attachment_meta(path, size) {
        Ok(meta) => meta,
        Err(e) => {
            return Err(Stop::Fail(e));
        },
    };
    let requested = match c.request_attachment(
        talk,
        project_id,
        issue_id,
        name.as_str(),
        size,
        mime,
    ) {
        Ok(v) => v,
        Err(stop) => {
            return Err(
                stop.context(
                    "Could not request an upload slot for ".to_string().concat(name.as_str()),
                ),
            );
        },
    };
    fill(
        c,
        project_id,
        issue_id,
        file,
        path,
        reference,
        name.as_str(),
        size,
        mime,
        &requested,
        talk,
    )
}

/// The line about an attached file.
pub open spec fn attached_text(entry: JsonView, size: Text, reference: Text) -> Text {
    "Attached "@ + output::field_of(entry, "name"@) + " ("@ + size + ", "@ + output::field_of(
        entry,
        "type"@,
    ) + ") to "@ + reference
}

/// The line about an attached file, with its size as it is shown.
pub fn attached_line(entry: &Json, size: &str, reference: &str) -> (r: String)
    ensures
        r@ == attached_text(entry@, size@, reference@),
{
    "Attached ".to_string().concat(output::field(entry, "name")).concat(" (").concat(size).concat(
        ", ",
    ).concat(output::field(entry, "type")).concat(") to ").concat(reference)
}

/// The size that a value carries.
pub open spec fn size_value(v: JsonView) -> JsonView {
    match v.member("size"@) {
        Some(size) => size,
        None => JsonView::Null,
    }
}

fn size_of_value(v: &Json) -> (r: Json)
    ensures
        r@ == size_value(v@),
{
    match v.get("size") {
        Some(size) => size.clone(),
        None => Json::Null,
    }
}

/// Says that a file was attached, the moment it is, unless `--json` is to print
/// them all at the end.
pub open spec fn reporting(entry: JsonView, reference: Text, as_json: bool, t: TalkView) -> Heard<
    (),
> {
    if as_json {
        Heard::Got((), t)
    } else {
        sizes_heard(seq![size_value(entry)], t).next(
            |sizes: Seq<Text>, t: TalkView|
                script::done(t, AskView::Print(attached_text(entry, sizes[0], reference))),
        )
    }
}

fn report(entry: &Json, reference: &str, as_json: bool, talk: &mut Talk) -> (r: Result<(), Stop>)
    ensures
        script::heard_done(r, final(talk)@) == reporting(
            entry@,
            reference@,
            as_json,
            old(talk)@,
        ),
{
    if as_json {
        return Ok(());
    }
    let mut values: Vec<Json> = Vec::new();
    values.push(size_of_value(entry));
    assert(json::values(values@) =~= seq![size_value(entry@)]);
    let sizes = read_sizes(values, talk)?;
    assert(text::texts(sizes@)[0] == sizes@[0]@);
    talk.done(Ask::Print(attached_line(entry, sizes[0].as_str(), reference)))
}

/// The names of attached files.
pub open spec fn entry_names(entries: Seq<JsonView>) -> Seq<Text> {
    entries.map_values(|entry: JsonView| output::field_of(entry, "name"@))
}

/// What is said in front of a failure once some files are attached. A blind
/// retry of the whole list attaches those a second time.
pub open spec fn partly_attached(done: Seq<JsonView>, files: nat, reference: Text) -> Text {
    text::decimal(done.len()) + " of "@ + text::decimal(files) + " files already landed on "@
        + reference + " ("@ + text::joined(entry_names(done), ", "@)
        + "). `attach` is not transactional, so a retry should list only the files that are missing."@
}

/// Attaches the files from number `i` on. Several files are several independent
/// uploads, not a transaction: one that fails does not undo those before it.
pub open spec fn attaching_from(
    c: ClientView,
    project: Text,
    issue: Text,
    files: Seq<Text>,
    i: nat,
    done: Seq<JsonView>,
    reference: Text,
    as_json: bool,
    t: TalkView,
) -> Heard<FinishView>
    decreases files.len() - i,
{
    if i >= files.len() {
        Heard::Got(
            script::prints(
                if as_json {
                    Some(json::json_pretty(output::list_value(done)))
                } else {
                    None
                },
            ),
            t,
        )
    } else {
        match attaching_one(c, project, issue, i, files[i as int], reference, t) {
            Heard::Asks(a) => Heard::Asks(a),
            Heard::Failed(e, t) => if done.len() == 0 {
                Heard::Failed(e, t)
            } else {
                Heard::Failed(seq![partly_attached(done, files.len(), reference)] + e, t)
            },
            Heard::Got(entry, t) => match reporting(entry, reference, as_json, t) {
                Heard::Asks(a) => Heard::Asks(a),
                Heard::Failed(e, t) => Heard::Failed(e, t),
                Heard::Got(_, t) => attaching_from(
                    c,
                    project,
                    issue,
                    files,
                    i + 1,
                    done.push(entry),
                    reference,
                    as_json,
                    t,
                ),
            },
        }
    }
}

/// Attaches files to an issue.
pub open spec fn attaching(
    reference: Text,
    files: Seq<Text>,
    as_json: bool,
    world: WorldView,
    t: TalkView,
) -> Heard<FinishView> {
    client::connecting(world, t).next(
        |c: ClientView, t: TalkView|
            common::addressing(c, reference, t).next(
                |found: AddressedView, t: TalkView|
                    {
                        let r = found.reference;
                        match output::required_of(found.issue, "id"@, r) {
                            Err(e) => Heard::Failed(e, t),
                            Ok(issue) => match output::required_of(found.issue, "project"@, r) {
                                Err(e) => Heard::Failed(e, t),
                                Ok(project) => attaching_from(
                                    c,
                                    project,
                                    issue,
                                    files,
                                    0,
                                    Seq::empty(),
                                    r,
                                    as_json,
                                    t,
                                ),
                            },
                        }
                    },
            ),
    )
}

fn names_of(entries: &Vec<Json>) -> (r: Vec<String>)
    ensures
        text::texts(r@) == entry_names(json::values(entries@)),
{
    let mut out: Vec<String> = Vec::new();
    let mut i: usize = 0;
    while i < entries.len()
        invariant
            i <= entries@.len(),
            out@.len() == i,
            forall|j: int|
                0 <= j < i ==> (#[trigger] out@[j])@ == output::field_of(entries@[j]@, "name"@),
        decreases entries@.len() - i,
    {
        out.push(output::field(&entries[i], "name").to_string());
        i += 1;
    }
    assert(text::texts(out@) =~= entry_names(json::values(entries@)));
    out
}

fn partly(done: &Vec<Json>, files: usize, reference: &str) -> (r: String)
    ensures
        r@ == partly_attached(json::values(done@), files as nat, reference@),
{
    text::decimal_text(done.len() as u64).concat(" of ").concat(
        text::decimal_text(files as u64).as_str(),
    ).concat(" files already landed on ").concat(reference).concat(" (").concat(
        text::join(&names_of(done), ", ").as_str(),
    ).concat(
        "). `attach` is not transactional, so a retry should list only the files that are missing.",
    )
}

fn attach_all(
    c: &Client,
    project_id: &str,
    issue_id: &str,
    files: &Vec<String>,
    reference: &str,
    as_json: bool,
    talk: &mut Talk,
) -> (r: Result<Finish, Stop>)
    ensures
        script::heard_finish(r, final(talk)@) == attaching_from(
            c@,
            project_id@,
            issue_id@,
            text::texts(files@),
            0,
            Seq::empty(),
            reference@,
            as_json,
            old(talk)@,
        ),
{
    let ghost start = talk@;
    let ghost paths = text::texts(files@);
    let mut done: Vec<Json> = Vec::new();
    let mut i: usize = 0;
    assert(json::values(done@) =~= Seq::empty());
    while i < files.len()
        invariant
            i <= files@.len(),
            start == old(talk)@,
            paths == text::texts(files@),
            attaching_from(
                c@,
                project_id@,
                issue_id@,
                paths,
                0,
                Seq::empty(),
                reference@,
                as_json,
                start,
            ) == attaching_from(
                c@,
                project_id@,
                issue_id@,
                paths,
                i as nat,
                json::values(done@),
                reference@,
                as_json,
                talk@,
            ),
        decreases files@.len() - i,
    {
        assert(paths[i as int] == files@[i as int]@);
        let entry = match attach_one(
            c,
            project_id,
            issue_id,
            i,
            files[i].as_str(),
            reference,
            talk,
        ) {
            Ok(entry) => entry,
            Err(Stop::Ask(a)) => {
                return Err(Stop::Ask(a));
            },
            Err(Stop::Fail(e)) => {
                if done.len() == 0 {
                    return Err(Stop::Fail(e));
                }
                return Err(Stop::Fail(e.context(partly(&done, files.len(), reference))));
            },
        };
        report(&entry, reference, as_json, talk)?;
        let ghost before = json::values(done@);
        done.push(entry);
        assert(json::values(done@) =~= before.push(entry@));
        i += 1;
    }
    // The human lines are already out; only the envelope is left to print.
    if as_json {
        Ok(common::printed(Some(output::list_json(&done).to_pretty())))
    } else {
        Ok(common::printed(None))
    }
}

fn attach(reference: &str, files: &Vec<String>, as_json: bool, world: &World, talk: &mut Talk) -> (r:
    Result<Finish, Stop>)
    ensures
        script::heard_finish(r, final(talk)@) == attaching(
            reference@,
            text::texts(files@),
            as_json,
            world@,
            old(talk)@,
        ),
{
    let c = Client::new(world, talk)?;
    let found = common::address(&c, reference, talk)?;
    let r: &str = found.reference.as_str();
    let issue_id = script::rule(output::required_field(&found.issue, "id", r))?;
    let project_id = script::rule(output::required_field(&found.issue, "project", r))?;
    attach_all(&c, project_id.as_str(), issue_id.as_str(), files, r, as_json, talk)
}

/// Upload one or more files to an issue. `files` are their paths, as they are
/// shown.
pub fn issue_attach(
    reference: &str,
    files: &Vec<String>,
    as_json: bool,
    world: &World,
    answers: &Vec<Answer>,
) -> (r: Step)
    ensures
        r@ == script::concluded(
            attaching(
                reference@,
                text::texts(files@),
                as_json,
                world@,
                script::opening(script::answers_of(answers@)),
            ),
        ),
{
    let mut talk = Talk::new(answers);
    let r = attach(reference, files, as_json, world, &mut talk);
    assert(script::heard_finish(r, talk@) == attaching(
        reference@,
        text::texts(files@),
        as_json,
        world@,
        script::opening(script::answers_of(answers@)),
    ));
    script::conclude(r)
}

/// What is printed of the attachments of an issue. Their sizes are rendered
/// where they are shown.
pub open spec fn attachments_end(
    attachments: Seq<JsonView>,
    reference: Text,
    as_json: bool,
    t: TalkView,
) -> Heard<FinishView> {
    if as_json {
        Heard::Got(
            script::prints(Some(json::json_pretty(output::list_value(attachments)))),
            t,
        )
    } else {
        sizes_heard(attachments.map_values(|a: JsonView| size_value(a)), t).next(
            |sizes: Seq<Text>, t: TalkView|
                Heard::Got(
                    script::prints(
                        output::emitted(
                            output::list_value(attachments),
                            false,
                            output::attachments_shown(attachments, sizes, reference),
                        ),
                    ),
                    t,
                ),
        )
    }
}

/// Lists the files attached to an issue.
pub open spec fn listing_attachments(
    reference: Text,
    as_json: bool,
    world: WorldView,
    t: TalkView,
) -> Heard<FinishView> {
    client::connecting(world, t).next(
        |c: ClientView, t: TalkView|
            common::addressing(c, reference, t).next(
                |found: AddressedView, t: TalkView|
                    {
                        let r = found.reference;
                        match output::required_of(found.issue, "project"@, r) {
                            Err(e) => Heard::Failed(e, t),
                            Ok(project) => match output::required_of(found.issue, "id"@, r) {
                                Err(e) => Heard::Failed(e, t),
                                Ok(issue) => c.attachments(project, issue, t).next(
                                    |list: Seq<JsonView>, t: TalkView|
                                        attachments_end(
                                            sorting::by_field(list, "created_at"@),
                                            r,
                                            as_json,
                                            t,
                                        ),
                                ),
                            },
                        }
                    },
            ),
    )
}

fn end_attachments(attachments: &Vec<Json>, reference: &str, as_json: bool, talk: &mut Talk) -> (r:
    Result<Finish, Stop>)
    ensures
        script::heard_finish(r, final(talk)@) == attachments_end(
            json::values(attachments@),
            reference@,
            as_json,
            old(talk)@,
        ),
{
    let raw = output::list_json(attachments);
    if as_json {
        return Ok(common::printed(Some(raw.to_pretty())));
    }
    let mut values: Vec<Json> = Vec::new();
    let mut i: usize = 0;
    while i < attachments.len()
        invariant
            i <= attachments@.len(),
            values@.len() == i,
            forall|j: int| 0 <= j < i ==> (#[trigger] values@[j])@ == size_value(attachments@[j]@),
        decreases attachments@.len() - i,
    {
        values.push(size_of_value(&attachments[i]));
        i += 1;
    }
    assert(json::values(values@) =~= json::values(attachments@).map_values(
        |a: JsonView| size_value(a),
    ));
    let sizes = read_sizes(values, talk)?;
    let shown = output::attachment_list(attachments, &sizes, reference);
    Ok(common::printed(output::emit(&raw, false, shown)))
}

fn list_attachments(reference: &str, as_json: bool, world: &World, talk: &mut Talk) -> (r: Result<
    Finish,
    Stop,
>)
    ensures
        script::heard_finish(r, final(talk)@) == listing_attachments(
            reference@,
            as_json,
            world@,
            old(talk)@,
        ),
{
    let c = Client::new(world, talk)?;
    let found = common::address(&c, reference, talk)?;
    let r: &str = found.reference.as_str();
    let project_id = script::rule(output::required_field(&found.issue, "project", r))?;
    let issue_id = script::rule(output::required_field(&found.issue, "id", r))?;
    let list = c.attachments(talk, project_id.as_str(), issue_id.as_str())?;
    let attachments = sorting::sort_by_field(&list, "created_at");
    end_attachments(&attachments, r, as_json, talk)
}

/// List the files attached to an issue.
pub fn issue_attachments(
    reference: &str,
    as_json: bool,
    world: &World,
    answers: &Vec<Answer>,
) -> (r: Step)
    ensures
        r@ == script::concluded(
            listing_attachments(
                reference@,
                as_json,
                world@,
                script::opening(script::answers_of(answers@)),
            ),
        ),
{
    let mut talk = Talk::new(answers);
    let r = list_attachments(reference, as_json, world, &mut talk);
    assert(script::heard_finish(r, talk@) == listing_attachments(
        reference@,
        as_json,
        world@,
        script::opening(script::answers_of(answers@)),
    ));
    script::conclude(r)
}

// ---- laws ----

/// An empty file is refused before anything is asked of the server.
pub proof fn an_empty_file_is_refused_first(
    c: ClientView,
    project: Text,
    issue: Text,
    file: nat,
    path: Text,
    reference: Text,
    t: TalkView,
)
    requires
        t.at < t.answers.len(),
        t.answers[t.at as int] == AnswerView::Measured(0, true),
    ensures
        attaching_one(c, project, issue, file, path, reference, t) matches Heard::Failed(_, end)
            && end == t.further(),
{
}

/// A file that fails leaves those before it attached, and the failure names
/// them: it never comes out bare once one has landed.
pub proof fn a_failure_names_what_landed(
    c: ClientView,
    project: Text,
    issue: Text,
    files: Seq<Text>,
    i: nat,
    done: Seq<JsonView>,
    reference: Text,
    as_json: bool,
    t: TalkView,
)
    requires
        i < files.len(),
        done.len() > 0,
        attaching_one(c, project, issue, i, files[i as int], reference, t) is Failed,
    ensures
        attaching_from(c, project, issue, files, i, done, reference, as_json, t) matches Heard::Failed(
            e,
            _,
        ) && e.len() > 0 && e[0] == partly_attached(done, files.len(), reference),
{
}

/// Listing the files attached to an issue writes nothing.
pub proof fn listing_attachments_writes_nothing(
    reference: Text,
    as_json: bool,
    world: WorldView,
    t: TalkView,
)
    ensures
        listing_attachments(reference, as_json, world, t) matches Heard::Asks(a)
            ==> !client::writes(a),
{
    client::connecting_sends_nothing(world, t);
    if let Heard::Got(c, t1) = client::connecting(world, t) {
        if let Heard::Got(found, t2) = common::addressing(c, reference, t1) {
            let project = output::field_of(found.issue, "project"@);
            client::lookups_only_read(c, project, output::field_of(found.issue, "id"@), t2);
        }
    }
}

/// Whether the answers from `t` on attach a file of `size` bytes, down to the
/// confirmation: the slot that was granted is `slot`, with the id `asset`.
pub open spec fn lands(
    c: ClientView,
    path: Text,
    size: u64,
    slot: JsonView,
    asset: Text,
    t: TalkView,
) -> bool {
    &&& t.at + 4 <= t.answers.len()
    &&& is_slot(c, path, size, slot, asset, t)
    &&& t.answers[t.at as int + 2] matches AnswerView::Reply(stored) && 200 <= stored.code < 300
    &&& client::response(c, t.answers[t.at as int + 3]) is Ok
}

/// Whether the first two answers measure a file that can be attached and grant a
/// slot for it.
pub open spec fn is_slot(
    c: ClientView,
    path: Text,
    size: u64,
    slot: JsonView,
    asset: Text,
    t: TalkView,
) -> bool {
    &&& t.at + 2 <= t.answers.len()
    &&& t.answers[t.at as int] == AnswerView::Measured(size, true)
    &&& size > 0
    &&& mime::name_in(path) is Some
    &&& client::response(c, t.answers[t.at as int + 1]) == Ok::<JsonView, ()>(slot)
    &&& slot.member("asset_id"@) == Some(JsonView::Text(asset))
    &&& asset.len() > 0
    &&& slot.member("upload_data"@) is Some
    &&& client::upload_of(slot.member("upload_data"@)->0, 0, Seq::empty()) is Ok
}

/// Attaching file number `i` of a list concerns that file from beginning to end.
/// It is measured; a slot is asked for under its own name, size and type; that
/// very file is posted to the target that came with the slot; and the attachment
/// of the slot is confirmed. Each is asked as soon as the one before is answered,
/// and on the issue that was named.
pub proof fn each_file_is_attached_in_three_calls(
    c: ClientView,
    project: Text,
    issue: Text,
    files: Seq<Text>,
    i: nat,
    done: Seq<JsonView>,
    reference: Text,
    as_json: bool,
    t: TalkView,
    size: u64,
    slot: JsonView,
    asset: Text,
)
    requires
        i < files.len(),
    ensures
        ({
            let h = attaching_from(c, project, issue, files, i, done, reference, as_json, t);
            let path = files[i as int];
            let at = "projects/"@ + project + "/work-items/"@ + issue + "/attachments/"@;
            &&& t.at >= t.answers.len() ==> h == Heard::<FinishView>::Asks(AskView::Measure(i))
            &&& t.at + 1 == t.answers.len() && t.answers[t.at as int] == AnswerView::Measured(
                size,
                true,
            ) && size > 0 && mime::name_in(path) is Some ==> h == Heard::<FinishView>::Asks(
                client::request_for(
                    c,
                    Method::Post,
                    at,
                    Seq::empty(),
                    Some(
                        JsonView::Object(
                            seq![
                                ("name"@, JsonView::Text(mime::name_in(path)->0)),
                                ("size"@, json::number(size)),
                                ("type"@, JsonView::Text(mime::type_of_path(path))),
                            ],
                        ),
                    ),
                ),
            )
            &&& t.at + 2 == t.answers.len() && is_slot(c, path, size, slot, asset, t) ==> (
            h matches Heard::Asks(AskView::Upload(upload)) && upload.file == i && upload.mime
                == mime::type_of_path(path) && slot.member("upload_data"@)->0.member("url"@)
                == Some(JsonView::Text(upload.url)) && slot.member("upload_data"@)->0.member(
                "fields"@,
            ) == Some(JsonView::Object(client::text_entries(upload.fields))))
            &&& t.at + 3 == t.answers.len() && is_slot(c, path, size, slot, asset, t) && (
            t.answers[t.at as int + 2] matches AnswerView::Reply(stored) && 200 <= stored.code
                < 300) ==> h == Heard::<FinishView>::Asks(
                client::request_for(
                    c,
                    Method::Patch,
                    at + asset + "/"@,
                    Seq::empty(),
                    Some(JsonView::Object(Seq::empty())),
                ),
            )
        }),
{
    let path = files[i as int];
    let t1 = t.further();
    if t.at + 1 == t.answers.len() && mime::name_in(path) is Some {
        client::writes_go_where_they_belong(
            c,
            project,
            issue,
            mime::name_in(path)->0,
            JsonView::Null,
            size,
            mime::type_of_path(path),
            t1,
        );
    }
    if t.at + 2 == t.answers.len() && is_slot(c, path, size, slot, asset, t) {
        let data = slot.member("upload_data"@)->0;
        lemma_upload_parts(data, i, mime::type_of_path(path));
        client::an_upload_is_as_it_was_described(data, i, mime::type_of_path(path));
    }
    if t.at + 3 == t.answers.len() && is_slot(c, path, size, slot, asset, t) {
        let data = slot.member("upload_data"@)->0;
        lemma_upload_parts(data, i, mime::type_of_path(path));
        client::writes_go_where_they_belong(
            c,
            project,
            issue,
            asset,
            JsonView::Null,
            size,
            Seq::empty(),
            t1.further().further(),
        );
    }
}

proof fn lemma_upload_parts(data: JsonView, file: nat, mime: Text)
    requires
        client::upload_of(data, 0, Seq::empty()) is Ok,
    ensures
        client::upload_of(data, file, mime) is Ok,
{
}

/// A file that landed is reported as what it is, by its own name, size and type
/// and by the id of its slot, and the next file of the list follows; nothing is
/// skipped and nothing comes twice. What is printed of it is printed at once.
pub proof fn a_file_that_landed_is_reported_and_the_next_one_follows(
    c: ClientView,
    project: Text,
    issue: Text,
    files: Seq<Text>,
    i: nat,
    done: Seq<JsonView>,
    reference: Text,
    as_json: bool,
    t: TalkView,
    size: u64,
    slot: JsonView,
    asset: Text,
    shown: Text,
)
    requires
        i < files.len(),
        lands(c, files[i as int], size, slot, asset, t),
    ensures
        ({
            let h = attaching_from(c, project, issue, files, i, done, reference, as_json, t);
            let path = files[i as int];
            let name = mime::name_in(path)->0;
            let mime = mime::type_of_path(path);
            let entry = JsonView::Object(
                seq![
                    ("id"@, JsonView::Text(asset)),
                    ("name"@, JsonView::Text(name)),
                    ("size"@, json::number(size)),
                    ("type"@, JsonView::Text(mime)),
                    (
                        "asset_url"@,
                        match slot.member("asset_url"@) {
                            Some(v) => v,
                            None => JsonView::Null,
                        },
                    ),
                ],
            );
            let t4 = TalkView { answers: t.answers, at: t.at + 4 };
            &&& as_json ==> h == attaching_from(
                c,
                project,
                issue,
                files,
                i + 1,
                done.push(entry),
                reference,
                as_json,
                t4,
            )
            &&& !as_json && t4.at >= t4.answers.len() ==> h == Heard::<FinishView>::Asks(
                AskView::RenderSizes(seq![json::number(size)]),
            )
            &&& !as_json && t4.at + 1 == t4.answers.len() && t4.answers[t4.at as int]
                == AnswerView::Sizes(seq![shown]) ==> h == Heard::<FinishView>::Asks(
                AskView::Print(
                    "Attached "@ + name + " ("@ + shown + ", "@ + mime + ") to "@ + reference,
                ),
            )
            &&& !as_json && t4.at + 2 <= t4.answers.len() && t4.answers[t4.at as int]
                == AnswerView::Sizes(seq![shown]) && t4.answers[t4.at as int + 1]
                == AnswerView::Done ==> h == attaching_from(
                c,
                project,
                issue,
                files,
                i + 1,
                done.push(entry),
                reference,
                as_json,
                t4.further().further(),
            )
        }),
{
    let path = files[i as int];
    let data = slot.member("upload_data"@)->0;
    lemma_upload_parts(data, i, mime::type_of_path(path));
    let name = mime::name_in(path)->0;
    let mime = mime::type_of_path(path);
    let entry = attached_entry(asset, name, size, mime, slot);
    let t4 = TalkView { answers: t.answers, at: t.at + 4 };
    assert(t.further().further().further().further() == t4);
    assert(attaching_one(c, project, issue, i, path, reference, t) == Heard::Got(entry, t4));
    lemma_entry_members(asset, name, size, mime, slot);
}

proof fn lemma_entry_members(
    asset: Text,
    name: Text,
    size: u64,
    mime: Text,
    slot: JsonView,
)
    ensures
        attached_entry(asset, name, size, mime, slot).member("name"@) == Some(
            JsonView::Text(name),
        ),
        attached_entry(asset, name, size, mime, slot).member("size"@) == Some(json::number(size)),
        attached_entry(asset, name, size, mime, slot).member("type"@) == Some(
            JsonView::Text(mime),
        ),
{
    reveal_strlit("id");
    reveal_strlit("name");
    reveal_strlit("size");
    reveal_strlit("type");
    assert("id"@.len() == 2);
    assert("name"@.len() == 4 && "name"@[0] == 'n');
    assert("size"@.len() == 4 && "size"@[0] == 's');
    assert("type"@.len() == 4 && "type"@[0] == 't');
    let e = attached_entry(asset, name, size, mime, slot)->Object_0;
    let e1 = e.drop_first();
    let e2 = e1.drop_first();
    let e3 = e2.drop_first();
    assert(e1[0] == e[1] && e2[0] == e[2] && e3[0] == e[3]);
    reveal_with_fuel(json::entry_named, 5);
}

/// Attaching begins with the first file of the list, on the issue that was named,
/// and ends once every file has landed: with all of them under `--json`, and with
/// nothing more to print where each was reported as it landed.
pub proof fn attaching_goes_from_the_first_file_to_the_last(
    reference: Text,
    files: Seq<Text>,
    as_json: bool,
    world: WorldView,
    t: TalkView,
    c: ClientView,
    t1: TalkView,
    r: Text,
    issue: JsonView,
    t2: TalkView,
    project: Text,
    id: Text,
    done: Seq<JsonView>,
    end: TalkView,
)
    requires
        client::connecting(world, t) == Heard::Got(c, t1),
        names::reference_of(reference) == Ok::<Text, Seq<Text>>(r),
        c.issue_by_ref(r, t1) == Heard::Got(issue, t2),
        common::is_addressed(issue, project, id),
    ensures
        attaching(reference, files, as_json, world, t) == attaching_from(
            c,
            project,
            id,
            files,
            0,
            Seq::empty(),
            r,
            as_json,
            t2,
        ),
        attaching_from(c, project, id, files, files.len(), done, r, as_json, end) == Heard::Got(
            FinishView {
                out: if as_json {
                    Some(
                        json::json_pretty(
                            JsonView::Object(
                                seq![
                                    ("count"@, json::number(done.len() as u64)),
                                    ("results"@, JsonView::Array(done)),
                                ],
                            ),
                        ),
                    )
                } else {
                    None
                },
                error: None,
            },
            end,
        ),
{
}

/// A file that cannot be read or named, or a call that is refused, ends the
/// command where it stands: no later file is touched.
pub proof fn a_refused_call_ends_the_command(
    c: ClientView,
    project: Text,
    issue: Text,
    files: Seq<Text>,
    i: nat,
    done: Seq<JsonView>,
    reference: Text,
    as_json: bool,
    t: TalkView,
    size: u64,
    slot: JsonView,
    asset: Text,
)
    requires
        i < files.len(),
        t.at < t.answers.len(),
    ensures
        ({
            let h = attaching_from(c, project, issue, files, i, done, reference, as_json, t);
            let path = files[i as int];
            &&& !(t.answers[t.at as int] matches AnswerView::Measured(n, true) && n > 0)
                || mime::name_in(path) is None ==> h is Failed
            &&& t.at + 2 <= t.answers.len() && t.answers[t.at as int] == AnswerView::Measured(
                size,
                true,
            ) && client::response(c, t.answers[t.at as int + 1]) is Err ==> h is Failed
            &&& t.at + 3 <= t.answers.len() && is_slot(c, path, size, slot, asset, t) && !(
            t.answers[t.at as int + 2] matches AnswerView::Reply(stored) && 200 <= stored.code
                < 300) ==> h is Failed
            &&& t.at + 4 <= t.answers.len() && is_slot(c, path, size, slot, asset, t) && (
            t.answers[t.at as int + 2] matches AnswerView::Reply(stored) && 200 <= stored.code
                < 300) && client::response(c, t.answers[t.at as int + 3]) is Err ==> h is Failed
        }),
{
    let path = files[i as int];
    if is_slot(c, path, size, slot, asset, t) {
        lemma_upload_parts(slot.member("upload_data"@)->0, i, mime::type_of_path(path));
    }
}

/// The files attached to an issue are shown oldest first, each with its size as
/// it is rendered, and all of them: nothing is left out and nothing is added.
pub proof fn attachments_are_listed_oldest_first(
    reference: Text,
    as_json: bool,
    world: WorldView,
    t: TalkView,
    c: ClientView,
    t1: TalkView,
    r: Text,
    issue: JsonView,
    t2: TalkView,
    project: Text,
    id: Text,
    list: Seq<JsonView>,
    t3: TalkView,
    sizes: Seq<Text>,
)
    requires
        client::connecting(world, t) == Heard::Got(c, t1),
        names::reference_of(reference) == Ok::<Text, Seq<Text>>(r),
        c.issue_by_ref(r, t1) == Heard::Got(issue, t2),
        common::is_addressed(issue, project, id),
        c.attachments(project, id, t2) == Heard::Got(list, t3),
    ensures
        exists|shown: Seq<JsonView>| #[trigger]
            sorting::is_in_order_of(list, shown, "created_at"@) && (
            if as_json {
                listing_attachments(reference, as_json, world, t) == Heard::Got(
                    FinishView {
                        out: Some(json::json_pretty(output::list_value(shown))),
                        error: None,
                    },
                    t3,
                )
            } else if shown.len() == 0 {
                listing_attachments(reference, as_json, world, t) == Heard::Got(
                    FinishView { out: Some(r + ": no attachments"@), error: None },
                    t3,
                )
            } else if t3.at >= t3.answers.len() {
                listing_attachments(reference, as_json, world, t) == Heard::<FinishView>::Asks(
                    AskView::RenderSizes(
                        shown.map_values(
                            |a: JsonView|
                                match a.member("size"@) {
                                    Some(v) => v,
                                    None => JsonView::Null,
                                },
                        ),
                    ),
                )
            } else {
                t3.answers[t3.at as int] == AnswerView::Sizes(sizes) && sizes.len() == shown.len()
                    ==> listing_attachments(reference, as_json, world, t) == Heard::Got(
                    FinishView {
                        out: Some(output::attachments_shown(shown, sizes, r)),
                        error: None,
                    },
                    t3.further(),
                )
            }),
{
    sorting::lists_come_in_their_order(list, "created_at"@);
    let shown = sorting::by_field(list, "created_at"@);
    reveal_strlit(": no attachments");
    assert(shown.map_values(|a: JsonView| size_value(a)) =~= shown.map_values(
        |a: JsonView|
            match a.member("size"@) {
                Some(v) => v,
                None => JsonView::Null,
            },
    ));
    if sizes.len() == shown.len() && shown.len() > 0 {
        output::a_list_is_never_blank(shown, sizes, r);
    }
}

/// A failure says which file it was about and which of the steps failed, in front
/// of what was wrong.
pub proof fn a_failure_says_which_step_failed(
    c: ClientView,
    project: Text,
    issue: Text,
    file: nat,
    path: Text,
    reference: Text,
    t: TalkView,
    size: u64,
    t1: TalkView,
    name: Text,
    kind: Text,
    requested: JsonView,
    t2: TalkView,
    data: JsonView,
    asset: Text,
    t3: TalkView,
    e: Seq<Text>,
    end: TalkView,
)
    ensures
        t.at < t.answers.len() && t.answers[t.at as int] == AnswerView::Failed(e) ==> attaching_one(
            c,
            project,
            issue,
            file,
            path,
            reference,
            t,
        ) == Heard::<JsonView>::Failed(seq!["Could not read "@ + path] + e, t.further()),
        size_heard(file, path, t) == Heard::Got(size, t1) && meta_of(path, size) == Ok::<
            (Text, Text),
            Seq<Text>,
        >((name, kind)) ==> {
            &&& c.request_attachment(project, issue, name, size, kind, t1) == Heard::<
                JsonView,
            >::Failed(e, end) ==> attaching_one(c, project, issue, file, path, reference, t)
                == Heard::<JsonView>::Failed(
                seq!["Could not request an upload slot for "@ + name] + e,
                end,
            )
            &&& c.request_attachment(project, issue, name, size, kind, t1) == Heard::Got(
                requested,
                t2,
            ) && requested.member("upload_data"@) == Some(data) && requested.member("asset_id"@)
                == Some(JsonView::Text(asset)) && asset.len() > 0 ==> {
                &&& c.upload_attachment(data, file, path, kind, t2) == Heard::<()>::Failed(e, end)
                    ==> attaching_one(c, project, issue, file, path, reference, t) == Heard::<
                    JsonView,
                >::Failed(e, end)
                &&& c.upload_attachment(data, file, path, kind, t2) == Heard::Got((), t3)
                    && c.confirm_attachment(project, issue, asset, t3) == Heard::<
                    JsonView,
                >::Failed(e, end) ==> attaching_one(c, project, issue, file, path, reference, t)
                    == Heard::<JsonView>::Failed(
                    seq![
                        name + " uploaded but the confirm failed, so it stays invisible on "@
                            + reference,
                    ] + e,
                    end,
                )
            }
        },
{
}

/// A file that cannot be attached is named in what is said of it.
pub proof fn a_file_that_cannot_be_attached_is_named(path: Text, size: u64)
    ensures
        match meta_of(path, size) {
            Ok(meta) => size > 0 && mime::name_in(path) == Some(meta.0) && meta.1
                == mime::type_of_path(path),
            Err(e) => (size == 0 || mime::name_in(path) is None) && e.len() == 1 && text::starts(
                e[0],
                path,
            ),
        },
{
    if let Err(e) = meta_of(path, size) {
        assert(e[0].subrange(0, path.len() as int) =~= path);
    }
}

/// Where some files landed before one failed, how many did, of how many, on which
/// issue and which they are is said first.
pub proof fn what_landed_before_a_failure_is_said(
    done: Seq<JsonView>,
    files: nat,
    reference: Text,
    i: int,
    name: Text,
)
    requires
        0 <= i < done.len(),
        done[i].member("name"@) == Some(JsonView::Text(name)),
    ensures
        text::starts(
            partly_attached(done, files, reference),
            text::decimal(done.len()) + " of "@ + text::decimal(files)
                + " files already landed on "@ + reference,
        ),
        text::occurs(partly_attached(done, files, reference), name),
{
    let whole = partly_attached(done, files, reference);
    let front = text::decimal(done.len()) + " of "@ + text::decimal(files)
        + " files already landed on "@ + reference;
    assert(whole.subrange(0, front.len() as int) =~= front);
    let names = entry_names(done);
    assert(names[i] == name);
    text::joining_keeps_each_piece(names, ", "@, i);
    text::lemma_occurs_within(
        front + " ("@,
        text::joined(names, ", "@),
        "). `attach` is not transactional, so a retry should list only the files that are missing."@,
        name,
    );
}

} // verus!
