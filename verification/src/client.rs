//! What the Plane CE REST API is asked, and what its answers mean.
//!
//! Every quirk of the CE API that cost time at the shell level is encoded here
//! once, so callers never have to remember it:
//!
//! - trailing slashes are mandatory (`projects` 301s, `projects/` 200s)
//! - there are no `-lite` endpoints; the plain forms are the ones that exist
//! - `GET /workspaces/<ws>/issues/<IDENT>-<n>/` resolves a human identifier in
//!   a single call
//! - `?expand=state,labels` substitutes the object *in place*; CE has no
//!   `state_detail` key
//! - list responses are cursor-paginated via `next_cursor` /
//!   `next_page_results`, so nothing here reads page 1 and calls it a day
//! - `/modules/<id>/module-issues/` returns issue objects directly, with no
//!   join wrapper

use crate::auth;
use crate::config;
use crate::config::{ConfigFile, Key};
use crate::error;
use crate::error::Error;
use crate::json;
use crate::json::{Json, JsonView};
use crate::names;
use crate::names::IssueRef;
use crate::script;
use crate::script::{
    Answer, AnswerView, Ask, AskView, Channel, Fault, Heard, Method, Reply, ReplyView, Request, RequestView,
    Stop, Talk, TalkView, Upload, UploadView,
};
use crate::store;
use crate::store::{World, WorldView};
use crate::text;
use crate::text::Text;
use vstd::prelude::*;

verus! {

broadcast use crate::text::lemma_texts_push;

pub const PAGE_SIZE: usize = 100;

/// Ceiling on pages per list call. At [`PAGE_SIZE`] that is 50k records, so
/// hitting it means the cursor is misbehaving rather than that the list is long.
pub const MAX_PAGES: usize = 500;

/// How long an API call may take, in seconds.
pub const API_TIMEOUT: u64 = 30;

/// How long an upload may take, in seconds: a whole file crosses the wire, not
/// a JSON round trip.
pub const UPLOAD_TIMEOUT: u64 = 600;

// ---- responses ----

/// Why a redirect is an error.
pub open spec fn redirected(reply: ReplyView) -> Text {
    "Plane returned "@ + reply.status + " and the redirect was not followed"@ + (if reply.location.len()
        == 0 {
        Seq::empty()
    } else {
        " to "@ + reply.location
    })
        + ".\nOn CE this is a missing trailing slash: `projects` 301s, `projects/` 200s. Redirects are never followed here, because the PAT rides in a custom header that would travel with them."@
}

/// The body of a failed response as an error shows it.
pub open spec fn detail(body: Text) -> Text {
    if text::byte_len(text::trimmed(body)) > 500 {
        text::head(text::trimmed(body), 500) + "..."@
    } else {
        text::trimmed(body)
    }
}

/// What may be behind a status.
pub open spec fn hint(workspace: Text, code: u16) -> Text {
    if code == 429 {
        "\nThe PAT is rate-limited to 60 requests a minute; wait a minute and retry."@
    } else if code == 401 || code == 403 {
        "\nCheck the PAT (`pass-cli vault list` proves the session), and check the workspace slug (`plane config show`): it is case-sensitive and lowercase, and this request used \""@
            + workspace + "\"."@
    } else if code == 502 || code == 503 {
        "\nPlane takes about 90 seconds to boot after a restart; a 502 right after one is expected."@
    } else {
        Seq::empty()
    }
}

/// What a response to a request comes to: the value in its body, or why there
/// is none.
pub open spec fn received(workspace: Text, reply: ReplyView) -> Result<JsonView, Seq<Text>> {
    if 300 <= reply.code <= 399 {
        Err(seq![redirected(reply)])
    } else if !(200 <= reply.code <= 299) {
        Err(
            seq![
                "Plane returned "@ + reply.status + ": "@ + detail(reply.body) + hint(
                    workspace,
                    reply.code,
                ),
            ],
        )
    } else if text::trimmed(reply.body).len() == 0 {
        Ok(JsonView::Null)
    } else {
        match json::json_parse(reply.body) {
            Ok(v) => Ok(v),
            Err(e) => Err(seq!["Plane returned a body that is not JSON"@, e]),
        }
    }
}

fn hint_text(workspace: &str, code: u16) -> (r: String)
    ensures
        r@ == hint(workspace@, code),
{
    if code == 429 {
        "\nThe PAT is rate-limited to 60 requests a minute; wait a minute and retry.".to_string()
    } else if code == 401 || code == 403 {
        "\nCheck the PAT (`pass-cli vault list` proves the session), and check the workspace slug (`plane config show`): it is case-sensitive and lowercase, and this request used \"".to_string().concat(
        workspace).concat("\".")
    } else if code == 502 || code == 503 {
        "\nPlane takes about 90 seconds to boot after a restart; a 502 right after one is expected.".to_string()
    } else {
        String::new()
    }
}

/// Reads a response. A redirect is never followed, because the token rides in a
/// custom header that would travel with it.
pub fn receive(workspace: &str, reply: &Reply) -> (r: Result<Json, Error>)
    ensures
        names::json_result(r) == received(workspace@, reply@),
{
    if 300 <= reply.code && reply.code <= 399 {
        let target = if reply.location.as_str().is_empty() {
            String::new()
        } else {
            " to ".to_string().concat(reply.location.as_str())
        };
        return Err(
            Error::new(
                "Plane returned ".to_string().concat(reply.status.as_str()).concat(
                    " and the redirect was not followed",
                ).concat(target.as_str()).concat(
                    ".\nOn CE this is a missing trailing slash: `projects` 301s, `projects/` 200s. Redirects are never followed here, because the PAT rides in a custom header that would travel with them.",
                ),
            ),
        );
    }
    let body: &str = text::trim(reply.body.as_str());
    if !(200 <= reply.code && reply.code <= 299) {
        let shown = if text::longer_than(body, 500) {
            text::first_chars(body, 500).to_string().concat("...")
        } else {
            body.to_string()
        };
        return Err(
            Error::new(
                "Plane returned ".to_string().concat(reply.status.as_str()).concat(": ").concat(
                    shown.as_str(),
                ).concat(hint_text(workspace, reply.code).as_str()),
            ),
        );
    }
    if body.is_empty() {
        return Ok(Json::Null);
    }
    match Json::parse(reply.body.as_str()) {
        Ok(v) => Ok(v),
        Err(e) => {
            let r = Error::new(e).context("Plane returned a body that is not JSON".to_string());
            assert(r@ =~= seq!["Plane returned a body that is not JSON"@, e@]);
            Err(r)
        },
    }
}

// ---- pages ----

/// The cursor of the next page, or nothing where the list is done.
pub open spec fn cursor_after(page: JsonView, current: Option<Text>) -> Result<
    Option<Text>,
    Seq<Text>,
> {
    let more = match page.member("next_page_results"@) {
        Some(v) => v.boolean() == Some(true),
        None => false,
    };
    if !more {
        Ok(None)
    } else {
        match page.member_text("next_cursor"@) {
            None => Ok(None),
            Some(next) => if Some(next) == current {
                Err(
                    seq![
                        "Plane repeated the pagination cursor \""@ + next
                            + "\", so the list is not advancing. Stopping instead of fetching the same page until the rate limit turns it into a 429."@,
                    ],
                )
            } else {
                Ok(Some(next))
            },
        }
    }
}

/// Decide the cursor for the next page, or `None` when the list is done. A
/// cursor that repeats means the list is not advancing, and following it would
/// spin until the rate limit turned it into a 429.
pub fn next_cursor(page: &Json, current: Option<&str>) -> (r: Result<Option<String>, Error>)
    ensures
        (match r {
            Ok(c) => Ok(text::text_option(c)),
            Err(e) => Err(e@),
        }) == cursor_after(
            page@,
            match current {
                Some(c) => Some(c@),
                None => None,
            },
        ),
{
    let more: bool = match page.get("next_page_results") {
        Some(v) => match v.as_bool() {
            Some(b) => b,
            None => false,
        },
        None => false,
    };
    if !more {
        return Ok(None);
    }
    match page.get_str("next_cursor") {
        None => Ok(None),
        Some(next) => {
            let repeated: bool = match current {
                Some(c) => text::same(next, c),
                None => false,
            };
            if repeated {
                Err(
                    Error::new(
                        "Plane repeated the pagination cursor \"".to_string().concat(next).concat(
                            "\", so the list is not advancing. Stopping instead of fetching the same page until the rate limit turns it into a 429.",
                        ),
                    ),
                )
            } else {
                Ok(Some(next.to_string()))
            }
        },
    }
}

/// The warning about an unenveloped list that is a full page long.
pub open spec fn truncation(path: Text, len: nat) -> Option<Text> {
    if len >= PAGE_SIZE {
        Some(
            "Warning: "@ + path + " answered with a bare array of "@ + text::decimal(len)
                + " items and no pagination envelope, which is the full page size. The result may be truncated."@,
        )
    } else {
        None
    }
}

/// Warn when an unenveloped response is a page long or more. A bare array
/// carries no `next_page_results`, so a full page of them is indistinguishable
/// from a server-side cap that silently dropped the rest.
pub fn bare_array_warning(path: &str, len: usize) -> (r: Option<String>)
    ensures
        text::text_option(r) == truncation(path@, len as nat),
{
    if len >= PAGE_SIZE {
        Some(
            "Warning: ".to_string().concat(path).concat(" answered with a bare array of ").concat(
                text::decimal_text(len as u64).as_str(),
            ).concat(
                " items and no pagination envelope, which is the full page size. The result may be truncated.",
            ),
        )
    } else {
        None
    }
}

/// What one page of a list comes to.
pub enum PageView {
    /// There are these items, and more at this cursor.
    More(Seq<JsonView>, Text),
    /// There are these items and no more. A text is to be told.
    Last(Seq<JsonView>, Option<Text>),
    Fault(Seq<Text>),
}

pub open spec fn page_of(path: Text, page: JsonView, cursor: Option<Text>) -> PageView {
    let results = match page.member("results"@) {
        Some(v) => v.items(),
        None => None,
    };
    match results {
        Some(items) => match cursor_after(page, cursor) {
            Ok(Some(next)) => PageView::More(items, next),
            Ok(None) => PageView::Last(items, None),
            Err(e) => PageView::Fault(e),
        },
        None => match page.items() {
            Some(items) => PageView::Last(items, truncation(path, items.len())),
            None => PageView::Fault(seq!["Expected a list response from "@ + path]),
        },
    }
}

/// What one page of a list comes to.
#[derive(Debug, PartialEq, Eq)]
pub enum Page {
    More(Vec<Json>, String),
    Last(Vec<Json>, Option<String>),
    Fault(Error),
}

impl View for Page {
    type V = PageView;

    open spec fn view(&self) -> PageView {
        match self {
            Page::More(items, next) => PageView::More(json::values(items@), next@),
            Page::Last(items, warning) => PageView::Last(
                json::values(items@),
                text::text_option(*warning),
            ),
            Page::Fault(e) => PageView::Fault(e@),
        }
    }
}

/// Reads one page of a list. Some endpoints answer with a bare array rather
/// than an envelope; that is taken as a single complete page.
pub fn read_page(path: &str, page: &Json, cursor: Option<&str>) -> (r: Page)
    ensures
        r@ == page_of(
            path@,
            page@,
            match cursor {
                Some(c) => Some(c@),
                None => None,
            },
        ),
{
    let results: Option<&Vec<Json>> = match page.get("results") {
        Some(v) => v.as_array(),
        None => None,
    };
    match results {
        Some(items) => match next_cursor(page, cursor) {
            Ok(Some(next)) => Page::More(json::copies(items), next),
            Ok(None) => Page::Last(json::copies(items), None),
            Err(e) => Page::Fault(e),
        },
        None => match page.as_array() {
            Some(items) => Page::Last(json::copies(items), bare_array_warning(path, items.len())),
            None => Page::Fault(
                Error::new("Expected a list response from ".to_string().concat(path)),
            ),
        },
    }
}

// ---- the client ----

/// Where requests go, and what they carry.
pub struct Client {
    pub base: String,
    pub workspace: String,
    pub key: String,
    /// The browser origin, for output only.
    pub web_base: Option<String>,
}

/// What a [`Client`] holds.
pub struct ClientView {
    pub base: Text,
    pub workspace: Text,
    pub key: Text,
    pub web_base: Option<Text>,
}

impl View for Client {
    type V = ClientView;

    open spec fn view(&self) -> ClientView {
        ClientView {
            base: self.base@,
            workspace: self.workspace@,
            key: self.key@,
            web_base: text::text_option(self.web_base),
        }
    }
}

/// A path below the workspace. Plane CE 301s on one without a trailing slash.
pub open spec fn is_path(path: Text) -> bool {
    path.len() > 0 && path.last() == '/'
}

/// The query that has state and labels substituted in place.
pub open spec fn expanded() -> Seq<(Text, Text)> {
    seq![("expand"@, "state,labels"@)]
}

pub open spec fn gave_up(path: Text) -> Text {
    "Gave up on "@ + path
        + " after 500 pages. The cursor is not terminating, so this is a server-side pagination fault rather than a long list."@
}

/// The query of one page of a list.
pub open spec fn page_query(params: Seq<(Text, Text)>, cursor: Option<Text>) -> Seq<(Text, Text)> {
    let sized = params.push(("per_page"@, "100"@));
    match cursor {
        Some(c) => sized.push(("cursor"@, c)),
        None => sized,
    }
}

impl ClientView {
    pub open spec fn url(self, path: Text) -> Text {
        self.base + "/workspaces/"@ + self.workspace + "/"@ + path
    }

    pub open spec fn request(
        self,
        method: Method,
        path: Text,
        query: Seq<(Text, Text)>,
        body: Option<JsonView>,
    ) -> RequestView {
        RequestView { method, url: self.url(path), query, api_key: self.key, body }
    }

    /// Sends a request and reads the response.
    pub open spec fn sent(self, request: RequestView, t: TalkView) -> Heard<JsonView> {
        script::replied(t, request).context(
            "Request to Plane failed. Is the instance reachable?"@,
        ).next(|reply: ReplyView, t: TalkView| script::ruled(received(self.workspace, reply), t))
    }

    pub open spec fn get(self, path: Text, params: Seq<(Text, Text)>, t: TalkView) -> Heard<
        JsonView,
    > {
        self.sent(self.request(Method::Get, path, params, None), t)
    }

    pub open spec fn post(self, path: Text, body: JsonView, t: TalkView) -> Heard<JsonView> {
        self.sent(self.request(Method::Post, path, Seq::empty(), Some(body)), t)
    }

    pub open spec fn patch(self, path: Text, body: JsonView, t: TalkView) -> Heard<JsonView> {
        self.sent(self.request(Method::Patch, path, Seq::empty(), Some(body)), t)
    }

    /// The pages of a list from `cursor` on, behind the `items` of the `pages`
    /// pages before.
    pub open spec fn paged(
        self,
        path: Text,
        params: Seq<(Text, Text)>,
        pages: nat,
        cursor: Option<Text>,
        items: Seq<JsonView>,
        t: TalkView,
    ) -> Heard<Seq<JsonView>>
        decreases MAX_PAGES - pages,
    {
        if pages >= MAX_PAGES {
            Heard::Failed(seq![gave_up(path)], t)
        } else {
            match self.get(path, page_query(params, cursor), t) {
                Heard::Got(page, t) => match page_of(path, page, cursor) {
                    PageView::More(more, next) => self.paged(
                        path,
                        params,
                        pages + 1,
                        Some(next),
                        items + more,
                        t,
                    ),
                    PageView::Last(more, None) => Heard::Got(items + more, t),
                    PageView::Last(more, Some(warning)) => script::done(
                        t,
                        AskView::Warn(warning),
                    ).next(|u: (), t: TalkView| Heard::Got(items + more, t)),
                    PageView::Fault(e) => Heard::Failed(e, t),
                },
                Heard::Failed(e, t) => Heard::Failed(e, t),
                Heard::Asks(a) => Heard::Asks(a),
            }
        }
    }

    /// Every page of a list.
    pub open spec fn get_all(self, path: Text, params: Seq<(Text, Text)>, t: TalkView) -> Heard<
        Seq<JsonView>,
    > {
        self.paged(path, params, 0, None, Seq::empty(), t)
    }
}

/// A copy of a list of pairs.
pub fn copy_pairs(list: &Vec<(String, String)>) -> (r: Vec<(String, String)>)
    ensures
        text::text_pairs(r@) == text::text_pairs(list@),
{
    let mut out: Vec<(String, String)> = Vec::new();
    let mut i: usize = 0;
    while i < list.len()
        invariant
            i <= list@.len(),
            out@.len() == i,
            forall|j: int|
                0 <= j < i ==> (#[trigger] out@[j]).0@ == list@[j].0@ && out@[j].1@ == list@[j].1@,
        decreases list@.len() - i,
    {
        out.push((list[i].0.clone(), list[i].1.clone()));
        i += 1;
    }
    assert(text::text_pairs(out@) =~= text::text_pairs(list@));
    out
}

/// Adds one pair to a list of pairs.
pub fn push_pair(list: &mut Vec<(String, String)>, key: &str, value: &str)
    ensures
        text::text_pairs(final(list)@) == text::text_pairs(old(list)@).push((key@, value@)),
{
    let ghost before = text::text_pairs(list@);
    list.push((key.to_string(), value.to_string()));
    assert(text::text_pairs(list@) =~= before.push((key@, value@)));
}

fn no_pairs() -> (r: Vec<(String, String)>)
    ensures
        text::text_pairs(r@) == Seq::<(Text, Text)>::empty(),
{
    let r: Vec<(String, String)> = Vec::new();
    assert(text::text_pairs(r@) =~= Seq::<(Text, Text)>::empty());
    r
}

fn expand() -> (r: Vec<(String, String)>)
    ensures
        text::text_pairs(r@) == expanded(),
{
    let mut r = no_pairs();
    push_pair(&mut r, "expand", "state,labels");
    assert(text::text_pairs(r@) =~= expanded());
    r
}

/// Sets the client up: where requests go, what they carry, and the two
/// connections.
pub open spec fn connecting(world: WorldView, t: TalkView) -> Heard<ClientView> {
    match store::loading(world, t) {
        Heard::Asks(a) => Heard::Asks(a),
        Heard::Failed(e, t) => Heard::Failed(seq![error::whole(e)], t),
        Heard::Got(file, t) => match config::setting(Key::Workspace, file, world.env).value {
            None => Heard::Failed(seq![config::no_workspace()], t),
            Some(workspace) => script::done(t, AskView::Open(Channel::Api)).context(
                "Failed to build HTTP client"@,
            ).next(
                |u: (), t: TalkView|
                    script::done(t, AskView::Open(Channel::Uploads)).context(
                        "Failed to build upload HTTP client"@,
                    ),
            ).next(|u: (), t: TalkView| auth::token(world.env, Ok(file), t)).next(
                |key: Text, t: TalkView|
                    Heard::Got(
                        ClientView {
                            base: config::base_of(file, world.env),
                            workspace,
                            key,
                            web_base: config::setting(Key::WebBase, file, world.env).value,
                        },
                        t,
                    ),
            ),
        },
    }
}

pub open spec fn heard_client(r: Result<Client, Stop>, t: TalkView) -> Heard<ClientView> {
    match r {
        Ok(c) => Heard::Got(c@, t),
        Err(s) => script::stopped(s, t),
    }
}

impl Client {
    /// Reads the config file once, so that one invocation cannot act on two
    /// versions of it.
    pub fn new(world: &World, talk: &mut Talk) -> (r: Result<Client, Stop>)
        ensures
            heard_client(r, final(talk)@) == connecting(world@, old(talk)@),
    {
        let file = match ConfigFile::load(world, talk) {
            Ok(file) => file,
            Err(Stop::Ask(a)) => {
                return Err(Stop::Ask(a));
            },
            Err(Stop::Fail(e)) => {
                return Err(Stop::Fail(Error::new(e.full())));
            },
        };
        let base = config::api_base(&file, &world.env);
        let web_base = config::web_base(&file, &world.env);
        let workspace = match config::workspace(&file, &world.env) {
            Ok(workspace) => workspace,
            Err(e) => {
                return Err(Stop::Fail(e));
            },
        };
        match talk.done(Ask::Open(Channel::Api)) {
            Ok(_) => {},
            Err(stop) => {
                return Err(stop.context("Failed to build HTTP client".to_string()));
            },
        }
        match talk.done(Ask::Open(Channel::Uploads)) {
            Ok(_) => {},
            Err(stop) => {
                return Err(stop.context("Failed to build upload HTTP client".to_string()));
            },
        }
        let key = auth::api_key(&world.env, &Ok(file), talk)?;
        Ok(Client { base, workspace, key, web_base })
    }

    pub fn workspace(&self) -> (r: &str)
        ensures
            r@ == self@.workspace,
    {
        self.workspace.as_str()
    }

    /// Build a workspace-scoped URL. `path` is everything after
    /// `/workspaces/<ws>/`.
    pub fn url(&self, path: &str) -> (r: String)
        requires
            is_path(path@),
        ensures
            r@ == self@.url(path@),
    {
        self.base.clone().concat("/workspaces/").concat(self.workspace.as_str()).concat("/").concat(
            path,
        )
    }

    fn request(
        &self,
        method: Method,
        path: &str,
        query: Vec<(String, String)>,
        body: Option<Json>,
    ) -> (r: Request)
        requires
            is_path(path@),
        ensures
            r@ == self@.request(
                method,
                path@,
                text::text_pairs(query@),
                script::json_option(body),
            ),
    {
        Request { method, url: self.url(path), query, api_key: self.key.clone(), body }
    }

    fn send(&self, talk: &mut Talk, request: Request) -> (r: Result<Json, Stop>)
        ensures
            script::heard_json(r, final(talk)@) == self@.sent(request@, old(talk)@),
    {
        match talk.reply(request) {
            Ok(reply) => script::rule(receive(self.workspace.as_str(), reply)),
            Err(stop) => Err(
                stop.context("Request to Plane failed. Is the instance reachable?".to_string()),
            ),
        }
    }

    fn get(&self, talk: &mut Talk, path: &str, params: Vec<(String, String)>) -> (r: Result<
        Json,
        Stop,
    >)
        requires
            is_path(path@),
        ensures
            script::heard_json(r, final(talk)@) == self@.get(
                path@,
                text::text_pairs(params@),
                old(talk)@,
            ),
    {
        let request = self.request(Method::Get, path, params, None);
        self.send(talk, request)
    }

    /// GET every page of a list endpoint, following `next_cursor` while
    /// `next_page_results` is true.
    fn get_all(&self, talk: &mut Talk, path: &str, params: Vec<(String, String)>) -> (r: Result<
        Vec<Json>,
        Stop,
    >)
        requires
            is_path(path@),
        ensures
            script::heard_list(r, final(talk)@) == self@.get_all(
                path@,
                text::text_pairs(params@),
                old(talk)@,
            ),
    {
        let ghost start = talk@;
        let ghost query = text::text_pairs(params@);
        let mut all: Vec<Json> = Vec::new();
        let mut cursor: Option<String> = None;
        let mut pages: usize = 0;
        assert(json::values(all@) =~= Seq::empty());
        while pages < MAX_PAGES
            invariant
                pages <= MAX_PAGES,
                is_path(path@),
                start == old(talk)@,
                query == text::text_pairs(params@),
                self@.get_all(path@, query, start) == self@.paged(
                    path@,
                    query,
                    pages as nat,
                    text::text_option(cursor),
                    json::values(all@),
                    talk@,
                ),
            decreases MAX_PAGES - pages,
        {
            let mut q = copy_pairs(&params);
            push_pair(&mut q, "per_page", "100");
            let here: Option<&str> = match &cursor {
                Some(c) => Some(c.as_str()),
                None => None,
            };
            match here {
                Some(c) => {
                    push_pair(&mut q, "cursor", c);
                },
                None => {},
            }
            let page = self.get(talk, path, q)?;
            let ghost before = json::values(all@);
            match read_page(path, &page, here) {
                Page::More(items, next) => {
                    let mut items = items;
                    let ghost more = json::values(items@);
                    all.append(&mut items);
                    assert(json::values(all@) =~= before + more);
                    cursor = Some(next);
                },
                Page::Last(items, warning) => {
                    let mut items = items;
                    let ghost more = json::values(items@);
                    match warning {
                        Some(w) => {
                            talk.done(Ask::Warn(w))?;
                        },
                        None => {},
                    }
                    all.append(&mut items);
                    assert(json::values(all@) =~= before + more);
                    return Ok(all);
                },
                Page::Fault(e) => {
                    return Err(Stop::Fail(e));
                },
            }
            pages += 1;
        }
        Err(
            Stop::Fail(
                Error::new(
                    "Gave up on ".to_string().concat(path).concat(
                        " after 500 pages. The cursor is not terminating, so this is a server-side pagination fault rather than a long list.",
                    ),
                ),
            ),
        )
    }

    fn post(&self, talk: &mut Talk, path: &str, body: Json) -> (r: Result<Json, Stop>)
        requires
            is_path(path@),
        ensures
            script::heard_json(r, final(talk)@) == self@.post(path@, body@, old(talk)@),
    {
        let request = self.request(Method::Post, path, no_pairs(), Some(body));
        self.send(talk, request)
    }

    fn patch(&self, talk: &mut Talk, path: &str, body: Json) -> (r: Result<Json, Stop>)
        requires
            is_path(path@),
        ensures
            script::heard_json(r, final(talk)@) == self@.patch(path@, body@, old(talk)@),
    {
        let request = self.request(Method::Patch, path, no_pairs(), Some(body));
        self.send(talk, request)
    }
}

// ---- endpoints ----

/// A path below a project.
pub open spec fn in_project(project: Text, tail: Text) -> Text {
    "projects/"@ + project + tail
}

/// A path below a thing in a project. `kind` is how the things of its kind are
/// spelled in a path.
pub open spec fn in_item(project: Text, kind: Text, item: Text, tail: Text) -> Text {
    in_project(project, kind + item + tail)
}

fn project_path(project: &str, tail: &str) -> (r: String)
    requires
        is_path(tail@),
    ensures
        r@ == in_project(project@, tail@),
        is_path(r@),
{
    "projects/".to_string().concat(project).concat(tail)
}

fn item_path(project: &str, kind: &str, item: &str, tail: &str) -> (r: String)
    requires
        is_path(tail@),
    ensures
        r@ == in_item(project@, kind@, item@, tail@),
        is_path(r@),
{
    project_path(project, kind.to_string().concat(item).concat(tail).as_str())
}

/// The body that attaches an issue to a module.
pub open spec fn module_body(issue: Text) -> JsonView {
    JsonView::Object(seq![("issues"@, JsonView::Array(seq![JsonView::Text(issue)]))])
}

/// The body that asks for an upload slot.
pub open spec fn slot_body(name: Text, size: u64, mime: Text) -> JsonView {
    JsonView::Object(
        seq![
            ("name"@, JsonView::Text(name)),
            ("size"@, json::number(size)),
            ("type"@, JsonView::Text(mime)),
        ],
    )
}

/// The body of a comment.
pub open spec fn comment_body(comment_html: Text) -> JsonView {
    JsonView::Object(seq![("comment_html"@, JsonView::Text(comment_html))])
}

/// The form fields of a presigned target, in the order of the object.
pub open spec fn form_fields(entries: Seq<(Text, JsonView)>) -> Result<
    Seq<(Text, Text)>,
    Seq<Text>,
>
    decreases entries.len(),
{
    if entries.len() == 0 {
        Ok(Seq::empty())
    } else {
        match form_fields(entries.drop_last()) {
            Ok(fields) => match entries.last().1.text() {
                Some(v) => Ok(fields.push((entries.last().0, v))),
                None => Err(
                    seq![
                        "Plane's presigned field `"@ + entries.last().0
                            + "` is not a string, so it cannot be posted."@,
                    ],
                ),
            },
            Err(e) => Err(e),
        }
    }
}

proof fn lemma_bad_field_is_final(entries: Seq<(Text, JsonView)>, i: int)
    requires
        0 <= i <= entries.len(),
        form_fields(entries.take(i)) is Err,
    ensures
        form_fields(entries) == form_fields(entries.take(i)),
    decreases entries.len() - i,
{
    if i < entries.len() {
        assert(entries.take(i + 1).drop_last() == entries.take(i));
        lemma_bad_field_is_final(entries, i + 1);
    } else {
        assert(entries.take(i) == entries);
    }
}

fn read_form(list: &Vec<(String, Json)>) -> (r: Result<Vec<(String, String)>, Error>)
    ensures
        (match r {
            Ok(fields) => Ok(text::text_pairs(fields@)),
            Err(e) => Err(e@),
        }) == form_fields(json::named_values(list@)),
{
    let ghost entries = json::named_values(list@);
    let mut out = no_pairs();
    let mut i: usize = 0;
    while i < list.len()
        invariant
            i <= list@.len(),
            entries == json::named_values(list@),
            form_fields(entries.take(i as int)) == Ok::<Seq<(Text, Text)>, Seq<Text>>(
                text::text_pairs(out@),
            ),
        decreases list@.len() - i,
    {
        assert(entries.take(i + 1).drop_last() == entries.take(i as int));
        assert(entries.take(i + 1).last() == (list@[i as int].0@, list@[i as int].1@));
        match list[i].1.as_str() {
            Some(v) => {
                push_pair(&mut out, list[i].0.as_str(), v);
            },
            None => {
                proof {
                    lemma_bad_field_is_final(entries, i + 1);
                }
                return Err(
                    Error::new(
                        "Plane's presigned field `".to_string().concat(list[i].0.as_str()).concat(
                            "` is not a string, so it cannot be posted.",
                        ),
                    ),
                );
            },
        }
        i += 1;
    }
    assert(entries.take(entries.len() as int) == entries);
    Ok(out)
}

/// What is posted to a presigned target, as the API described the target.
pub open spec fn upload_of(data: JsonView, file: nat, mime: Text) -> Result<UploadView, Seq<Text>> {
    match data.member_text("url"@) {
        None => Err(seq!["Plane's upload response carries no `upload_data.url`."@]),
        Some(url) => match data.member("fields"@) {
            Some(JsonView::Object(entries)) => match form_fields(entries) {
                Ok(fields) => Ok(UploadView { url, fields, file, mime }),
                Err(e) => Err(e),
            },
            _ => Err(seq!["Plane's upload response carries no `upload_data.fields`."@]),
        },
    }
}

/// What is posted to a presigned target: every field the API returned, then
/// the file, because S3 ignores fields that arrive after the file part.
pub fn prepare_upload(data: &Json, file: usize, mime: &str) -> (r: Result<Upload, Error>)
    ensures
        (match r {
            Ok(upload) => Ok(upload@),
            Err(e) => Err(e@),
        }) == upload_of(data@, file as nat, mime@),
{
    let url: &str = match data.get_str("url") {
        Some(url) => url,
        None => {
            return Err(
                Error::new("Plane's upload response carries no `upload_data.url`.".to_string()),
            );
        },
    };
    let entries: Option<&Vec<(String, Json)>> = match data.get("fields") {
        Some(v) => v.as_object(),
        None => None,
    };
    match entries {
        Some(list) => {
            let fields = read_form(list)?;
            Ok(Upload { url: url.to_string(), fields, file, mime: mime.to_string() })
        },
        None => Err(
            Error::new("Plane's upload response carries no `upload_data.fields`.".to_string()),
        ),
    }
}

/// What the object store answered to an upload.
pub open spec fn stored_upload(url: Text, reply: ReplyView) -> Result<(), Seq<Text>> {
    if 200 <= reply.code <= 299 {
        Ok(())
    } else {
        Err(
            seq![
                "The presigned upload to "@ + url + " returned "@ + reply.status + ": "@
                    + text::head(text::trimmed(reply.body), 500)
                    + "\nA presigned target expires within the hour and pins the exact byte count, so a file that changed between the request and the upload fails here."@,
            ],
        )
    }
}

/// What is said in front of an upload that broke off.
pub open spec fn fault_context(fault: Fault, url: Text, path: Text, mime: Text) -> Text {
    match fault {
        Fault::Open => "Could not open "@ + path + " for upload"@,
        Fault::Mime => "Invalid MIME type \""@ + mime + "\""@,
        Fault::Send => "Upload to "@ + url + " failed"@,
    }
}

/// Posts a file to a presigned target.
pub open spec fn uploaded(upload: UploadView, path: Text, t: TalkView) -> Heard<()> {
    script::asked(t, AskView::Upload(upload)).next(
        |answer: AnswerView, t: TalkView|
            match answer {
                AnswerView::Reply(reply) => script::ruled(stored_upload(upload.url, reply), t),
                AnswerView::UploadFailed(fault, e) => Heard::Failed(
                    seq![fault_context(fault, upload.url, path, upload.mime)] + e,
                    t,
                ),
                _ => Heard::Failed(script::misfit(), t),
            },
    )
}

/// Reads what the object store answered to an upload. It answers XML on
/// failure, which is cut short.
pub fn receive_upload(url: &str, reply: &Reply) -> (r: Result<(), Error>)
    ensures
        (match r {
            Ok(u) => Ok(()),
            Err(e) => Err(e@),
        }) == stored_upload(url@, reply@),
{
    if 200 <= reply.code && reply.code <= 299 {
        Ok(())
    } else {
        Err(
            Error::new(
                "The presigned upload to ".to_string().concat(url).concat(" returned ").concat(
                    reply.status.as_str(),
                ).concat(": ").concat(
                    text::first_chars(text::trim(reply.body.as_str()), 500),
                ).concat(
                    "\nA presigned target expires within the hour and pins the exact byte count, so a file that changed between the request and the upload fails here.",
                ),
            ),
        )
    }
}

impl ClientView {
    pub open spec fn issue_by_ref(self, r: Text, t: TalkView) -> Heard<JsonView> {
        self.get("issues/"@ + r + "/"@, expanded(), t).context("Could not resolve issue "@ + r)
    }

    pub open spec fn projects(self, t: TalkView) -> Heard<Seq<JsonView>> {
        self.get_all("projects/"@, Seq::empty(), t)
    }

    pub open spec fn project_by_identifier(self, identifier: Text, t: TalkView) -> Heard<JsonView> {
        self.projects(t).next(
            |projects: Seq<JsonView>, t: TalkView|
                script::ruled(names::project_named(projects, identifier), t),
        )
    }

    pub open spec fn states(self, project: Text, t: TalkView) -> Heard<Seq<JsonView>> {
        self.get_all(in_project(project, "/states/"@), Seq::empty(), t)
    }

    pub open spec fn modules(self, project: Text, t: TalkView) -> Heard<Seq<JsonView>> {
        self.get_all(in_project(project, "/modules/"@), Seq::empty(), t)
    }

    pub open spec fn labels(self, project: Text, t: TalkView) -> Heard<Seq<JsonView>> {
        self.get_all(in_project(project, "/labels/"@), Seq::empty(), t)
    }

    pub open spec fn attachments(self, project: Text, issue: Text, t: TalkView) -> Heard<
        Seq<JsonView>,
    > {
        self.get_all(in_item(project, "/work-items/"@, issue, "/attachments/"@), Seq::empty(), t)
    }

    pub open spec fn issues(self, project: Text, t: TalkView) -> Heard<Seq<JsonView>> {
        self.get_all(in_project(project, "/issues/"@), expanded(), t)
    }

    pub open spec fn module_issues(self, project: Text, module: Text, t: TalkView) -> Heard<
        Seq<JsonView>,
    > {
        self.get_all(in_item(project, "/modules/"@, module, "/module-issues/"@), expanded(), t)
    }

    pub open spec fn create_issue(self, project: Text, body: JsonView, t: TalkView) -> Heard<
        JsonView,
    > {
        self.post(in_project(project, "/issues/"@), body, t)
    }

    pub open spec fn update_issue(
        self,
        project: Text,
        issue: Text,
        body: JsonView,
        t: TalkView,
    ) -> Heard<JsonView> {
        self.patch(in_item(project, "/issues/"@, issue, "/"@), body, t)
    }

    pub open spec fn add_issue_to_module(
        self,
        project: Text,
        module: Text,
        issue: Text,
        t: TalkView,
    ) -> Heard<JsonView> {
        self.post(
            in_item(project, "/modules/"@, module, "/module-issues/"@),
            module_body(issue),
            t,
        )
    }

    pub open spec fn request_attachment(
        self,
        project: Text,
        issue: Text,
        name: Text,
        size: u64,
        mime: Text,
        t: TalkView,
    ) -> Heard<JsonView> {
        self.post(
            in_item(project, "/work-items/"@, issue, "/attachments/"@),
            slot_body(name, size, mime),
            t,
        )
    }

    pub open spec fn upload_attachment(
        self,
        data: JsonView,
        file: nat,
        path: Text,
        mime: Text,
        t: TalkView,
    ) -> Heard<()> {
        match upload_of(data, file, mime) {
            Ok(upload) => uploaded(upload, path, t),
            Err(e) => Heard::Failed(e, t),
        }
    }

    pub open spec fn confirm_attachment(
        self,
        project: Text,
        issue: Text,
        asset: Text,
        t: TalkView,
    ) -> Heard<JsonView> {
        self.patch(
            in_item(project, "/work-items/"@, issue, "/attachments/"@ + asset + "/"@),
            JsonView::Object(Seq::empty()),
            t,
        )
    }

    pub open spec fn create_comment(
        self,
        project: Text,
        issue: Text,
        comment_html: Text,
        t: TalkView,
    ) -> Heard<JsonView> {
        self.post(
            in_item(project, "/issues/"@, issue, "/comments/"@),
            comment_body(comment_html),
            t,
        )
    }

    pub open spec fn find_state(self, project: Text, name: Text, t: TalkView) -> Heard<JsonView> {
        self.states(project, t).next(
            |states: Seq<JsonView>, t: TalkView|
                script::ruled(names::picked("state"@, states, name), t),
        )
    }

    pub open spec fn resolve_state(self, project: Text, name: Text, t: TalkView) -> Heard<Text> {
        self.states(project, t).next(
            |states: Seq<JsonView>, t: TalkView|
                script::ruled(names::picked_id("state"@, "State"@, states, name), t),
        )
    }

    pub open spec fn find_module(self, project: Text, name: Text, t: TalkView) -> Heard<JsonView> {
        self.modules(project, t).next(
            |modules: Seq<JsonView>, t: TalkView|
                script::ruled(names::picked("module"@, modules, name), t),
        )
    }

    pub open spec fn resolve_module(self, project: Text, name: Text, t: TalkView) -> Heard<Text> {
        self.modules(project, t).next(
            |modules: Seq<JsonView>, t: TalkView|
                script::ruled(names::picked_id("module"@, "Module"@, modules, name), t),
        )
    }

    pub open spec fn find_label(self, project: Text, name: Text, t: TalkView) -> Heard<JsonView> {
        self.labels(project, t).next(
            |labels: Seq<JsonView>, t: TalkView|
                script::ruled(names::picked("label"@, labels, name), t),
        )
    }

    pub open spec fn find_labels(self, project: Text, wanted: Seq<Text>, t: TalkView) -> Heard<
        Seq<JsonView>,
    > {
        self.labels(project, t).next(
            |labels: Seq<JsonView>, t: TalkView|
                script::ruled(names::all_picked("label"@, labels, wanted), t),
        )
    }
}

impl Client {
    // ---- reads ----

    /// Resolve `RES-12` in one call, with state and labels expanded in place.
    pub fn issue_by_ref(&self, talk: &mut Talk, r: &IssueRef) -> (out: Result<Json, Stop>)
        ensures
            script::heard_json(out, final(talk)@) == self@.issue_by_ref(r@, old(talk)@),
    {
        proof {
            reveal_strlit("/");
        }
        let path = "issues/".to_string().concat(r.as_str()).concat("/");
        match self.get(talk, path.as_str(), expand()) {
            Ok(v) => Ok(v),
            Err(stop) => Err(
                stop.context("Could not resolve issue ".to_string().concat(r.as_str())),
            ),
        }
    }

    pub fn projects(&self, talk: &mut Talk) -> (r: Result<Vec<Json>, Stop>)
        ensures
            script::heard_list(r, final(talk)@) == self@.projects(old(talk)@),
    {
        proof {
            reveal_strlit("projects/");
        }
        self.get_all(talk, "projects/", no_pairs())
    }

    /// Look up a project by its identifier (`RES`), case-insensitively.
    pub fn project_by_identifier(&self, talk: &mut Talk, identifier: &str) -> (r: Result<
        Json,
        Stop,
    >)
        ensures
            script::heard_json(r, final(talk)@) == self@.project_by_identifier(
                identifier@,
                old(talk)@,
            ),
    {
        let projects = self.projects(talk)?;
        script::rule(names::find_project(&projects, identifier))
    }

    pub fn states(&self, talk: &mut Talk, project_id: &str) -> (r: Result<Vec<Json>, Stop>)
        ensures
            script::heard_list(r, final(talk)@) == self@.states(project_id@, old(talk)@),
    {
        proof {
            reveal_strlit("/states/");
        }
        self.get_all(talk, project_path(project_id, "/states/").as_str(), no_pairs())
    }

    pub fn modules(&self, talk: &mut Talk, project_id: &str) -> (r: Result<Vec<Json>, Stop>)
        ensures
            script::heard_list(r, final(talk)@) == self@.modules(project_id@, old(talk)@),
    {
        proof {
            reveal_strlit("/modules/");
        }
        self.get_all(talk, project_path(project_id, "/modules/").as_str(), no_pairs())
    }

    /// Labels are per project: the same four names exist once per board, as
    /// separate UUIDs.
    pub fn labels(&self, talk: &mut Talk, project_id: &str) -> (r: Result<Vec<Json>, Stop>)
        ensures
            script::heard_list(r, final(talk)@) == self@.labels(project_id@, old(talk)@),
    {
        proof {
            reveal_strlit("/labels/");
        }
        self.get_all(talk, project_path(project_id, "/labels/").as_str(), no_pairs())
    }

    /// Attachments live under `work-items/`, not `issues/`. That asymmetry is
    /// real on CE: the `issues/` spelling 404s.
    pub fn attachments(&self, talk: &mut Talk, project_id: &str, issue_id: &str) -> (r: Result<
        Vec<Json>,
        Stop,
    >)
        ensures
            script::heard_list(r, final(talk)@) == self@.attachments(
                project_id@,
                issue_id@,
                old(talk)@,
            ),
    {
        proof {
            reveal_strlit("/attachments/");
        }
        self.get_all(
            talk,
            item_path(project_id, "/work-items/", issue_id, "/attachments/").as_str(),
            no_pairs(),
        )
    }

    pub fn issues(&self, talk: &mut Talk, project_id: &str) -> (r: Result<Vec<Json>, Stop>)
        ensures
            script::heard_list(r, final(talk)@) == self@.issues(project_id@, old(talk)@),
    {
        proof {
            reveal_strlit("/issues/");
        }
        self.get_all(talk, project_path(project_id, "/issues/").as_str(), expand())
    }

    /// Issues of a module. CE returns the issue objects themselves here, so
    /// there is nothing to unwrap.
    pub fn module_issues(&self, talk: &mut Talk, project_id: &str, module_id: &str) -> (r: Result<
        Vec<Json>,
        Stop,
    >)
        ensures
            script::heard_list(r, final(talk)@) == self@.module_issues(
                project_id@,
                module_id@,
                old(talk)@,
            ),
    {
        proof {
            reveal_strlit("/module-issues/");
        }
        self.get_all(
            talk,
            item_path(project_id, "/modules/", module_id, "/module-issues/").as_str(),
            expand(),
        )
    }

    // ---- writes ----

    pub fn create_issue(&self, talk: &mut Talk, project_id: &str, body: Json) -> (r: Result<
        Json,
        Stop,
    >)
        ensures
            script::heard_json(r, final(talk)@) == self@.create_issue(
                project_id@,
                body@,
                old(talk)@,
            ),
    {
        proof {
            reveal_strlit("/issues/");
        }
        self.post(talk, project_path(project_id, "/issues/").as_str(), body)
    }

    pub fn update_issue(&self, talk: &mut Talk, project_id: &str, issue_id: &str, body: Json) -> (r:
        Result<Json, Stop>)
        ensures
            script::heard_json(r, final(talk)@) == self@.update_issue(
                project_id@,
                issue_id@,
                body@,
                old(talk)@,
            ),
    {
        proof {
            reveal_strlit("/");
        }
        self.patch(talk, item_path(project_id, "/issues/", issue_id, "/").as_str(), body)
    }

    /// Attach an issue to a module. This is a separate call from creation:
    /// `POST /issues/` has no module field. Verification belongs on the module
    /// side, because the issue record keeps reporting `"module": null`.
    pub fn add_issue_to_module(
        &self,
        talk: &mut Talk,
        project_id: &str,
        module_id: &str,
        issue_id: &str,
    ) -> (r: Result<Json, Stop>)
        ensures
            script::heard_json(r, final(talk)@) == self@.add_issue_to_module(
                project_id@,
                module_id@,
                issue_id@,
                old(talk)@,
            ),
    {
        proof {
            reveal_strlit("/module-issues/");
        }
        let mut ids: Vec<Json> = Vec::new();
        ids.push(Json::Text(issue_id.to_string()));
        assert(json::values(ids@) =~= seq![JsonView::Text(issue_id@)]);
        let mut body = json::Fields::new();
        body.put("issues", json::array(ids));
        assert(body@ =~= module_body(issue_id@)->Object_0);
        self.post(
            talk,
            item_path(project_id, "/modules/", module_id, "/module-issues/").as_str(),
            body.object(),
        )
    }

    // ---- attachments ----

    /// Step one of the upload: ask for a presigned target. Returns the whole
    /// response, which carries `upload_data`, `asset_id` and `asset_url`.
    pub fn request_attachment(
        &self,
        talk: &mut Talk,
        project_id: &str,
        issue_id: &str,
        name: &str,
        size: u64,
        mime: &str,
    ) -> (r: Result<Json, Stop>)
        ensures
            script::heard_json(r, final(talk)@) == self@.request_attachment(
                project_id@,
                issue_id@,
                name@,
                size,
                mime@,
                old(talk)@,
            ),
    {
        proof {
            reveal_strlit("/attachments/");
        }
        let mut body = json::Fields::new();
        body.put_text("name", name);
        body.put("size", json::number_of(size));
        body.put_text("type", mime);
        assert(body@ =~= slot_body(name@, size, mime@)->Object_0);
        self.post(
            talk,
            item_path(project_id, "/work-items/", issue_id, "/attachments/").as_str(),
            body.object(),
        )
    }

    /// Step two: POST the file to the presigned URL. The target is a different
    /// service from the API, and the token has no business travelling to it.
    pub fn upload_attachment(
        &self,
        talk: &mut Talk,
        upload_data: &Json,
        file: usize,
        path: &str,
        mime: &str,
    ) -> (r: Result<(), Stop>)
        ensures
            script::heard_done(r, final(talk)@) == self@.upload_attachment(
                upload_data@,
                file as nat,
                path@,
                mime@,
                old(talk)@,
            ),
    {
        let upload = match prepare_upload(upload_data, file, mime) {
            Ok(upload) => upload,
            Err(e) => {
                return Err(Stop::Fail(e));
            },
        };
        let url = upload.url.clone();
        match talk.hear(Ask::Upload(upload))? {
            Answer::Reply(reply) => script::rule(receive_upload(url.as_str(), reply)),
            Answer::UploadFailed(fault, e) => {
                let message = match fault {
                    Fault::Open => "Could not open ".to_string().concat(path).concat(" for upload"),
                    Fault::Mime => "Invalid MIME type \"".to_string().concat(mime).concat("\""),
                    Fault::Send => "Upload to ".to_string().concat(url.as_str()).concat(" failed"),
                };
                Err(Stop::Fail(e.clone().context(message)))
            },
            _ => Err(Stop::Fail(script::misfit_error())),
        }
    }

    /// Step three: confirm. Until this lands the attachment exists but stays
    /// invisible, with `is_uploaded: false`.
    pub fn confirm_attachment(
        &self,
        talk: &mut Talk,
        project_id: &str,
        issue_id: &str,
        asset_id: &str,
    ) -> (r: Result<Json, Stop>)
        ensures
            script::heard_json(r, final(talk)@) == self@.confirm_attachment(
                project_id@,
                issue_id@,
                asset_id@,
                old(talk)@,
            ),
    {
        proof {
            reveal_strlit("/");
        }
        let tail = "/attachments/".to_string().concat(asset_id).concat("/");
        self.patch(
            talk,
            item_path(project_id, "/work-items/", issue_id, tail.as_str()).as_str(),
            json::Fields::new().object(),
        )
    }

    pub fn create_comment(
        &self,
        talk: &mut Talk,
        project_id: &str,
        issue_id: &str,
        comment_html: &str,
    ) -> (r: Result<Json, Stop>)
        ensures
            script::heard_json(r, final(talk)@) == self@.create_comment(
                project_id@,
                issue_id@,
                comment_html@,
                old(talk)@,
            ),
    {
        proof {
            reveal_strlit("/comments/");
        }
        let mut body = json::Fields::new();
        body.put_text("comment_html", comment_html);
        assert(body@ =~= comment_body(comment_html@)->Object_0);
        self.post(
            talk,
            item_path(project_id, "/issues/", issue_id, "/comments/").as_str(),
            body.object(),
        )
    }

    // ---- name to UUID resolution ----

    /// Find a state by name, case- and separator-insensitively, so `done`,
    /// `in-progress`, and `In Progress` all land. States are read live rather
    /// than hardcoded: a wrong name has to fail loudly here instead of turning
    /// into a filter that quietly matches nothing.
    pub fn find_state(&self, talk: &mut Talk, project_id: &str, name: &str) -> (r: Result<
        Json,
        Stop,
    >)
        ensures
            script::heard_json(r, final(talk)@) == self@.find_state(
                project_id@,
                name@,
                old(talk)@,
            ),
    {
        let states = self.states(talk, project_id)?;
        script::rule(names::pick("state", &states, name))
    }

    /// Resolve a state name to the UUID the API writes.
    pub fn resolve_state(&self, talk: &mut Talk, project_id: &str, name: &str) -> (r: Result<
        String,
        Stop,
    >)
        ensures
            script::heard_text(r, final(talk)@) == self@.resolve_state(
                project_id@,
                name@,
                old(talk)@,
            ),
    {
        let states = self.states(talk, project_id)?;
        script::rule(names::pick_id("state", "State", &states, name))
    }

    /// Find a module by name, case- and separator-insensitively.
    pub fn find_module(&self, talk: &mut Talk, project_id: &str, name: &str) -> (r: Result<
        Json,
        Stop,
    >)
        ensures
            script::heard_json(r, final(talk)@) == self@.find_module(
                project_id@,
                name@,
                old(talk)@,
            ),
    {
        let modules = self.modules(talk, project_id)?;
        script::rule(names::pick("module", &modules, name))
    }

    /// Resolve a module name to the UUID the API writes.
    pub fn resolve_module(&self, talk: &mut Talk, project_id: &str, name: &str) -> (r: Result<
        String,
        Stop,
    >)
        ensures
            script::heard_text(r, final(talk)@) == self@.resolve_module(
                project_id@,
                name@,
                old(talk)@,
            ),
    {
        let modules = self.modules(talk, project_id)?;
        script::rule(names::pick_id("module", "Module", &modules, name))
    }

    /// Find a label by name, case- and separator-insensitively.
    pub fn find_label(&self, talk: &mut Talk, project_id: &str, name: &str) -> (r: Result<
        Json,
        Stop,
    >)
        ensures
            script::heard_json(r, final(talk)@) == self@.find_label(
                project_id@,
                name@,
                old(talk)@,
            ),
    {
        let labels = self.labels(talk, project_id)?;
        script::rule(names::pick("label", &labels, name))
    }

    /// Resolve several label names in a single fetch, since a write carries
    /// the whole set. Returns the matched label objects, deduplicated, in the
    /// order they were asked for.
    pub fn find_labels(&self, talk: &mut Talk, project_id: &str, wanted: &Vec<String>) -> (r:
        Result<Vec<Json>, Stop>)
        ensures
            script::heard_list(r, final(talk)@) == self@.find_labels(
                project_id@,
                text::texts(wanted@),
                old(talk)@,
            ),
    {
        let labels = self.labels(talk, project_id)?;
        script::rule(names::resolve_all(&labels, wanted, "label"))
    }
}

// ---- laws ----

/// Every URL is below the workspace and ends in a slash, as CE demands.
pub proof fn urls_are_scoped_and_slashed(c: ClientView, path: Text)
    requires
        is_path(path),
    ensures
        c.url(path).last() == '/',
        text::starts(c.url(path), c.base + "/workspaces/"@ + c.workspace + "/"@),
{
    let front = c.base + "/workspaces/"@ + c.workspace + "/"@;
    assert((front + path).subrange(0, front.len() as int) =~= front);
}

/// Whether performing an ask may change something on the server.
pub open spec fn writes(ask: AskView) -> bool {
    match ask {
        AskView::Send(request) => request.method != Method::Get,
        AskView::Upload(_) => true,
        _ => false,
    }
}

/// A list asks for its own pages and nothing else: it writes nothing, and its
/// requests carry the token.
pub proof fn lists_only_read(
    c: ClientView,
    path: Text,
    params: Seq<(Text, Text)>,
    pages: nat,
    cursor: Option<Text>,
    items: Seq<JsonView>,
    t: TalkView,
)
    ensures
        match c.paged(path, params, pages, cursor, items, t) {
            Heard::Asks(AskView::Send(request)) => request.method == Method::Get && request.url
                == c.url(path) && request.api_key == c.key && request.body is None,
            Heard::Asks(ask) => ask is Warn,
            _ => true,
        },
    decreases MAX_PAGES - pages,
{
    if pages < MAX_PAGES {
        match c.get(path, page_query(params, cursor), t) {
            Heard::Got(page, t2) => match page_of(path, page, cursor) {
                PageView::More(more, next) => lists_only_read(
                    c,
                    path,
                    params,
                    pages + 1,
                    Some(next),
                    items + more,
                    t2,
                ),
                _ => {},
            },
            _ => {},
        }
    }
}

/// A list hears no more than one answer for each of the pages it may read, and
/// one for a warning, and then asks no more: a cursor that never ends does not
/// keep it going.
pub proof fn lists_end(
    c: ClientView,
    path: Text,
    params: Seq<(Text, Text)>,
    pages: nat,
    cursor: Option<Text>,
    items: Seq<JsonView>,
    t: TalkView,
)
    requires
        pages <= MAX_PAGES,
        t.at <= t.answers.len(),
    ensures
        match c.paged(path, params, pages, cursor, items, t) {
            Heard::Got(_, end) => end.at <= t.at + (MAX_PAGES - pages) + 1,
            Heard::Failed(_, end) => end.at <= t.at + (MAX_PAGES - pages) + 1,
            Heard::Asks(_) => t.answers.len() <= t.at + (MAX_PAGES - pages),
        },
    decreases MAX_PAGES - pages,
{
    if pages < MAX_PAGES {
        match c.get(path, page_query(params, cursor), t) {
            Heard::Got(page, t2) => {
                assert(t2 == t.further());
                match page_of(path, page, cursor) {
                    PageView::More(more, next) => lists_end(
                        c,
                        path,
                        params,
                        pages + 1,
                        Some(next),
                        items + more,
                        t2,
                    ),
                    _ => {},
                }
            },
            _ => {},
        }
    }
}

/// Reading writes nothing: neither what names are looked up in, nor an issue,
/// nor what hangs on it.
pub proof fn lookups_only_read(c: ClientView, project: Text, item: Text, t: TalkView)
    ensures
        c.projects(t) matches Heard::Asks(a) ==> !writes(a),
        c.states(project, t) matches Heard::Asks(a) ==> !writes(a),
        c.modules(project, t) matches Heard::Asks(a) ==> !writes(a),
        c.labels(project, t) matches Heard::Asks(a) ==> !writes(a),
        c.issues(project, t) matches Heard::Asks(a) ==> !writes(a),
        c.module_issues(project, item, t) matches Heard::Asks(a) ==> !writes(a),
        c.attachments(project, item, t) matches Heard::Asks(a) ==> !writes(a),
        c.issue_by_ref(item, t) matches Heard::Asks(a) ==> !writes(a),
{
    let none = Seq::<(Text, Text)>::empty();
    let start = Seq::<JsonView>::empty();
    let files = in_item(project, "/work-items/"@, item, "/attachments/"@);
    let members = in_item(project, "/modules/"@, item, "/module-issues/"@);
    lists_only_read(c, "projects/"@, none, 0, None, start, t);
    lists_only_read(c, in_project(project, "/states/"@), none, 0, None, start, t);
    lists_only_read(c, in_project(project, "/modules/"@), none, 0, None, start, t);
    lists_only_read(c, in_project(project, "/labels/"@), none, 0, None, start, t);
    lists_only_read(c, in_project(project, "/issues/"@), expanded(), 0, None, start, t);
    lists_only_read(c, members, expanded(), 0, None, start, t);
    lists_only_read(c, files, none, 0, None, start, t);
}

/// A name that matches nothing is an error that lists what the project really
/// has, whether the thing or its id was wanted.
pub proof fn a_name_that_finds_nothing_lists_what_there_is(
    c: ClientView,
    project: Text,
    name: Text,
    t: TalkView,
)
    ensures
        c.states(project, t) matches Heard::Got(items, end) ==> names::item_named(items, name)
            is None ==> c.find_state(project, name, t) == Heard::<JsonView>::Failed(
            seq![names::missing("state"@, name, items)],
            end,
        ) && c.resolve_state(project, name, t) == Heard::<Text>::Failed(
            seq![names::missing("state"@, name, items)],
            end,
        ),
        c.modules(project, t) matches Heard::Got(items, end) ==> names::item_named(items, name)
            is None ==> c.find_module(project, name, t) == Heard::<JsonView>::Failed(
            seq![names::missing("module"@, name, items)],
            end,
        ) && c.resolve_module(project, name, t) == Heard::<Text>::Failed(
            seq![names::missing("module"@, name, items)],
            end,
        ),
        c.labels(project, t) matches Heard::Got(items, end) ==> names::item_named(items, name)
            is None ==> c.find_label(project, name, t) == Heard::<JsonView>::Failed(
            seq![names::missing("label"@, name, items)],
            end,
        ),
{
}

/// What is posted to a presigned target is the same for any two clients, and so
/// for any two tokens: it is what the API described, the file and its type.
pub proof fn an_upload_carries_nothing_of_the_client(
    one: ClientView,
    another: ClientView,
    data: JsonView,
    file: nat,
    path: Text,
    mime: Text,
    t: TalkView,
)
    ensures
        one.upload_attachment(data, file, path, mime, t) == another.upload_attachment(
            data,
            file,
            path,
            mime,
            t,
        ),
        one.upload_attachment(data, file, path, mime, t) matches Heard::Asks(a) ==> upload_of(
            data,
            file,
            mime,
        ) is Ok && a == AskView::Upload(upload_of(data, file, mime)->Ok_0),
{
}

/// Setting the client up sends nothing.
pub proof fn connecting_sends_nothing(world: WorldView, t: TalkView)
    ensures
        connecting(world, t) matches Heard::Asks(a) ==> a !is Send && a !is Upload,
{
}

/// The batches of a list, one behind the other.
pub open spec fn merged(batches: Seq<Seq<JsonView>>) -> Seq<JsonView>
    decreases batches.len(),
{
    if batches.len() == 0 {
        Seq::empty()
    } else {
        batches[0] + merged(batches.drop_first())
    }
}

/// What the answer number `i` from here on comes to, where it is a response
/// with a value.
pub open spec fn page_heard(c: ClientView, t: TalkView, i: int) -> Option<JsonView> {
    match t.answers[t.at + i] {
        AnswerView::Reply(reply) => match received(c.workspace, reply) {
            Ok(page) => Some(page),
            Err(_) => None,
        },
        _ => None,
    }
}

/// Whether the next answers are the pages of one list: each batch comes in an
/// envelope that names the cursor of the next, and the last says that it is the
/// last.
pub open spec fn are_pages(
    c: ClientView,
    path: Text,
    t: TalkView,
    batches: Seq<Seq<JsonView>>,
    cursors: Seq<Option<Text>>,
) -> bool {
    let n = batches.len() as int;
    &&& n > 0
    &&& cursors.len() == n
    &&& t.at + n <= t.answers.len()
    &&& forall|i: int|
        0 <= i < n ==> (#[trigger] page_heard(c, t, i)) is Some && page_of(
            path,
            page_heard(c, t, i)->0,
            cursors[i],
        ) == (if i < n - 1 {
            PageView::More(batches[i], cursors[i + 1]->0)
        } else {
            PageView::Last(batches[i], None)
        })
    &&& forall|i: int| 0 < i < n ==> #[trigger] cursors[i] is Some
}

/// Every page of a list is read, and what comes out is every batch in order: no
/// list stops at its first page.
pub proof fn every_page_is_merged(
    c: ClientView,
    path: Text,
    params: Seq<(Text, Text)>,
    pages: nat,
    items: Seq<JsonView>,
    batches: Seq<Seq<JsonView>>,
    cursors: Seq<Option<Text>>,
    t: TalkView,
)
    requires
        are_pages(c, path, t, batches, cursors),
        pages + batches.len() <= MAX_PAGES,
    ensures
        c.paged(path, params, pages, cursors[0], items, t) == Heard::Got(
            items + merged(batches),
            (TalkView { answers: t.answers, at: t.at + batches.len() }),
        ),
    decreases batches.len(),
{
    let n = batches.len() as int;
    assert(page_heard(c, t, 0) is Some);
    let page = page_heard(c, t, 0)->0;
    assert(c.get(path, page_query(params, cursors[0]), t) == Heard::Got(page, t.further()));
    if n == 1 {
        assert(merged(batches.drop_first()) =~= Seq::empty());
        assert(merged(batches) =~= batches[0]);
        assert(t.further() == TalkView { answers: t.answers, at: t.at + batches.len() });
    } else {
        let rest = batches.drop_first();
        let next = cursors.drop_first();
        let t2 = t.further();
        assert forall|i: int| 0 <= i < n - 1 implies (#[trigger] page_heard(c, t2, i)) is Some
            && page_of(path, page_heard(c, t2, i)->0, next[i]) == (if i < n - 2 {
            PageView::More(rest[i], next[i + 1]->0)
        } else {
            PageView::Last(rest[i], None)
        }) by {
            assert(page_heard(c, t2, i) == page_heard(c, t, i + 1));
        }
        assert forall|i: int| 0 < i < n - 1 implies #[trigger] next[i] is Some by {
            assert(next[i] == cursors[i + 1]);
        }
        assert(cursors[1] is Some);
        assert(next[0] == cursors[1]);
        every_page_is_merged(c, path, params, pages + 1, items + batches[0], rest, next, t2);
        assert(items + batches[0] + merged(rest) =~= items + merged(batches));
        assert(TalkView { answers: t2.answers, at: t2.at + rest.len() } == TalkView {
            answers: t.answers,
            at: t.at + batches.len(),
        });
    }
}

/// A cursor that repeats ends a list with a failure, whatever came before.
pub proof fn a_repeated_cursor_ends_the_list(path: Text, page: JsonView, cursor: Text)
    requires
        page.member("next_page_results"@) == Some(JsonView::Bool(true)),
        page.member_text("next_cursor"@) == Some(cursor),
        page.member("results"@) is Some,
        page.member("results"@)->0.items() is Some,
    ensures
        page_of(path, page, Some(cursor)) is Fault,
{
}

/// A request to a path below the workspace, with the token.
pub open spec fn request_for(
    c: ClientView,
    method: Method,
    path: Text,
    query: Seq<(Text, Text)>,
    body: Option<JsonView>,
) -> AskView {
    AskView::Send(
        RequestView {
            method,
            url: c.base + "/workspaces/"@ + c.workspace + "/"@ + path,
            query,
            api_key: c.key,
            body,
        },
    )
}

proof fn lemma_item_path(project: Text, kind: Text, item: Text, tail: Text)
    ensures
        in_item(project, kind, item, tail) == "projects/"@ + project + kind + item + tail,
{
    assert(in_item(project, kind, item, tail) =~= "projects/"@ + project + kind + item + tail);
}

/// What is read is asked for at the endpoint that has it, with state and labels
/// in place where issues are read, and a hundred to the page where it is a list.
pub proof fn reads_are_asked_for_where_they_are(
    c: ClientView,
    project: Text,
    item: Text,
    t: TalkView,
)
    requires
        t.at >= t.answers.len(),
    ensures
        ({
            let all = Seq::<(Text, Text)>::empty().push(("per_page"@, "100"@));
            let in_place = seq![("expand"@, "state,labels"@)];
            let full = in_place.push(("per_page"@, "100"@));
            let at = "projects/"@ + project;
            &&& c.projects(t) == Heard::<Seq<JsonView>>::Asks(
                request_for(c, Method::Get, "projects/"@, all, None),
            )
            &&& c.states(project, t) == Heard::<Seq<JsonView>>::Asks(
                request_for(c, Method::Get, at + "/states/"@, all, None),
            )
            &&& c.modules(project, t) == Heard::<Seq<JsonView>>::Asks(
                request_for(c, Method::Get, at + "/modules/"@, all, None),
            )
            &&& c.labels(project, t) == Heard::<Seq<JsonView>>::Asks(
                request_for(c, Method::Get, at + "/labels/"@, all, None),
            )
            &&& c.issues(project, t) == Heard::<Seq<JsonView>>::Asks(
                request_for(c, Method::Get, at + "/issues/"@, full, None),
            )
            &&& c.module_issues(project, item, t) == Heard::<Seq<JsonView>>::Asks(
                request_for(
                    c,
                    Method::Get,
                    at + "/modules/"@ + item + "/module-issues/"@,
                    full,
                    None,
                ),
            )
            &&& c.attachments(project, item, t) == Heard::<Seq<JsonView>>::Asks(
                request_for(
                    c,
                    Method::Get,
                    at + "/work-items/"@ + item + "/attachments/"@,
                    all,
                    None,
                ),
            )
            &&& c.issue_by_ref(item, t) == Heard::<JsonView>::Asks(
                request_for(c, Method::Get, "issues/"@ + item + "/"@, in_place, None),
            )
        }),
{
    lemma_item_path(project, "/modules/"@, item, "/module-issues/"@);
    lemma_item_path(project, "/work-items/"@, item, "/attachments/"@);
}

/// What is written goes to the endpoint that takes it, under the names that it
/// takes.
pub proof fn writes_go_where_they_belong(
    c: ClientView,
    project: Text,
    item: Text,
    other: Text,
    body: JsonView,
    size: u64,
    mime: Text,
    t: TalkView,
)
    requires
        t.at >= t.answers.len(),
    ensures
        ({
            let none = Seq::<(Text, Text)>::empty();
            let at = "projects/"@ + project;
            &&& c.create_issue(project, body, t) == Heard::<JsonView>::Asks(
                request_for(c, Method::Post, at + "/issues/"@, none, Some(body)),
            )
            &&& c.update_issue(project, item, body, t) == Heard::<JsonView>::Asks(
                request_for(c, Method::Patch, at + "/issues/"@ + item + "/"@, none, Some(body)),
            )
            &&& c.add_issue_to_module(project, other, item, t) == Heard::<JsonView>::Asks(
                request_for(
                    c,
                    Method::Post,
                    at + "/modules/"@ + other + "/module-issues/"@,
                    none,
                    Some(
                        JsonView::Object(
                            seq![("issues"@, JsonView::Array(seq![JsonView::Text(item)]))],
                        ),
                    ),
                ),
            )
            &&& c.request_attachment(project, item, other, size, mime, t) == Heard::<
                JsonView,
            >::Asks(
                request_for(
                    c,
                    Method::Post,
                    at + "/work-items/"@ + item + "/attachments/"@,
                    none,
                    Some(
                        JsonView::Object(
                            seq![
                                ("name"@, JsonView::Text(other)),
                                ("size"@, json::number(size)),
                                ("type"@, JsonView::Text(mime)),
                            ],
                        ),
                    ),
                ),
            )
            &&& c.confirm_attachment(project, item, other, t) == Heard::<JsonView>::Asks(
                request_for(
                    c,
                    Method::Patch,
                    at + "/work-items/"@ + item + "/attachments/"@ + other + "/"@,
                    none,
                    Some(JsonView::Object(Seq::empty())),
                ),
            )
            &&& c.create_comment(project, item, other, t) == Heard::<JsonView>::Asks(
                request_for(
                    c,
                    Method::Post,
                    at + "/issues/"@ + item + "/comments/"@,
                    none,
                    Some(JsonView::Object(seq![("comment_html"@, JsonView::Text(other))])),
                ),
            )
        }),
{
    lemma_item_path(project, "/issues/"@, item, "/"@);
    lemma_item_path(project, "/modules/"@, other, "/module-issues/"@);
    lemma_item_path(project, "/work-items/"@, item, "/attachments/"@);
    lemma_item_path(project, "/issues/"@, item, "/comments/"@);
    let tail = "/attachments/"@ + other + "/"@;
    assert(in_item(project, "/work-items/"@, item, tail) =~= "projects/"@ + project
        + "/work-items/"@ + item + "/attachments/"@ + other + "/"@);
}

/// What an answer to a request comes to: a response is read, and no answer but a
/// response is one.
pub open spec fn response(c: ClientView, answer: AnswerView) -> Result<JsonView, ()> {
    match answer {
        AnswerView::Reply(reply) => match received(c.workspace, reply) {
            Ok(v) => Ok(v),
            Err(_) => Err(()),
        },
        _ => Err(()),
    }
}

/// A write that is answered is over: its value is the one in the response, and
/// it fails where there is none. Nothing is sent a second time.
pub proof fn an_answered_write_is_over(
    c: ClientView,
    project: Text,
    item: Text,
    other: Text,
    body: JsonView,
    size: u64,
    mime: Text,
    t: TalkView,
)
    requires
        t.at < t.answers.len(),
    ensures
        answered(c, c.create_issue(project, body, t), t),
        answered(c, c.update_issue(project, item, body, t), t),
        answered(c, c.add_issue_to_module(project, other, item, t), t),
        answered(c, c.request_attachment(project, item, other, size, mime, t), t),
        answered(c, c.confirm_attachment(project, item, other, t), t),
        answered(c, c.create_comment(project, item, other, t), t),
        answered(c, c.issue_by_ref(item, t), t),
{
}

/// Whether a part of a command is what the next answer comes to.
pub open spec fn answered(c: ClientView, h: Heard<JsonView>, t: TalkView) -> bool {
    match response(c, t.answers[t.at as int]) {
        Ok(v) => h == Heard::Got(v, t.further()),
        Err(_) => h is Failed && h->Failed_1 == t.further(),
    }
}

/// A response has a value exactly where its status says success: the one that
/// its body denotes, or null where the body is blank. Everything else is an error
/// of which the status is part.
pub proof fn success_alone_has_a_value(workspace: Text, reply: ReplyView)
    ensures
        match received(workspace, reply) {
            Ok(v) => 200 <= reply.code < 300 && (if text::trimmed(reply.body).len() == 0 {
                v == JsonView::Null
            } else {
                json::json_parse(reply.body) == Ok::<JsonView, Seq<char>>(v)
            }),
            Err(e) => if 200 <= reply.code < 300 {
                text::trimmed(reply.body).len() > 0 && json::json_parse(reply.body) is Err
            } else {
                e.len() == 1 && text::occurs(e[0], reply.status)
            },
        },
{
    if !(200 <= reply.code < 300) {
        let e = received(workspace, reply)->Err_0[0];
        let front = "Plane returned "@;
        let n = reply.status.len() as int;
        assert(e.subrange(front.len() as int, front.len() + n) =~= reply.status);
        assert(text::occurs_at(e, reply.status, front.len() as int));
    }
}

/// A page of a list goes on exactly where its envelope says that there is more
/// and names a cursor, and it goes on at that cursor. Its items are its results,
/// or all of it where it is a bare array.
pub proof fn a_page_says_whether_there_is_more(path: Text, page: JsonView, cursor: Option<Text>)
    ensures
        ({
            let results = match page.member("results"@) {
                Some(JsonView::Array(items)) => Some(items),
                _ => None,
            };
            let next = if page.member("next_page_results"@) == Some(JsonView::Bool(true)) {
                page.member_text("next_cursor"@)
            } else {
                None
            };
            match page_of(path, page, cursor) {
                PageView::More(items, at) => results == Some(items) && next == Some(at) && cursor
                    != Some(at),
                PageView::Last(items, None) => (results == Some(items) && next is None) || (
                results is None && page == JsonView::Array(items) && items.len() < 100),
                PageView::Last(items, Some(_)) => results is None && page == JsonView::Array(items)
                    && items.len() >= 100,
                PageView::Fault(_) => (results is Some && next is Some && next == cursor) || (
                results is None && page !is Array),
            }
        }),
{
}

/// Every page but the first is asked for at the cursor that the page before it
/// named, with the query of the list itself.
pub proof fn the_next_page_is_asked_for_at_its_cursor(
    c: ClientView,
    path: Text,
    params: Seq<(Text, Text)>,
    pages: nat,
    cursor: Option<Text>,
    items: Seq<JsonView>,
    t: TalkView,
)
    requires
        pages < MAX_PAGES,
    ensures
        t.at >= t.answers.len() ==> c.paged(path, params, pages, cursor, items, t) == Heard::<
            Seq<JsonView>,
        >::Asks(
            request_for(
                c,
                Method::Get,
                path,
                (params + seq![("per_page"@, "100"@)]) + (match cursor {
                    Some(at) => seq![("cursor"@, at)],
                    None => Seq::empty(),
                }),
                None,
            ),
        ),
        t.at < t.answers.len() ==> match response(c, t.answers[t.at as int]) {
            Ok(page) => match page_of(path, page, cursor) {
                PageView::More(more, next) => c.paged(path, params, pages, cursor, items, t)
                    == c.paged(path, params, pages + 1, Some(next), items + more, t.further()),
                PageView::Last(more, None) => c.paged(path, params, pages, cursor, items, t)
                    == Heard::Got(items + more, t.further()),
                PageView::Last(more, Some(warning)) => if t.at + 1 >= t.answers.len() {
                    c.paged(path, params, pages, cursor, items, t) == Heard::<Seq<JsonView>>::Asks(
                        AskView::Warn(warning),
                    )
                } else {
                    match t.answers[t.at as int + 1] {
                        AnswerView::Done => c.paged(path, params, pages, cursor, items, t)
                            == Heard::Got(items + more, t.further().further()),
                        _ => c.paged(path, params, pages, cursor, items, t) is Failed,
                    }
                },
                PageView::Fault(e) => c.paged(path, params, pages, cursor, items, t)
                    == Heard::<Seq<JsonView>>::Failed(e, t.further()),
            },
            Err(_) => c.paged(path, params, pages, cursor, items, t) is Failed,
        },
{
    let sized = params + seq![("per_page"@, "100"@)];
    assert(params.push(("per_page"@, "100"@)) =~= sized);
    match cursor {
        Some(at) => {
            assert(sized.push(("cursor"@, at)) =~= sized + seq![("cursor"@, at)]);
        },
        None => {
            assert(sized + Seq::<(Text, Text)>::empty() =~= sized);
        },
    }
}

/// The client is what the settings and the token say, once the two connections
/// are open: the file is read first, and the token is looked up last.
pub proof fn a_client_is_what_the_settings_say(
    world: WorldView,
    file: Map<Key, Text>,
    t: TalkView,
    t1: TalkView,
)
    requires
        store::loading(world, t) == Heard::Got(file, t1),
    ensures
        config::setting(Key::Workspace, file, world.env).value is None ==> connecting(world, t)
            == Heard::<ClientView>::Failed(seq![config::no_workspace()], t1),
        config::setting(Key::Workspace, file, world.env).value is Some ==> {
            &&& t1.at >= t1.answers.len() ==> connecting(world, t) == Heard::<ClientView>::Asks(
                AskView::Open(Channel::Api),
            )
            &&& t1.at + 1 == t1.answers.len() && t1.answers[t1.at as int] == AnswerView::Done
                ==> connecting(world, t) == Heard::<ClientView>::Asks(
                AskView::Open(Channel::Uploads),
            )
            &&& t1.at + 2 <= t1.answers.len() && t1.answers[t1.at as int] == AnswerView::Done
                && t1.answers[t1.at as int + 1] == AnswerView::Done ==> match auth::token(
                world.env,
                Ok(file),
                t1.further().further(),
            ) {
                Heard::Got(key, end) => connecting(world, t) == Heard::Got(
                    ClientView {
                        base: config::setting(Key::ApiBase, file, world.env).value->0,
                        workspace: config::setting(Key::Workspace, file, world.env).value->0,
                        key,
                        web_base: config::setting(Key::WebBase, file, world.env).value,
                    },
                    end,
                ),
                Heard::Failed(e, end) => connecting(world, t) == Heard::<ClientView>::Failed(
                    e,
                    end,
                ),
                Heard::Asks(a) => connecting(world, t) == Heard::<ClientView>::Asks(a),
            }
        },
{
}

/// What is posted to a presigned target is the URL and every field that the API
/// returned, in order and as it is, with the file and the type that were asked
/// for; a field that is no text is refused.
pub proof fn an_upload_is_as_it_was_described(data: JsonView, file: nat, mime: Text)
    ensures
        match upload_of(data, file, mime) {
            Ok(upload) => upload.file == file && upload.mime == mime && data.member("url"@) == Some(
                JsonView::Text(upload.url),
            ) && data.member("fields"@) == Some(JsonView::Object(text_entries(upload.fields))),
            Err(_) => data.member_text("url"@) is None || !(data.member("fields"@) matches Some(
                JsonView::Object(entries),
            ) && forall|i: int| 0 <= i < entries.len() ==> (#[trigger] entries[i]).1 is Text),
        },
{
    if let Some(JsonView::Object(entries)) = data.member("fields"@) {
        lemma_form_fields(entries);
    }
}

/// The entries of an object of texts.
pub open spec fn text_entries(fields: Seq<(Text, Text)>) -> Seq<(Text, JsonView)> {
    fields.map_values(|f: (Text, Text)| (f.0, JsonView::Text(f.1)))
}

proof fn lemma_form_fields(entries: Seq<(Text, JsonView)>)
    ensures
        match form_fields(entries) {
            Ok(fields) => entries == text_entries(fields),
            Err(_) => exists|i: int| 0 <= i < entries.len() && (#[trigger] entries[i]).1 !is Text,
        },
    decreases entries.len(),
{
    if entries.len() == 0 {
        assert(entries =~= text_entries(Seq::empty()));
    } else {
        let front = entries.drop_last();
        lemma_form_fields(front);
        match form_fields(front) {
            Ok(fields) => match entries.last().1.text() {
                Some(v) => {
                    let all = fields.push((entries.last().0, v));
                    assert(entries =~= text_entries(all)) by {
                        assert(text_entries(all) =~= text_entries(fields).push(
                            (entries.last().0, JsonView::Text(v)),
                        ));
                        assert(entries =~= front.push(entries.last()));
                    }
                },
                None => {
                    assert(entries[entries.len() - 1].1 !is Text);
                },
            },
            Err(_) => {
                let i = choose|i: int| 0 <= i < front.len() && (#[trigger] front[i]).1 !is Text;
                assert(entries[i] == front[i]);
            },
        }
    }
}

/// A file is stored exactly where the object store answers with success.
pub proof fn an_upload_stands_where_it_is_answered_with_success(
    upload: UploadView,
    path: Text,
    t: TalkView,
)
    ensures
        t.at >= t.answers.len() ==> uploaded(upload, path, t) == Heard::<()>::Asks(
            AskView::Upload(upload),
        ),
        t.at < t.answers.len() ==> match t.answers[t.at as int] {
            AnswerView::Reply(reply) => if 200 <= reply.code < 300 {
                uploaded(upload, path, t) == Heard::Got((), t.further())
            } else {
                uploaded(upload, path, t) is Failed
            },
            _ => uploaded(upload, path, t) is Failed,
        },
{
}

/// A refusal says what the API said, cut short where it is long, and what may be
/// behind it: the rate limit, the token and the workspace, or a restart.
pub proof fn a_refusal_says_what_may_be_behind_it(workspace: Text, reply: ReplyView, said: Text)
    requires
        !(200 <= reply.code < 400),
        said == (if text::byte_len(text::trimmed(reply.body)) > 500 {
            text::head(text::trimmed(reply.body), 500) + "..."@
        } else {
            text::trimmed(reply.body)
        }),
    ensures
        received(workspace, reply) matches Err(e) && e.len() == 1 && text::starts(
            e[0],
            "Plane returned "@ + reply.status + ": "@ + said,
        ) && (reply.code == 429 ==> text::occurs(
            e[0],
            "The PAT is rate-limited to 60 requests a minute"@,
        )) && (reply.code == 401 || reply.code == 403 ==> text::occurs(
            e[0],
            "this request used \""@ + workspace + "\"."@,
        )) && (reply.code == 502 || reply.code == 503 ==> text::occurs(
            e[0],
            "Plane takes about 90 seconds to boot after a restart"@,
        )) && (reply.code != 429 && reply.code != 401 && reply.code != 403 && reply.code != 502
            && reply.code != 503 ==> e[0] == "Plane returned "@ + reply.status + ": "@ + said),
{
    let front = "Plane returned "@ + reply.status + ": "@ + said;
    let e = received(workspace, reply)->Err_0[0];
    assert(e == "Plane returned "@ + reply.status + ": "@ + said + hint(workspace, reply.code));
    assert(e.subrange(0, front.len() as int) =~= front);
    if reply.code == 429 {
        let part = "The PAT is rate-limited to 60 requests a minute"@;
        reveal_strlit("The PAT is rate-limited to 60 requests a minute");
        reveal_strlit(
            "\nThe PAT is rate-limited to 60 requests a minute; wait a minute and retry.",
        );
        let at = front.len() as int + 1;
        assert(e.subrange(at, at + part.len()) =~= part);
        assert(text::occurs_at(e, part, at));
    } else if reply.code == 401 || reply.code == 403 {
        let part = "this request used \""@ + workspace + "\"."@;
        reveal_strlit("this request used \"");
        reveal_strlit(
            "\nCheck the PAT (`pass-cli vault list` proves the session), and check the workspace slug (`plane config show`): it is case-sensitive and lowercase, and this request used \"",
        );
        let at = e.len() - part.len();
        assert(e.subrange(at, at + part.len()) =~= part);
        assert(text::occurs_at(e, part, at));
    } else if reply.code == 502 || reply.code == 503 {
        let part = "Plane takes about 90 seconds to boot after a restart"@;
        reveal_strlit("Plane takes about 90 seconds to boot after a restart");
        reveal_strlit(
            "\nPlane takes about 90 seconds to boot after a restart; a 502 right after one is expected.",
        );
        let at = front.len() as int + 1;
        assert(e.subrange(at, at + part.len()) =~= part);
        assert(text::occurs_at(e, part, at));
    } else {
        assert(e =~= front);
    }
}

/// A redirect is an error that says where it would have led.
pub proof fn a_redirect_says_where_it_would_have_led(workspace: Text, reply: ReplyView)
    requires
        300 <= reply.code < 400,
    ensures
        received(workspace, reply) matches Err(e) && e.len() == 1 && text::starts(
            e[0],
            "Plane returned "@ + reply.status + " and the redirect was not followed"@ + (
            if reply.location.len() > 0 {
                " to "@ + reply.location
            } else {
                Seq::empty()
            }) + "."@,
        ),
{
    let front = "Plane returned "@ + reply.status + " and the redirect was not followed"@ + (
    if reply.location.len() > 0 {
        " to "@ + reply.location
    } else {
        Seq::empty()
    }) + "."@;
    reveal_strlit(".");
    reveal_strlit(
        ".\nOn CE this is a missing trailing slash: `projects` 301s, `projects/` 200s. Redirects are never followed here, because the PAT rides in a custom header that would travel with them.",
    );
    let e = received(workspace, reply)->Err_0[0];
    assert(e.subrange(0, front.len() as int) =~= front);
}

/// A list that comes without an envelope is warned of where it is a page long or
/// more, with where it came from and how long it is.
pub proof fn a_full_page_without_an_envelope_is_warned_of(path: Text, len: nat)
    ensures
        truncation(path, len) is Some <==> len >= 100,
        truncation(path, len) matches Some(warning) ==> text::occurs(warning, path) && text::occurs(
            warning,
            text::decimal(len),
        ),
{
    if len >= 100 {
        let end =
            " items and no pagination envelope, which is the full page size. The result may be truncated."@;
        let middle = " answered with a bare array of "@;
        let count = text::decimal(len);
        let warning = "Warning: "@ + path + middle + count + end;
        assert(warning =~= "Warning: "@ + path + (middle + count + end));
        text::lemma_between("Warning: "@, path, middle + count + end);
        text::lemma_between("Warning: "@ + path + middle, count, end);
    }
}

/// A refused upload says where it went, what was answered, and how the file that
/// did not arrive broke off.
pub proof fn a_refused_upload_says_where_it_went(
    url: Text,
    reply: ReplyView,
    fault: Fault,
    path: Text,
    mime: Text,
)
    ensures
        200 <= reply.code < 300 <==> stored_upload(url, reply) is Ok,
        stored_upload(url, reply) matches Err(e) ==> e.len() == 1 && text::starts(
            e[0],
            "The presigned upload to "@ + url + " returned "@ + reply.status + ": "@ + text::head(
                text::trimmed(reply.body),
                500,
            ),
        ),
        text::occurs(
            fault_context(fault, url, path, mime),
            match fault {
                Fault::Open => path,
                Fault::Mime => mime,
                Fault::Send => url,
            },
        ),
{
    if stored_upload(url, reply) is Err {
        let front = "The presigned upload to "@ + url + " returned "@ + reply.status + ": "@
            + text::head(text::trimmed(reply.body), 500);
        let e = stored_upload(url, reply)->Err_0[0];
        assert(e.subrange(0, front.len() as int) =~= front);
    }
    match fault {
        Fault::Open => text::lemma_between("Could not open "@, path, " for upload"@),
        Fault::Mime => text::lemma_between("Invalid MIME type \""@, mime, "\""@),
        Fault::Send => text::lemma_between("Upload to "@, url, " failed"@),
    }
}

/// A command without its settings goes no further: what is asked to read them is
/// asked first, and what was wrong with them is said.
pub proof fn no_settings_no_client(world: WorldView, t: TalkView, e: Seq<Text>, end: TalkView)
    ensures
        store::loading(world, t) matches Heard::Asks(a) ==> connecting(world, t) == Heard::<
            ClientView,
        >::Asks(a),
        store::loading(world, t) == Heard::<Map<Key, Text>>::Failed(e, end) ==> connecting(world, t)
            == Heard::<ClientView>::Failed(seq![text::joined(e, ": "@)], end),
{
}

/// A list that does not advance, or does not end, says at which cursor or where.
pub proof fn a_list_that_fails_says_where(
    path: Text,
    page: JsonView,
    cursor: Text,
    c: ClientView,
    request: RequestView,
    t: TalkView,
)
    ensures
        page.member("next_page_results"@) == Some(JsonView::Bool(true)) && page.member(
            "next_cursor"@,
        ) == Some(JsonView::Text(cursor)) ==> (cursor_after(page, Some(cursor)) matches Err(e)
            && e.len() == 1 && text::occurs(e[0], cursor)),
        text::occurs(gave_up(path), path),
        t.at < t.answers.len() ==> (t.answers[t.at as int] matches AnswerView::Failed(e) ==> c.sent(
            request,
            t,
        ) == Heard::<JsonView>::Failed(
            seq!["Request to Plane failed. Is the instance reachable?"@] + e,
            t.further(),
        )),
{
    let rest =
        "\", so the list is not advancing. Stopping instead of fetching the same page until the rate limit turns it into a 429."@;
    text::lemma_between("Plane repeated the pagination cursor \""@, cursor, rest);
    text::lemma_between(
        "Gave up on "@,
        path,
        " after 500 pages. The cursor is not terminating, so this is a server-side pagination fault rather than a long list."@,
    );
}

/// An issue that cannot be looked up is named, and a connection that cannot be set
/// up is told from the other, in front of what was wrong.
pub proof fn what_could_not_be_reached_is_named(
    c: ClientView,
    r: Text,
    t: TalkView,
    world: WorldView,
    start: TalkView,
    file: Map<Key, Text>,
    e: Seq<Text>,
)
    requires
        t.at < t.answers.len(),
    ensures
        response(c, t.answers[t.at as int]) is Err ==> (c.issue_by_ref(r, t) matches Heard::Failed(
            said,
            end,
        ) && end == t.further() && said.len() > 1 && said[0] == "Could not resolve issue "@ + r),
        store::loading(world, start) == Heard::Got(file, t) && config::setting(
            Key::Workspace,
            file,
            world.env,
        ).value is Some && t.answers[t.at as int] == AnswerView::Failed(e) ==> connecting(
            world,
            start,
        ) == Heard::<ClientView>::Failed(
            seq!["Failed to build HTTP client"@] + e,
            t.further(),
        ),
        store::loading(world, start) == Heard::Got(file, t) && config::setting(
            Key::Workspace,
            file,
            world.env,
        ).value is Some && t.answers[t.at as int] == AnswerView::Done && t.at + 1 < t.answers.len()
            && t.answers[t.at as int + 1] == AnswerView::Failed(e) ==> connecting(world, start)
            == Heard::<ClientView>::Failed(
            seq!["Failed to build upload HTTP client"@] + e,
            t.further().further(),
        ),
{
}

} // verus!
