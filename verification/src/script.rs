//! Commands as scripts.
//!
//! A command decides, and something outside performs: it sends the request,
//! reads the file, runs the program. A command is therefore a function from the
//! answers it has heard so far to the next [`Step`]: the next thing to ask for,
//! or the end of the command. Whoever runs a command performs what is asked,
//! appends the answer and calls the command again.
//!
//! Inside a command, [`Talk`] walks through the answers in order, and each part
//! of a command either gets its value, fails, or stops at the first question
//! that has no answer yet. [`Heard`] is that outcome as the contracts see it.

use crate::error::Error;
use crate::json::{Json, JsonView};
use crate::text;
use crate::text::Text;
use vstd::prelude::*;

verus! {

// ---- what is asked ----

#[derive(Copy, Clone, Debug, PartialEq, Eq, Structural)]
pub enum Method {
    Get,
    Post,
    Patch,
}

/// A request to the API. It is sent with the token in the `X-API-Key` header,
/// and a redirect is not followed.
#[derive(PartialEq, Eq)]
pub struct Request {
    pub method: Method,
    pub url: String,
    pub query: Vec<(String, String)>,
    pub api_key: String,
    pub body: Option<Json>,
}

/// What a [`Request`] holds.
pub struct RequestView {
    pub method: Method,
    pub url: Text,
    pub query: Seq<(Text, Text)>,
    pub api_key: Text,
    pub body: Option<JsonView>,
}

pub open spec fn json_option(value: Option<Json>) -> Option<JsonView> {
    match value {
        Some(v) => Some(v@),
        None => None,
    }
}

impl View for Request {
    type V = RequestView;

    open spec fn view(&self) -> RequestView {
        RequestView {
            method: self.method,
            url: self.url@,
            query: text::text_pairs(self.query@),
            api_key: self.api_key@,
            body: json_option(self.body),
        }
    }
}

impl Request {
    /// The text that the request carries, where it carries any.
    pub fn body_text(&self) -> (r: Option<String>)
        ensures
            text::text_option(r) == (match self@.body {
                Some(body) => Some(crate::json::json_compact(body)),
                None => None,
            }),
    {
        match &self.body {
            Some(body) => Some(body.to_line()),
            None => None,
        }
    }
}

/// A file to post to a presigned target as multipart form data: the fields in
/// this order, then the file. The target is another service than the API, and
/// there is no place for the token here.
#[derive(Debug, PartialEq, Eq)]
pub struct Upload {
    pub url: String,
    pub fields: Vec<(String, String)>,
    /// Which of the files on the command line.
    pub file: usize,
    pub mime: String,
}

/// What an [`Upload`] holds.
pub struct UploadView {
    pub url: Text,
    pub fields: Seq<(Text, Text)>,
    pub file: nat,
    pub mime: Text,
}

impl View for Upload {
    type V = UploadView;

    open spec fn view(&self) -> UploadView {
        UploadView {
            url: self.url@,
            fields: text::text_pairs(self.fields@),
            file: self.file as nat,
            mime: self.mime@,
        }
    }
}

/// The two connections that a command may need.
#[derive(Copy, Clone, Debug, PartialEq, Eq, Structural)]
pub enum Channel {
    Api,
    Uploads,
}

/// What a command asks of whoever runs it.
#[derive(PartialEq, Eq)]
pub enum Ask {
    /// Set a connection up.
    Open(Channel),
    /// Send a request to the API.
    Send(Request),
    /// Post a file to a presigned target.
    Upload(Upload),
    /// Read the config file.
    ReadConfig,
    /// Say why this text, which is TOML, is no config file.
    ExplainConfig(String),
    /// Create the directory of the config file, with its parents.
    CreateConfigDir,
    /// Write a file of this name beside the config file, readable by this
    /// account alone.
    WriteScratch(String, String),
    /// Rename the file of this name over the config file.
    RenameScratch(String),
    /// Remove the file of this name beside the config file.
    RemoveScratch(String),
    /// Run `pass-cli` with these arguments.
    PassCli(Vec<String>),
    /// Read the note on the command line.
    ReadNote,
    /// Read standard input to its end.
    ReadStdin,
    /// Find the size of one of the files on the command line.
    Measure(usize),
    /// Render byte counts for a reader.
    RenderSizes(Vec<Json>),
    /// Print to standard output.
    Print(String),
    /// Print to standard error.
    Warn(String),
}

/// What an [`Ask`] holds.
pub enum AskView {
    Open(Channel),
    Send(RequestView),
    Upload(UploadView),
    ReadConfig,
    ExplainConfig(Text),
    CreateConfigDir,
    WriteScratch(Text, Text),
    RenameScratch(Text),
    RemoveScratch(Text),
    PassCli(Seq<Text>),
    ReadNote,
    ReadStdin,
    Measure(nat),
    RenderSizes(Seq<JsonView>),
    Print(Text),
    Warn(Text),
}

impl View for Ask {
    type V = AskView;

    open spec fn view(&self) -> AskView {
        match self {
            Ask::Open(c) => AskView::Open(*c),
            Ask::Send(r) => AskView::Send(r@),
            Ask::Upload(u) => AskView::Upload(u@),
            Ask::ReadConfig => AskView::ReadConfig,
            Ask::ExplainConfig(raw) => AskView::ExplainConfig(raw@),
            Ask::CreateConfigDir => AskView::CreateConfigDir,
            Ask::WriteScratch(name, s) => AskView::WriteScratch(name@, s@),
            Ask::RenameScratch(name) => AskView::RenameScratch(name@),
            Ask::RemoveScratch(name) => AskView::RemoveScratch(name@),
            Ask::PassCli(args) => AskView::PassCli(text::texts(args@)),
            Ask::ReadNote => AskView::ReadNote,
            Ask::ReadStdin => AskView::ReadStdin,
            Ask::Measure(i) => AskView::Measure(*i as nat),
            Ask::RenderSizes(list) => AskView::RenderSizes(crate::json::values(list@)),
            Ask::Print(s) => AskView::Print(s@),
            Ask::Warn(s) => AskView::Warn(s@),
        }
    }
}

// ---- what is answered ----

/// An HTTP response.
#[derive(Debug, PartialEq, Eq)]
pub struct Reply {
    pub code: u16,
    /// The status as it is printed, e.g. `404 Not Found`.
    pub status: String,
    /// The `Location` header, or nothing.
    pub location: String,
    pub body: String,
}

/// What a [`Reply`] holds.
pub struct ReplyView {
    pub code: u16,
    pub status: Text,
    pub location: Text,
    pub body: Text,
}

impl View for Reply {
    type V = ReplyView;

    open spec fn view(&self) -> ReplyView {
        ReplyView {
            code: self.code,
            status: self.status@,
            location: self.location@,
            body: self.body@,
        }
    }
}

/// What a program printed, and how it ended.
#[derive(PartialEq, Eq)]
pub struct Output {
    pub success: bool,
    /// The exit status as it is printed.
    pub status: String,
    pub stdout: String,
    pub stderr: String,
}

/// What an [`Output`] holds.
pub struct OutputView {
    pub success: bool,
    pub status: Text,
    pub stdout: Text,
    pub stderr: Text,
}

impl View for Output {
    type V = OutputView;

    open spec fn view(&self) -> OutputView {
        OutputView {
            success: self.success,
            status: self.status@,
            stdout: self.stdout@,
            stderr: self.stderr@,
        }
    }
}

/// Where an upload broke off before there was a response.
#[derive(Copy, Clone, Debug, PartialEq, Eq, Structural)]
pub enum Fault {
    Open,
    Mime,
    Send,
}

/// What came of an [`Ask`].
#[derive(PartialEq, Eq)]
pub enum Answer {
    Done,
    Text(String),
    /// What the config file holds, or that there is none.
    Contents(Option<String>),
    Output(Output),
    Reply(Reply),
    UploadFailed(Fault, Error),
    /// The size of a file, and whether its name is text.
    Measured(u64, bool),
    Sizes(Vec<String>),
    /// It could not be done.
    Failed(Error),
}

/// What an [`Answer`] holds.
pub enum AnswerView {
    Done,
    Text(Text),
    Contents(Option<Text>),
    Output(OutputView),
    Reply(ReplyView),
    UploadFailed(Fault, Seq<Text>),
    Measured(u64, bool),
    Sizes(Seq<Text>),
    Failed(Seq<Text>),
}

impl View for Answer {
    type V = AnswerView;

    open spec fn view(&self) -> AnswerView {
        match self {
            Answer::Done => AnswerView::Done,
            Answer::Text(s) => AnswerView::Text(s@),
            Answer::Contents(s) => AnswerView::Contents(text::text_option(*s)),
            Answer::Output(o) => AnswerView::Output(o@),
            Answer::Reply(r) => AnswerView::Reply(r@),
            Answer::UploadFailed(f, e) => AnswerView::UploadFailed(*f, e@),
            Answer::Measured(n, named) => AnswerView::Measured(*n, *named),
            Answer::Sizes(list) => AnswerView::Sizes(text::texts(list@)),
            Answer::Failed(e) => AnswerView::Failed(e@),
        }
    }
}

pub open spec fn answers_of(list: Seq<Answer>) -> Seq<AnswerView> {
    list.map_values(|a: Answer| a@)
}

// ---- steps ----

/// The end of a command: what it prints, and whether it succeeded.
#[derive(Debug, PartialEq, Eq)]
pub struct Finish {
    pub out: Option<String>,
    pub error: Option<Error>,
}

/// What a [`Finish`] holds.
pub struct FinishView {
    pub out: Option<Text>,
    pub error: Option<Seq<Text>>,
}

pub open spec fn error_option(e: Option<Error>) -> Option<Seq<Text>> {
    match e {
        Some(e) => Some(e@),
        None => None,
    }
}

impl View for Finish {
    type V = FinishView;

    open spec fn view(&self) -> FinishView {
        FinishView { out: text::text_option(self.out), error: error_option(self.error) }
    }
}

/// A successful end that prints `out`, or nothing where there is nothing to
/// print.
pub open spec fn prints(out: Option<Text>) -> FinishView {
    FinishView { out, error: None }
}

/// What a command does next.
#[derive(PartialEq, Eq)]
pub enum Step {
    Ask(Ask),
    Finish(Finish),
}

/// What a [`Step`] holds.
pub enum StepView {
    Ask(AskView),
    Finish(FinishView),
}

impl View for Step {
    type V = StepView;

    open spec fn view(&self) -> StepView {
        match self {
            Step::Ask(a) => StepView::Ask(a@),
            Step::Finish(f) => StepView::Finish(f@),
        }
    }
}

// ---- walking through the answers ----

/// The answers, and how many of them have been heard.
pub struct TalkView {
    pub answers: Seq<AnswerView>,
    pub at: nat,
}

impl TalkView {
    pub open spec fn further(self) -> TalkView {
        TalkView { answers: self.answers, at: self.at + 1 }
    }
}

/// The outcome of a part of a command: its value, or why it failed, with what
/// has been heard by then; or the question that has no answer yet.
pub enum Heard<T> {
    Got(T, TalkView),
    Failed(Seq<Text>, TalkView),
    Asks(AskView),
}

impl<T> Heard<T> {
    /// What comes of going on with the value.
    pub open spec fn next<U>(self, f: spec_fn(T, TalkView) -> Heard<U>) -> Heard<U> {
        match self {
            Heard::Got(v, t) => f(v, t),
            Heard::Failed(e, t) => Heard::Failed(e, t),
            Heard::Asks(a) => Heard::Asks(a),
        }
    }

    /// The same with one more message in front of a failure.
    pub open spec fn context(self, message: Text) -> Heard<T> {
        match self {
            Heard::Failed(e, t) => Heard::Failed(seq![message] + e, t),
            _ => self,
        }
    }
}

/// A decision that needs no answer.
pub open spec fn ruled<T>(r: Result<T, Seq<Text>>, t: TalkView) -> Heard<T> {
    match r {
        Ok(v) => Heard::Got(v, t),
        Err(e) => Heard::Failed(e, t),
    }
}

/// Why a part of a command did not get its value.
#[derive(PartialEq, Eq)]
pub enum Stop {
    Ask(Ask),
    Fail(Error),
}

pub open spec fn stopped<T>(stop: Stop, t: TalkView) -> Heard<T> {
    match stop {
        Stop::Ask(a) => Heard::Asks(a@),
        Stop::Fail(e) => Heard::Failed(e@, t),
    }
}

impl Stop {
    /// The same with one more message in front of a failure.
    pub fn context(self, message: String) -> (r: Stop)
        ensures
            match self {
                Stop::Ask(a) => r == self,
                Stop::Fail(e) => r is Fail && r->Fail_0@ == seq![message@] + e@,
            },
    {
        match self {
            Stop::Ask(a) => Stop::Ask(a),
            Stop::Fail(e) => Stop::Fail(e.context(message)),
        }
    }
}

pub open spec fn heard_json(r: Result<Json, Stop>, t: TalkView) -> Heard<JsonView> {
    match r {
        Ok(v) => Heard::Got(v@, t),
        Err(s) => stopped(s, t),
    }
}

pub open spec fn heard_list(r: Result<Vec<Json>, Stop>, t: TalkView) -> Heard<Seq<JsonView>> {
    match r {
        Ok(v) => Heard::Got(crate::json::values(v@), t),
        Err(s) => stopped(s, t),
    }
}

pub open spec fn heard_text(r: Result<String, Stop>, t: TalkView) -> Heard<Text> {
    match r {
        Ok(v) => Heard::Got(v@, t),
        Err(s) => stopped(s, t),
    }
}

pub open spec fn heard_texts(r: Result<Vec<String>, Stop>, t: TalkView) -> Heard<Seq<Text>> {
    match r {
        Ok(v) => Heard::Got(text::texts(v@), t),
        Err(s) => stopped(s, t),
    }
}

pub open spec fn heard_done(r: Result<(), Stop>, t: TalkView) -> Heard<()> {
    match r {
        Ok(v) => Heard::Got((), t),
        Err(s) => stopped(s, t),
    }
}

pub open spec fn heard_finish(r: Result<Finish, Stop>, t: TalkView) -> Heard<FinishView> {
    match r {
        Ok(v) => Heard::Got(v@, t),
        Err(s) => stopped(s, t),
    }
}

pub open spec fn heard_answer(r: Result<&Answer, Stop>, t: TalkView) -> Heard<AnswerView> {
    match r {
        Ok(v) => Heard::Got(v@, t),
        Err(s) => stopped(s, t),
    }
}

/// The answers that a command has, walked through in order.
pub struct Talk<'a> {
    pub answers: &'a Vec<Answer>,
    pub at: usize,
}

impl<'a> View for Talk<'a> {
    type V = TalkView;

    open spec fn view(&self) -> TalkView {
        TalkView { answers: answers_of(self.answers@), at: self.at as nat }
    }
}

/// What is heard of a question: the next answer, or that there is none yet. An
/// answer that says it could not be done is a failure.
pub open spec fn asked(t: TalkView, ask: AskView) -> Heard<AnswerView> {
    if t.at < t.answers.len() {
        match t.answers[t.at as int] {
            AnswerView::Failed(e) => Heard::Failed(e, t.further()),
            answer => Heard::Got(answer, t.further()),
        }
    } else {
        Heard::Asks(ask)
    }
}

/// The failure of an answer to another question than the one that was asked.
pub open spec fn misfit() -> Seq<Text> {
    seq!["The answer does not fit the question that was asked."@]
}

pub fn misfit_error() -> (r: Error)
    ensures
        r@ == misfit(),
{
    Error::new("The answer does not fit the question that was asked.".to_string())
}

/// Hears that something was done.
pub open spec fn done(t: TalkView, ask: AskView) -> Heard<()> {
    asked(t, ask).next(
        |answer: AnswerView, t: TalkView|
            match answer {
                AnswerView::Done => Heard::Got((), t),
                _ => Heard::Failed(misfit(), t),
            },
    )
}

/// Hears a text.
pub open spec fn told(t: TalkView, ask: AskView) -> Heard<Text> {
    asked(t, ask).next(
        |answer: AnswerView, t: TalkView|
            match answer {
                AnswerView::Text(s) => Heard::Got(s, t),
                _ => Heard::Failed(misfit(), t),
            },
    )
}

/// Hears a response.
pub open spec fn replied(t: TalkView, request: RequestView) -> Heard<ReplyView> {
    asked(t, AskView::Send(request)).next(
        |answer: AnswerView, t: TalkView|
            match answer {
                AnswerView::Reply(r) => Heard::Got(r, t),
                _ => Heard::Failed(misfit(), t),
            },
    )
}

impl<'a> Talk<'a> {
    pub fn new(answers: &'a Vec<Answer>) -> (r: Talk<'a>)
        ensures
            r@ == (TalkView { answers: answers_of(answers@), at: 0 }),
    {
        Talk { answers, at: 0 }
    }

    pub fn hear(&mut self, ask: Ask) -> (r: Result<&'a Answer, Stop>)
        ensures
            heard_answer(r, final(self)@) == asked(old(self)@, ask@),
    {
        if self.at < self.answers.len() {
            let answer: &'a Answer = &self.answers[self.at];
            assert(self@.answers[self.at as int] == answer@);
            self.at += 1;
            match answer {
                Answer::Failed(e) => Err(Stop::Fail(e.clone())),
                _ => Ok(answer),
            }
        } else {
            Err(Stop::Ask(ask))
        }
    }

    pub fn done(&mut self, ask: Ask) -> (r: Result<(), Stop>)
        ensures
            heard_done(r, final(self)@) == done(old(self)@, ask@),
    {
        match self.hear(ask)? {
            Answer::Done => Ok(()),
            _ => Err(Stop::Fail(misfit_error())),
        }
    }

    pub fn text(&mut self, ask: Ask) -> (r: Result<String, Stop>)
        ensures
            heard_text(r, final(self)@) == told(old(self)@, ask@),
    {
        match self.hear(ask)? {
            Answer::Text(s) => Ok(s.clone()),
            _ => Err(Stop::Fail(misfit_error())),
        }
    }

    pub fn reply(&mut self, request: Request) -> (r: Result<&'a Reply, Stop>)
        ensures
            (match r {
                Ok(v) => Heard::Got(v@, final(self)@),
                Err(s) => stopped(s, final(self)@),
            }) == replied(old(self)@, request@),
    {
        match self.hear(Ask::Send(request))? {
            Answer::Reply(reply) => Ok(reply),
            _ => Err(Stop::Fail(misfit_error())),
        }
    }
}

/// A decision that needs no answer, as a part of a command.
pub fn rule<T>(r: Result<T, Error>) -> (s: Result<T, Stop>)
    ensures
        match r {
            Ok(v) => s == Ok::<T, Stop>(v),
            Err(e) => s == Err::<T, Stop>(Stop::Fail(e)),
        },
{
    match r {
        Ok(v) => Ok(v),
        Err(e) => Err(Stop::Fail(e)),
    }
}

/// What a command does next, once its parts have heard what there is.
pub open spec fn concluded(h: Heard<FinishView>) -> StepView {
    match h {
        Heard::Got(f, _) => StepView::Finish(f),
        Heard::Failed(e, _) => StepView::Finish(FinishView { out: None, error: Some(e) }),
        Heard::Asks(a) => StepView::Ask(a),
    }
}

pub fn conclude(r: Result<Finish, Stop>) -> (step: Step)
    ensures
        forall|t: TalkView| step@ == concluded(#[trigger] heard_finish(r, t)),
{
    match r {
        Ok(f) => Step::Finish(f),
        Err(Stop::Fail(e)) => Step::Finish(Finish { out: None, error: Some(e) }),
        Err(Stop::Ask(a)) => Step::Ask(a),
    }
}

/// Where the answers of a command begin.
pub open spec fn opening(answers: Seq<AnswerView>) -> TalkView {
    TalkView { answers, at: 0 }
}

// ---- laws ----

/// Answers are heard in the order in which they came, one to each question; a
/// question without one is asked, and an answer that it could not be done, or one
/// to another question, is a failure.
pub proof fn each_question_hears_the_next_answer(t: TalkView, ask: AskView, request: RequestView)
    ensures
        t.at >= t.answers.len() ==> {
            &&& asked(t, ask) == Heard::<AnswerView>::Asks(ask)
            &&& done(t, ask) == Heard::<()>::Asks(ask)
            &&& told(t, ask) == Heard::<Text>::Asks(ask)
            &&& replied(t, request) == Heard::<ReplyView>::Asks(AskView::Send(request))
        },
        t.at < t.answers.len() ==> {
            let end = TalkView { answers: t.answers, at: t.at + 1 };
            match t.answers[t.at as int] {
                AnswerView::Failed(e) => {
                    &&& asked(t, ask) == Heard::<AnswerView>::Failed(e, end)
                    &&& done(t, ask) == Heard::<()>::Failed(e, end)
                    &&& told(t, ask) == Heard::<Text>::Failed(e, end)
                    &&& replied(t, request) == Heard::<ReplyView>::Failed(e, end)
                },
                answer => {
                    &&& asked(t, ask) == Heard::Got(answer, end)
                    &&& done(t, ask) == Heard::Got((), end) <==> answer is Done
                    &&& answer matches AnswerView::Text(s) ==> told(t, ask) == Heard::Got(s, end)
                    &&& answer matches AnswerView::Reply(r) ==> replied(t, request) == Heard::Got(
                        r,
                        end,
                    )
                    &&& answer !is Done ==> done(t, ask) is Failed
                    &&& answer !is Text ==> told(t, ask) is Failed
                    &&& answer !is Reply ==> replied(t, request) is Failed
                },
            }
        },
{
}

/// A command that failed prints nothing and says why; one that has a question asks
/// it; and one that is over prints what it came to.
pub proof fn a_command_ends_as_its_parts_did(f: FinishView, e: Seq<Text>, a: AskView, t: TalkView)
    ensures
        concluded(Heard::Got(f, t)) == StepView::Finish(f),
        concluded(Heard::Failed(e, t)) == StepView::Finish(FinishView { out: None, error: Some(e) }),
        concluded(Heard::Asks(a)) == StepView::Ask(a),
        prints(f.out).out == f.out,
        prints(f.out).error is None,
{
}

} // verus!
