//! Personal access token resolution.
//!
//! The token is read into memory, sent as `X-API-Key`, and never printed.
//!
//! Three sources, in this order: `PLANE_API_KEY`, the `api_key` line of the
//! config file, then Proton Pass through `pass-cli`. The middle one is for a
//! machine with no Proton Pass session; pass-cli stays the better option
//! wherever it is set up, since it keeps the token off the disk entirely.

use crate::config;
use crate::config::{ConfigFile, Env, Key};
use crate::error;
use crate::error::Error;
use crate::script;
use crate::script::{Answer, AnswerView, Ask, AskView, Heard, Output, OutputView, Stop, Talk, TalkView};
use crate::text;
use crate::text::Text;
use vstd::prelude::*;

verus! {

broadcast use crate::text::lemma_texts_push;

/// The token that is known without asking `pass-cli`: the variable's, else the
/// file's.
pub open spec fn known(from_env: Option<Text>, from_file: Option<Text>) -> Option<Text> {
    match from_env {
        Some(key) => Some(key),
        None => from_file,
    }
}

fn first_known(from_env: Option<String>, from_file: Option<String>) -> (r: Option<String>)
    ensures
        text::text_option(r) == known(text::text_option(from_env), text::text_option(from_file)),
{
    match from_env {
        Some(key) => Some(key),
        None => from_file,
    }
}

/// The precedence rule itself, with the three sources injected. The third is
/// not consulted where a token is already known.
pub fn resolve(
    from_env: Option<String>,
    from_file: Option<String>,
    from_pass: impl FnOnce() -> Result<String, Error>,
) -> (r: Result<String, Error>)
    requires
        known(text::text_option(from_env), text::text_option(from_file)) is None ==> call_requires(
            from_pass,
            (),
        ),
    ensures
        match known(text::text_option(from_env), text::text_option(from_file)) {
            Some(key) => r is Ok && r->Ok_0@ == key,
            None => call_ensures(from_pass, (), r),
        },
{
    match first_known(from_env, from_file) {
        Some(key) => Ok(key),
        None => from_pass(),
    }
}

/// The variable, read before the file is touched so a one-off token works even
/// against a config file that fails to parse.
pub fn from_env(env: &Env) -> (r: Option<String>)
    ensures
        text::text_option(r) == config::spoken(config::variable(env@, "PLANE_API_KEY"@)),
{
    match env.var("PLANE_API_KEY") {
        Some(v) => {
            let key: &str = text::trim(v);
            if key.is_empty() {
                None
            } else {
                Some(key.to_string())
            }
        },
        None => None,
    }
}

/// The arguments that have `pass-cli` print one field of one entry.
pub open spec fn pass_args(vault: Text, item: Text, field: Text) -> Seq<Text> {
    seq![
        "item"@,
        "view"@,
        "--vault-name"@,
        vault,
        "--item-title"@,
        item,
        "--field"@,
        field,
    ]
}

fn pass_arguments(vault: &str, item: &str, field: &str) -> (r: Vec<String>)
    ensures
        text::texts(r@) == pass_args(vault@, item@, field@),
{
    let mut args: Vec<String> = Vec::new();
    assert(text::texts(args@) =~= Seq::empty());
    args.push("item".to_string());
    args.push("view".to_string());
    args.push("--vault-name".to_string());
    args.push(vault.to_string());
    args.push("--item-title".to_string());
    args.push(item.to_string());
    args.push("--field".to_string());
    args.push(field.to_string());
    assert(text::texts(args@) =~= pass_args(vault@, item@, field@));
    args
}

/// The token that `pass-cli` printed, or why there is none.
pub open spec fn printed_token(
    vault: Text,
    item: Text,
    field: Text,
    out: OutputView,
) -> Result<Text, Seq<Text>> {
    if !out.success {
        Err(
            seq![
                "pass-cli could not read "@ + item + "/"@ + field + " from vault \""@ + vault
                    + "\" ("@ + out.status + ").\n"@ + text::trimmed(out.stderr)
                    + "\nCheck the session with `pass-cli vault list`, point pass_vault / pass_item / pass_field at the right entry with `plane config set`, or store the token itself with `plane config set api_key <token>`."@,
            ],
        )
    } else if text::trimmed(out.stdout).len() == 0 {
        Err(
            seq![
                "pass-cli returned an empty "@ + field + " for "@ + item
                    + ". Set PLANE_API_KEY, run `plane config set api_key <token>`, or re-check the vault entry."@,
            ],
        )
    } else {
        Ok(text::trimmed(out.stdout))
    }
}

/// Reads what `pass-cli` printed.
pub fn read_output(vault: &str, item: &str, field: &str, out: &Output) -> (r: Result<String, Error>)
    ensures
        crate::names::text_result(r) == printed_token(vault@, item@, field@, out@),
{
    if !out.success {
        return Err(
            Error::new(
                "pass-cli could not read ".to_string().concat(item).concat("/").concat(
                    field,
                ).concat(" from vault \"").concat(vault).concat("\" (").concat(
                    out.status.as_str(),
                ).concat(").\n").concat(text::trim(out.stderr.as_str())).concat(
                    "\nCheck the session with `pass-cli vault list`, point pass_vault / pass_item / pass_field at the right entry with `plane config set`, or store the token itself with `plane config set api_key <token>`.",
                ),
            ),
        );
    }
    let key: &str = text::trim(out.stdout.as_str());
    if key.is_empty() {
        return Err(
            Error::new(
                "pass-cli returned an empty ".to_string().concat(field).concat(" for ").concat(
                    item,
                ).concat(
                    ". Set PLANE_API_KEY, run `plane config set api_key <token>`, or re-check the vault entry.",
                ),
            ),
        );
    }
    Ok(key.to_string())
}

/// Asks `pass-cli` for the token.
pub open spec fn asking_pass(vault: Text, item: Text, field: Text, t: TalkView) -> Heard<Text> {
    script::asked(t, AskView::PassCli(pass_args(vault, item, field))).context(
        "Failed to run `pass-cli`. Set PLANE_API_KEY, run `plane config set api_key <token>`, or install pass-cli in PATH."@,
    ).next(
        |answer: AnswerView, t: TalkView|
            match answer {
                AnswerView::Output(out) => script::ruled(
                    printed_token(vault, item, field, out),
                    t,
                ),
                _ => Heard::Failed(script::misfit(), t),
            },
    )
}

/// Resolves the token. `file` is what the config file came to.
pub open spec fn token(
    env: Seq<(Text, Text)>,
    file: Result<Map<Key, Text>, Seq<Text>>,
    t: TalkView,
) -> Heard<Text> {
    let from_file = match file {
        Ok(file) => config::stored(file, Key::ApiKey),
        Err(_) => None,
    };
    match known(config::spoken(config::variable(env, "PLANE_API_KEY"@)), from_file) {
        Some(key) => Heard::Got(key, t),
        None => match file {
            Err(e) => Heard::Failed(seq![error::whole(e)], t),
            Ok(file) => asking_pass(
                config::setting(Key::PassVault, file, env).value->0,
                config::setting(Key::PassItem, file, env).value->0,
                config::setting(Key::PassField, file, env).value->0,
                t,
            ),
        },
    }
}

/// Reads the token out of Proton Pass. Where in Proton Pass it lives is
/// configurable, because the entry a vault happens to use is per person.
fn from_pass_cli(env: &Env, file: &ConfigFile, talk: &mut Talk) -> (r: Result<String, Stop>)
    ensures
        script::heard_text(r, final(talk)@) == asking_pass(
            config::setting(Key::PassVault, file@, env@).value->0,
            config::setting(Key::PassItem, file@, env@).value->0,
            config::setting(Key::PassField, file@, env@).value->0,
            old(talk)@,
        ),
{
    let (vault, item, field) = config::pass_coords(file, env);
    let args = pass_arguments(vault.as_str(), item.as_str(), field.as_str());
    let answer = match talk.hear(Ask::PassCli(args)) {
        Ok(answer) => answer,
        Err(stop) => {
            return Err(
                stop.context(
                    "Failed to run `pass-cli`. Set PLANE_API_KEY, run `plane config set api_key <token>`, or install pass-cli in PATH.".to_string(),
                ),
            );
        },
    };
    match answer {
        Answer::Output(out) => script::rule(
            read_output(vault.as_str(), item.as_str(), field.as_str(), out),
        ),
        _ => Err(Stop::Fail(script::misfit_error())),
    }
}

/// Resolve the Plane PAT: `PLANE_API_KEY`, then the config file, then Proton
/// Pass. A config file that could not be read stands in the way of Proton Pass
/// alone, and what it failed with comes out as one message.
pub fn api_key(env: &Env, file: &Result<ConfigFile, Error>, talk: &mut Talk) -> (r: Result<
    String,
    Stop,
>)
    ensures
        script::heard_text(r, final(talk)@) == token(
            env@,
            crate::store::file_result(*file),
            old(talk)@,
        ),
{
    let from_file = match file {
        Ok(file) => config::stored_api_key(file),
        Err(_) => None,
    };
    match first_known(from_env(env), from_file) {
        Some(key) => Ok(key),
        None => match file {
            Ok(file) => from_pass_cli(env, file, talk),
            Err(e) => Err(Stop::Fail(Error::new(e.full()))),
        },
    }
}

/// A token in the environment is the token, whatever the config file came to,
/// and nothing is asked for it.
pub proof fn variable_beats_file_and_pass_cli(
    env: Seq<(Text, Text)>,
    file: Result<Map<Key, Text>, Seq<Text>>,
    t: TalkView,
)
    requires
        config::spoken(config::variable(env, "PLANE_API_KEY"@)) is Some,
    ensures
        token(env, file, t) == Heard::Got(
            config::spoken(config::variable(env, "PLANE_API_KEY"@))->0,
            t,
        ),
{
}

/// A token in the file is the token where the environment has none, and
/// `pass-cli` is not run.
pub proof fn file_beats_pass_cli(env: Seq<(Text, Text)>, file: Map<Key, Text>, t: TalkView)
    requires
        config::spoken(config::variable(env, "PLANE_API_KEY"@)) is None,
        config::stored(file, Key::ApiKey) is Some,
    ensures
        token(env, Ok(file), t) == Heard::Got(config::stored(file, Key::ApiKey)->0, t),
{
}

/// Where neither the environment nor the file has a token, `pass-cli` is asked for
/// the field of the entry of the vault that the settings name, and what it prints,
/// without white space around it, is the token.
pub proof fn pass_cli_is_asked_for_the_entry_of_the_settings(
    env: Seq<(Text, Text)>,
    file: Map<Key, Text>,
    t: TalkView,
    vault: Text,
    item: Text,
    field: Text,
)
    requires
        config::spoken(config::variable(env, "PLANE_API_KEY"@)) is None,
        config::stored(file, Key::ApiKey) is None,
        config::setting(Key::PassVault, file, env).value == Some(vault),
        config::setting(Key::PassItem, file, env).value == Some(item),
        config::setting(Key::PassField, file, env).value == Some(field),
    ensures
        t.at >= t.answers.len() ==> token(env, Ok(file), t) == Heard::<Text>::Asks(
            AskView::PassCli(
                seq![
                    "item"@,
                    "view"@,
                    "--vault-name"@,
                    vault,
                    "--item-title"@,
                    item,
                    "--field"@,
                    field,
                ],
            ),
        ),
        t.at < t.answers.len() ==> match t.answers[t.at as int] {
            AnswerView::Output(out) => if out.success && text::trimmed(out.stdout).len() > 0 {
                token(env, Ok(file), t) == Heard::Got(text::trimmed(out.stdout), t.further())
            } else {
                token(env, Ok(file), t) is Failed
            },
            _ => token(env, Ok(file), t) is Failed,
        },
{
}

/// Where `pass-cli` fails, the failure says which entry of which vault was asked
/// for, how it ended and what it complained of.
pub proof fn a_failure_of_pass_cli_says_what_was_asked(
    vault: Text,
    item: Text,
    field: Text,
    out: OutputView,
)
    requires
        !out.success,
    ensures
        printed_token(vault, item, field, out) matches Err(e) && e.len() == 1 && text::starts(
            e[0],
            "pass-cli could not read "@ + item + "/"@ + field + " from vault \""@ + vault + "\" ("@
                + out.status + ").\n"@ + text::trimmed(out.stderr),
        ),
{
    let said = "pass-cli could not read "@ + item + "/"@ + field + " from vault \""@ + vault
        + "\" ("@ + out.status + ").\n"@ + text::trimmed(out.stderr);
    let whole = printed_token(vault, item, field, out)->Err_0[0];
    assert(whole.subrange(0, said.len() as int) =~= said);
}

/// A config file that could not be read keeps `pass-cli` from being asked, and
/// what was wrong with it is said; a token in the environment does without it.
pub proof fn an_unreadable_file_is_reported(
    env: Seq<(Text, Text)>,
    e: Seq<Text>,
    t: TalkView,
    i: int,
)
    requires
        config::spoken(config::variable(env, "PLANE_API_KEY"@)) is None,
        0 <= i < e.len(),
    ensures
        token(env, Err(e), t) matches Heard::Failed(said, end) && end == t && said.len() == 1
            && text::occurs(said[0], e[i]),
{
    text::joining_keeps_each_piece(e, ": "@, i);
}

/// A `pass-cli` that could not be run is said to be it, in front of what was wrong;
/// one that printed nothing is told from one that failed.
pub proof fn a_pass_cli_that_did_not_run_is_named(
    vault: Text,
    item: Text,
    field: Text,
    t: TalkView,
    e: Seq<Text>,
    out: OutputView,
)
    ensures
        t.at < t.answers.len() && t.answers[t.at as int] == AnswerView::Failed(e) ==> (asking_pass(
            vault,
            item,
            field,
            t,
        ) matches Heard::Failed(said, end) && end == t.further() && said.len() == e.len() + 1
            && said.skip(1) == e && text::starts(said[0], "Failed to run `pass-cli`."@)),
        out.success && text::trimmed(out.stdout).len() == 0 ==> (printed_token(
            vault,
            item,
            field,
            out,
        ) matches Err(said) && said.len() == 1 && text::starts(
            said[0],
            "pass-cli returned an empty "@ + field + " for "@ + item,
        )),
{
    reveal_strlit("Failed to run `pass-cli`.");
    reveal_strlit(
        "Failed to run `pass-cli`. Set PLANE_API_KEY, run `plane config set api_key <token>`, or install pass-cli in PATH.",
    );
    let whole =
        "Failed to run `pass-cli`. Set PLANE_API_KEY, run `plane config set api_key <token>`, or install pass-cli in PATH."@;
    assert(whole.subrange(0, "Failed to run `pass-cli`."@.len() as int)
        =~= "Failed to run `pass-cli`."@);
    if let Heard::Failed(said, _) = asking_pass(vault, item, field, t) {
        assert((seq![whole] + e).skip(1) =~= e);
    }
    if out.success && text::trimmed(out.stdout).len() == 0 {
        let front = "pass-cli returned an empty "@ + field + " for "@ + item;
        let said = printed_token(vault, item, field, out)->Err_0[0];
        assert(said.subrange(0, front.len() as int) =~= front);
    }
}

} // verus!
