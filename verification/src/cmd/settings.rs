//! The configuration commands.

use crate::cmd::common;
use crate::config;
use crate::config::{ConfigFile, Key, Resolved, ResolvedView, Source};
use crate::json;
use crate::json::{Json, JsonView};
use crate::output;
use crate::script;
use crate::script::{Answer, AskView, Finish, FinishView, Heard, Step, Stop, Talk, TalkView};
use crate::store;
use crate::store::{World, WorldView};
use crate::text;
use crate::text::Text;
use vstd::prelude::*;

verus! {

// ---- set ----

/// A value as it may be printed back: a token never is.
pub open spec fn shown_value(key: Key, file: Map<Key, Text>) -> Text {
    if key == Key::ApiKey {
        config::MASK@
    } else {
        match config::stored(file, key) {
            Some(v) => v,
            None => Seq::empty(),
        }
    }
}

/// What `--json` prints about a setting that was stored.
pub open spec fn set_value(path: Text, key: Key, shown: Text, shadowed: bool) -> JsonView {
    JsonView::Object(
        seq![
            ("path"@, JsonView::Text(path)),
            ("key"@, JsonView::Text(config::name_of(key))),
            (
                "value"@,
                if key == Key::ApiKey {
                    JsonView::Null
                } else {
                    JsonView::Text(shown)
                },
            ),
            ("secret"@, JsonView::Bool(key == Key::ApiKey)),
            ("shadowed_by_env"@, JsonView::Bool(shadowed)),
        ],
    )
}

/// What is printed about a setting that was stored. A variable shadowing it is
/// the one way this can look like it did nothing, so that is said.
pub open spec fn set_text(path: Text, key: Key, shown: Text, shadowed: bool) -> Text {
    config::name_of(key) + " = "@ + shown + "  ->  "@ + path + (if key == Key::ApiKey {
        "\nnote: stored in plaintext, in a file only this account can read (0600). Where a Proton Pass session exists, pass-cli keeps the token off the disk instead."@
    } else {
        Seq::empty()
    }) + (if shadowed {
        "\nnote: "@ + config::env_of(key) + " is set in this environment and overrides the file."@
    } else {
        Seq::empty()
    })
}

/// What is printed once a setting is stored.
pub open spec fn set_end(
    path: Text,
    key: Key,
    file: Map<Key, Text>,
    env: Seq<(Text, Text)>,
    as_json: bool,
) -> FinishView {
    let shown = shown_value(key, file);
    let shadowed = config::setting(key, file, env).source == Source::Env;
    script::prints(
        output::emitted(
            set_value(path, key, shown, shadowed),
            as_json,
            set_text(path, key, shown, shadowed),
        ),
    )
}

/// Stores a setting.
pub open spec fn setting_one(
    key: Text,
    value: Text,
    as_json: bool,
    world: WorldView,
    t: TalkView,
) -> Heard<FinishView> {
    match config::parsed(key) {
        Err(e) => Heard::Failed(e, t),
        Ok(key) => store::loading(world, t).next(
            |file: Map<Key, Text>, t: TalkView|
                {
                    let settled = config::settled(key, value);
                    if settled.len() == 0 {
                        Heard::Failed(seq![config::empty_refusal(key)], t)
                    } else {
                        let now = file.insert(key, settled);
                        store::saving(world, now, t).next(
                            |u: (), t: TalkView|
                                match store::place_of(world) {
                                    Err(e) => Heard::Failed(e, t),
                                    Ok(place) => Heard::Got(
                                        set_end(place.file(), key, now, world.env, as_json),
                                        t,
                                    ),
                                },
                        )
                    }
                },
        ),
    }
}

fn end_set(path: &str, key: Key, file: &ConfigFile, world: &World, as_json: bool) -> (r: Finish)
    ensures
        r@ == set_end(path@, key, file@, world@.env, as_json),
{
    let shadowed: bool = config::resolve(key, file, &world.env).source == Source::Env;
    let shown: String = if key.is_secret() {
        config::MASK.to_string()
    } else {
        match file.get(key) {
            Some(v) => v.to_string(),
            None => String::new(),
        }
    };
    let mut fields = json::Fields::new();
    fields.put_text("path", path);
    fields.put_text("key", key.name());
    let value: Json = if key.is_secret() {
        Json::Null
    } else {
        Json::Text(shown.clone())
    };
    fields.put("value", value);
    fields.put("secret", Json::Bool(key.is_secret()));
    fields.put("shadowed_by_env", Json::Bool(shadowed));
    assert(fields@ =~= set_value(path@, key, shown@, shadowed)->Object_0);
    let secret_note: String = if key.is_secret() {
        "\nnote: stored in plaintext, in a file only this account can read (0600). Where a Proton Pass session exists, pass-cli keeps the token off the disk instead.".to_string()
    } else {
        String::new()
    };
    let shadow_note: String = if shadowed {
        "\nnote: ".to_string().concat(key.env()).concat(
            " is set in this environment and overrides the file.",
        )
    } else {
        String::new()
    };
    let line = key.name().to_string().concat(" = ").concat(shown.as_str()).concat("  ->  ").concat(
        path,
    ).concat(secret_note.as_str()).concat(shadow_note.as_str());
    common::printed(output::emit(&fields.object(), as_json, line))
}

fn set(key: &str, value: &str, as_json: bool, world: &World, talk: &mut Talk) -> (r: Result<
    Finish,
    Stop,
>)
    ensures
        script::heard_finish(r, final(talk)@) == setting_one(
            key@,
            value@,
            as_json,
            world@,
            old(talk)@,
        ),
{
    let key = script::rule(Key::parse(key))?;
    let mut file = ConfigFile::load(world, talk)?;
    script::rule(file.set(key, value))?;
    file.save(world, talk)?;
    let place = script::rule(store::path(world))?;
    Ok(end_set(place.file().as_str(), key, &file, world, as_json))
}

/// Store a setting in the config file.
pub fn config_set(
    key: &str,
    value: &str,
    as_json: bool,
    world: &World,
    answers: &Vec<Answer>,
) -> (r: Step)
    ensures
        r@ == script::concluded(
            setting_one(
                key@,
                value@,
                as_json,
                world@,
                script::opening(script::answers_of(answers@)),
            ),
        ),
{
    let mut talk = Talk::new(answers);
    let r = set(key, value, as_json, world, &mut talk);
    assert(script::heard_finish(r, talk@) == setting_one(
        key@,
        value@,
        as_json,
        world@,
        script::opening(script::answers_of(answers@)),
    ));
    script::conclude(r)
}

// ---- unset ----

/// What `--json` prints about a setting that was removed.
pub open spec fn unset_value(path: Text, key: Key, removed: bool) -> JsonView {
    JsonView::Object(
        seq![
            ("path"@, JsonView::Text(path)),
            ("key"@, JsonView::Text(config::name_of(key))),
            ("removed"@, JsonView::Bool(removed)),
        ],
    )
}

/// What is printed about a setting that was removed, or was not there.
pub open spec fn unset_text(path: Text, key: Key, removed: bool) -> Text {
    if removed {
        config::name_of(key) + " removed from "@ + path
    } else {
        config::name_of(key) + " was not set in "@ + path
    }
}

/// Removes a setting. A file that does not store it is left alone.
pub open spec fn unsetting(key: Text, as_json: bool, world: WorldView, t: TalkView) -> Heard<
    FinishView,
> {
    match config::parsed(key) {
        Err(e) => Heard::Failed(e, t),
        Ok(key) => store::loading(world, t).next(
            |file: Map<Key, Text>, t: TalkView|
                {
                    let removed = file.contains_key(key);
                    let saved = if removed {
                        store::saving(world, file.remove(key), t)
                    } else {
                        Heard::Got((), t)
                    };
                    saved.next(
                        |u: (), t: TalkView|
                            match store::place_of(world) {
                                Err(e) => Heard::Failed(e, t),
                                Ok(place) => Heard::Got(
                                    script::prints(
                                        output::emitted(
                                            unset_value(place.file(), key, removed),
                                            as_json,
                                            unset_text(place.file(), key, removed),
                                        ),
                                    ),
                                    t,
                                ),
                            },
                    )
                },
        ),
    }
}

fn unset(key: &str, as_json: bool, world: &World, talk: &mut Talk) -> (r: Result<Finish, Stop>)
    ensures
        script::heard_finish(r, final(talk)@) == unsetting(key@, as_json, world@, old(talk)@),
{
    let key = script::rule(Key::parse(key))?;
    let mut file = ConfigFile::load(world, talk)?;
    let removed: bool = file.unset(key);
    if removed {
        file.save(world, talk)?;
    }
    let place = script::rule(store::path(world))?;
    let path = place.file();
    let mut fields = json::Fields::new();
    fields.put_text("path", path.as_str());
    fields.put_text("key", key.name());
    fields.put("removed", Json::Bool(removed));
    assert(fields@ =~= unset_value(path@, key, removed)->Object_0);
    let line: String = if removed {
        key.name().to_string().concat(" removed from ").concat(path.as_str())
    } else {
        key.name().to_string().concat(" was not set in ").concat(path.as_str())
    };
    Ok(common::printed(output::emit(&fields.object(), as_json, line)))
}

/// Remove a setting from the config file.
pub fn config_unset(key: &str, as_json: bool, world: &World, answers: &Vec<Answer>) -> (r: Step)
    ensures
        r@ == script::concluded(
            unsetting(key@, as_json, world@, script::opening(script::answers_of(answers@))),
        ),
{
    let mut talk = Talk::new(answers);
    let r = unset(key, as_json, world, &mut talk);
    assert(script::heard_finish(r, talk@) == unsetting(
        key@,
        as_json,
        world@,
        script::opening(script::answers_of(answers@)),
    ));
    script::conclude(r)
}

// ---- show ----

/// What `--json` prints about one setting. For the token there is a flag rather
/// than a value: a consumer reads whether there is one, never a value it could
/// send anywhere.
pub open spec fn row_value(row: ResolvedView) -> JsonView {
    let source = ("source"@, JsonView::Text(config::label_of(row.source)));
    if row.key == Key::ApiKey {
        JsonView::Object(
            seq![
                ("value"@, JsonView::Null),
                ("set"@, JsonView::Bool(row.value is Some)),
                source,
            ],
        )
    } else {
        JsonView::Object(
            seq![
                (
                    "value"@,
                    match row.value {
                        Some(v) => JsonView::Text(v),
                        None => JsonView::Null,
                    },
                ),
                source,
            ],
        )
    }
}

/// Whether some row says that there is a token.
pub open spec fn token_set(rows: Seq<ResolvedView>) -> bool {
    exists|i: int|
        0 <= i < rows.len() && (#[trigger] rows[i]).key == Key::ApiKey && rows[i].value is Some
}

/// What `--json` prints about the settings.
pub open spec fn show_value(path: Text, exists: bool, rows: Seq<ResolvedView>) -> JsonView {
    JsonView::Object(
        seq![
            ("path"@, JsonView::Text(path)),
            ("exists"@, JsonView::Bool(exists)),
            ("api_key_set"@, JsonView::Bool(token_set(rows))),
            (
                "settings"@,
                JsonView::Object(
                    rows.map_values(
                        |row: ResolvedView| (config::name_of(row.key), row_value(row)),
                    ),
                ),
            ),
        ],
    )
}

fn row_json(row: &Resolved) -> (r: Json)
    ensures
        r@ == row_value(row@),
{
    let mut fields = json::Fields::new();
    if row.key.is_secret() {
        fields.put("value", Json::Null);
        fields.put("set", Json::Bool(row.value.is_some()));
    } else {
        let value: Json = match &row.value {
            Some(v) => Json::Text(v.clone()),
            None => Json::Null,
        };
        fields.put("value", value);
    }
    fields.put_text("source", row.source.label());
    assert(fields@ =~= row_value(row@)->Object_0);
    fields.object()
}

/// The `--json` view of the settings.
///
/// `rows` comes from [`config::effective`], which has already replaced a stored
/// token with the mask, so neither view can print one.
pub fn config_show_json(path: &str, exists: bool, rows: &Vec<Resolved>) -> (r: Json)
    ensures
        r@ == show_value(path@, exists, config::rows_of(rows@)),
{
    let ghost views = config::rows_of(rows@);
    let mut settings = json::Fields::new();
    let mut token: bool = false;
    let mut i: usize = 0;
    while i < rows.len()
        invariant
            i <= rows@.len(),
            views == config::rows_of(rows@),
            settings@.len() == i,
            forall|j: int|
                0 <= j < i ==> #[trigger] settings@[j] == (
                    config::name_of(rows@[j]@.key),
                    row_value(rows@[j]@),
                ),
            token == exists|j: int|
                0 <= j < i && (#[trigger] views[j]).key == Key::ApiKey && views[j].value is Some,
        decreases rows@.len() - i,
    {
        let row = &rows[i];
        assert(views[i as int] == row@);
        settings.put(row.key.name(), row_json(row));
        if row.key.is_secret() && row.value.is_some() {
            token = true;
        }
        i += 1;
    }
    assert(settings@ =~= views.map_values(
        |row: ResolvedView| (config::name_of(row.key), row_value(row)),
    ));
    let mut fields = json::Fields::new();
    fields.put_text("path", path);
    fields.put("exists", Json::Bool(exists));
    fields.put("api_key_set", Json::Bool(token));
    fields.put("settings", settings.object());
    assert(fields@ =~= show_value(path@, exists, views)->Object_0);
    fields.object()
}

/// Shows the settings.
pub open spec fn showing(as_json: bool, world: WorldView, t: TalkView) -> Heard<FinishView> {
    store::fetching(world, t).next(
        |contents: Option<Text>, t: TalkView|
            match store::place_of(world) {
                Err(e) => Heard::Failed(e, t),
                Ok(place) => store::loaded(place.file(), contents, t).next(
                    |file: Map<Key, Text>, t: TalkView|
                        {
                            let rows = config::effective_rows(file, world.env);
                            Heard::Got(
                                script::prints(
                                    output::emitted(
                                        show_value(place.file(), contents is Some, rows),
                                        as_json,
                                        output::settings_table(
                                            place.file(),
                                            contents is Some,
                                            rows,
                                        ),
                                    ),
                                ),
                                t,
                            )
                        },
                ),
            },
    )
}

fn show(as_json: bool, world: &World, talk: &mut Talk) -> (r: Result<Finish, Stop>)
    ensures
        script::heard_finish(r, final(talk)@) == showing(as_json, world@, old(talk)@),
{
    let contents = store::fetch(world, talk)?;
    let place = script::rule(store::path(world))?;
    let path = place.file();
    let raw: Option<&str> = match &contents {
        Some(raw) => Some(raw.as_str()),
        None => None,
    };
    let file = ConfigFile::load_from(path.as_str(), raw, talk)?;
    let exists: bool = contents.is_some();
    let rows = config::effective(&file, &world.env);
    let value = config_show_json(path.as_str(), exists, &rows);
    let shown = output::config_show(path.as_str(), exists, &rows);
    Ok(common::printed(output::emit(&value, as_json, shown)))
}

/// Show the effective value of every setting next to the source it came from.
pub fn config_show(as_json: bool, world: &World, answers: &Vec<Answer>) -> (r: Step)
    ensures
        r@ == script::concluded(
            showing(as_json, world@, script::opening(script::answers_of(answers@))),
        ),
{
    let mut talk = Talk::new(answers);
    let r = show(as_json, world, &mut talk);
    assert(script::heard_finish(r, talk@) == showing(
        as_json,
        world@,
        script::opening(script::answers_of(answers@)),
    ));
    script::conclude(r)
}

// ---- path ----

/// What `--json` prints about the place of the config file.
pub open spec fn path_value(path: Text) -> JsonView {
    JsonView::Object(seq![("path"@, JsonView::Text(path))])
}

/// Says where the config file is.
pub open spec fn path_step(as_json: bool, world: WorldView) -> FinishView {
    match store::place_of(world) {
        Err(e) => FinishView { out: None, error: Some(e) },
        Ok(place) => script::prints(
            output::emitted(path_value(place.file()), as_json, place.file()),
        ),
    }
}

/// Print the path of the config file.
pub fn config_path(as_json: bool, world: &World) -> (r: Finish)
    ensures
        r@ == path_step(as_json, world@),
{
    match store::path(world) {
        Err(e) => Finish { out: None, error: Some(e) },
        Ok(place) => {
            let path = place.file();
            let mut fields = json::Fields::new();
            fields.put_text("path", path.as_str());
            assert(fields@ =~= path_value(path@)->Object_0);
            common::printed(output::emit(&fields.object(), as_json, path))
        },
    }
}

// ---- laws ----

/// What is printed once a token is stored is the same for any two tokens.
pub proof fn a_stored_token_is_not_printed(
    path: Text,
    file: Map<Key, Text>,
    env: Seq<(Text, Text)>,
    as_json: bool,
    one: Text,
    another: Text,
)
    requires
        text::trimmed(one).len() > 0,
        text::trimmed(another).len() > 0,
    ensures
        set_end(path, Key::ApiKey, file.insert(Key::ApiKey, one), env, as_json) == set_end(
            path,
            Key::ApiKey,
            file.insert(Key::ApiKey, another),
            env,
            as_json,
        ),
{
}

/// What is shown of the settings, in either view, is the same for any two stored
/// tokens.
pub proof fn a_token_is_not_shown(
    path: Text,
    exists: bool,
    file: Map<Key, Text>,
    env: Seq<(Text, Text)>,
    one: Text,
    another: Text,
)
    requires
        text::trimmed(one).len() > 0,
        text::trimmed(another).len() > 0,
    ensures
        ({
            let rows = config::effective_rows(file.insert(Key::ApiKey, one), env);
            let others = config::effective_rows(file.insert(Key::ApiKey, another), env);
            &&& output::settings_table(path, exists, rows) == output::settings_table(
                path,
                exists,
                others,
            )
            &&& show_value(path, exists, rows) == show_value(path, exists, others)
        }),
{
    config::rows_do_not_depend_on_the_token(file, env, one, another);
}

/// Setting a value saves the file that was there with that one setting changed, and
/// reports it only once it is saved. A value with nothing in it is refused before
/// anything is written.
pub proof fn a_setting_is_stored_and_then_reported(
    key: Text,
    value: Text,
    as_json: bool,
    world: WorldView,
    t: TalkView,
    k: Key,
    file: Map<Key, Text>,
    t1: TalkView,
    place: store::PlaceView,
    raw: Text,
    name: Text,
)
    requires
        config::parsed(key) == Ok::<Key, Seq<Text>>(k),
        store::loading(world, t) == Heard::Got(file, t1),
        store::place_of(world) == Ok::<store::PlaceView, Seq<Text>>(place),
        name == ".config.toml."@ + text::decimal(world.pid as nat) + ".tmp"@,
    ensures
        config::settled(k, value).len() == 0 ==> setting_one(key, value, as_json, world, t)
            is Failed,
        config::settled(k, value).len() > 0 && store::saved(
            file.insert(k, config::settled(k, value)),
        ) == Ok::<Text, Seq<Text>>(raw) ==> {
            &&& t1.at >= t1.answers.len() ==> setting_one(key, value, as_json, world, t) == Heard::<
                FinishView,
            >::Asks(AskView::CreateConfigDir)
            &&& store::is_done(t1, 0) && t1.at + 1 >= t1.answers.len() ==> setting_one(
                key,
                value,
                as_json,
                world,
                t,
            ) == Heard::<FinishView>::Asks(AskView::WriteScratch(name, raw))
            &&& store::is_done(t1, 0) && store::is_done(t1, 1) && t1.at + 2 >= t1.answers.len()
                ==> setting_one(key, value, as_json, world, t) == Heard::<FinishView>::Asks(
                AskView::RenameScratch(name),
            )
            &&& store::is_done(t1, 0) && store::is_done(t1, 1) && store::is_done(t1, 2)
                ==> setting_one(key, value, as_json, world, t) == Heard::Got(
                set_end(
                    place.dir + "/config.toml"@,
                    k,
                    file.insert(k, config::settled(k, value)),
                    world.env,
                    as_json,
                ),
                t1.further().further().further(),
            )
            &&& store::has_failed(t1, 0) || (store::is_done(t1, 0) && store::has_failed(t1, 1)) || (
            store::is_done(t1, 0) && store::is_done(t1, 1) && store::has_failed(t1, 2))
                ==> setting_one(key, value, as_json, world, t) !is Got
        },
{
    let now = file.insert(k, config::settled(k, value));
    if store::saved(now) == Ok::<Text, Seq<Text>>(raw) {
        store::a_file_is_saved_in_three_steps(world, now, t1, raw, name);
    }
}

/// What is reported of a setting that was stored: its name, its value, the file,
/// and the variable that overrides it where one does. Of a token no value is said.
pub proof fn a_report_says_what_was_stored(
    path: Text,
    key: Key,
    file: Map<Key, Text>,
    env: Seq<(Text, Text)>,
    value: Text,
    shadowed: bool,
)
    requires
        key == Key::ApiKey ==> value == "(set)"@,
        key != Key::ApiKey ==> config::stored(file, key) == Some(value),
        shadowed == (config::spoken(config::variable(env, config::env_of(key))) is Some),
    ensures
        set_end(path, key, file, env, false) matches FinishView { out: Some(out), error: None }
            && text::starts(out, config::name_of(key) + " = "@ + value + "  ->  "@ + path) && (
        shadowed ==> text::occurs(
            out,
            "note: "@ + config::env_of(key) + " is set in this environment and overrides the file."@,
        )) && (!shadowed && key != Key::ApiKey ==> out == config::name_of(key) + " = "@ + value
            + "  ->  "@ + path) && (key == Key::ApiKey ==> text::occurs(
            out,
            "note: stored in plaintext"@,
        )),
        exists|v: JsonView|
            {
                &&& set_end(path, key, file, env, true) == (FinishView {
                    out: Some(#[trigger] json::json_pretty(v)),
                    error: None,
                })
                &&& v.member("path"@) == Some(JsonView::Text(path))
                &&& v.member("key"@) == Some(JsonView::Text(config::name_of(key)))
                &&& v.member("value"@) == Some(
                    if key == Key::ApiKey {
                        JsonView::Null
                    } else {
                        JsonView::Text(value)
                    },
                )
                &&& v.member("secret"@) == Some(JsonView::Bool(key == Key::ApiKey))
                &&& v.member("shadowed_by_env"@) == Some(JsonView::Bool(shadowed))
            },
{
    let line = config::name_of(key) + " = "@ + value + "  ->  "@ + path;
    let out = set_text(path, key, value, shadowed);
    reveal_strlit(" = ");
    assert(out.len() > 0);
    assert(out.subrange(0, line.len() as int) =~= line);
    if !shadowed && key != Key::ApiKey {
        assert(out =~= line);
    }
    if shadowed {
        let note = "note: "@ + config::env_of(key)
            + " is set in this environment and overrides the file."@;
        reveal_strlit("note: ");
        reveal_strlit("\nnote: ");
        let at = out.len() - note.len();
        assert(out.subrange(at, at + note.len()) =~= note);
        assert(text::occurs_at(out, note, at));
    }
    if key == Key::ApiKey {
        let note = "note: stored in plaintext"@;
        reveal_strlit("note: stored in plaintext");
        reveal_strlit(
            "\nnote: stored in plaintext, in a file only this account can read (0600). Where a Proton Pass session exists, pass-cli keeps the token off the disk instead.",
        );
        let at = line.len() as int + 1;
        assert(out.subrange(at, at + note.len()) =~= note);
        assert(text::occurs_at(out, note, at));
    }
    lemma_set_members(path, key, value, shadowed);
    let v = set_value(path, key, value, shadowed);
    assert(set_end(path, key, file, env, true) == (FinishView {
        out: Some(json::json_pretty(v)),
        error: None,
    }));
}

proof fn lemma_set_members(path: Text, key: Key, shown: Text, shadowed: bool)
    ensures
        ({
            let v = set_value(path, key, shown, shadowed);
            &&& v.member("path"@) == Some(JsonView::Text(path))
            &&& v.member("key"@) == Some(JsonView::Text(config::name_of(key)))
            &&& v.member("value"@) == Some(
                if key == Key::ApiKey {
                    JsonView::Null
                } else {
                    JsonView::Text(shown)
                },
            )
            &&& v.member("secret"@) == Some(JsonView::Bool(key == Key::ApiKey))
            &&& v.member("shadowed_by_env"@) == Some(JsonView::Bool(shadowed))
        }),
{
    reveal_strlit("path");
    reveal_strlit("key");
    reveal_strlit("value");
    reveal_strlit("secret");
    reveal_strlit("shadowed_by_env");
    assert("path"@.len() == 4 && "key"@.len() == 3 && "value"@.len() == 5);
    assert("secret"@.len() == 6 && "shadowed_by_env"@.len() == 15);
    reveal_with_fuel(json::entry_named, 6);
}

/// Removing a setting saves the file that was there without it; a file that does
/// not have it is not written, and the command says that it was not set.
pub proof fn a_setting_is_removed_and_then_reported(
    key: Text,
    as_json: bool,
    world: WorldView,
    t: TalkView,
    k: Key,
    file: Map<Key, Text>,
    t1: TalkView,
    place: store::PlaceView,
    raw: Text,
    name: Text,
)
    requires
        config::parsed(key) == Ok::<Key, Seq<Text>>(k),
        store::loading(world, t) == Heard::Got(file, t1),
        store::place_of(world) == Ok::<store::PlaceView, Seq<Text>>(place),
        name == ".config.toml."@ + text::decimal(world.pid as nat) + ".tmp"@,
    ensures
        !file.contains_key(k) ==> unsetting(key, as_json, world, t) == Heard::Got(
            script::prints(
                output::emitted(
                    JsonView::Object(
                        seq![
                            ("path"@, JsonView::Text(place.dir + "/config.toml"@)),
                            ("key"@, JsonView::Text(config::name_of(k))),
                            ("removed"@, JsonView::Bool(false)),
                        ],
                    ),
                    as_json,
                    config::name_of(k) + " was not set in "@ + (place.dir + "/config.toml"@),
                ),
            ),
            t1,
        ),
        file.contains_key(k) && store::saved(file.remove(k)) == Ok::<Text, Seq<Text>>(raw) ==> {
            &&& t1.at >= t1.answers.len() ==> unsetting(key, as_json, world, t) == Heard::<
                FinishView,
            >::Asks(AskView::CreateConfigDir)
            &&& store::is_done(t1, 0) && t1.at + 1 >= t1.answers.len() ==> unsetting(
                key,
                as_json,
                world,
                t,
            ) == Heard::<FinishView>::Asks(AskView::WriteScratch(name, raw))
            &&& store::is_done(t1, 0) && store::is_done(t1, 1) && t1.at + 2 >= t1.answers.len()
                ==> unsetting(key, as_json, world, t) == Heard::<FinishView>::Asks(
                AskView::RenameScratch(name),
            )
            &&& store::is_done(t1, 0) && store::is_done(t1, 1) && store::is_done(t1, 2)
                ==> unsetting(key, as_json, world, t) == Heard::Got(
                script::prints(
                    output::emitted(
                        JsonView::Object(
                            seq![
                                ("path"@, JsonView::Text(place.dir + "/config.toml"@)),
                                ("key"@, JsonView::Text(config::name_of(k))),
                                ("removed"@, JsonView::Bool(true)),
                            ],
                        ),
                        as_json,
                        config::name_of(k) + " removed from "@ + (place.dir + "/config.toml"@),
                    ),
                ),
                t1.further().further().further(),
            )
        },
{
    let now = file.remove(k);
    if store::saved(now) == Ok::<Text, Seq<Text>>(raw) {
        store::a_file_is_saved_in_three_steps(world, now, t1, raw, name);
    }
}

/// A key that is not there is refused before anything is read or written.
pub proof fn an_unknown_key_is_refused_at_once(
    key: Text,
    value: Text,
    as_json: bool,
    world: WorldView,
    t: TalkView,
)
    requires
        config::key_named(config::canonical(key)) is None,
    ensures
        setting_one(key, value, as_json, world, t) == Heard::<FinishView>::Failed(
            seq![config::refusal(key)],
            t,
        ),
        unsetting(key, as_json, world, t) == Heard::<FinishView>::Failed(
            seq![config::refusal(key)],
            t,
        ),
{
}

/// Showing the settings reads the file and shows the rows of what is in effect.
pub proof fn the_settings_in_effect_are_shown(
    as_json: bool,
    world: WorldView,
    t: TalkView,
    contents: Option<Text>,
    t1: TalkView,
    place: store::PlaceView,
    file: Map<Key, Text>,
    t2: TalkView,
)
    requires
        store::fetching(world, t) == Heard::Got(contents, t1),
        store::place_of(world) == Ok::<store::PlaceView, Seq<Text>>(place),
        store::loaded(place.file(), contents, t1) == Heard::Got(file, t2),
    ensures
        showing(as_json, world, t) == Heard::Got(
            script::prints(
                output::emitted(
                    show_value(
                        place.dir + "/config.toml"@,
                        contents is Some,
                        config::effective_rows(file, world.env),
                    ),
                    as_json,
                    output::settings_table(
                        place.dir + "/config.toml"@,
                        contents is Some,
                        config::effective_rows(file, world.env),
                    ),
                ),
            ),
            t2,
        ),
        path_step(true, world) == (FinishView {
            out: Some(
                json::json_pretty(
                    JsonView::Object(
                        seq![("path"@, JsonView::Text(place.dir + "/config.toml"@))],
                    ),
                ),
            ),
            error: None,
        }),
        path_step(false, world) == (FinishView {
            out: Some(place.dir + "/config.toml"@),
            error: None,
        }),
{
    reveal_strlit("/config.toml");
}

/// Under `--json`, each setting stands under its own name, with its value and where
/// that came from; for the token there is a flag and no value.
pub proof fn each_setting_is_shown_under_its_name(
    path: Text,
    exists: bool,
    file: Map<Key, Text>,
    env: Seq<(Text, Text)>,
    key: Key,
)
    ensures
        ({
            let v = show_value(path, exists, config::effective_rows(file, env));
            &&& v.member("path"@) == Some(JsonView::Text(path))
            &&& v.member("exists"@) == Some(JsonView::Bool(exists))
            &&& v.member("api_key_set"@) == Some(
                JsonView::Bool(config::setting(Key::ApiKey, file, env).value is Some),
            )
            &&& v.member("settings"@) matches Some(settings)
            &&& settings.member(config::name_of(key)) matches Some(row)
            &&& row.member("source"@) == Some(
                JsonView::Text(
                    match config::setting(key, file, env).source {
                        Source::Env => "env"@,
                        Source::File => "file"@,
                        Source::Default => "default"@,
                    },
                ),
            )
            &&& key == Key::ApiKey ==> row.member("value"@) == Some(JsonView::Null) && row.member(
                "set"@,
            ) == Some(JsonView::Bool(config::setting(key, file, env).value is Some))
            &&& key != Key::ApiKey ==> row.member("value"@) == Some(
                match config::setting(key, file, env).value {
                    Some(value) => JsonView::Text(value),
                    None => JsonView::Null,
                },
            )
        }),
{
    let rows = config::effective_rows(file, env);
    config::every_setting_has_a_row(file, env, Key::ApiKey);
    config::every_setting_has_a_row(file, env, key);
    let t = choose|i: int|
        0 <= i < 7 && (#[trigger] rows[i]).key == Key::ApiKey && (rows[i].value is Some
            <==> config::setting(Key::ApiKey, file, env).value is Some);
    assert(token_set(rows) == (rows[t].value is Some)) by {
        if token_set(rows) {
            let j = choose|j: int|
                0 <= j < rows.len() && (#[trigger] rows[j]).key == Key::ApiKey && rows[j].value
                    is Some;
            assert(j == t);
        }
    }
    let i = choose|i: int|
        0 <= i < 7 && (#[trigger] rows[i]).key == key && rows[i].source == config::setting(
            key,
            file,
            env,
        ).source && (key != Key::ApiKey ==> rows[i].value == config::setting(key, file, env).value)
            && (rows[i].value is Some <==> config::setting(key, file, env).value is Some);
    lemma_show_members(path, exists, rows);
    let named = rows.map_values(
        |row: ResolvedView| (config::name_of(row.key), row_value(row)),
    );
    assert forall|j: int| 0 <= j < i implies (#[trigger] named[j]).0 != config::name_of(key) by {
        assert(rows[j].key != rows[i].key);
        store::lemma_names();
    }
    lemma_first_entry(named, config::name_of(key), i);
    lemma_row_members(rows[i]);
}

proof fn lemma_first_entry(entries: Seq<(Text, JsonView)>, name: Text, i: int)
    requires
        0 <= i < entries.len(),
        entries[i].0 == name,
        forall|j: int| 0 <= j < i ==> (#[trigger] entries[j]).0 != name,
    ensures
        json::entry_named(entries, name) == Some(entries[i].1),
    decreases i,
{
    if i > 0 {
        let rest = entries.drop_first();
        assert(entries[0].0 != name);
        assert forall|j: int| 0 <= j < i - 1 implies (#[trigger] rest[j]).0 != name by {
            assert(rest[j] == entries[j + 1]);
        }
        lemma_first_entry(rest, name, i - 1);
    }
}

proof fn lemma_show_members(path: Text, exists: bool, rows: Seq<ResolvedView>)
    ensures
        ({
            let v = show_value(path, exists, rows);
            &&& v.member("path"@) == Some(JsonView::Text(path))
            &&& v.member("exists"@) == Some(JsonView::Bool(exists))
            &&& v.member("api_key_set"@) == Some(JsonView::Bool(token_set(rows)))
            &&& v.member("settings"@) == Some(
                JsonView::Object(
                    rows.map_values(
                        |row: ResolvedView| (config::name_of(row.key), row_value(row)),
                    ),
                ),
            )
        }),
{
    reveal_strlit("path");
    reveal_strlit("exists");
    reveal_strlit("api_key_set");
    reveal_strlit("settings");
    assert("path"@.len() == 4 && "exists"@.len() == 6);
    assert("api_key_set"@.len() == 11 && "settings"@.len() == 8);
    reveal_with_fuel(json::entry_named, 5);
}

proof fn lemma_row_members(row: ResolvedView)
    ensures
        row_value(row).member("source"@) == Some(JsonView::Text(config::label_of(row.source))),
        row.key == Key::ApiKey ==> row_value(row).member("value"@) == Some(JsonView::Null)
            && row_value(row).member("set"@) == Some(JsonView::Bool(row.value is Some)),
        row.key != Key::ApiKey ==> row_value(row).member("value"@) == Some(
            match row.value {
                Some(v) => JsonView::Text(v),
                None => JsonView::Null,
            },
        ),
{
    reveal_strlit("value");
    reveal_strlit("set");
    reveal_strlit("source");
    assert("value"@.len() == 5 && "set"@.len() == 3 && "source"@.len() == 6);
    reveal_with_fuel(json::entry_named, 4);
}

} // verus!
