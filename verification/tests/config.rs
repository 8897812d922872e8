use plane::config::{
    effective, pass_coords, resolve, resolve_value, resolve_with, stored_api_key, web_base,
    workspace, api_base, ConfigFile, Env, Key, Resolved, Source, DEFAULT_PASS_VAULT, KEYS, MASK,
    MAX_ECHO,
};
use plane::error::Error;
use plane::script::{Answer, Ask, Stop, Talk};
use plane::store::{path, read_entries, temp_name, Place, Root, World};

fn env_of(pairs: &[(&str, &str)]) -> impl Fn(&str) -> Option<String> {
    let owned: Vec<(String, String)> = pairs
        .iter()
        .map(|(k, v)| ((*k).to_string(), (*v).to_string()))
        .collect();
    move |name| {
        owned
            .iter()
            .find(|(k, _)| k == name)
            .map(|(_, v)| v.clone())
    }
}

fn no_env(_: &str) -> Option<String> {
    None
}

fn env(pairs: &[(&str, &str)]) -> Env {
    Env { vars: pairs.iter().map(|(k, v)| (k.to_string(), v.to_string())).collect() }
}

/// Loads a file; a text that is no config file is explained as "typo".
fn load(path: &str, contents: Option<&str>) -> Result<ConfigFile, Error> {
    let answers = vec![Answer::Text("typo".to_string())];
    let mut talk = Talk::new(&answers);
    ConfigFile::load_from(path, contents, &mut talk).map_err(|stop| match stop {
        Stop::Fail(e) => e,
        Stop::Ask(_) => panic!("a second question"),
    })
}

#[test]
fn env_beats_the_file_which_beats_the_default() {
    let mut file = ConfigFile::default();
    file.set(Key::ApiBase, "https://plane.example.com/api/v1")
        .unwrap();
    file.set(Key::PassItem, "plane-work").unwrap();

    // File over default.
    let r = resolve_with(Key::ApiBase, &file, no_env);
    assert_eq!(r.value.as_deref(), Some("https://plane.example.com/api/v1"));
    assert_eq!(r.source, Source::File);

    // Env over file.
    let env = env_of(&[("PLANE_API_BASE", "http://localhost:9000/api/v1")]);
    let r = resolve_with(Key::ApiBase, &file, &env);
    assert_eq!(r.value.as_deref(), Some("http://localhost:9000/api/v1"));
    assert_eq!(r.source, Source::Env);

    // Default when neither names it.
    let r = resolve_with(Key::PassVault, &file, no_env);
    assert_eq!(r.value.as_deref(), Some(DEFAULT_PASS_VAULT));
    assert_eq!(r.source, Source::Default);

    // Set in the file, untouched by an unrelated variable.
    let r = resolve_with(Key::PassItem, &file, &env);
    assert_eq!(r.value.as_deref(), Some("plane-work"));
    assert_eq!(r.source, Source::File);
}

#[test]
fn the_two_keys_without_a_default_resolve_to_nothing() {
    let file = ConfigFile::default();
    for key in [Key::Workspace, Key::WebBase] {
        let r = resolve_with(key, &file, no_env);
        assert_eq!(r.value, None, "{}", key.name());
        assert_eq!(r.source, Source::Default);
    }
}

#[test]
fn an_empty_variable_does_not_shadow_the_file() {
    // An exported-but-empty variable is how a shell says "unset" by
    // accident; treating it as a value would blank the workspace.
    let mut file = ConfigFile::default();
    file.set(Key::Workspace, "acme").unwrap();
    let env = env_of(&[("PLANE_WORKSPACE", "   ")]);
    let r = resolve_with(Key::Workspace, &file, &env);
    assert_eq!(r.value.as_deref(), Some("acme"));
    assert_eq!(r.source, Source::File);
}

#[test]
fn origins_lose_their_trailing_slash_from_either_source() {
    let mut file = ConfigFile::default();
    file.set(Key::WebBase, "https://plane.example.com/")
        .unwrap();
    assert_eq!(file.get(Key::WebBase), Some("https://plane.example.com"));
    let env = env_of(&[("PLANE_API_BASE", "https://plane.example.com/api/v1/")]);
    let r = resolve_with(Key::ApiBase, &file, &env);
    assert_eq!(r.value.as_deref(), Some("https://plane.example.com/api/v1"));
}

#[test]
fn another_spelling_of_the_token_is_refused_and_pointed_at_api_key() {
    // `api_key` is a real key, so these are near misses rather than
    // attempts at something the file refuses to hold: the error has to
    // name the spelling that works instead of listing six unrelated keys.
    for attempt in [
        "apikey",
        "pat",
        "token",
        "auth-token",
        "secret",
        "password",
        "credential",
    ] {
        let err = Key::parse(attempt).unwrap_err().message();
        assert!(err.contains("`api_key`"), "{attempt}: {err}");
        assert!(err.contains("PLANE_API_KEY"), "{attempt}: {err}");
    }
}

#[test]
fn the_token_key_parses_in_every_spelling_and_is_marked_secret() {
    for spelling in [
        "api_key",
        "api-key",
        "api.key",
        " API_KEY ",
        "PLANE_API_KEY",
    ] {
        assert_eq!(Key::parse(spelling).unwrap(), Key::ApiKey, "{spelling}");
    }
    assert!(Key::ApiKey.is_secret());
    assert_eq!(Key::ApiKey.env(), "PLANE_API_KEY");
    // No default: an unset token falls through to pass-cli, not to a value.
    assert_eq!(Key::ApiKey.default_value(), None);
    for key in KEYS.iter().filter(|k| **k != Key::ApiKey) {
        assert!(!key.is_secret(), "{}", key.name());
    }
}

#[test]
fn the_token_round_trips_through_the_file_but_never_through_a_rendered_row() {
    let mut file = ConfigFile::default();
    file.set(Key::ApiKey, "plane_pat_abcdef123456").unwrap();
    let raw = file.save_text().unwrap();
    let reread = load("config.toml", Some(&raw)).unwrap();
    assert_eq!(reread.get(Key::ApiKey), Some("plane_pat_abcdef123456"));

    // Every renderer reads `effective`, and what it hands back is masked.
    let shown = |rows: Vec<Resolved>| rows.into_iter().find(|r| r.key == Key::ApiKey).unwrap();
    let row = shown(effective(&reread, &env(&[])));
    assert_eq!(row.value.as_deref(), Some(MASK));
    assert_eq!(row.source_label(), "file");

    // The environment shadows it, and the row says so without a value.
    let from_env = resolve_with(
        Key::ApiKey,
        &reread,
        env_of(&[("PLANE_API_KEY", "plane_pat_from_the_environment")]),
    )
    .redacted();
    assert_eq!(from_env.value.as_deref(), Some(MASK));
    assert_eq!(from_env.source_label(), "env");

    // Unset is unset, not a mask over nothing.
    let mut file = reread;
    assert!(file.unset(Key::ApiKey));
    let raw = file.save_text().unwrap();
    let reread = load("config.toml", Some(&raw)).unwrap();
    assert_eq!(reread.get(Key::ApiKey), None);
    let row = shown(effective(&reread, &env(&[])));
    assert_eq!(row.value, None);
    assert_eq!(row.source_label(), "unset");
    assert!(!raw.contains("plane_pat_"), "{raw}");
}

#[test]
fn an_unknown_key_lists_the_valid_ones() {
    let err = Key::parse("workspce").unwrap_err().message();
    assert!(err.contains("Unknown config key `workspce`"), "{err}");
    for key in KEYS {
        assert!(err.contains(key.name()), "{err}");
    }
}

#[test]
fn a_rejected_key_is_echoed_only_far_enough_to_recognize() {
    // What a swapped `plane config set <token> workspace` would echo.
    let long = "z".repeat(80);
    let err = Key::parse(&long).unwrap_err().message();
    assert!(
        err.contains(&format!("`{}…`", "z".repeat(MAX_ECHO))),
        "{err}"
    );
    assert!(!err.contains(&long), "{err}");

    // Short enough to be a typo: printed whole, without an ellipsis.
    let err = Key::parse("workspce").unwrap_err().message();
    assert!(err.contains("`workspce`"), "{err}");
}

#[test]
fn keys_parse_in_every_spelling_the_docs_use() {
    assert_eq!(Key::parse("web_base").unwrap(), Key::WebBase);
    assert_eq!(Key::parse("web-base").unwrap(), Key::WebBase);
    assert_eq!(Key::parse(" WEB_BASE ").unwrap(), Key::WebBase);
    assert_eq!(Key::parse("PLANE_WEB_BASE").unwrap(), Key::WebBase);
}

#[test]
fn set_and_unset_round_trip_through_the_file() {
    // A file that is not there yet reads as empty rather than as an error.
    assert_eq!(load("config.toml", None).unwrap(), ConfigFile::default());

    let mut file = ConfigFile::default();
    file.set(Key::Workspace, "acme").unwrap();
    file.set(Key::WebBase, "https://plane.example.com").unwrap();
    let raw = file.save_text().unwrap();

    let reread = load("config.toml", Some(&raw)).unwrap();
    assert_eq!(reread, file);
    assert_eq!(reread.get(Key::Workspace), Some("acme"));

    // Nothing writes a key that was not set, least of all the one that
    // would hold a token.
    assert!(!raw.contains("api_key = "), "{raw}");

    let mut file = reread;
    assert!(file.unset(Key::WebBase));
    assert!(!file.unset(Key::WebBase), "removing twice removes nothing");
    let raw = file.save_text().unwrap();
    let reread = load("config.toml", Some(&raw)).unwrap();
    assert_eq!(reread.get(Key::WebBase), None);
    assert_eq!(reread.get(Key::Workspace), Some("acme"));

    // And the effective view labels each source correctly.
    let env = env_of(&[("PLANE_WEB_BASE", "https://other.example.com")]);
    let rows: Vec<Resolved> = KEYS
        .iter()
        .map(|k| resolve_with(*k, &reread, &env))
        .collect();
    let source = |key: Key| rows.iter().find(|r| r.key == key).unwrap().source;
    assert_eq!(source(Key::Workspace), Source::File);
    assert_eq!(source(Key::WebBase), Source::Env);
    assert_eq!(source(Key::ApiBase), Source::Default);
}

#[test]
fn a_malformed_file_names_itself_instead_of_panicking() {
    let err = load("/c/config.toml", Some("workspace = \n")).unwrap_err();
    assert!(err.message().contains("is not valid config"), "{}", err.full());
    assert!(err.message().starts_with("/c/config.toml"), "{}", err.full());

    // A key that is not a setting is a typo, not something to ignore.
    assert!(load("c", Some("workspac = \"acme\"\n")).is_err());
}

#[test]
fn an_empty_value_is_refused_and_points_at_unset() {
    let mut file = ConfigFile::default();
    let err = file.set(Key::Workspace, "   ").unwrap_err().message();
    assert!(err.contains("plane config unset workspace"), "{err}");
    assert_eq!(file.get(Key::Workspace), None);
    // An origin that is nothing but slashes is empty too, and is not stored.
    file.set(Key::WebBase, "https://x").unwrap();
    assert!(file.set(Key::WebBase, " // ").is_err());
    assert_eq!(file.get(Key::WebBase), Some("https://x"));
}

#[test]
fn the_text_of_a_file_is_a_comment_and_its_settings_in_order() {
    let mut file = ConfigFile::default();
    file.set(Key::ApiKey, "t").unwrap();
    file.set(Key::Workspace, "acme").unwrap();
    assert_eq!(
        file.save_text().unwrap(),
        "# Written by `plane config set`. Kept private (0600): an `api_key` line, when there is one, is a token in plaintext.\nworkspace = \"acme\"\napi_key = \"t\"\n"
    );
}

#[test]
fn values_survive_the_file_whatever_they_hold() {
    let quotes = "\"".repeat(255) + &"'".repeat(255);
    for value in [
        "a\"b", "a'b", "a\\b", "\"\"", "''", "\"\"\"", "'''", "a\nb", "\"a\n'b\\", "#x", "a = 1",
        "\u{1}\u{7f}\u{8}\tq", "a\r\nb", "Ünïcode \u{1F600}", "'''\\\"\"\"", "x\"\"\"\n'''y\\",
        "]\n[x]", "\"'\"'\"", "\n", "\n\n\"", "a\nb\"", "a\nb\"\"", "a'b\"\"", "\"\"a'", "\\a''", "''\\a", "'\\\n''", "\\\n", "\u{feff}x", "\u{85}\u{2028}", "a\\\nb'''", "\"\"\"\"\"\n",
        quotes.as_str(),
    ] {
        let mut file = ConfigFile::default();
        file.store(Key::PassItem, value);
        file.store(Key::PassField, "PAT");
        let raw = file.save_text().unwrap();
        let reread = load("c", Some(&raw)).unwrap();
        assert_eq!(reread, file, "{raw}");
    }
}

#[test]
fn a_value_that_cannot_be_printed_is_refused() {
    for quote in ["\"", "'"] {
        let mut file = ConfigFile::default();
        file.store(Key::PassItem, &quote.repeat(256));
        assert_eq!(
            file.save_text().unwrap_err().full(),
            "Failed to serialize the config: a value holds more than 255 quotation marks in a row"
        );
    }
}

#[test]
fn entries_that_are_no_settings_are_refused() {
    let entry = |k: &str, v: Option<&str>| (k.to_string(), v.map(str::to_string));
    let file = read_entries(&vec![entry("web_base", Some("x")), entry("web_base", Some("y"))]);
    assert_eq!(file.unwrap().get(Key::WebBase), Some("y"));
    assert_eq!(read_entries(&vec![entry("api_key", Some("x")), entry("nope", Some("y"))]), None);
    assert_eq!(read_entries(&vec![entry("api_key", Some("x")), entry("workspace", None)]), None);
    assert_eq!(read_entries(&vec![]), Some(ConfigFile::default()));
}

#[test]
fn a_file_that_is_no_config_is_explained() {
    for raw in ["workspac = 'acme'", "workspace = 5", "[workspace]", "workspace = 'a'\nx.y = 1"] {
        let none: Vec<Answer> = Vec::new();
        let asked = ConfigFile::load_from("c", Some(raw), &mut Talk::new(&none));
        assert!(asked == Err(Stop::Ask(Ask::ExplainConfig(raw.to_string()))), "{raw}");
        assert_eq!(
            load("c", Some(raw)).unwrap_err().full(),
            "c is not valid config; fix it by hand, or delete it and re-run `plane config set`: typo"
        );
    }
    // What is no TOML at all is explained by the parser.
    let e = load("c", Some("workspace = \n")).unwrap_err();
    assert!(e.chain[1].starts_with("TOML parse error at line 1, column 13\n"), "{}", e.full());
    let answers = vec![Answer::Failed(Error::new("lost".to_string()))];
    match ConfigFile::load_from("c", Some("x = 1"), &mut Talk::new(&answers)) {
        Err(Stop::Fail(e)) => assert!(e.full().ends_with("`plane config set`: lost")),
        _ => panic!("a file without an explanation is still refused"),
    }
}

#[test]
fn a_stored_value_is_read_trimmed_and_blank_means_unset() {
    let file = load("c", Some("workspace = ' acme '\nweb_base = '  '")).unwrap();
    assert_eq!(file.get(Key::Workspace), Some("acme"));
    assert_eq!(file.raw(Key::Workspace), Some(" acme "));
    assert_eq!(file.get(Key::WebBase), None);
    assert_eq!(file.raw(Key::WebBase), Some("  "));
    let r = resolve_value(Key::ApiBase, &file, Some(" http://x// "));
    assert_eq!((r.value.as_deref(), r.source), (Some("http://x"), Source::Env));
}

#[test]
fn the_settings_a_client_needs_come_out_of_file_and_environment() {
    let mut file = ConfigFile::default();
    let none = env(&[]);
    assert!(workspace(&file, &none).unwrap_err().message().starts_with("No workspace set."));
    assert_eq!(workspace(&file, &env(&[("PLANE_WORKSPACE", "a")])).unwrap(), "a");
    assert_eq!(api_base(&file, &none), "http://localhost:8090/api/v1");
    assert_eq!(web_base(&file, &none), None);
    assert_eq!(stored_api_key(&file), None);
    assert_eq!(
        pass_coords(&file, &env(&[("PLANE_PASS_FIELD", "key")])),
        ("Personal".to_string(), "plane".to_string(), "key".to_string())
    );
    file.set(Key::ApiKey, "t").unwrap();
    // The file only: the variable is the business of the token's own lookup.
    assert_eq!(stored_api_key(&file).as_deref(), Some("t"));
    let r = resolve(Key::ApiKey, &file, &env(&[("PLANE_API_KEY", "u")]));
    assert_eq!(r.value.as_deref(), Some("u"));
}

#[test]
fn the_file_is_below_the_config_home_or_else_below_home() {
    let world = |config_home: Option<&str>, home: Option<&str>| World {
        env: env(&[]),
        config_home: config_home.map(str::to_string),
        home: home.map(str::to_string),
        pid: 7,
    };
    let place = path(&world(Some("/x"), Some("/h"))).unwrap();
    assert_eq!(place, Place { root: Root::ConfigHome, dir: "/x/plane".to_string() });
    assert_eq!(place.file(), "/x/plane/config.toml");
    let place = path(&world(Some("/x/"), None)).unwrap();
    assert_eq!(place.file(), "/x/plane/config.toml");
    let place = path(&world(Some(""), Some("/h"))).unwrap();
    assert_eq!(place, Place { root: Root::Home, dir: "/h/.config/plane".to_string() });
    assert_eq!(
        path(&world(None, Some(""))).unwrap_err().message(),
        "Could not locate a config directory: neither XDG_CONFIG_HOME nor HOME is set."
    );
    assert_eq!(temp_name(4211), ".config.toml.4211.tmp");
}

#[test]
fn every_short_value_survives_the_file() {
    let letters = ["\"", "'", "\\", "\n", "\r", "\t", "a", "\u{7f}"];
    let mut values = vec![String::new()];
    let mut longest = values.clone();
    for _ in 0..5 {
        longest = longest
            .iter()
            .flat_map(|v| letters.iter().map(move |l| format!("{v}{l}")))
            .collect();
        values.extend(longest.iter().cloned());
    }
    for value in values {
        let mut file = ConfigFile::default();
        file.store(Key::WebBase, &value);
        let raw = file.save_text().unwrap();
        let reread = load("c", Some(&raw)).unwrap();
        assert_eq!(reread.raw(Key::WebBase), Some(value.as_str()), "{raw}");
    }
}
