use plane::auth::{api_key, read_output, resolve};
use plane::config::{ConfigFile, Env, Key};
use plane::error::Error;
use plane::script::{Answer, Ask, Output, Stop, Talk};

fn pass(key: &'static str) -> impl FnOnce() -> Result<String, Error> {
    move || Ok(key.to_string())
}

#[test]
fn the_variable_beats_the_file_which_beats_pass_cli() {
    let both = resolve(
        Some("from-env".into()),
        Some("from-file".into()),
        pass("from-pass"),
    );
    assert_eq!(both.unwrap(), "from-env");

    let file_only = resolve(None, Some("from-file".into()), pass("from-pass"));
    assert_eq!(file_only.unwrap(), "from-file");

    let neither = resolve(None, None, pass("from-pass"));
    assert_eq!(neither.unwrap(), "from-pass");
}

#[test]
fn pass_cli_is_not_run_when_a_token_is_already_known() {
    // Not just slower: on a machine with no session, running it turns a
    // perfectly good token into an error.
    for stored in [
        (Some("from-env".to_string()), None),
        (None, Some("from-file".to_string())),
    ] {
        let key = resolve(stored.0, stored.1, || {
            panic!("pass-cli was consulted anyway")
        });
        assert!(key.is_ok());
    }
}

fn env(pairs: &[(&str, &str)]) -> Env {
    Env { vars: pairs.iter().map(|(k, v)| (k.to_string(), v.to_string())).collect() }
}

fn output(success: bool, stdout: &str, stderr: &str) -> Output {
    Output {
        success,
        status: "exit status: 1".to_string(),
        stdout: stdout.to_string(),
        stderr: stderr.to_string(),
    }
}

#[test]
fn a_token_in_the_environment_needs_neither_file_nor_pass_cli() {
    let answers: Vec<Answer> = Vec::new();
    let broken = Err(Error::new("denied".to_string()).context("no such file".to_string()));
    let mut talk = Talk::new(&answers);
    let key = api_key(&env(&[("PLANE_API_KEY", " t0 ")]), &broken, &mut talk);
    assert!(key == Ok("t0".to_string()));

    // Without the variable a broken file stands in the way, as one message.
    let mut talk = Talk::new(&answers);
    let key = api_key(&env(&[("PLANE_API_KEY", "  ")]), &broken, &mut talk);
    assert!(key == Err(Stop::Fail(Error::new("no such file: denied".to_string()))));
}

#[test]
fn pass_cli_is_asked_for_the_configured_entry() {
    let mut file = ConfigFile::default();
    file.set(Key::PassItem, "plane-work").unwrap();
    let file = Ok(file);
    let answers: Vec<Answer> = Vec::new();
    let mut talk = Talk::new(&answers);
    let key = api_key(&env(&[("PLANE_PASS_VAULT", "Work")]), &file, &mut talk);
    let args = [
        "item", "view", "--vault-name", "Work", "--item-title", "plane-work", "--field", "PAT",
    ];
    assert!(key == Err(Stop::Ask(Ask::PassCli(args.iter().map(|s| s.to_string()).collect()))));

    let answers = vec![Answer::Output(output(true, "tok\n", ""))];
    let mut talk = Talk::new(&answers);
    assert!(api_key(&env(&[]), &file, &mut talk) == Ok("tok".to_string()));

    let answers = vec![Answer::Failed(Error::new("not found".to_string()))];
    let mut talk = Talk::new(&answers);
    match api_key(&env(&[]), &file, &mut talk) {
        Err(Stop::Fail(e)) => {
            assert!(e.message().starts_with("Failed to run `pass-cli`."), "{}", e.full());
            assert!(e.full().ends_with(": not found"), "{}", e.full());
        }
        _ => panic!("a program that does not run is a failure"),
    }
}

#[test]
fn pass_cli_failures_name_the_entry() {
    let e = read_output("Work", "plane", "PAT", &output(false, "", " locked \n")).unwrap_err();
    assert!(
        e.message().starts_with(
            "pass-cli could not read plane/PAT from vault \"Work\" (exit status: 1).\nlocked\nCheck"
        ),
        "{}",
        e.message()
    );
    let e = read_output("Work", "plane", "PAT", &output(true, " \n", "")).unwrap_err();
    assert!(e.message().starts_with("pass-cli returned an empty PAT for plane."), "{}", e.message());
}
