use plane::cmd::{
    config_path, config_set, config_show, config_unset, issue_attach, issue_attachments,
    issue_comment, issue_create, issue_get, issue_list, issue_update, label_list, module_list,
    project_list, state_list, CreateArgs, UpdateArgs,
};
use plane::config::Env;
use plane::error::Error;
use plane::json::Json;
use plane::script::{Answer, Ask, Channel, Fault, Finish, Method, Output, Reply, Step};
use plane::store::World;

fn world(vars: &[(&str, &str)]) -> World {
    World {
        env: Env { vars: vars.iter().map(|(k, v)| (k.to_string(), v.to_string())).collect() },
        config_home: Some("/c".to_string()),
        home: None,
        pid: 42,
    }
}

fn here() -> World {
    world(&[
        ("PLANE_WORKSPACE", "acme"),
        ("PLANE_API_KEY", "tok"),
        ("PLANE_API_BASE", "http://api"),
        ("PLANE_WEB_BASE", "http://web/"),
    ])
}

fn ok(body: &str) -> Answer {
    Answer::Reply(Reply {
        code: 200,
        status: "200 OK".to_string(),
        location: String::new(),
        body: body.to_string(),
    })
}

fn status(code: u16, body: &str) -> Answer {
    Answer::Reply(Reply {
        code,
        status: code.to_string(),
        location: String::new(),
        body: body.to_string(),
    })
}

fn failed(message: &str) -> Answer {
    Answer::Failed(Error::new(message.to_string()))
}

/// One line for what was asked.
fn told(ask: &Ask) -> String {
    match ask {
        Ask::Open(Channel::Api) => "open api".to_string(),
        Ask::Open(Channel::Uploads) => "open uploads".to_string(),
        Ask::Send(r) => {
            assert_eq!(r.api_key, "tok");
            let method = match r.method {
                Method::Get => "GET",
                Method::Post => "POST",
                Method::Patch => "PATCH",
            };
            let query: Vec<String> = r.query.iter().map(|(k, v)| format!("{k}={v}")).collect();
            let url = r.url.strip_prefix("http://api/workspaces/acme/").unwrap();
            format!("{method} {url} {} {}", query.join("&"), r.body_text().unwrap_or_default())
        }
        Ask::Upload(u) => format!("upload {} {} {:?} {}", u.file, u.url, u.fields, u.mime),
        Ask::ReadConfig => "read config".to_string(),
        Ask::ExplainConfig(raw) => format!("explain {raw}"),
        Ask::CreateConfigDir => "create dir".to_string(),
        Ask::WriteScratch(name, text) => format!("write {name} {}", text.lines().count()),
        Ask::RenameScratch(name) => format!("rename {name}"),
        Ask::RemoveScratch(name) => format!("remove {name}"),
        Ask::PassCli(args) => format!("pass-cli {}", args.join(" ")),
        Ask::ReadNote => "read note".to_string(),
        Ask::ReadStdin => "read stdin".to_string(),
        Ask::Measure(i) => format!("measure {i}"),
        Ask::RenderSizes(list) => {
            format!("sizes {}", list.iter().map(|v| v.to_line()).collect::<Vec<_>>().join(","))
        }
        Ask::Print(s) => format!("print {s}"),
        Ask::Warn(s) => format!("warn {s}"),
    }
}

/// Runs a command: questions that have an obvious answer get it, the others
/// take the next of `replies`. What was asked of the others comes back.
fn run(command: impl Fn(&Vec<Answer>) -> Step, replies: Vec<Answer>) -> (Vec<String>, Finish) {
    let mut replies = replies.into_iter();
    let mut answers: Vec<Answer> = Vec::new();
    let mut asked: Vec<String> = Vec::new();
    loop {
        match command(&answers) {
            Step::Finish(finish) => {
                assert!(replies.next().is_none(), "unused replies after {asked:?}");
                return (asked, finish);
            }
            Step::Ask(ask) => {
                let line = told(&ask);
                let answer = match ask {
                    Ask::Open(_) => Answer::Done,
                    Ask::ReadConfig => match replies.as_slice().first() {
                        Some(Answer::Contents(_)) => replies.next().unwrap(),
                        _ => Answer::Contents(None),
                    },
                    _ => {
                        asked.push(line.trim_end().to_string());
                        replies.next().unwrap_or_else(|| panic!("no reply to {line}"))
                    }
                };
                answers.push(answer);
            }
        }
    }
}

fn error_of(finish: &Finish) -> String {
    finish.error.as_ref().map(|e| e.full()).unwrap_or_default()
}

fn text(s: &str) -> Option<String> {
    Some(s.to_string())
}

const PROJECTS: &str =
    r#"{"results": [{"id": "p2", "identifier": "LOC"}, {"id": "p1", "identifier": "RES", "name": "Research"}]}"#;
const STATES: &str = r#"{"results": [{"id": "s1", "name": "In Progress", "group": "started"}, {"id": "s2", "name": "Done"}]}"#;
const LABELS: &str = r#"{"results": [{"id": "l2", "name": "waiting"}, {"id": "l1", "name": "Deep"}]}"#;
const MODULES: &str = r#"{"results": [{"id": "m1", "name": "Paper 2 Drawings"}, {"id": "m2", "name": "alpha"}]}"#;
const ISSUE: &str = r#"{"id": "i1", "project": "p1", "name": "T", "sequence_id": 12, "state": {"name": "Done"}}"#;

// ---- the client ----

#[test]
fn the_issue_endpoint_resolves_a_reference_in_one_call() {
    let (asked, finish) =
        run(|a| issue_get(" res-12", false, &here(), a), vec![ok(ISSUE)]);
    assert_eq!(asked, ["GET issues/RES-12/ expand=state,labels"]);
    assert_eq!(
        finish.out.as_deref(),
        Some("RES-12  T\n  state:    Done\n  priority: -\n  due:      -\n  labels:   -\n  url:      http://web/acme/browse/RES-12/")
    );
    assert_eq!(finish.error, None);
    let (_, finish) = run(|a| issue_get("res-12", true, &here(), a), vec![ok(ISSUE)]);
    assert_eq!(Json::parse(&finish.out.unwrap()).unwrap(), Json::parse(ISSUE).unwrap());
    let (_, finish) = run(|a| issue_get("res-12", true, &here(), a), vec![status(404, "")]);
    assert_eq!(error_of(&finish), "Could not resolve issue RES-12: Plane returned 404: ");
    let (_, finish) = run(|a| issue_get("res-12", true, &here(), a), vec![failed("refused")]);
    assert_eq!(
        error_of(&finish),
        "Could not resolve issue RES-12: Request to Plane failed. Is the instance reachable?: refused"
    );
    let (asked, finish) = run(|a| issue_get("res", true, &here(), a), vec![]);
    assert!(asked.is_empty());
    assert_eq!(error_of(&finish), "Invalid issue reference \"res\". Expected e.g. RES-12.");
}

#[test]
fn connecting_needs_a_workspace_a_token_and_two_connections() {
    let (_, finish) = run(|a| project_list(false, &world(&[("PLANE_API_KEY", "tok")]), a), vec![]);
    assert!(error_of(&finish).starts_with("No workspace set."), "{}", error_of(&finish));

    // A file that does not parse is one message, whatever is behind it.
    let (asked, finish) = run(
        |a| project_list(false, &here(), a),
        vec![Answer::Contents(text("nope = 1")), Answer::Text("unknown field `nope`".to_string())],
    );
    assert_eq!(asked, ["explain nope = 1"]);
    let error = finish.error.unwrap();
    assert_eq!(error.chain.len(), 1);
    assert!(error.message().starts_with("/c/plane/config.toml is not valid config; "), "{}", error.message());
    assert!(error.message().contains(": unknown field `nope`"), "{}", error.message());

    let no_key = world(&[("PLANE_WORKSPACE", "acme"), ("PLANE_API_BASE", "http://api")]);
    let (asked, finish) = run(
        |a| project_list(true, &no_key, a),
        vec![
            Answer::Output(Output {
                success: true,
                status: String::new(),
                stdout: "tok\n".to_string(),
                stderr: String::new(),
            }),
            ok("[]"),
        ],
    );
    assert_eq!(
        asked,
        [
            "pass-cli item view --vault-name Personal --item-title plane --field PAT",
            "GET projects/ per_page=100",
        ]
    );
    assert_eq!(finish.error, None);

    let mut answers = vec![Answer::Contents(None), failed("tls")];
    let step = project_list(true, &here(), &answers);
    assert!(step == Step::Finish(Finish {
        out: None,
        error: Some(Error::new("tls".to_string()).context("Failed to build HTTP client".to_string())),
    }));
    answers[1] = Answer::Done;
    answers.push(failed("tls"));
    match project_list(true, &here(), &answers) {
        Step::Finish(f) => assert_eq!(error_of(&f), "Failed to build upload HTTP client: tls"),
        _ => panic!("a connection that cannot be set up is a failure"),
    }
    let answers = vec![failed("denied")];
    match project_list(true, &here(), &answers) {
        Step::Finish(f) => assert_eq!(error_of(&f), "Failed to read /c/plane/config.toml: denied"),
        _ => panic!("a file that cannot be read is a failure"),
    }
    // An answer to another question is refused.
    let answers = vec![Answer::Done];
    match project_list(true, &here(), &answers) {
        Step::Finish(f) => assert!(error_of(&f).contains("does not fit")),
        _ => panic!("a misfit is a failure"),
    }
}

#[test]
fn every_page_of_a_list_is_read_and_merged() {
    let (asked, finish) = run(
        |a| project_list(false, &here(), a),
        vec![
            ok(r#"{"results": [{"identifier": "B", "name": "b", "id": "1"}], "next_page_results": true, "next_cursor": "c1"}"#),
            ok(r#"{"results": [{"identifier": "A", "name": "a", "id": "2"}], "next_page_results": true, "next_cursor": "c2"}"#),
            ok(r#"{"results": [{"identifier": "C", "name": "c", "id": "3"}], "next_page_results": false, "next_cursor": "c3"}"#),
        ],
    );
    assert_eq!(
        asked,
        [
            "GET projects/ per_page=100",
            "GET projects/ per_page=100&cursor=c1",
            "GET projects/ per_page=100&cursor=c2",
        ]
    );
    assert_eq!(finish.out.as_deref(), Some("3 projects\nA  a  2\nB  b  1\nC  c  3"));

    let (asked, finish) = run(
        |a| project_list(false, &here(), a),
        vec![
            ok(r#"{"results": [], "next_page_results": true, "next_cursor": "c1"}"#),
            ok(r#"{"results": [], "next_page_results": true, "next_cursor": "c1"}"#),
        ],
    );
    assert_eq!(asked.len(), 2);
    assert!(error_of(&finish).starts_with("Plane repeated the pagination cursor \"c1\""));
}

#[test]
fn a_list_that_never_ends_is_given_up() {
    let pages: Vec<Answer> = (0..500)
        .map(|i| ok(&format!(r#"{{"results": [], "next_page_results": true, "next_cursor": "{i}"}}"#)))
        .collect();
    let mut answers = vec![Answer::Contents(None), Answer::Done, Answer::Done];
    answers.extend(pages);
    match project_list(false, &here(), &answers) {
        Step::Finish(f) => assert!(
            error_of(&f).starts_with("Gave up on projects/ after 500 pages."),
            "{}",
            error_of(&f)
        ),
        _ => panic!("the list should have been given up"),
    }
    answers.pop();
    assert!(matches!(project_list(false, &here(), &answers), Step::Ask(Ask::Send(_))));
}

#[test]
fn a_full_bare_array_is_taken_with_a_warning() {
    let body = format!("[{}]", vec![r#"{"identifier": "X"}"#; 100].join(","));
    let (asked, finish) = run(|a| project_list(true, &here(), a), vec![ok(&body), Answer::Done]);
    assert!(asked[1].starts_with("warn Warning: projects/ answered with a bare array of 100 items"));
    let printed = Json::parse(&finish.out.unwrap()).unwrap();
    assert_eq!(printed.get("count"), Some(&Json::Int(100)));
}

// ---- lists ----

#[test]
fn issues_are_filtered_by_names_that_are_resolved_first() {
    let issues = r#"{"results": [
        {"sequence_id": 9, "name": "n", "state": {"name": "In Progress"}, "labels": [{"name": "deep"}]},
        {"sequence_id": 2, "name": "two", "state": {"name": "IN-PROGRESS"}, "labels": [{"name": "x"}, {"name": "DEEP"}]},
        {"sequence_id": 1, "name": "one", "state": {"name": "Done"}, "labels": [{"name": "deep"}]},
        {"sequence_id": 3, "name": "three", "state": {"name": "In Progress"}}
    ]}"#;
    let (asked, finish) = run(
        |a| issue_list("res", Some("in progress"), None, Some("DEEP"), false, &here(), a),
        vec![ok(PROJECTS), ok(issues), ok(STATES), ok(LABELS)],
    );
    assert_eq!(
        asked,
        [
            "GET projects/ per_page=100",
            "GET projects/p1/issues/ expand=state,labels&per_page=100",
            "GET projects/p1/states/ per_page=100",
            "GET projects/p1/labels/ per_page=100",
        ]
    );
    assert_eq!(
        finish.out.as_deref(),
        Some("RES [In Progress] [Deep]: 2 issues\nRES-2  IN-PROGRESS  -  two\nRES-9  In Progress  -  n")
    );
    // A typo names the real options instead of filtering everything out.
    let (_, finish) = run(
        |a| issue_list("RES", Some("dnoe"), None, None, false, &here(), a),
        vec![ok(PROJECTS), ok(issues), ok(STATES)],
    );
    assert_eq!(
        error_of(&finish),
        "No state named \"dnoe\" in this project. Available: In Progress, Done"
    );
}

#[test]
fn issues_of_a_module_come_from_the_module() {
    let (asked, finish) = run(
        |a| issue_list("RES", None, Some("paper2drawings"), None, false, &here(), a),
        vec![ok(PROJECTS), ok(MODULES), ok("[]")],
    );
    assert_eq!(
        asked[2],
        "GET projects/p1/modules/m1/module-issues/ expand=state,labels&per_page=100"
    );
    assert_eq!(finish.out.as_deref(), Some("RES / Paper 2 Drawings: no issues"));
    let (_, finish) = run(
        |a| issue_list("nope", None, None, None, true, &here(), a),
        vec![ok(PROJECTS)],
    );
    assert_eq!(error_of(&finish), "No project with identifier NOPE. Try `plane project list`.");
}

#[test]
fn things_of_a_project_are_listed_in_order() {
    let (asked, finish) =
        run(|a| module_list("RES", false, &here(), a), vec![ok(PROJECTS), ok(MODULES)]);
    assert_eq!(asked[1], "GET projects/p1/modules/ per_page=100");
    assert_eq!(
        finish.out.as_deref(),
        Some("RES: 2 modules\nalpha             -          m2\nPaper 2 Drawings  -          m1")
    );
    let (asked, finish) =
        run(|a| label_list("RES", false, &here(), a), vec![ok(PROJECTS), ok(LABELS)]);
    assert_eq!(asked[1], "GET projects/p1/labels/ per_page=100");
    assert_eq!(
        finish.out.as_deref(),
        Some("RES: 2 labels\nDeep     -          l1\nwaiting  -          l2")
    );
    // States keep the order of the workflow.
    let (_, finish) =
        run(|a| state_list("RES", false, &here(), a), vec![ok(PROJECTS), ok(STATES)]);
    assert_eq!(
        finish.out.as_deref(),
        Some("RES: 2 states\nIn Progress  started    s1\nDone                    s2")
    );
    // Names order without case beyond ASCII too.
    let labels = r#"[{"name": "Z"}, {"name": "Ä"}, {"name": "ä1"}, {"name": "a"}]"#;
    let (_, finish) =
        run(|a| label_list("RES", true, &here(), a), vec![ok(PROJECTS), ok(labels)]);
    let printed = Json::parse(&finish.out.unwrap()).unwrap();
    let names: Vec<&str> = printed
        .get("results")
        .and_then(|r| r.as_array())
        .unwrap()
        .iter()
        .map(|l| l.get_str("name").unwrap())
        .collect();
    assert_eq!(names, ["a", "Z", "Ä", "ä1"]);
}

// ---- create ----

fn create_args() -> CreateArgs {
    CreateArgs {
        project: text("RES"),
        title: text("T"),
        from_note: None,
        module: None,
        state: None,
        priority: None,
        due: None,
        desc_md: None,
        labels: vec![],
        json: false,
    }
}

#[test]
fn a_plain_create_is_one_write() {
    let args = create_args();
    let (asked, finish) = run(
        |a| issue_create(&args, &here(), a),
        vec![ok(PROJECTS), ok(r#"{"id": "i9", "sequence_id": 9, "name": "T"}"#)],
    );
    assert_eq!(
        asked,
        ["GET projects/ per_page=100", "POST projects/p1/issues/  {\"name\":\"T\"}"]
    );
    assert_eq!(
        finish.out.as_deref(),
        Some("Created RES-9  T\n  url:      http://web/acme/browse/RES-9/")
    );
    assert_eq!(finish.error, None);
}

#[test]
fn a_create_resolves_every_name_before_it_writes() {
    let mut args = create_args();
    args.module = text("alpha");
    args.state = text("done");
    args.priority = text("High");
    args.due = text(" 2026-08-15 ");
    args.desc_md = text("-");
    args.labels = vec!["deep".to_string(), "waiting".to_string(), "DEEP".to_string()];
    let created = r#"{"id": "i9", "sequence_id": 9, "name": "T", "labels": ["l1", "l2"]}"#;
    let (asked, finish) = run(
        |a| issue_create(&args, &here(), a),
        vec![
            ok(PROJECTS),
            ok(MODULES),
            ok(LABELS),
            Answer::Text("**b**".to_string()),
            ok(STATES),
            ok(created),
            ok("{}"),
        ],
    );
    assert_eq!(
        asked[1..],
        [
            "GET projects/p1/modules/ per_page=100",
            "GET projects/p1/labels/ per_page=100",
            "read stdin",
            "GET projects/p1/states/ per_page=100",
            r#"POST projects/p1/issues/  {"description_html":"<p><strong>b</strong></p>\n","labels":["l1","l2"],"name":"T","priority":"high","state":"s2","target_date":"2026-08-15"}"#,
            r#"POST projects/p1/modules/m2/module-issues/  {"issues":["i9"]}"#,
        ]
    );
    assert_eq!(
        finish.out.as_deref(),
        Some("Created RES-9  T\n  url:      http://web/acme/browse/RES-9/\n  labels:   deep, waiting, DEEP\n  module:   alpha (attached)")
    );
    // A name that matches nothing stops before the write.
    args.state = text("nope");
    let (asked, finish) = run(
        |a| issue_create(&args, &here(), a),
        vec![ok(PROJECTS), ok(MODULES), ok(LABELS), Answer::Text(String::new()), ok(STATES)],
    );
    assert!(asked.iter().all(|line| !line.starts_with("POST")), "{asked:?}");
    assert!(error_of(&finish).starts_with("No state named \"nope\""));
    args.state = None;
    args.due = text("soon");
    let (_, finish) = run(
        |a| issue_create(&args, &here(), a),
        vec![ok(PROJECTS), ok(MODULES), ok(LABELS), failed("closed")],
    );
    assert_eq!(error_of(&finish), "Could not read markdown from stdin: closed");
    args.desc_md = None;
    let (_, finish) = run(
        |a| issue_create(&args, &here(), a),
        vec![ok(PROJECTS), ok(MODULES), ok(LABELS)],
    );
    assert_eq!(error_of(&finish), "Invalid date \"soon\". Use YYYY-MM-DD.");
}

#[test]
fn an_issue_that_exists_is_reported_even_when_the_rest_fails() {
    let mut args = create_args();
    args.module = text("alpha");
    args.labels = vec!["deep".to_string()];
    let created = r#"{"id": "i9", "sequence_id": 9, "name": "T"}"#;
    let (_, finish) = run(
        |a| issue_create(&args, &here(), a),
        vec![ok(PROJECTS), ok(MODULES), ok(LABELS), ok(created), status(500, "boom")],
    );
    assert_eq!(
        finish.out.as_deref(),
        Some("Created RES-9  T\n  url:      http://web/acme/browse/RES-9/")
    );
    assert_eq!(
        error_of(&finish),
        "RES-9 was created, but attaching it to module \"alpha\" failed: Plane returned 500: boom\nThe issue exists: link it with `plane issue update RES-9 --module \"alpha\"` rather than creating it again."
    );
    // Labels that did not all land are an error, and are not listed.
    args.json = true;
    let (_, finish) = run(
        |a| issue_create(&args, &here(), a),
        vec![ok(PROJECTS), ok(MODULES), ok(LABELS), ok(created), ok("{}")],
    );
    assert_eq!(Json::parse(&finish.out.clone().unwrap()).unwrap(), Json::parse(created).unwrap());
    assert_eq!(
        error_of(&finish),
        "RES-9 was created, but Plane returned 0 of the 1 labels it was given, so they did not all land.\nThe issue exists: set them with `plane issue update RES-9 --label ...` rather than creating it again."
    );
    let (_, finish) = run(
        |a| issue_create(&args, &here(), a),
        vec![ok(PROJECTS), ok(MODULES), ok(LABELS), ok("{}")],
    );
    assert_eq!(
        error_of(&finish),
        "Plane's response for the created issue carries no `id`, so there is nothing to address."
    );
}

#[test]
fn a_note_names_the_project_and_the_module() {
    let mut args = create_args();
    args.from_note = text("n.md");
    let (asked, finish) = run(|a| issue_create(&args, &here(), a), vec![]);
    assert!(asked.is_empty());
    assert_eq!(error_of(&finish), "Pass either a project or --from-note, not both.");

    // The single positional is the title.
    args.title = None;
    args.project = text("From a note");
    let id = "3f00e638-0000-4000-8000-000000000000";
    let module = "17f8619e-0000-4000-8000-000000000000";
    let note = format!("---\nplane_project_id: {id}\nplane_module_id: {module}\n---\n");
    let (asked, finish) = run(
        |a| issue_create(&args, &here(), a),
        vec![
            Answer::Text(note.clone()),
            ok(r#"{"id": "i9", "name": "From a note"}"#),
            ok(&format!(r#"[{{"id": "x", "identifier": "X"}}, {{"id": "{id}", "identifier": "NOTE"}}]"#)),
            ok("{}"),
        ],
    );
    assert_eq!(
        asked,
        [
            "read note".to_string(),
            format!("POST projects/{id}/issues/  {{\"name\":\"From a note\"}}"),
            "GET projects/ per_page=100".to_string(),
            format!("POST projects/{id}/modules/{module}/module-issues/  {{\"issues\":[\"i9\"]}}"),
        ]
    );
    assert_eq!(
        finish.out,
        Some(format!(
            "Created NOTE-?  From a note\n  url:      http://web/acme/browse/NOTE-?/\n  module:   {module} (attached)"
        ))
    );
    // An explicit module wins over the note's.
    args.module = text("alpha");
    let (asked, _) = run(
        |a| issue_create(&args, &here(), a),
        vec![
            Answer::Text(note.replace("---\nplane", "---\nplane_project: RES\nplane")),
            ok(MODULES),
            ok(r#"{"id": "i9"}"#),
            ok("{}"),
        ],
    );
    assert!(asked[3].contains("/modules/m2/module-issues/"), "{asked:?}");

    args.project = None;
    let (_, finish) = run(|a| issue_create(&args, &here(), a), vec![]);
    assert_eq!(error_of(&finish), "A title is required.");
    let mut args = create_args();
    args.project = None;
    let (_, finish) = run(|a| issue_create(&args, &here(), a), vec![]);
    assert_eq!(error_of(&finish), "A project identifier is required (or use --from-note).");
}

// ---- update ----

fn update_args() -> UpdateArgs {
    UpdateArgs {
        reference: "res-12".to_string(),
        state: None,
        priority: None,
        due: None,
        title: None,
        module: None,
        labels: vec![],
        json: false,
    }
}

#[test]
fn an_update_without_a_change_asks_nothing() {
    let args = update_args();
    match issue_update(&args, &here(), &vec![]) {
        Step::Finish(f) => assert_eq!(
            error_of(&f),
            "Nothing to update. Pass at least one of --state, --priority, --due, --title, --module, --label."
        ),
        _ => panic!("nothing is to be asked"),
    }
}

#[test]
fn an_update_patches_what_is_named_and_reads_the_issue_again() {
    let mut args = update_args();
    args.state = text("Done");
    args.labels = vec!["waiting".to_string()];
    args.module = text("alpha");
    let (asked, finish) = run(
        |a| issue_update(&args, &here(), a),
        vec![ok(ISSUE), ok(STATES), ok(LABELS), ok("{}"), ok(MODULES), ok(""), ok(ISSUE)],
    );
    assert_eq!(
        asked,
        [
            "GET issues/RES-12/ expand=state,labels",
            "GET projects/p1/states/ per_page=100",
            "GET projects/p1/labels/ per_page=100",
            r#"PATCH projects/p1/issues/i1/  {"labels":["l2"],"state":"s2"}"#,
            "GET projects/p1/modules/ per_page=100",
            r#"POST projects/p1/modules/m2/module-issues/  {"issues":["i1"]}"#,
            "GET issues/RES-12/ expand=state,labels",
        ]
    );
    assert!(finish.out.unwrap().starts_with("Updated RES-12\nRES-12  T\n  state:    Done\n"));

    // A module alone writes no fields.
    let mut args = update_args();
    args.module = text("alpha");
    let (asked, finish) = run(
        |a| issue_update(&args, &here(), a),
        vec![ok(ISSUE), ok(MODULES), status(400, "no")],
    );
    assert!(asked.iter().all(|line| !line.starts_with("PATCH")), "{asked:?}");
    assert_eq!(
        error_of(&finish),
        "Could not attach RES-12 to module \"alpha\": Plane returned 400: no"
    );
    let mut args = update_args();
    args.title = text("New");
    let (_, finish) =
        run(|a| issue_update(&args, &here(), a), vec![ok(ISSUE), status(400, "no")]);
    assert_eq!(error_of(&finish), "Could not update RES-12: Plane returned 400: no");
    let (_, finish) =
        run(|a| issue_update(&args, &here(), a), vec![ok(r#"{"id": "i1"}"#)]);
    assert_eq!(
        error_of(&finish),
        "Plane's response for RES-12 carries no `project`, so there is nothing to address."
    );
    args.priority = text("meh");
    let (asked, finish) = run(|a| issue_update(&args, &here(), a), vec![ok(ISSUE)]);
    assert_eq!(asked.len(), 1);
    assert!(error_of(&finish).starts_with("Invalid priority \"meh\"."));
}

// ---- comment ----

#[test]
fn a_comment_is_converted_before_it_is_written() {
    let (asked, finish) = run(
        |a| issue_comment("RES-12", "*x* <b>", false, &here(), a),
        vec![ok(ISSUE), ok("{}")],
    );
    assert_eq!(
        asked[1],
        r#"POST projects/p1/issues/i1/comments/  {"comment_html":"<p><em>x</em> &lt;b&gt;</p>\n"}"#
    );
    assert_eq!(finish.out.as_deref(), Some("Commented on RES-12"));
    let (asked, _) = run(
        |a| issue_comment("RES-12", "-", true, &here(), a),
        vec![ok(ISSUE), Answer::Text("y".to_string()), ok("{}")],
    );
    assert_eq!(asked[1], "read stdin");
}

// ---- attachments ----

const SLOT: &str = r#"{"upload_data": {"url": "http://s3", "fields": {"key": "k"}}, "asset_id": "a1", "asset_url": "/x"}"#;

#[test]
fn a_file_is_attached_in_three_calls_and_the_token_stays_with_the_api() {
    let files = vec!["/d/plan.pdf".to_string()];
    let (asked, finish) = run(
        |a| issue_attach("RES-12", &files, false, &here(), a),
        vec![
            ok(ISSUE),
            Answer::Measured(1536, true),
            ok(SLOT),
            status(204, ""),
            ok(""),
            Answer::Sizes(vec!["1.5 KB".to_string()]),
            Answer::Done,
        ],
    );
    assert_eq!(
        asked[1..],
        [
            "measure 0",
            r#"POST projects/p1/work-items/i1/attachments/  {"name":"plan.pdf","size":1536,"type":"application/pdf"}"#,
            r#"upload 0 http://s3 [("key", "k")] application/pdf"#,
            "PATCH projects/p1/work-items/i1/attachments/a1/  {}",
            "sizes 1536",
            "print Attached plan.pdf (1.5 KB, application/pdf) to RES-12",
        ]
    );
    assert_eq!(finish, Finish { out: None, error: None });
}

#[test]
fn a_failure_on_a_later_file_names_the_ones_that_landed() {
    let files = vec!["a.pdf".to_string(), "b".to_string(), "/".to_string()];
    let start = || vec![ok(ISSUE), Answer::Measured(5, true), ok(SLOT), ok(""), ok("")];
    let mut replies = start();
    replies.push(failed("gone"));
    let (_, finish) = run(|a| issue_attach("RES-12", &files, true, &here(), a), replies);
    assert_eq!(
        error_of(&finish),
        "1 of 3 files already landed on RES-12 (a.pdf). `attach` is not transactional, so a retry should list only the files that are missing.: Could not read b: gone"
    );
    // The first failure stands alone.
    let (_, finish) = run(
        |a| issue_attach("RES-12", &files, true, &here(), a),
        vec![ok(ISSUE), Answer::Measured(0, true)],
    );
    assert_eq!(
        error_of(&finish),
        "a.pdf is empty, and Plane's presigned upload requires at least one byte."
    );
    let (_, finish) = run(
        |a| issue_attach("RES-12", &files, true, &here(), a),
        vec![ok(ISSUE), Answer::Measured(7, false)],
    );
    assert_eq!(error_of(&finish), "a.pdf has no usable file name to upload under.");
    let one = vec!["a.pdf".to_string()];
    let (_, finish) = run(|a| issue_attach("RES-12", &one, true, &here(), a), start());
    let printed = Json::parse(&finish.out.unwrap()).unwrap();
    let entry = &printed.get("results").unwrap().as_array().unwrap()[0];
    assert_eq!(entry.get_str("id"), Some("a1"));
    assert_eq!(entry.get_str("asset_url"), Some("/x"));
    assert_eq!(entry.get("size"), Some(&Json::Int(5)));
}

#[test]
fn an_upload_that_breaks_off_says_where() {
    let files = vec!["a.pdf".to_string()];
    let end = |replies: Vec<Answer>| {
        let mut all = vec![ok(ISSUE), Answer::Measured(5, true)];
        all.extend(replies);
        error_of(&run(|a| issue_attach("RES-12", &files, true, &here(), a), all).1)
    };
    let cause = || Error::new("why".to_string());
    assert_eq!(end(vec![status(500, "x")]), "Could not request an upload slot for a.pdf: Plane returned 500: x");
    assert_eq!(end(vec![ok("{}")]), "Plane's response for a.pdf carries no `upload_data`.");
    assert_eq!(
        end(vec![ok(r#"{"upload_data": {}}"#)]),
        "Plane's response for a.pdf carries no `asset_id`, so there is nothing to address."
    );
    assert_eq!(
        end(vec![ok(SLOT), Answer::UploadFailed(Fault::Open, cause())]),
        "Could not open a.pdf for upload: why"
    );
    assert_eq!(
        end(vec![ok(SLOT), Answer::UploadFailed(Fault::Mime, cause())]),
        "Invalid MIME type \"application/pdf\": why"
    );
    assert_eq!(
        end(vec![ok(SLOT), Answer::UploadFailed(Fault::Send, cause())]),
        "Upload to http://s3 failed: why"
    );
    assert!(end(vec![ok(SLOT), status(403, "<x/>")])
        .starts_with("The presigned upload to http://s3 returned 403: <x/>\nA presigned target"));
    assert_eq!(
        end(vec![ok(SLOT), ok(""), status(500, "x")]),
        "a.pdf uploaded but the confirm failed, so it stays invisible on RES-12: Plane returned 500: x"
    );
}

#[test]
fn attachments_are_listed_oldest_first_with_their_sizes() {
    let list = r#"[
        {"id": "a2", "created_at": "2026-02", "size": 2048.5, "attributes": {"name": "b", "type": "t"}},
        {"id": "a1", "created_at": "2026-01", "attributes": {"name": "a"}, "is_uploaded": false}
    ]"#;
    let (asked, finish) = run(
        |a| issue_attachments("RES-12", false, &here(), a),
        vec![
            ok(ISSUE),
            ok(list),
            Answer::Sizes(vec!["0 B".to_string(), "2.0 KB".to_string()]),
        ],
    );
    assert_eq!(asked[1], "GET projects/p1/work-items/i1/attachments/ per_page=100");
    assert_eq!(asked[2], "sizes null,2048.5");
    assert_eq!(
        finish.out.as_deref(),
        Some("RES-12: 2 attachments\na  0 B     -  a1  (upload not confirmed)\nb  2.0 KB  t  a2")
    );
    let (asked, finish) =
        run(|a| issue_attachments("RES-12", false, &here(), a), vec![ok(ISSUE), ok("[]")]);
    assert_eq!(asked.len(), 2);
    assert_eq!(finish.out.as_deref(), Some("RES-12: no attachments"));
    let (_, finish) = run(
        |a| issue_attachments("RES-12", false, &here(), a),
        vec![ok(ISSUE), ok(list), Answer::Sizes(vec![])],
    );
    assert!(error_of(&finish).contains("does not fit"));
}

// ---- configuration ----

#[test]
fn a_setting_is_stored_beside_the_file_and_renamed_over_it() {
    let (asked, finish) = run(
        |a| config_set("web-base", " https://x/ ", false, &world(&[]), a),
        vec![
            Answer::Contents(text("workspace = 'acme'")),
            Answer::Done,
            Answer::Done,
            Answer::Done,
        ],
    );
    assert_eq!(
        asked,
        ["create dir", "write .config.toml.42.tmp 3", "rename .config.toml.42.tmp"]
    );
    assert_eq!(finish.out.as_deref(), Some("web_base = https://x  ->  /c/plane/config.toml"));

    let (_, finish) = run(
        |a| config_set("workspace", "b", false, &here(), a),
        vec![Answer::Done, Answer::Done, Answer::Done],
    );
    assert_eq!(
        finish.out.as_deref(),
        Some("workspace = b  ->  /c/plane/config.toml\nnote: PLANE_WORKSPACE is set in this environment and overrides the file.")
    );
}

#[test]
fn a_stored_token_is_never_printed_back() {
    for as_json in [false, true] {
        let (_, finish) = run(
            |a| config_set("api_key", "plane_pat_1", as_json, &world(&[]), a),
            vec![Answer::Done, Answer::Done, Answer::Done],
        );
        let out = finish.out.unwrap();
        assert!(!out.contains("plane_pat"), "{out}");
        if as_json {
            let printed = Json::parse(&out).unwrap();
            assert_eq!(printed.get("value"), Some(&Json::Null));
            assert_eq!(printed.get("secret"), Some(&Json::Bool(true)));
            assert_eq!(printed.get("shadowed_by_env"), Some(&Json::Bool(false)));
            assert_eq!(printed.get_str("path"), Some("/c/plane/config.toml"));
        } else {
            assert!(out.starts_with("api_key = (set)  ->  /c/plane/config.toml\nnote: stored in plaintext"), "{out}");
        }
    }
    let file = || vec![Answer::Contents(text("api_key = 'plane_pat_1'"))];
    for as_json in [false, true] {
        let (_, finish) = run(|a| config_show(as_json, &world(&[]), a), file());
        let out = finish.out.unwrap();
        assert!(!out.contains("plane_pat"), "{out}");
    }
}

#[test]
fn a_write_that_fails_removes_the_scratch_file() {
    let (asked, finish) = run(
        |a| config_set("workspace", "b", false, &world(&[]), a),
        vec![Answer::Done, failed("full"), Answer::Done],
    );
    assert_eq!(asked[2], "remove .config.toml.42.tmp");
    assert_eq!(error_of(&finish), "Failed to write /c/plane/.config.toml.42.tmp: full");
    let (asked, finish) = run(
        |a| config_set("workspace", "b", false, &world(&[]), a),
        vec![Answer::Done, Answer::Done, failed("busy"), failed("gone")],
    );
    assert_eq!(asked[3], "remove .config.toml.42.tmp");
    assert_eq!(error_of(&finish), "Failed to write /c/plane/config.toml: busy");
    let (_, finish) = run(
        |a| config_set("workspace", "b", false, &world(&[]), a),
        vec![failed("ro")],
    );
    assert_eq!(error_of(&finish), "Failed to create /c/plane: ro");
    let (asked, finish) = run(|a| config_set("workspace", " ", false, &world(&[]), a), vec![]);
    assert!(asked.is_empty());
    assert!(error_of(&finish).contains("cannot be set to an empty value"));
    let (_, finish) = run(|a| config_set("nope", "x", false, &world(&[]), a), vec![]);
    assert!(error_of(&finish).starts_with("Unknown config key `nope`."));
}

#[test]
fn unsetting_writes_only_where_there_was_something() {
    let (asked, finish) = run(
        |a| config_unset("workspace", false, &world(&[]), a),
        vec![
            Answer::Contents(text("workspace = 'a'")),
            Answer::Done,
            Answer::Done,
            Answer::Done,
        ],
    );
    assert_eq!(asked[1], "write .config.toml.42.tmp 1");
    assert_eq!(finish.out.as_deref(), Some("workspace removed from /c/plane/config.toml"));
    let (asked, finish) = run(|a| config_unset("workspace", false, &world(&[]), a), vec![]);
    assert!(asked.is_empty());
    assert_eq!(finish.out.as_deref(), Some("workspace was not set in /c/plane/config.toml"));
    let (_, finish) = run(|a| config_unset("workspace", true, &world(&[]), a), vec![]);
    let printed = Json::parse(&finish.out.unwrap()).unwrap();
    assert_eq!(printed.get("removed"), Some(&Json::Bool(false)));
}

#[test]
fn the_settings_are_shown_with_where_they_come_from() {
    let (_, finish) = run(|a| config_show(false, &world(&[]), a), vec![]);
    let out = finish.out.unwrap();
    assert!(out.starts_with("/c/plane/config.toml  (not written yet)\nworkspace   -"), "{out}");
    let (_, finish) = run(
        |a| config_show(false, &here(), a),
        vec![Answer::Contents(text("web_base = 'http://f'"))],
    );
    let out = finish.out.unwrap();
    let lines: Vec<&str> = out.lines().collect();
    assert_eq!(lines[0], "/c/plane/config.toml");
    assert_eq!(lines[3], "web_base    http://web  env");
    assert_eq!(lines[7], "api_key     (set)       env");
    assert_eq!(config_path(false, &here()).out.as_deref(), Some("/c/plane/config.toml"));
    assert_eq!(
        Json::parse(&config_path(true, &here()).out.unwrap()).unwrap().get_str("path"),
        Some("/c/plane/config.toml")
    );
    let mut nowhere = here();
    nowhere.config_home = None;
    assert!(error_of(&config_path(false, &nowhere)).starts_with("Could not locate"));
}
