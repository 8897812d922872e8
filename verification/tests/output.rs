use plane::config::{Key, Resolved, Source, MASK};
use plane::json::Json;
use plane::output::{
    attachment_list, attachment_name, config_show, dash, emit, field, issue_detail, issue_list,
    issue_url, label_list, label_names, list_json, module_list, pad, project_list, required_field,
    state_list, state_name, width,
};

fn value(text: &str) -> Json {
    Json::parse(text).unwrap()
}

fn list(text: &str) -> Vec<Json> {
    match value(text) {
        Json::Array(items) => items,
        _ => panic!("not a list: {text}"),
    }
}

#[test]
fn state_is_read_in_place_not_from_state_detail() {
    let issue = value(r#"{"state": {"name": "Backlog"}, "state_detail": {"name": "WRONG"}}"#);
    assert_eq!(state_name(&issue), "Backlog");
    // Unexpanded: a bare UUID has no name, and must not be printed as one.
    let raw = value(r#"{"state": "26f751c0-0000-4000-8000-000000000000"}"#);
    assert_eq!(state_name(&raw), "");
}

#[test]
fn a_missing_id_errors_instead_of_becoming_an_empty_url_segment() {
    let issue = value(r#"{"id": "48284b59-0000-4000-8000-000000000000", "project": null}"#);
    assert_eq!(
        required_field(&issue, "id", "the created issue").unwrap(),
        "48284b59-0000-4000-8000-000000000000"
    );
    for missing in ["project", "absent"] {
        let err = required_field(&issue, missing, "the issue")
            .unwrap_err()
            .message();
        assert!(err.contains(&format!("carries no `{missing}`")), "{err}");
    }
    // An empty string is as unusable as an absent key.
    assert!(required_field(&value(r#"{"id": ""}"#), "id", "the issue").is_err());
}

#[test]
fn list_lines_align_on_the_widest_reference() {
    let issues = list(
        r#"[
            {"sequence_id": 5, "name": "Short", "priority": "low", "state": {"name": "Todo"}},
            {"sequence_id": 47, "name": "Long", "priority": "high", "state": {"name": "In Progress"}}
        ]"#,
    );
    let out = issue_list(&issues, "RES", "RES");
    let lines: Vec<&str> = out.lines().collect();
    assert_eq!(lines[0], "RES: 2 issues");
    assert!(lines[1].starts_with("RES-5   Todo         low   Short"));
    assert!(lines[2].starts_with("RES-47  In Progress  high  Long"));
}

#[test]
fn empty_fields_render_as_a_dash() {
    let issue =
        value(r#"{"name": "T", "sequence_id": 1, "priority": null, "state": {"name": "Todo"}}"#);
    let out = issue_detail(&issue, "RES-1", "acme", &None);
    assert!(out.contains("priority: -"));
    assert!(out.contains("due:      -"));
    assert!(out.contains("labels:   -"));
}

#[test]
fn attachment_rows_read_name_and_type_out_of_attributes() {
    let attachments = list(
        r#"[
            {"id": "a1", "size": 32.0, "is_uploaded": true,
             "attributes": {"name": "plan.pdf", "type": "application/pdf", "size": 32}},
            {"id": "a2", "size": 2048.0, "is_uploaded": false,
             "attributes": {"name": "half.zip", "type": "application/zip", "size": 2048}}
        ]"#,
    );
    let sizes = vec!["32 B".to_string(), "2.0 KB".to_string()];
    let out = attachment_list(&attachments, &sizes, "RES-50");
    let lines: Vec<&str> = out.lines().collect();
    assert_eq!(lines[0], "RES-50: 2 attachments");
    assert!(
        lines[1].starts_with("plan.pdf  32 B    application/pdf  a1"),
        "{}",
        lines[1]
    );
    assert!(
        lines[2].ends_with("a2  (upload not confirmed)"),
        "{}",
        lines[2]
    );
    assert_eq!(attachment_list(&vec![], &vec![], "RES-50"), "RES-50: no attachments");
}

#[test]
fn config_show_names_the_source_of_every_row_and_unset_where_there_is_none() {
    let row = |key: Key, value: Option<&str>, source: Source| Resolved {
        key,
        value: value.map(str::to_string),
        source,
    };
    let rows = vec![
        row(Key::Workspace, Some("acme"), Source::File),
        row(
            Key::ApiBase,
            Some("http://localhost:8090/api/v1"),
            Source::Default,
        ),
        // No default and never set: the row exists, the value does not.
        row(Key::WebBase, None, Source::Default),
        row(Key::PassField, Some("PAT"), Source::Env),
        // As `config::effective` hands it over: masked, source intact.
        row(Key::ApiKey, Some(MASK), Source::File),
    ];

    let out = config_show("/tmp/plane/config.toml", true, &rows);
    let lines: Vec<&str> = out.lines().collect();
    assert_eq!(lines[0], "/tmp/plane/config.toml");
    assert_eq!(lines[1], "workspace   acme                          file");
    assert_eq!(
        lines[2],
        "api_base    http://localhost:8090/api/v1  default"
    );
    assert_eq!(lines[3], "web_base    -                             unset");
    assert_eq!(lines[4], "pass_field  PAT                           env");
    assert_eq!(lines[5], "api_key     (set)                         file");
    assert_eq!(lines[6], "");
    assert!(lines[7].contains("The token itself is never printed."));

    // Whatever a token looks like, no substring of it reaches the table.
    assert!(!out.contains("plane_pat"), "{out}");

    // A file that is not there yet says so, so an all-`default` table
    // does not read as a file that was written and ignored.
    let out = config_show("/tmp/plane/config.toml", false, &rows);
    assert_eq!(
        out.lines().next().unwrap(),
        "/tmp/plane/config.toml  (not written yet)"
    );
}

#[test]
fn padding_counts_characters_not_bytes() {
    // Byte padding would misalign any row holding an umlaut.
    assert_eq!(pad("Grün", 6).chars().count(), 6);
}

#[test]
fn padding_never_cuts() {
    assert_eq!(pad("Grün", 6), "Grün  ");
    assert_eq!(pad("abc", 2), "abc");
    assert_eq!(pad("", 0), "");
    assert_eq!(width(&vec!["a".to_string(), "Grün".to_string(), "ab".to_string()]), 4);
    assert_eq!(width(&vec![]), 0);
    assert_eq!((dash(""), dash("x")), ("-", "x"));
}

#[test]
fn an_issue_is_shown_in_full() {
    let issue = value(
        r#"{"name": "T", "priority": "high", "target_date": "2026-08-15",
            "state": {"name": "Todo"}, "labels": [{"name": "deep"}, {"id": 1}, {"name": "quick"}],
            "description_html": "<p>a &amp; b</p>"}"#,
    );
    assert_eq!(
        issue_detail(&issue, "RES-1", "acme", &Some("https://x".to_string())),
        "RES-1  T\n  state:    Todo\n  priority: high\n  due:      2026-08-15\n  labels:   deep, quick\n  url:      https://x/acme/browse/RES-1/\n\na & b"
    );
    assert_eq!(
        issue_detail(&value("{}"), "RES-1", "acme", &None),
        "RES-1  \n  state:    -\n  priority: -\n  due:      -\n  labels:   -"
    );
    assert_eq!(label_names(&issue), vec!["deep", "quick"]);
    assert_eq!(issue_url(&None, "acme", "RES-1"), None);
}

#[test]
fn every_list_has_its_own_columns() {
    let projects = list(r#"[{"identifier": "A", "name": "Alpha", "id": "1"}, {"identifier": "LONG", "name": "B", "id": "2"}]"#);
    assert_eq!(project_list(&projects), "2 projects\nA     Alpha  1\nLONG  B      2");
    assert_eq!(project_list(&vec![]), "No projects");

    let modules = list(r#"[{"name": "M", "status": "planned", "id": "1"}, {"name": "Mod", "id": "2"}]"#);
    assert_eq!(module_list(&modules, "R"), "R: 2 modules\nM    planned    1\nMod  -          2");
    assert_eq!(module_list(&vec![], "R"), "R: no modules");

    let labels = list(r##"[{"name": "deep", "color": "#ff0000", "id": "1"}, {"name": "q", "id": "2"}]"##);
    assert_eq!(label_list(&labels, "R"), "R: 2 labels\ndeep  #ff0000    1\nq     -          2");
    assert_eq!(label_list(&vec![], "R"), "R: no labels");

    // A group that is missing stays blank, and one longer than its column whole.
    let states = list(r#"[{"name": "Todo", "group": "unstarted!", "id": "1"}, {"name": "Done", "id": "2"}]"#);
    assert_eq!(state_list(&states, "R"), "R: 2 states\nTodo  unstarted!  1\nDone             2");
    assert_eq!(state_list(&vec![], "R"), "R: no states");

    let issues = list(r#"[{"sequence_id": "x"}, {"sequence_id": -3, "name": "n"}]"#);
    assert_eq!(issue_list(&issues, "R", "R / M"), "R / M: 2 issues\nR-?   -  -  \nR--3  -  -  n");
    assert_eq!(issue_list(&vec![], "R", "R [Done]"), "R [Done]: no issues");
}

#[test]
fn an_attachment_without_attributes_is_still_a_row() {
    let attachments = list(r#"[{"id": "a1"}, {"attributes": {"name": "x"}, "is_uploaded": null}]"#);
    assert_eq!(attachment_name(&attachments[0]), "?");
    let sizes = vec!["0 B".to_string(), "10.0 KB".to_string()];
    assert_eq!(
        attachment_list(&attachments, &sizes, "R-1"),
        "R-1: 2 attachments\n?  0 B      -  a1\nx  10.0 KB  -"
    );
}

#[test]
fn a_value_is_printed_raw_or_rendered() {
    let raw = value(r#"{"b": 1, "a": [true, null, -2, 18446744073709551615, 1.5, "x"]}"#);
    assert_eq!(emit(&raw, false, "text".to_string()).as_deref(), Some("text"));
    assert_eq!(emit(&raw, false, String::new()), None);
    let printed = emit(&raw, true, String::new()).unwrap();
    assert!(printed.contains("\n  \"a\": [\n    true,\n    null,\n    -2,\n    18446744073709551615,\n    1.5,\n    \"x\"\n  ]"), "{printed}");
    assert_eq!(Json::parse(&printed).unwrap(), raw);
    assert_eq!(field(&raw, "b"), "");
    let listed = list_json(&vec![Json::Null, Json::Bool(true)]);
    assert_eq!(listed.get("count"), Some(&Json::Int(2)));
    assert_eq!(listed.get("results"), Some(&Json::Array(vec![Json::Null, Json::Bool(true)])));
}
