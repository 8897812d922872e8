use plane::client::{
    bare_array_warning, next_cursor, prepare_upload, read_page, receive, receive_upload, Page,
    PAGE_SIZE,
};
use plane::json::Json;
use plane::names::{
    find_by_name, find_identifier, find_key, find_project, known_priority, label_ids, no_such_name, normalize,
    normalize_priority, pick, pick_id, resolve_all, validate_date, IssueRef,
};
use plane::script::Reply;

fn value(text: &str) -> Json {
    Json::parse(text).unwrap()
}

fn list(text: &str) -> Vec<Json> {
    match value(text) {
        Json::Array(items) => items,
        _ => panic!("not a list: {text}"),
    }
}

#[test]
fn issue_ref_uppercases_the_identifier() {
    assert_eq!(IssueRef::parse("res-12").unwrap().as_str(), "RES-12");
    assert_eq!(IssueRef::parse(" RES-12 ").unwrap().as_str(), "RES-12");
}

#[test]
fn issue_ref_rejects_junk() {
    for bad in ["RES", "RES-", "-12", "RES-12a", "RES 12", ""] {
        assert!(IssueRef::parse(bad).is_err(), "should reject {bad}");
    }
}

#[test]
fn normalize_folds_case_and_separators() {
    assert_eq!(normalize("In Progress"), "inprogress");
    assert_eq!(normalize("in-progress"), "inprogress");
    assert_eq!(normalize("Paper 2 Drawings"), "paper2drawings");
}

#[test]
fn priority_is_validated() {
    assert_eq!(normalize_priority("HIGH").unwrap(), "high");
    assert!(normalize_priority("important").is_err());
}

#[test]
fn a_repeated_cursor_is_refused_rather_than_followed() {
    let page = value(r#"{"next_page_results": true, "next_cursor": "100:0:0"}"#);
    // First sight of the cursor: follow it.
    assert_eq!(next_cursor(&page, None).unwrap().as_deref(), Some("100:0:0"));
    // Same cursor again: the list is not advancing.
    let err = next_cursor(&page, Some("100:0:0")).unwrap_err().message();
    assert!(err.contains("repeated the pagination cursor"), "{err}");
}

#[test]
fn pagination_stops_when_the_envelope_says_so() {
    let last = value(r#"{"next_page_results": false, "next_cursor": "100:1:0"}"#);
    assert_eq!(next_cursor(&last, None).unwrap(), None);
    // `next_page_results` true but no cursor to follow is also the end.
    let truncated = value(r#"{"next_page_results": true}"#);
    assert_eq!(next_cursor(&truncated, None).unwrap(), None);
}

#[test]
fn a_full_page_bare_array_warns_about_truncation() {
    assert!(bare_array_warning("projects/", PAGE_SIZE as usize - 1).is_none());
    let warning = bare_array_warning("projects/", PAGE_SIZE as usize).unwrap();
    assert!(warning.contains("may be truncated"), "{warning}");
}

#[test]
fn labels_resolve_by_name_and_deduplicate() {
    let labels = list(
        r#"[
            {"id": "aaa", "name": "waiting"},
            {"id": "bbb", "name": "deep"},
            {"id": "ccc", "name": "quick"}
        ]"#,
    );
    let names = vec![
        "WAITING".to_string(),
        "deep".to_string(),
        "waiting".to_string(),
    ];
    let found = resolve_all(&labels, &names, "label").unwrap();
    let ids: Vec<&str> = found
        .iter()
        .map(|l| l.get("id").unwrap().as_str().unwrap())
        .collect();
    // Asked-for order kept, the repeat folded away: the API takes the
    // whole set, so a duplicate would otherwise ride along in the payload.
    assert_eq!(ids, vec!["aaa", "bbb"]);
}

#[test]
fn a_mistyped_label_errors_with_the_real_list() {
    let labels = list(r#"[{"id": "aaa", "name": "waiting"}, {"id": "bbb", "name": "deep"}]"#);
    let err = resolve_all(&labels, &vec!["wating".to_string()], "label")
        .unwrap_err()
        .message();
    assert!(err.contains("No label named \"wating\""), "{err}");
    assert!(err.contains("waiting, deep"), "{err}");
    // A project with no labels at all still says something usable.
    let empty = no_such_name("label", "deep", &vec![]).message();
    assert!(empty.contains("Available: none"), "{empty}");
}

#[test]
fn date_shape_is_validated() {
    assert_eq!(validate_date("2026-08-15").unwrap(), "2026-08-15");
    for bad in ["2026-8-15", "15-08-2026", "tomorrow", "2026-08-15T00:00"] {
        assert!(validate_date(bad).is_err(), "should reject {bad}");
    }
}

#[test]
fn priorities_match_like_every_other_name() {
    assert_eq!(normalize_priority(" Ur-gent ").unwrap(), "urgent");
    assert_eq!(normalize_priority("no_ne").unwrap(), "none");
    assert!(known_priority("medium"));
    assert!(!known_priority("Medium"));
    assert_eq!(
        normalize_priority("soon").unwrap_err().message(),
        "Invalid priority \"soon\". Use one of: urgent, high, medium, low, none"
    );
}

#[test]
fn refusals_echo_what_was_typed() {
    assert_eq!(
        validate_date(" 2026-8-15 ").unwrap_err().message(),
        "Invalid date \"2026-8-15\". Use YYYY-MM-DD."
    );
    assert_eq!(
        IssueRef::parse(" RES ").unwrap_err().message(),
        "Invalid issue reference \"RES\". Expected e.g. RES-12."
    );
    // A reference is a fixed point of its own spelling.
    let once = IssueRef::parse("a1-007").unwrap();
    assert_eq!(once.as_str(), "A1-007");
    assert_eq!(IssueRef::parse(once.as_str()).unwrap().as_str(), once.as_str());
}

#[test]
fn letters_beyond_ascii_fold_too() {
    assert_eq!(normalize("GRÜN_Ä"), "grünä");
    assert_eq!(normalize("ΣΑΣ"), "σασ");
    let states = list(r#"[{"id": "1", "name": "PRÜFUNG"}]"#);
    assert!(find_by_name(&states, "prü-fung").is_some());
    assert!(find_by_name(&states, "prufung").is_none());
}

#[test]
fn the_first_matching_name_is_taken() {
    let keys = vec![None, Some("b".to_string()), Some("a".to_string()), Some("b".to_string())];
    assert_eq!(find_key(&keys, "b"), 1);
    assert_eq!(find_key(&keys, "c"), 4);
    let items = list(r#"[{"id": "1"}, {"id": "2", "name": "To do"}, {"id": "3", "name": "todo"}]"#);
    assert_eq!(pick_id("state", "State", &items, "TO-DO").unwrap(), "2");
    assert_eq!(
        pick("state", &items, "done").unwrap_err().message(),
        "No state named \"done\" in this project. Available: To do, todo"
    );
    let nameless = list(r#"[{"name": "Todo"}]"#);
    assert_eq!(
        pick_id("state", "State", &nameless, "todo").unwrap_err().message(),
        "State \"todo\" has no id"
    );
}

#[test]
fn every_spelling_of_a_name_finds_the_same_thing() {
    let items = list(r#"[{"id": "1", "name": "Backlog"}, {"id": "2", "name": "In Progress"}]"#);
    for spelling in ["In Progress", "in progress", "IN-PROGRESS", "in_progress", "inProgress"] {
        assert_eq!(find_by_name(&items, spelling), Some(&items[1]), "{spelling}");
    }
    assert_eq!(find_by_name(&items, "progress"), None);
    let reference = IssueRef::parse("res-12").unwrap();
    assert_eq!(reference.clone().as_str(), reference.as_str());
}

#[test]
fn labels_without_an_id_cannot_be_written() {
    let labels = list(r#"[{"id": "aaa", "name": "deep"}, {"id": "bbb"}]"#);
    assert_eq!(label_ids(&labels).unwrap(), vec!["aaa", "bbb"]);
    let labels = list(r#"[{"id": "aaa", "name": "deep"}, {"name": "quick"}, {"id": 1}]"#);
    assert_eq!(label_ids(&labels).unwrap_err().message(), "Label \"quick\" has no id");
}

#[test]
fn projects_are_found_by_identifier_without_case() {
    let projects = list(r#"[{"id": "1"}, {"id": "2", "identifier": "res"}, {"id": "3", "identifier": "RES"}]"#);
    let found = find_project(&projects, " Res ").unwrap();
    assert_eq!(found.get_str("id"), Some("2"));
    assert!(find_identifier(&projects, "LOC").is_none());
    // The name in the error is what was looked for, in upper case.
    assert_eq!(
        find_project(&projects, "löc").unwrap_err().message(),
        "No project with identifier LÖC. Try `plane project list`."
    );
}

fn reply(code: u16, status: &str, body: &str) -> Reply {
    Reply {
        code,
        status: status.to_string(),
        location: String::new(),
        body: body.to_string(),
    }
}

#[test]
fn responses_become_values_or_reasons() {
    assert_eq!(receive("acme", &reply(200, "200 OK", "[1]")).unwrap(), Json::Array(vec![Json::Int(1)]));
    assert_eq!(receive("acme", &reply(204, "204 No Content", " \n")).unwrap(), Json::Null);
    let e = receive("acme", &reply(200, "200 OK", "<html>")).unwrap_err();
    assert_eq!(e.message(), "Plane returned a body that is not JSON");
    assert!(e.full().len() > e.message().len(), "{}", e.full());

    let mut moved = reply(301, "301 Moved Permanently", "");
    let e = receive("acme", &moved).unwrap_err().message();
    assert!(
        e.starts_with("Plane returned 301 Moved Permanently and the redirect was not followed.\n"),
        "{e}"
    );
    moved.location = "/projects/".to_string();
    let e = receive("acme", &moved).unwrap_err().message();
    assert!(e.contains("was not followed to /projects/.\n"), "{e}");
}

#[test]
fn failed_responses_say_what_to_check() {
    let e = receive("acme", &reply(404, "404 Not Found", " gone ")).unwrap_err().message();
    assert_eq!(e, "Plane returned 404 Not Found: gone");
    let e = receive("acme", &reply(429, "429 Too Many Requests", "")).unwrap_err().message();
    assert!(e.ends_with("wait a minute and retry."), "{e}");
    for code in [401, 403] {
        let e = receive("Acme", &reply(code, "no", "")).unwrap_err().message();
        assert!(e.ends_with("and this request used \"Acme\"."), "{e}");
    }
    for code in [502, 503] {
        let e = receive("acme", &reply(code, "no", "")).unwrap_err().message();
        assert!(e.ends_with("a 502 right after one is expected."), "{e}");
    }
    // 500 bytes are shown whole; more are cut to 500 characters.
    let e = receive("acme", &reply(500, "s", &"x".repeat(500))).unwrap_err().message();
    assert_eq!(e, format!("Plane returned s: {}", "x".repeat(500)));
    let e = receive("acme", &reply(500, "s", &"x".repeat(501))).unwrap_err().message();
    assert_eq!(e, format!("Plane returned s: {}...", "x".repeat(500)));
    let e = receive("acme", &reply(500, "s", &"ü".repeat(251))).unwrap_err().message();
    assert_eq!(e, format!("Plane returned s: {}...", "ü".repeat(251)));
}

#[test]
fn a_page_is_an_envelope_or_a_bare_array() {
    let page = value(r#"{"results": [1, 2], "next_page_results": true, "next_cursor": "c1"}"#);
    assert_eq!(
        read_page("p/", &page, None),
        Page::More(vec![Json::Int(1), Json::Int(2)], "c1".to_string())
    );
    match read_page("p/", &page, Some("c1")) {
        Page::Fault(e) => assert!(e.message().contains("\"c1\""), "{}", e.message()),
        _ => panic!("a repeated cursor is a fault"),
    }
    assert_eq!(read_page("p/", &value("[1]"), None), Page::Last(vec![Json::Int(1)], None));
    match read_page("p/", &value("{}"), None) {
        Page::Fault(e) => assert_eq!(e.message(), "Expected a list response from p/"),
        _ => panic!("an object without results is no list"),
    }
    let full = format!("[{}]", vec!["0"; 100].join(","));
    match read_page("p/", &value(&full), None) {
        Page::Last(items, warning) => {
            assert_eq!(items.len(), 100);
            assert_eq!(
                warning.unwrap(),
                "Warning: p/ answered with a bare array of 100 items and no pagination envelope, which is the full page size. The result may be truncated."
            );
        }
        _ => panic!("a bare array is the whole list"),
    }
}

#[test]
fn a_presigned_target_is_posted_as_it_was_described() {
    let data = value(r#"{"url": "http://s3/x", "fields": {"a": "1", "b": "2"}}"#);
    let upload = prepare_upload(&data, 3, "image/png").unwrap();
    assert_eq!(upload.url, "http://s3/x");
    assert_eq!(
        upload.fields,
        vec![("a".to_string(), "1".to_string()), ("b".to_string(), "2".to_string())]
    );
    assert_eq!((upload.file, upload.mime.as_str()), (3, "image/png"));
    assert_eq!(
        prepare_upload(&value(r#"{"fields": {}}"#), 0, "m").unwrap_err().message(),
        "Plane's upload response carries no `upload_data.url`."
    );
    assert_eq!(
        prepare_upload(&value(r#"{"url": "u", "fields": []}"#), 0, "m").unwrap_err().message(),
        "Plane's upload response carries no `upload_data.fields`."
    );
    assert_eq!(
        prepare_upload(&value(r#"{"url": "u", "fields": {"k": 1}}"#), 0, "m").unwrap_err().message(),
        "Plane's presigned field `k` is not a string, so it cannot be posted."
    );
    assert!(receive_upload("u", &reply(204, "204 No Content", "")).is_ok());
    let e = receive_upload("u", &reply(403, "403 Forbidden", &"é".repeat(600))).unwrap_err();
    assert!(
        e.message().starts_with(&format!(
            "The presigned upload to u returned 403 Forbidden: {}\nA presigned",
            "é".repeat(500)
        )),
        "{}",
        e.message()
    );
}

#[test]
fn folding_a_name_twice_is_folding_it_once() {
    for c in '\0'..=char::MAX {
        let once = normalize(&c.to_string());
        assert_eq!(normalize(&once), once, "{c:?}");
        // What a letter becomes holds no separator, and each of it is lower case already.
        for d in c.to_lowercase().filter(|d| *d != c) {
            assert!(d.to_lowercase().eq([d]) && !matches!(d, ' ' | '-' | '_'), "{c:?}");
        }
    }
}
