use plane::cmd::{
    attached_line, attachment_meta, config_show_json, write_body, IssueFields,
};
use plane::config::{Key, Resolved, Source, MASK};
use plane::json::Json;
use plane::mime;

fn at<'a>(v: &'a Json, path: &[&str]) -> &'a Json {
    path.iter().fold(v, |v, key| v.get(key).unwrap())
}

#[test]
fn the_json_view_reports_that_a_token_is_set_without_carrying_it() {
    let row = |key: Key, value: Option<&str>, source: Source| Resolved {
        key,
        value: value.map(str::to_string),
        source,
    };
    let rows = vec![
        row(Key::Workspace, Some("acme"), Source::File),
        // Masked by `config::effective` before it ever reaches here.
        row(Key::ApiKey, Some(MASK), Source::File),
    ];

    let out = config_show_json("/tmp/plane/config.toml", true, &rows);
    assert_eq!(at(&out, &["api_key_set"]), &Json::Bool(true));
    assert_eq!(at(&out, &["settings", "api_key", "value"]), &Json::Null);
    assert_eq!(at(&out, &["settings", "api_key", "set"]), &Json::Bool(true));
    assert_eq!(at(&out, &["settings", "api_key", "source"]), &Json::Text("file".to_string()));
    // The mask is a thing to print, not a value to hand a JSON consumer.
    assert!(!out.to_line().contains(MASK), "{}", out.to_line());
    // Ordinary settings still print their value.
    assert_eq!(at(&out, &["settings", "workspace", "value"]), &Json::Text("acme".to_string()));

    let rows = vec![row(Key::ApiKey, None, Source::Default)];
    let out = config_show_json("/tmp/plane/config.toml", true, &rows);
    assert_eq!(at(&out, &["api_key_set"]), &Json::Bool(false));
    assert_eq!(at(&out, &["settings", "api_key", "set"]), &Json::Bool(false));
    assert_eq!(at(&out, &["settings", "api_key", "value"]), &Json::Null);
}

#[test]
fn attachment_meta_takes_the_base_name_and_the_extension_mime() {
    let (name, mime) = attachment_meta("/tmp/a b/Plan Ü.PDF", 12).unwrap();
    assert_eq!(name, "Plan Ü.PDF");
    assert_eq!(mime, "application/pdf");
    let (_, mime) = attachment_meta("Makefile", 1).unwrap();
    assert_eq!(mime, mime::FALLBACK);
}

#[test]
fn an_empty_file_is_refused_before_the_upload_slot_is_requested() {
    let err = attachment_meta("/tmp/empty.txt", 0).unwrap_err().message();
    assert!(err.contains("is empty"), "{err}");
    // A path that ends in `..` has no file name to upload under.
    assert!(attachment_meta("/tmp/..", 5).is_err());
}

#[test]
fn labels_are_written_under_labels_never_under_label_ids() {
    let body = write_body(&IssueFields {
        name: Some("T".into()),
        label_ids: Some(vec!["aaa".into(), "bbb".into()]),
        ..IssueFields::default()
    })
    .object();
    // The whole point of the feature: `label_ids` is accepted with a 200
    // and silently writes nothing, so this key is pinned here rather than
    // discovered on a live instance months later.
    assert!(body.get("labels").is_some(), "{body:?}");
    assert!(body.get("label_ids").is_none(), "{body:?}");
    assert_eq!(
        at(&body, &["labels"]),
        &Json::Array(vec![Json::Text("aaa".into()), Json::Text("bbb".into())])
    );
}

#[test]
fn an_unset_field_is_absent_rather_than_null() {
    // A PATCH body is a delta: a key present with null would clear the
    // field instead of leaving it alone.
    let body = write_body(&IssueFields {
        state_id: Some("s1".into()),
        ..IssueFields::default()
    });
    assert_eq!(body.entries.iter().map(|(k, _)| k.as_str()).collect::<Vec<_>>(), vec!["state"]);
    assert!(write_body(&IssueFields::default()).entries.is_empty());
}

#[test]
fn every_field_of_a_write_has_its_key() {
    let body = write_body(&IssueFields {
        name: Some("n".into()),
        description_html: Some("d".into()),
        state_id: Some("s".into()),
        priority: Some("p".into()),
        target_date: Some("t".into()),
        label_ids: Some(vec![]),
    })
    .object();
    assert_eq!(
        body,
        Json::Object(vec![
            ("name".into(), Json::Text("n".into())),
            ("description_html".into(), Json::Text("d".into())),
            ("state".into(), Json::Text("s".into())),
            ("priority".into(), Json::Text("p".into())),
            ("target_date".into(), Json::Text("t".into())),
            ("labels".into(), Json::Array(vec![])),
        ])
    );
    let entry = Json::parse(r#"{"name": "plan.pdf", "type": "application/pdf"}"#).unwrap();
    assert_eq!(
        attached_line(&entry, "1.5 KB", "RES-1"),
        "Attached plan.pdf (1.5 KB, application/pdf) to RES-1"
    );
}
