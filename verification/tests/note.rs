use plane::error::Error;
use plane::note::{check_uuid, frontmatter, is_uuid, parse, read, scalar};
use plane::script::{Answer, Ask, Stop, Talk};

const NOTE: &str = "---\ntype: project\naliases:\n  - Widgets\nplane_workspace: acme\nplane_project: ACME\nplane_project_id: 3f00e638-0000-4000-8000-000000000000\nplane_module: Widget Redesign\nplane_module_id: 17f8619e-0000-4000-8000-000000000000\n---\n# body\n";

#[test]
fn reads_both_ids() {
    let front = frontmatter(NOTE).unwrap();
    assert_eq!(
        scalar(front, "plane_project_id").as_deref(),
        Some("3f00e638-0000-4000-8000-000000000000")
    );
    assert_eq!(
        scalar(front, "plane_module_id").as_deref(),
        Some("17f8619e-0000-4000-8000-000000000000")
    );
    assert_eq!(
        scalar(front, "plane_module").as_deref(),
        Some("Widget Redesign")
    );
}

#[test]
fn a_missing_module_reads_as_none_not_an_error() {
    // A bridged note with no module at all, which is a real shape.
    let note = "---\nplane_project: DOCS\nplane_project_id: 77e32b15-0000-4000-8000-000000000000\n---\nbody\n";
    let front = frontmatter(note).unwrap();
    assert_eq!(scalar(front, "plane_module_id"), None);
}

#[test]
fn an_empty_value_reads_as_absent() {
    let front = frontmatter("---\nend_by:\nplane_module_id:\n---\n").unwrap();
    assert_eq!(scalar(front, "plane_module_id"), None);
}

#[test]
fn quoted_values_are_unwrapped_and_nested_keys_ignored() {
    let front = frontmatter("---\narea: \"[[teaching]]\"\naliases:\n  - plane_module_id: nope\nplane_module_id: real\n---\n").unwrap();
    assert_eq!(scalar(front, "area").as_deref(), Some("[[teaching]]"));
    assert_eq!(scalar(front, "plane_module_id").as_deref(), Some("real"));
}

#[test]
fn ids_that_are_not_uuids_are_refused() {
    assert!(is_uuid("3f00e638-0000-4000-8000-0000000000ff"));
    assert!(is_uuid("3F00E638-0000-4000-8000-0000000000FF"));
    for bad in [
        // Path traversal out of the workspace.
        "../../../workspaces/other/projects/deadbeef",
        // Query-string injection into the URL.
        "abc?x=1",
        "3f00e638-0000-4000-8000-0000000000ff/../x",
        "3f00e638-0000-4000-8000-0000000000f",
        "3f00e638_0000_4000_8000_0000000000ff",
        "gggggggg-0000-4000-8000-0000000000ff",
        "",
    ] {
        assert!(!is_uuid(bad), "should reject {bad}");
    }
}

#[test]
fn a_traversing_id_fails_the_read_with_the_note_named() {
    let raw = "---\nplane_project_id: ../../../workspaces/other/projects/deadbeef\n---\nbody\n";
    let err = parse("/notes/bad.md", raw).unwrap_err().message();
    assert!(err.contains("is not a UUID"), "{err}");
    assert!(err.starts_with("/notes/bad.md has `plane_project_id: ../"), "{err}");
}

#[test]
fn a_note_without_frontmatter_is_detected() {
    assert!(frontmatter("# just a heading\n").is_none());
}

#[test]
fn a_whole_note_is_read() {
    let refs = parse("n.md", NOTE).unwrap();
    assert_eq!(refs.project_id, "3f00e638-0000-4000-8000-000000000000");
    assert_eq!(refs.module_id.as_deref(), Some("17f8619e-0000-4000-8000-000000000000"));
    assert_eq!(refs.project_identifier.as_deref(), Some("ACME"));
    assert_eq!(refs.module_name.as_deref(), Some("Widget Redesign"));
    // Carriage returns belong to the line endings.
    let refs = parse("n.md", &NOTE.replace('\n', "\r\n")).unwrap();
    assert_eq!(refs.module_name.as_deref(), Some("Widget Redesign"));
}

#[test]
fn a_note_that_carries_no_project_says_so() {
    assert_eq!(
        parse("n.md", "# x\n").unwrap_err().message(),
        "n.md has no YAML frontmatter, so it carries no Plane IDs."
    );
    // A fence that is never closed is no frontmatter.
    assert!(frontmatter("---\na: b\n").is_none());
    assert_eq!(
        parse("n.md", "---\na: b\n---\n").unwrap_err().message(),
        "n.md has no `plane_project_id` in its frontmatter, so there is no Plane project to create in."
    );
    let raw = "---\nplane_project_id: 3f00e638-0000-4000-8000-000000000000\nplane_module_id: x\n---\n";
    assert!(parse("n.md", raw).unwrap_err().message().contains("`plane_module_id: x`"));
    assert!(check_uuid("x", "k", "p").is_err());
}

#[test]
fn the_first_top_level_entry_decides() {
    assert_eq!(scalar("k: 'a'\nk: b", "k").as_deref(), Some("a"));
    assert_eq!(scalar("k:\nk: b", "k"), None);
    assert_eq!(scalar("\tk: a\n-k: b\n k: c\nk : d", "k").as_deref(), Some("d"));
    assert_eq!(scalar("k: \" 'x' \" ", "k").as_deref(), Some("'x'"));
    assert_eq!(scalar("k: \"'x'\" ", "k").as_deref(), Some("x"));
    assert_eq!(scalar("url: http://x:1", "url").as_deref(), Some("http://x:1"));
    assert_eq!(scalar("no colon", "no colon"), None);
    assert_eq!(scalar("x: 1\r\n k: 2\r\nk:  'a' \r\nk: b", "k").as_deref(), Some("a"));
    assert_eq!(scalar("", "k"), None);
}

#[test]
fn a_note_that_cannot_be_read_is_named() {
    let answers: Vec<Answer> = Vec::new();
    let mut talk = Talk::new(&answers);
    assert!(read("n.md", &mut talk) == Err(Stop::Ask(Ask::ReadNote)));
    let answers = vec![Answer::Failed(Error::new("denied".to_string()))];
    let mut talk = Talk::new(&answers);
    match read("n.md", &mut talk) {
        Err(Stop::Fail(e)) => assert_eq!(e.full(), "Could not read note n.md: denied"),
        _ => panic!("an unreadable note is a failure"),
    }
}

#[test]
fn a_fence_below_the_opening_one_closes_an_empty_block() {
    assert_eq!(frontmatter("---\n---\nbody\n---\n"), Some(""));
    assert_eq!(frontmatter("---\r\n---\r\nbody\r\n---\r\n"), Some(""));
    assert_eq!(frontmatter("---\n---"), Some(""));
    assert_eq!(frontmatter("---\n\n---\nbody\n"), Some(""));
    assert_eq!(frontmatter("---\na: b\n---\nbody\n---\n"), Some("a: b"));
    let body = "---\n---\nplane_project_id: 3f00e638-0000-4000-8000-000000000000\n---\n";
    assert_eq!(
        parse("n.md", body).unwrap_err().message(),
        "n.md has no `plane_project_id` in its frontmatter, so there is no Plane project to create in."
    );
}
