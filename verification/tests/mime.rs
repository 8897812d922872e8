use plane::mime::{extension, file_name, from_extension, from_path, FALLBACK, TABLE};
use std::path::Path;

#[test]
fn known_extensions_map_case_insensitively() {
    assert_eq!(from_path("a/b/report.pdf"), "application/pdf");
    assert_eq!(from_path("SCAN.PNG"), "image/png");
    assert_eq!(from_path("notes.MD"), "text/markdown");
    assert_eq!(from_path("model.ifc"), "application/x-step");
}

#[test]
fn anything_else_falls_back_rather_than_failing() {
    // No extension, an unknown one, and a dotfile that is all extension.
    assert_eq!(from_path("Makefile"), FALLBACK);
    assert_eq!(from_path("model.rvt"), FALLBACK);
    assert_eq!(from_path(".gitignore"), FALLBACK);
}

#[test]
fn the_table_has_no_duplicate_extensions() {
    // Two rows for one extension would make the mapping order-dependent.
    let mut seen: Vec<&str> = TABLE.iter().map(|(e, _)| *e).collect();
    seen.sort_unstable();
    let before = seen.len();
    seen.dedup();
    assert_eq!(seen.len(), before);
}

#[test]
fn every_row_of_the_table_is_found() {
    for (ext, mime) in TABLE.iter() {
        assert_eq!(from_extension(ext), *mime);
        assert_eq!(from_path(&format!("x.{}", ext.to_uppercase())), *mime);
    }
    assert_eq!(from_extension("PDF"), FALLBACK);
    // A letter beyond ASCII whose lower case is an ASCII one.
    assert_eq!(from_path("a.\u{212A}"), FALLBACK);
}

#[test]
fn names_and_extensions_are_those_of_the_path() {
    for path in [
        "", ".", "..", "/", "//", "a", "a/", "a/.", "a/./", "./a", "./.", "/.", "a/..", "../a.b",
        "/tmp/a b/Plan Ü.PDF", ".gitignore", ".a.b", "a.", "a..b", "...", "x/...", "a/b.tar.gz/",
        "a.b/c", ".x/.",
    ] {
        let name = Path::new(path).file_name().map(|n| n.to_str().unwrap().to_string());
        assert_eq!(file_name(path), name, "{path}");
        let ext = Path::new(path).extension().map(|e| e.to_str().unwrap().to_string());
        assert_eq!(name.and_then(|n| extension(&n)), ext, "{path}");
    }
}
