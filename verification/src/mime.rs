//! Extension-to-MIME mapping for attachment uploads.
//!
//! Plane's presigned upload wants a `type` in step one and echoes it into the
//! S3 policy, so the value has to be decided before the file moves. Anything
//! unlisted falls back to `application/octet-stream`, which uploads and
//! downloads correctly, it just does not preview in the browser.

use crate::text;
use crate::text::Text;
use vstd::prelude::*;

verus! {

pub const FALLBACK: &'static str = "application/octet-stream";

/// Extensions worth naming, lowercase and without the dot.
pub const TABLE: [(&'static str, &'static str); 34] = [
    ("pdf", "application/pdf"),
    ("png", "image/png"),
    ("jpg", "image/jpeg"),
    ("jpeg", "image/jpeg"),
    ("gif", "image/gif"),
    ("webp", "image/webp"),
    ("svg", "image/svg+xml"),
    ("heic", "image/heic"),
    ("txt", "text/plain"),
    ("md", "text/markdown"),
    ("csv", "text/csv"),
    ("html", "text/html"),
    ("css", "text/css"),
    ("json", "application/json"),
    ("yaml", "application/yaml"),
    ("yml", "application/yaml"),
    ("xml", "application/xml"),
    ("zip", "application/zip"),
    ("gz", "application/gzip"),
    ("tar", "application/x-tar"),
    ("doc", "application/msword"),
    ("docx", "application/vnd.openxmlformats-officedocument.wordprocessingml.document"),
    ("xls", "application/vnd.ms-excel"),
    ("xlsx", "application/vnd.openxmlformats-officedocument.spreadsheetml.sheet"),
    ("ppt", "application/vnd.ms-powerpoint"),
    ("pptx", "application/vnd.openxmlformats-officedocument.presentationml.presentation"),
    ("ifc", "application/x-step"),
    ("dwg", "image/vnd.dwg"),
    ("dxf", "image/vnd.dxf"),
    ("mp3", "audio/mpeg"),
    ("m4a", "audio/mp4"),
    ("wav", "audio/wav"),
    ("mp4", "video/mp4"),
    ("mov", "video/quicktime"),
];

// ---- paths ----

// The components of a path are what stands between slashes.

/// A path without the slashes and `.` components that it ends with.
pub open spec fn bare_path(path: Text) -> Text
    decreases path.len(),
{
    let n = path.len() as int;
    if n > 0 && path[n - 1] == '/' {
        bare_path(path.drop_last())
    } else if n > 1 && path[n - 1] == '.' && path[n - 2] == '/' {
        bare_path(path.drop_last())
    } else {
        path
    }
}

/// The final component of a path, unless it is the root or goes up.
pub open spec fn name_in(path: Text) -> Option<Text> {
    let name = text::split(bare_path(path), '/').last();
    if name.len() == 0 || name == "."@ || name == ".."@ {
        None
    } else {
        Some(name)
    }
}

/// What follows the last dot of a file name, unless that dot is the first
/// character.
pub open spec fn extension_in(name: Text) -> Option<Text> {
    let pieces = text::split(name, '.');
    if pieces.len() < 2 || (pieces.len() == 2 && pieces[0].len() == 0) {
        None
    } else {
        Some(pieces.last())
    }
}

/// The final component of a path, unless it is the root or goes up.
pub fn file_name(path: &str) -> (r: Option<String>)
    ensures
        text::text_option(r) == name_in(path@),
{
    let chars = text::chars_of(path);
    let mut n: usize = chars.len();
    assert(path@.take(n as int) == path@);
    while n > 0 && (chars[n - 1] == '/' || (n > 1 && chars[n - 1] == '.' && chars[n - 2] == '/'))
        invariant
            chars@ == path@,
            n <= path@.len(),
            bare_path(path@) == bare_path(path@.take(n as int)),
        decreases n,
    {
        assert(path@.take(n as int).drop_last() == path@.take(n - 1));
        n -= 1;
    }
    assert(path@.take(n as int) == path@.subrange(0, n as int));
    let pieces = text::split_text(path.substring_char(0, n), '/');
    let last: usize = pieces.len() - 1;
    let name: &str = pieces[last].as_str();
    assert(text::texts(pieces@).last() == name@);
    if name.is_empty() || text::same(name, ".") || text::same(name, "..") {
        None
    } else {
        Some(name.to_string())
    }
}

/// What follows the last dot of a file name, unless that dot is the first
/// character.
pub fn extension(name: &str) -> (r: Option<String>)
    ensures
        text::text_option(r) == extension_in(name@),
{
    let pieces = text::split_text(name, '.');
    let n: usize = pieces.len();
    let ghost parts = text::texts(pieces@);
    assert(parts[0] == pieces@[0]@);
    assert(parts.last() == pieces@[n - 1]@);
    if n < 2 || (n == 2 && pieces[0].as_str().is_empty()) {
        None
    } else {
        Some(pieces[n - 1].clone())
    }
}

// ---- types ----

/// The type of a lowercase extension, from row `i` of the table on.
pub open spec fn listed_from(ext: Text, i: int) -> Text
    decreases 34 - i,
{
    if i < 0 || i >= 34 {
        FALLBACK@
    } else if TABLE@[i].0@ == ext {
        TABLE@[i].1@
    } else {
        listed_from(ext, i + 1)
    }
}

/// The type of a lowercase extension.
pub open spec fn type_of(ext: Text) -> Text {
    listed_from(ext, 0)
}

/// The type of a path, by its extension in lower case.
pub open spec fn type_of_path(path: Text) -> Text {
    match name_in(path) {
        None => FALLBACK@,
        Some(name) => match extension_in(name) {
            None => FALLBACK@,
            Some(ext) => type_of(text::lowercase(ext)),
        },
    }
}

/// The MIME type of an extension that is in lower case.
pub fn from_extension(ext: &str) -> (r: &'static str)
    ensures
        r@ == type_of(ext@),
{
    let mut i: usize = 0;
    while i < 34
        invariant
            i <= 34,
            type_of(ext@) == listed_from(ext@, i as int),
        decreases 34 - i,
    {
        if text::same(TABLE[i].0, ext) {
            return TABLE[i].1;
        }
        i += 1;
    }
    FALLBACK
}

/// The MIME type for a path, by extension, case-insensitively.
pub fn from_path(path: &str) -> (r: &'static str)
    ensures
        r@ == type_of_path(path@),
        name_in(path@) is Some && extension_in(name_in(path@)->0) is Some && text::all_ascii(
            extension_in(name_in(path@)->0)->0,
        ) ==> r@ == type_of(text::ascii_lowered(extension_in(name_in(path@)->0)->0)),
{
    match file_name(path) {
        None => FALLBACK,
        Some(name) => match extension(name.as_str()) {
            None => FALLBACK,
            Some(ext) => from_extension(text::to_lowercase(ext.as_str()).as_str()),
        },
    }
}

// ---- laws ----

/// The name in a path is what follows its last slash.
pub proof fn a_name_follows_the_last_slash(dir: Text, name: Text)
    requires
        name.len() > 0,
        !name.contains('/'),
        name != "."@,
        name != ".."@,
    ensures
        name_in(name) == Some(name),
        name_in(dir + "/"@ + name) == Some(name),
        name_in(dir + "/"@ + name + "/"@) == Some(name),
{
    reveal_strlit("/");
    reveal_strlit(".");
    let path = dir + "/"@ + name;
    assert(path =~= dir.push('/') + name);
    let n = path.len() as int;
    assert(path[n - 1] == name.last());
    assert(name.contains(name[name.len() - 1]));
    if name.len() == 1 && name[0] == '.' {
        assert(name =~= "."@);
    }
    if name.len() > 1 {
        assert(path[n - 2] == name[name.len() - 2]);
        assert(name.contains(name[name.len() - 2]));
    }
    assert(bare_path(path) == path);
    assert(bare_path(name) == name);
    text::lemma_split_joined(dir, name, '/');
    text::lemma_one_piece(name, '/');
    assert(text::split(path, '/').last() == name);
    assert((path + "/"@).drop_last() =~= path);
    assert((path + "/"@).last() == '/');
    assert(bare_path(path + "/"@) == path);
}

/// The extension of a name is what follows its last dot, and a name that has no
/// dot, or one at its front alone, has none.
pub proof fn an_extension_follows_the_last_dot(stem: Text, ext: Text)
    requires
        !ext.contains('.'),
    ensures
        stem.len() > 0 ==> extension_in(stem + "."@ + ext) == Some(ext),
        extension_in("."@ + ext) is None,
        extension_in(ext) is None,
{
    reveal_strlit(".");
    let name = stem + "."@ + ext;
    assert(name =~= stem.push('.') + ext);
    text::lemma_split_joined(stem, ext, '.');
    text::lemma_one_piece(ext, '.');
    text::splitting_takes_apart_at_each_separator(stem, '.', 0);
    if text::split(stem, '.').len() == 1 {
        assert(text::joined(text::split(stem, '.'), seq!['.']) == text::split(stem, '.')[0]);
    }
    assert(text::split(name, '.').last() == ext);
    let none = Seq::<char>::empty();
    assert("."@ + ext =~= none.push('.') + ext);
    text::lemma_split_joined(none, ext, '.');
    assert(text::split(none, '.') =~= seq![none]);
}

/// The type of a file is that of its extension, whatever the case; a file without
/// one is just bytes.
pub proof fn a_file_has_the_type_of_its_extension(dir: Text, stem: Text, ext: Text)
    requires
        stem.len() > 0,
        ext.len() > 0,
        !stem.contains('/'),
        !ext.contains('/'),
        !ext.contains('.'),
    ensures
        type_of_path(dir + "/"@ + (stem + "."@ + ext)) == type_of(text::lowercase(ext)),
        type_of_path(stem + "."@ + ext) == type_of(text::lowercase(ext)),
        type_of_path(dir + "/"@ + ext) == "application/octet-stream"@,
{
    reveal_strlit(".");
    reveal_strlit("..");
    let name = stem + "."@ + ext;
    assert(name.len() > 2);
    assert forall|i: int| 0 <= i < name.len() implies name[i] != '/' by {
        if i < stem.len() {
            assert(stem.contains(stem[i]));
        } else if i > stem.len() {
            assert(ext.contains(ext[i - stem.len() - 1]));
        }
    }
    a_name_follows_the_last_slash(dir, name);
    an_extension_follows_the_last_dot(stem, ext);
    assert(ext.contains(ext[0]));
    assert("."@[0] == '.' && ".."@[0] == '.');
    a_name_follows_the_last_slash(dir, ext);
}

/// The type of an extension is the one beside it in the table, in the first row
/// that has it; one that is in no row is just bytes.
pub proof fn a_type_is_the_one_in_the_table(ext: Text)
    ensures
        (exists|i: int|
            0 <= i < 34 && (#[trigger] TABLE@[i]).0@ == ext && TABLE@[i].1@ == type_of(ext)
                && forall|j: int| 0 <= j < i ==> (#[trigger] TABLE@[j]).0@ != ext) || ((forall|
            j: int,
        |
            0 <= j < 34 ==> (#[trigger] TABLE@[j]).0@ != ext) && type_of(ext)
            == "application/octet-stream"@),
{
    lemma_listed(ext, 0);
}

proof fn lemma_listed(ext: Text, from: int)
    requires
        0 <= from <= 34,
    ensures
        (exists|i: int|
            from <= i < 34 && (#[trigger] TABLE@[i]).0@ == ext && TABLE@[i].1@ == listed_from(
                ext,
                from,
            ) && forall|j: int| from <= j < i ==> (#[trigger] TABLE@[j]).0@ != ext) || ((forall|
            j: int,
        |
            from <= j < 34 ==> (#[trigger] TABLE@[j]).0@ != ext) && listed_from(ext, from)
            == FALLBACK@),
    decreases 34 - from,
{
    if from < 34 {
        if TABLE@[from].0@ != ext {
            lemma_listed(ext, from + 1);
        }
    }
}

} // verus!
