//! Reading Plane IDs out of an Obsidian note's frontmatter.
//!
//! Every bridged note denormalizes both UUIDs into its own YAML header, so this
//! is two string reads and no traversal.
//!
//! `plane_module_id` is optional on purpose. A bridged note need not belong to a
//! module, and those must create at project level rather than fail.

use crate::error::Error;
use crate::script;
use crate::script::{AnswerView, Ask, AskView, Heard, Stop, Talk, TalkView};
use crate::text;
use crate::text::Text;
use vstd::prelude::*;

verus! {

#[derive(Debug, PartialEq, Eq)]
pub struct NoteRefs {
    pub project_id: String,
    pub module_id: Option<String>,
    /// `plane_project` (e.g. `RES`), for output only.
    pub project_identifier: Option<String>,
    /// `plane_module` (e.g. `Paper 2 Drawings`), for output only.
    pub module_name: Option<String>,
}

/// What a [`NoteRefs`] holds.
pub struct NoteView {
    pub project_id: Text,
    pub module_id: Option<Text>,
    pub project_identifier: Option<Text>,
    pub module_name: Option<Text>,
}

impl View for NoteRefs {
    type V = NoteView;

    open spec fn view(&self) -> NoteView {
        NoteView {
            project_id: self.project_id@,
            module_id: text::text_option(self.module_id),
            project_identifier: text::text_option(self.project_identifier),
            module_name: text::text_option(self.module_name),
        }
    }
}

impl Clone for NoteRefs {
    fn clone(&self) -> (r: Self)
        ensures
            r@ == self@,
    {
        NoteRefs {
            project_id: self.project_id.clone(),
            module_id: self.module_id.clone(),
            project_identifier: self.project_identifier.clone(),
            module_name: self.module_name.clone(),
        }
    }
}

// ---- frontmatter ----

/// What follows the opening fence of a note.
pub open spec fn after_fence(raw: Text) -> Option<Text> {
    if text::starts(raw, "---\n"@) {
        Some(raw.skip("---\n"@.len() as int))
    } else if text::starts(raw, "---\r\n"@) {
        Some(raw.skip("---\r\n"@.len() as int))
    } else {
        None
    }
}

/// The frontmatter block of a note, without its `---` fences. A fence directly
/// below the opening one closes an empty block.
pub open spec fn front_of(raw: Text) -> Option<Text> {
    match after_fence(raw) {
        None => None,
        Some(rest) => if text::starts(rest, "---"@) {
            Some(Seq::empty())
        } else {
            match text::first_of(rest, "\n---"@) {
                Some(end) => Some(rest.take(end)),
                None => None,
            }
        },
    }
}

/// Return the frontmatter block of a note, without its `---` fences. A fence
/// directly below the opening one closes an empty block.
pub fn frontmatter(raw: &str) -> (r: Option<&str>)
    ensures
        match r {
            Some(front) => front_of(raw@) == Some(front@),
            None => front_of(raw@) is None,
        },
{
    let rest: &str = match text::strip_prefix(raw, "---\n") {
        Some(rest) => rest,
        None => match text::strip_prefix(raw, "---\r\n") {
            Some(rest) => rest,
            None => {
                return None;
            },
        },
    };
    if text::strip_prefix(rest, "---").is_some() {
        return Some(rest.substring_char(0, 0));
    }
    match text::find(rest, "\n---") {
        Some(end) => {
            assert(rest@.take(end as int) == rest@.subrange(0, end as int));
            Some(rest.substring_char(0, end))
        },
        None => None,
    }
}

/// Whether a line belongs to a nested block.
pub open spec fn is_nested(line: Text) -> bool {
    line.len() > 0 && (line[0] == ' ' || line[0] == '\t' || line[0] == '-')
}

/// Whether a line is the top-level entry of a key.
pub open spec fn is_entry(line: Text, key: Text) -> bool {
    let colon = text::position(line, ':') as int;
    &&& !is_nested(line)
    &&& colon < line.len()
    &&& text::trimmed(line.take(colon)) == key
}

/// The value of an entry, without quotes. An empty value is how the vault
/// spells "none".
pub open spec fn entry_value(line: Text) -> Option<Text> {
    let colon = text::position(line, ':') as int;
    let value = text::trimmed(
        text::stripped(text::trimmed(line.skip(colon + 1)), text::Class::Quote),
    );
    if value.len() == 0 {
        None
    } else {
        Some(value)
    }
}

/// The value of the first entry of a key.
pub open spec fn value_in(lines: Seq<Text>, key: Text) -> Option<Text>
    decreases lines.len(),
{
    if lines.len() == 0 {
        None
    } else if is_entry(lines[0], key) {
        entry_value(lines[0])
    } else {
        value_in(lines.drop_first(), key)
    }
}

/// A top-level scalar of a frontmatter block.
pub open spec fn scalar_of(front: Text, key: Text) -> Option<Text> {
    value_in(text::lines(front), key)
}

/// Read a top-level scalar key. Quotes are stripped; empty values read as
/// absent.
pub fn scalar(front: &str, key: &str) -> (r: Option<String>)
    ensures
        text::text_option(r) == scalar_of(front@, key@),
{
    let lines = text::lines_of(front);
    let ghost all = text::lines(front@);
    let mut i: usize = 0;
    assert(all.skip(0) == all);
    while i < lines.len()
        invariant
            i <= lines@.len(),
            all == text::texts(lines@),
            all == text::lines(front@),
            scalar_of(front@, key@) == value_in(all.skip(i as int), key@),
        decreases lines@.len() - i,
    {
        let line: &str = lines[i].as_str();
        let ghost whole = line@;
        assert(all[i as int] == line@);
        assert(all.skip(i as int).drop_first() == all.skip(i + 1));
        let chars = text::chars_of(line);
        let n: usize = chars.len();
        let nested: bool = n > 0 && (chars[0] == ' ' || chars[0] == '\t' || chars[0] == '-');
        let colon: usize = text::find_char(&chars, ':');
        if !nested && colon < n {
            let name: &str = line.substring_char(0, colon);
            assert(name@ == whole.take(colon as int));
            if text::same(text::trim(name), key) {
                let after: &str = line.substring_char(colon + 1, n);
                assert(after@ == whole.skip(colon + 1));
                let value: &str = text::trim(text::strip(text::trim(after), text::Class::Quote));
                return if value.is_empty() {
                    None
                } else {
                    Some(value.to_string())
                };
            }
        }
        i += 1;
    }
    None
}

// ---- ids ----

/// Where the hyphens of a UUID stand.
pub open spec fn is_hyphen_place(i: int) -> bool {
    i == 8 || i == 13 || i == 18 || i == 23
}

/// The canonical 8-4-4-4-12 hex form, case-insensitive.
pub open spec fn is_uuid_text(s: Text) -> bool {
    &&& s.len() == 36
    &&& forall|i: int|
        0 <= i < 36 ==> (if is_hyphen_place(i) {
            #[trigger] s[i] == '-'
        } else {
            text::is_hex_digit(s[i])
        })
}

/// The canonical 8-4-4-4-12 hex form, case-insensitive.
pub fn is_uuid(s: &str) -> (r: bool)
    ensures
        r == is_uuid_text(s@),
{
    let chars = text::chars_of(s);
    if chars.len() != 36 {
        return false;
    }
    let mut i: usize = 0;
    while i < 36
        invariant
            chars@ == s@,
            s@.len() == 36,
            i <= 36,
            forall|j: int|
                0 <= j < i ==> (if is_hyphen_place(j) {
                    #[trigger] s@[j] == '-'
                } else {
                    text::is_hex_digit(s@[j])
                }),
        decreases 36 - i,
    {
        let c: char = chars[i];
        assert(s@[i as int] == c);
        if i == 8 || i == 13 || i == 18 || i == 23 {
            if c != '-' {
                return false;
            }
        } else if !text::hex_digit(c) {
            return false;
        }
        i += 1;
    }
    true
}

/// A UUID holds hex digits and hyphens alone, so spliced into a path it neither
/// leaves its segment nor starts a query.
pub proof fn uuid_stays_in_its_segment(s: Text)
    requires
        is_uuid_text(s),
    ensures
        forall|i: int|
            0 <= i < s.len() ==> (#[trigger] s[i]) != '/' && s[i] != '?' && s[i] != '#' && s[i]
                != '.' && s[i] != '%',
        s.len() == 36,
{
}

/// An id that is a UUID, or why it is refused.
pub open spec fn checked_id(value: Text, key: Text, path: Text) -> Result<Text, Seq<Text>> {
    if is_uuid_text(value) {
        Ok(value)
    } else {
        Err(
            seq![
                path + " has `"@ + key + ": "@ + value
                    + "`, which is not a UUID. Plane IDs are 36 characters, e.g. 48284b59-0000-4000-8000-000000000000."@,
            ],
        )
    }
}

/// Both IDs are spliced straight into a request path, so a note could otherwise
/// steer the write out of this workspace, or inject a query string. The shape is
/// fixed, so require the canonical UUID.
pub fn check_uuid(value: &str, key: &str, path: &str) -> (r: Result<String, Error>)
    ensures
        crate::names::text_result(r) == checked_id(value@, key@, path@),
{
    if is_uuid(value) {
        Ok(value.to_string())
    } else {
        Err(
            Error::new(
                path.to_string().concat(" has `").concat(key).concat(": ").concat(value).concat(
                    "`, which is not a UUID. Plane IDs are 36 characters, e.g. 48284b59-0000-4000-8000-000000000000.",
                ),
            ),
        )
    }
}

// ---- notes ----

/// The ids of a frontmatter block.
pub open spec fn refs_in(path: Text, front: Text) -> Result<NoteView, Seq<Text>> {
    match scalar_of(front, "plane_project_id"@) {
        None => Err(
            seq![
                path
                    + " has no `plane_project_id` in its frontmatter, so there is no Plane project to create in."@,
            ],
        ),
        Some(project) => match checked_id(project, "plane_project_id"@, path) {
            Err(e) => Err(e),
            Ok(project_id) => {
                let refs = NoteView {
                    project_id,
                    module_id: scalar_of(front, "plane_module_id"@),
                    project_identifier: scalar_of(front, "plane_project"@),
                    module_name: scalar_of(front, "plane_module"@),
                };
                match refs.module_id {
                    None => Ok(refs),
                    Some(module) => match checked_id(module, "plane_module_id"@, path) {
                        Ok(_) => Ok(refs),
                        Err(e) => Err(e),
                    },
                }
            },
        },
    }
}

/// The ids that a note carries.
pub open spec fn refs_of(path: Text, raw: Text) -> Result<NoteView, Seq<Text>> {
    match front_of(raw) {
        None => Err(
            seq![path + " has no YAML frontmatter, so it carries no Plane IDs."@],
        ),
        Some(front) => refs_in(path, front),
    }
}

pub open spec fn note_result(r: Result<NoteRefs, Error>) -> Result<NoteView, Seq<Text>> {
    match r {
        Ok(refs) => Ok(refs@),
        Err(e) => Err(e@),
    }
}

/// The ids that the text of a note carries. Every id that comes out is a UUID.
pub fn parse(path: &str, raw: &str) -> (r: Result<NoteRefs, Error>)
    ensures
        note_result(r) == refs_of(path@, raw@),
        r is Ok ==> is_uuid_text(r->Ok_0@.project_id),
        r is Ok && r->Ok_0@.module_id is Some ==> is_uuid_text(r->Ok_0@.module_id->0),
{
    let front: &str = match frontmatter(raw) {
        Some(front) => front,
        None => {
            return Err(
                Error::new(
                    path.to_string().concat(
                        " has no YAML frontmatter, so it carries no Plane IDs.",
                    ),
                ),
            );
        },
    };
    let project = match scalar(front, "plane_project_id") {
        Some(project) => project,
        None => {
            return Err(
                Error::new(
                    path.to_string().concat(
                        " has no `plane_project_id` in its frontmatter, so there is no Plane project to create in.",
                    ),
                ),
            );
        },
    };
    let project_id = check_uuid(project.as_str(), "plane_project_id", path)?;
    let module_id = match scalar(front, "plane_module_id") {
        Some(id) => Some(check_uuid(id.as_str(), "plane_module_id", path)?),
        None => None,
    };
    Ok(
        NoteRefs {
            project_id,
            module_id,
            project_identifier: scalar(front, "plane_project"),
            module_name: scalar(front, "plane_module"),
        },
    )
}

pub open spec fn heard_note(r: Result<NoteRefs, Stop>, t: TalkView) -> Heard<NoteView> {
    match r {
        Ok(refs) => Heard::Got(refs@, t),
        Err(s) => script::stopped(s, t),
    }
}

/// Reads the note on the command line.
pub open spec fn reading(path: Text, t: TalkView) -> Heard<NoteView> {
    script::told(t, AskView::ReadNote).context("Could not read note "@ + path).next(
        |raw: Text, t: TalkView| script::ruled(refs_of(path, raw), t),
    )
}

/// Reads the note on the command line.
pub fn read(path: &str, talk: &mut Talk) -> (r: Result<NoteRefs, Stop>)
    ensures
        heard_note(r, final(talk)@) == reading(path@, old(talk)@),
{
    let raw = match talk.text(Ask::ReadNote) {
        Ok(raw) => raw,
        Err(stop) => {
            return Err(stop.context("Could not read note ".to_string().concat(path)));
        },
    };
    script::rule(parse(path, raw.as_str()))
}

// ---- laws ----

/// A frontmatter block holds no fence, neither at its start nor below.
pub proof fn a_block_holds_no_fence(raw: Text)
    ensures
        front_of(raw) matches Some(front) ==> !text::starts(front, "---"@) && !text::occurs(
            front,
            "\n---"@,
        ),
{
    reveal_strlit("---");
    reveal_strlit("\n---");
    if let Some(rest) = after_fence(raw) {
        if !text::starts(rest, "---"@) {
            text::lemma_first_from(rest, "\n---"@, 0);
            if let Some(end) = text::first_of(rest, "\n---"@) {
                let front = rest.take(end);
                if text::starts(front, "---"@) {
                    assert(rest.subrange(0, 3) =~= front.subrange(0, 3));
                }
                assert forall|j: int| !text::occurs_at(front, "\n---"@, j) by {
                    if text::occurs_at(front, "\n---"@, j) {
                        assert("\n---"@.len() == 4);
                        assert(rest.subrange(j, j + 4) =~= front.subrange(j, j + 4));
                        assert(text::occurs_at(rest, "\n---"@, j));
                    }
                }
            }
        }
    }
}

/// Whether some line is the top-level entry of a key.
pub open spec fn holds_entry(lines: Seq<Text>, key: Text) -> bool {
    exists|i: int| 0 <= i < lines.len() && is_entry(#[trigger] lines[i], key)
}

proof fn lemma_value_joined(a: Seq<Text>, b: Seq<Text>, key: Text)
    ensures
        holds_entry(a, key) ==> value_in(a + b, key) == value_in(a, key),
        !holds_entry(a, key) ==> value_in(a, key) is None && value_in(a + b, key) == value_in(
            b,
            key,
        ),
    decreases a.len(),
{
    if a.len() == 0 {
        assert(a + b =~= b);
    } else {
        let rest = a.drop_first();
        lemma_value_joined(rest, b, key);
        assert((a + b).drop_first() =~= rest + b);
        if holds_entry(rest, key) {
            let i = choose|i: int| 0 <= i < rest.len() && is_entry(#[trigger] rest[i], key);
            assert(a[i + 1] == rest[i]);
        }
        if holds_entry(a, key) && !is_entry(a[0], key) {
            let i = choose|i: int| 0 <= i < a.len() && is_entry(#[trigger] a[i], key);
            assert(rest[i - 1] == a[i]);
        }
    }
}

/// A carriage return at the end of a line matters neither to its key nor to its
/// value.
proof fn lemma_return_does_not_matter(line: Text, key: Text)
    ensures
        is_entry(text::without_return(line), key) == is_entry(line, key),
        is_entry(line, key) ==> entry_value(text::without_return(line)) == entry_value(line),
{
    let short = text::without_return(line);
    if short != line {
        assert(line =~= short.push('\r'));
        let at = text::position(line, ':') as int;
        let here = text::position(short, ':') as int;
        text::lemma_position(line, ':');
        text::lemma_position(short, ':');
        if at < short.len() {
            assert(short[at] == line[at]);
            assert(here <= at);
            assert(line[here] == short[here]);
            assert(here == at);
            assert(line.take(at) =~= short.take(at));
            assert(line.skip(at + 1) =~= short.skip(at + 1).push('\r'));
            text::lemma_trim_end_space(short.skip(at + 1), '\r');
        } else {
            assert(at == line.len());
            if here < short.len() {
                assert(line[here] == short[here]);
            }
        }
    }
}

/// The first line that names a key decides, also where its value is empty: in
/// two texts with a line break between them the second is read only where no
/// line of the first names the key.
pub proof fn the_first_entry_decides(a: Text, b: Text, key: Text)
    ensures
        holds_entry(text::lines(a), key) ==> scalar_of(a + "\n"@ + b, key) == scalar_of(a, key),
        !holds_entry(text::lines(a), key) ==> scalar_of(a, key) is None && scalar_of(
            a + "\n"@ + b,
            key,
        ) == scalar_of(b, key),
{
    reveal_strlit("\n");
    assert(a + "\n"@ + b =~= a.push('\n') + b);
    text::lemma_lines_joined(a, b);
    let none = Seq::<Text>::empty();
    let pieces = text::split(a, '\n');
    let f = |line: Text| text::without_return(line);
    let front = pieces.drop_last().map_values(f);
    let last = pieces.last();
    let short = text::without_return(last);
    let ended = pieces.map_values(f);
    assert(ended =~= front + seq![short]);
    lemma_value_joined(ended, text::lines(b), key);
    lemma_value_joined(text::lines(a), none, key);
    lemma_value_joined(front, seq![short], key);
    lemma_value_joined(front, seq![last], key);
    lemma_return_does_not_matter(last, key);
    if last.len() > 0 {
        assert(text::lines(a) =~= front + seq![last]);
    } else {
        assert(text::lines(a) == front);
    }
    assert(value_in(seq![short], key) == if is_entry(short, key) {
        entry_value(short)
    } else {
        None
    }) by {
        assert(seq![short].drop_first() =~= none);
    }
    assert(value_in(seq![last], key) == if is_entry(last, key) {
        entry_value(last)
    } else {
        None
    }) by {
        assert(seq![last].drop_first() =~= none);
    }
    assert(holds_entry(seq![short], key) == is_entry(short, key)) by {
        assert(seq![short][0] == short);
    }
    assert(holds_entry(seq![last], key) == is_entry(last, key)) by {
        assert(seq![last][0] == last);
    }
    lemma_entries_joined(front, seq![short], key);
    lemma_entries_joined(front, seq![last], key);
}

proof fn lemma_entries_joined(a: Seq<Text>, b: Seq<Text>, key: Text)
    ensures
        holds_entry(a + b, key) == (holds_entry(a, key) || holds_entry(b, key)),
{
    if holds_entry(a, key) {
        let i = choose|i: int| 0 <= i < a.len() && is_entry(#[trigger] a[i], key);
        assert((a + b)[i] == a[i]);
    }
    if holds_entry(b, key) {
        let i = choose|i: int| 0 <= i < b.len() && is_entry(#[trigger] b[i], key);
        assert((a + b)[a.len() + i] == b[i]);
    }
    if holds_entry(a + b, key) {
        let i = choose|i: int| 0 <= i < (a + b).len() && is_entry(#[trigger] (a + b)[i], key);
        if i < a.len() {
            assert(a[i] == (a + b)[i]);
        } else {
            assert(b[i - a.len()] == (a + b)[i]);
        }
    }
}

proof fn lemma_value_is_trimmed(lines: Seq<Text>, key: Text)
    ensures
        value_in(lines, key) matches Some(v) ==> v.len() > 0 && text::trimmed(v) == v,
    decreases lines.len(),
{
    if lines.len() > 0 {
        if is_entry(lines[0], key) {
            let after = lines[0].skip(text::position(lines[0], ':') as int + 1);
            text::lemma_trim_again(text::stripped(text::trimmed(after), text::Class::Quote));
        } else {
            lemma_value_is_trimmed(lines.drop_first(), key);
        }
    }
}

/// A value that is read is not empty and has no white space at its ends.
pub proof fn a_value_is_trimmed(front: Text, key: Text)
    ensures
        scalar_of(front, key) matches Some(v) ==> v.len() > 0 && text::trimmed(v) == v,
{
    lemma_value_is_trimmed(text::lines(front), key);
}

proof fn lemma_one_line(s: Text)
    requires
        s.len() > 0,
        !s.contains('\n'),
    ensures
        text::lines(s) == seq![s],
{
    text::lemma_one_piece(s, '\n');
    let pieces = text::split(s, '\n');
    assert(text::lines(s) =~= seq![s]);
}

/// Whether a text can be the key of an entry.
pub open spec fn is_plain_key(key: Text) -> bool {
    &&& key.len() > 0
    &&& text::trimmed(key) == key
    &&& key[0] != '-'
    &&& !key.contains(':')
    &&& !key.contains('\n')
}

/// Whether a text can stand as the value of an entry as it is.
pub open spec fn is_plain_value(value: Text) -> bool {
    &&& value.len() > 0
    &&& text::trimmed(value) == value
    &&& text::stripped(value, text::Class::Quote) == value
    &&& !value.contains('\n')
}

proof fn lemma_entry(key: Text, after: Text, other: Text)
    requires
        is_plain_key(key),
        !after.contains('\n'),
    ensures
        ({
            let line = key + ":"@ + after;
            &&& is_entry(line, key)
            &&& text::position(line, ':') == key.len()
            &&& line.skip(key.len() as int + 1) == after
            &&& text::lines(line) == seq![line]
            &&& scalar_of(line, key) == entry_value(line)
            &&& other != key ==> scalar_of(line, other) is None
        }),
{
    reveal_strlit(":");
    let line = key + ":"@ + after;
    let n = key.len() as int;
    text::lemma_trimmed_ends(key);
    text::lemma_position(line, ':');
    let p = text::position(line, ':') as int;
    assert(line[n] == ':');
    if p < n {
        assert(key[p] == ':');
        assert(key.contains(':'));
    }
    assert(p == n);
    assert(line.take(n) =~= key);
    assert(line.skip(n + 1) =~= after);
    assert(line[0] == key[0]);
    assert forall|i: int| 0 <= i < line.len() implies line[i] != '\n' by {
        if i < n {
            assert(key.contains(key[i]));
        } else if i > n {
            assert(after.contains(after[i - n - 1]));
            assert(line[i] == after[i - n - 1]);
        }
    }
    lemma_one_line(line);
    assert(seq![line].drop_first() =~= Seq::<Text>::empty());
    reveal_with_fuel(value_in, 2);
    assert(value_in(seq![line], other) == if is_entry(line, other) {
        entry_value(line)
    } else {
        None
    });
}

/// An entry gives its value under its key and under no other, with or without
/// quotes around it; one without a value gives none.
pub proof fn an_entry_gives_its_value(key: Text, value: Text, other: Text)
    requires
        is_plain_key(key),
        is_plain_value(value),
    ensures
        scalar_of(key + ":"@ + (" "@ + value), key) == Some(value),
        scalar_of(key + ":"@ + (" \""@ + value + "\""@), key) == Some(value),
        scalar_of(key + ":"@ + (" '"@ + value + "'"@), key) == Some(value),
        scalar_of(key + ":"@ + ""@, key) is None,
        other != key ==> scalar_of(key + ":"@ + (" "@ + value), other) is None,
{
    reveal_strlit(" ");
    reveal_strlit("");
    reveal_strlit(" \"");
    reveal_strlit("\"");
    reveal_strlit(" '");
    reveal_strlit("'");
    lemma_value_ends(value);
    let bare = " "@ + value;
    assert(!bare.contains('\n')) by {
        assert forall|i: int| 0 <= i < bare.len() implies bare[i] != '\n' by {
            if i > 0 {
                assert(value.contains(value[i - 1]));
            }
        }
    }
    lemma_entry(key, bare, other);
    assert(bare.drop_first() =~= value);
    assert(text::trimmed(bare) == value) by {
        reveal_with_fuel(text::drop_front, 2);
    }
    lemma_quoted(key, value, '"', other);
    lemma_quoted(key, value, '\'', other);
    assert(" \""@ + value + "\""@ =~= seq![' '] + (seq!['"'] + value + seq!['"']));
    assert(" '"@ + value + "'"@ =~= seq![' '] + (seq!['\''] + value + seq!['\'']));
    lemma_entry(key, ""@, other);
    assert(text::trimmed(""@).len() == 0);
    assert(text::stripped(text::trimmed(""@), text::Class::Quote).len() == 0);
}

proof fn lemma_value_ends(value: Text)
    requires
        is_plain_value(value),
    ensures
        !text::is_white_space(value[0]),
        !text::is_white_space(value.last()),
        !text::in_class(text::Class::Quote, value[0]),
        !text::in_class(text::Class::Quote, value.last()),
{
    text::lemma_trimmed_ends(value);
    text::lemma_drop_front(value, text::Class::Quote);
    text::lemma_drop_back(text::drop_front(value, text::Class::Quote), text::Class::Quote);
    assert(text::drop_front(value, text::Class::Quote) =~= value);
}

proof fn lemma_quoted(key: Text, value: Text, q: char, other: Text)
    requires
        is_plain_key(key),
        is_plain_value(value),
        q == '"' || q == '\'',
    ensures
        scalar_of(key + ":"@ + (seq![' '] + (seq![q] + value + seq![q])), key) == Some(value),
{
    let inner = seq![q] + value + seq![q];
    let after = seq![' '] + inner;
    lemma_value_ends(value);
    assert forall|i: int| 0 <= i < after.len() implies after[i] != '\n' by {
        if 1 < i < after.len() - 1 {
            assert(after[i] == value[i - 2]);
            assert(value.contains(value[i - 2]));
        }
    }
    lemma_entry(key, after, other);
    reveal_with_fuel(text::drop_front, 2);
    reveal_with_fuel(text::drop_back, 2);
    assert(after.drop_first() =~= inner);
    assert(!text::is_white_space(inner[0]));
    assert(!text::is_white_space(inner.last()));
    assert(text::drop_front(after, text::Class::White) == inner);
    assert(text::trimmed(after) == inner);
    assert(inner.drop_first() =~= value + seq![q]);
    assert((value + seq![q])[0] == value[0]);
    assert(text::drop_front(inner, text::Class::Quote) == value + seq![q]);
    assert((value + seq![q]).drop_last() =~= value);
    assert(text::drop_back(value + seq![q], text::Class::Quote) == value);
    assert(text::stripped(inner, text::Class::Quote) == value);
}

/// The frontmatter of a note is what stands between its first line, which is a
/// fence, and the next fence.
pub proof fn frontmatter_stands_between_fences(block: Text, rest: Text)
    requires
        !text::starts(block + "\n---"@ + rest, "---"@),
        forall|j: int|
            0 <= j < block.len() ==> !text::occurs_at(block + "\n---"@ + rest, "\n---"@, j),
    ensures
        front_of("---\n"@ + (block + "\n---"@ + rest)) == Some(block),
        front_of("---\r\n"@ + (block + "\n---"@ + rest)) == Some(block),
{
    reveal_strlit("---\n");
    reveal_strlit("---\r\n");
    let body = block + "\n---"@ + rest;
    let unix = "---\n"@ + body;
    let dos = "---\r\n"@ + body;
    assert(unix.subrange(0, 4) =~= "---\n"@);
    assert(unix.skip(4) =~= body);
    assert(dos.subrange(0, 5) =~= "---\r\n"@);
    assert(dos.subrange(0, 4)[3] == '\r');
    assert("---\n"@[3] == '\n');
    assert(dos.skip(5) =~= body);
    let n = block.len() as int;
    assert(body.subrange(n, n + "\n---"@.len()) =~= "\n---"@);
    assert(text::occurs_at(body, "\n---"@, n));
    text::lemma_first_from(body, "\n---"@, 0);
    assert(text::first_of(body, "\n---"@) == Some(n));
    assert(body.take(n) =~= block);
}

/// A note gives each of its ids from the entry of that name, and fails where the
/// project is missing or an id is no UUID.
pub proof fn a_note_gives_each_id_from_its_own_entry(path: Text, raw: Text, front: Text)
    requires
        front_of(raw) == Some(front),
    ensures
        match refs_of(path, raw) {
            Ok(v) => {
                &&& scalar_of(front, "plane_project_id"@) == Some(v.project_id)
                &&& scalar_of(front, "plane_module_id"@) == v.module_id
                &&& scalar_of(front, "plane_project"@) == v.project_identifier
                &&& scalar_of(front, "plane_module"@) == v.module_name
                &&& is_uuid_text(v.project_id)
                &&& v.module_id is Some ==> is_uuid_text(v.module_id->0)
            },
            Err(e) => {
                ||| scalar_of(front, "plane_project_id"@) is None
                ||| !is_uuid_text(scalar_of(front, "plane_project_id"@)->0)
                ||| (scalar_of(front, "plane_module_id"@) matches Some(id) && !is_uuid_text(id))
            },
        },
{
}

/// A note is read once, and what is read of it is what it gives; one without
/// frontmatter, or that cannot be read, gives nothing.
pub proof fn a_note_is_what_was_read(path: Text, t: TalkView, raw: Text)
    ensures
        t.at >= t.answers.len() ==> reading(path, t) == Heard::<NoteView>::Asks(AskView::ReadNote),
        t.at < t.answers.len() && t.answers[t.at as int] == AnswerView::Text(raw) ==> match refs_of(
            path,
            raw,
        ) {
            Ok(v) => reading(path, t) == Heard::Got(v, t.further()),
            Err(e) => reading(path, t) == Heard::<NoteView>::Failed(e, t.further()),
        },
        t.at < t.answers.len() && t.answers[t.at as int] !is Text ==> reading(path, t) is Failed,
        front_of(raw) is None ==> refs_of(path, raw) is Err,
{
}

/// A note that cannot be used is named, and so is the entry that is wrong.
pub proof fn a_note_that_cannot_be_used_is_named(path: Text, raw: Text, value: Text, key: Text)
    ensures
        refs_of(path, raw) matches Err(e) ==> e.len() == 1 && text::starts(e[0], path),
        !is_uuid_text(value) ==> (checked_id(value, key, path) matches Err(e) && e.len() == 1
            && text::starts(e[0], path + " has `"@ + key + ": "@ + value)),
{
    if let Err(e) = refs_of(path, raw) {
        assert(e[0].subrange(0, path.len() as int) =~= path);
    }
    if let Err(e) = checked_id(value, key, path) {
        let front = path + " has `"@ + key + ": "@ + value;
        assert(e[0].subrange(0, front.len() as int) =~= front);
    }
}

/// A UUID is five groups of hexadecimal digits with hyphens between them.
pub proof fn a_uuid_is_five_groups_of_digits(s: Text, a: Text, b: Text, c: Text, d: Text, e: Text)
    requires
        a.len() == 8,
        b.len() == 4,
        c.len() == 4,
        d.len() == 4,
        e.len() == 12,
    ensures
        is_uuid_text(a + "-"@ + b + "-"@ + c + "-"@ + d + "-"@ + e) <==> {
            &&& forall|i: int| 0 <= i < 8 ==> text::is_hex_digit(#[trigger] a[i])
            &&& forall|i: int| 0 <= i < 4 ==> text::is_hex_digit(#[trigger] b[i])
            &&& forall|i: int| 0 <= i < 4 ==> text::is_hex_digit(#[trigger] c[i])
            &&& forall|i: int| 0 <= i < 4 ==> text::is_hex_digit(#[trigger] d[i])
            &&& forall|i: int| 0 <= i < 12 ==> text::is_hex_digit(#[trigger] e[i])
        },
        is_uuid_text(s) ==> s == s.subrange(0, 8) + "-"@ + s.subrange(9, 13) + "-"@ + s.subrange(
            14,
            18,
        ) + "-"@ + s.subrange(19, 23) + "-"@ + s.subrange(24, 36),
{
    reveal_strlit("-");
    let whole = a + "-"@ + b + "-"@ + c + "-"@ + d + "-"@ + e;
    assert(forall|i: int| 0 <= i < 8 ==> #[trigger] a[i] == whole[i]);
    assert(forall|i: int| 0 <= i < 4 ==> #[trigger] b[i] == whole[i + 9]);
    assert(forall|i: int| 0 <= i < 4 ==> #[trigger] c[i] == whole[i + 14]);
    assert(forall|i: int| 0 <= i < 4 ==> #[trigger] d[i] == whole[i + 19]);
    assert(forall|i: int| 0 <= i < 12 ==> #[trigger] e[i] == whole[i + 24]);
    assert forall|i: int| 0 <= i < 36 implies (if i < 8 {
        whole[i] == a[i]
    } else if i == 8 || i == 13 || i == 18 || i == 23 {
        #[trigger] whole[i] == '-'
    } else if i < 13 {
        whole[i] == b[i - 9]
    } else if i < 18 {
        whole[i] == c[i - 14]
    } else if i < 23 {
        whole[i] == d[i - 19]
    } else {
        whole[i] == e[i - 24]
    }) by {}
    if is_uuid_text(s) {
        assert(s[8] == '-' && s[13] == '-' && s[18] == '-' && s[23] == '-');
        assert(s =~= s.subrange(0, 8) + "-"@ + s.subrange(9, 13) + "-"@ + s.subrange(14, 18) + "-"@
            + s.subrange(19, 23) + "-"@ + s.subrange(24, 36));
    }
}

/// A note that could not be read is named in front of what was wrong.
pub proof fn an_unreadable_note_is_named(path: Text, t: TalkView, e: Seq<Text>)
    requires
        t.at < t.answers.len(),
        t.answers[t.at as int] == AnswerView::Failed(e),
    ensures
        reading(path, t) == Heard::<NoteView>::Failed(
            seq!["Could not read note "@ + path] + e,
            t.further(),
        ),
{
}

} // verus!
