//! The config file: where it is, what its text means, and how it is replaced.

use crate::config;
use crate::config::{ConfigFile, Env, Key, KEYS};
use crate::error::Error;
use crate::script;
use crate::script::{Answer, AnswerView, Ask, AskView, Heard, Stop, Talk, TalkView};
use crate::text;
use crate::text::Text;
use vstd::prelude::*;

verus! {

broadcast use crate::text::lemma_texts_push;

// ---- TOML ----

/// The keys of a document in order, each with its value where that is a string.
pub type Entries = Seq<(Seq<char>, Option<Seq<char>>)>;

/// What `toml::from_str` makes of a text: the keys of its top-level table in
/// order, each with its value where that is a string, or the message of the
/// error.
pub uninterp spec fn toml_parse(text: Seq<char>) -> Result<
    Seq<(Seq<char>, Option<Seq<char>>)>,
    Seq<char>,
>;

/// What `toml::to_string` prints for a table of strings.
pub uninterp spec fn toml_print(entries: Seq<(Seq<char>, Seq<char>)>) -> Seq<char>;

/// What a list of entries holds.
pub open spec fn entries_view(list: Seq<(String, Option<String>)>) -> Entries {
    list.map_values(|p: (String, Option<String>)| (p.0@, text::text_option(p.1)))
}

/// A character that a bare key may hold.
pub open spec fn is_bare(c: char) -> bool {
    text::is_alphanumeric(c) || c == '_' || c == '-'
}

/// A key that needs no quotes.
pub open spec fn is_bare_key(s: Text) -> bool {
    s.len() > 0 && forall|i: int| 0 <= i < s.len() ==> is_bare(#[trigger] s[i])
}

/// How many `c` a text ends with.
pub open spec fn run_at_end(s: Text, c: char) -> nat
    decreases s.len(),
{
    if s.len() > 0 && s.last() == c {
        1 + run_at_end(s.drop_last(), c)
    } else {
        0
    }
}

/// Whether no more than 255 `c` stand in a row anywhere.
pub open spec fn short_runs(s: Text, c: char) -> bool
    decreases s.len(),
{
    s.len() == 0 || (run_at_end(s, c) <= 255 && short_runs(s.drop_last(), c))
}

/// Whether a value can be printed: the printer counts quotation marks in a row
/// in one byte.
pub open spec fn is_printable(value: Text) -> bool {
    short_runs(value, '"') && short_runs(value, '\'')
}

/// A line that is a comment.
pub open spec fn is_comment_line(line: Text) -> bool {
    &&& line.len() >= 2
    &&& line[0] == '#'
    &&& line.last() == '\n'
    &&& forall|i: int|
        0 <= i < line.len() - 1 ==> (#[trigger] line[i] == '\t' || (line[i] as u32 >= 0x20
            && line[i] as u32 != 0x7f))
}

/// The entries of a table of strings.
pub open spec fn as_entries(list: Seq<(Text, Text)>) -> Entries {
    list.map_values(|p: (Text, Text)| (p.0, Some(p.1)))
}

/// Whether the keys of a list are bare and no two are the same, and the values
/// can be printed.
pub open spec fn is_table(list: Seq<(Text, Text)>) -> bool {
    &&& forall|i: int|
        0 <= i < list.len() ==> is_bare_key((#[trigger] list[i]).0) && is_printable(list[i].1)
    &&& forall|i: int, j: int|
        0 <= i < j < list.len() ==> (#[trigger] list[i]).0 != (#[trigger] list[j]).0
}

/// Whether a text, read below a comment line, gives the entries of a list.
pub open spec fn reads_back(body: Text, list: Seq<(Text, Text)>) -> bool {
    forall|comment: Text|
        is_comment_line(comment) ==> #[trigger] toml_parse(comment + body) == Ok::<
            Entries,
            Seq<char>,
        >(as_entries(list))
}

/// `toml::from_str` into a table: the result is the top-level keys in the order
/// of the text, each with its value where that is a string, or the message of
/// the error, and depends on the text alone.
#[verifier::external_body]
fn parse_toml(text: &str) -> (r: Result<Vec<(String, Option<String>)>, String>)
    ensures
        match r {
            Ok(list) => toml_parse(text@) == Ok::<Entries, Seq<char>>(entries_view(list@)),
            Err(e) => toml_parse(text@) == Err::<Entries, Seq<char>>(e@),
        },
{
    match toml::from_str::<toml::Table>(text) {
        Ok(table) => Ok(table.into_iter().map(|(k, v)| (k, v.as_str().map(str::to_string))).collect()),
        Err(error) => Err(error.to_string()),
    }
}

/// `toml::to_string` of a table of strings: it succeeds, for each error of the
/// printer is about a value that is no string or a key that is none, and the
/// result depends on the entries alone. Read back below a comment line, it gives
/// the entries in the same order.
#[verifier::external_body]
fn print_toml(list: &Vec<(String, String)>) -> (r: Result<String, String>)
    requires
        is_table(text::text_pairs(list@)),
    ensures
        r is Ok,
        r->Ok_0@ == toml_print(text::text_pairs(list@)),
        reads_back(r->Ok_0@, text::text_pairs(list@)),
{
    let table: toml::Table = list.iter().map(|(k, v)| (k.clone(), toml::Value::String(v.clone()))).collect();
    toml::to_string(&table).map_err(|error| error.to_string())
}

// ---- what the text means ----

/// The settings that the entries of a document store, where each of them is one.
/// A key that is not a setting is a typo, not something to ignore, and a setting
/// is a string.
pub open spec fn settings_of(entries: Entries) -> Option<Map<Key, Text>>
    decreases entries.len(),
{
    if entries.len() == 0 {
        Some(Map::empty())
    } else {
        match (
            settings_of(entries.drop_last()),
            config::key_named(entries.last().0),
            entries.last().1,
        ) {
            (Some(file), Some(key), Some(value)) => Some(file.insert(key, value)),
            _ => None,
        }
    }
}

proof fn lemma_bad_entry_is_final(entries: Entries, i: int)
    requires
        0 <= i <= entries.len(),
        settings_of(entries.take(i)) is None,
    ensures
        settings_of(entries) is None,
    decreases entries.len() - i,
{
    if i < entries.len() {
        assert(entries.take(i + 1).drop_last() == entries.take(i));
        lemma_bad_entry_is_final(entries, i + 1);
    } else {
        assert(entries.take(i) == entries);
    }
}

/// Whose fault it is that a file could not be read.
pub open spec fn not_valid(path: Text) -> Text {
    path
        + " is not valid config; fix it by hand, or delete it and re-run `plane config set`"@
}

/// What a config file comes to. One that is not there yet is empty. Where the
/// entries of the file are not all settings, whoever reads them into the settings
/// says why.
pub open spec fn loaded(path: Text, contents: Option<Text>, t: TalkView) -> Heard<Map<Key, Text>> {
    match contents {
        None => Heard::Got(Map::empty(), t),
        Some(raw) => match toml_parse(raw) {
            Err(e) => Heard::Failed(seq![not_valid(path), e], t),
            Ok(entries) => match settings_of(entries) {
                Some(file) => Heard::Got(file, t),
                None => script::told(t, AskView::ExplainConfig(raw)).next(
                    |cause: Text, t: TalkView| Heard::Failed(seq![cause], t),
                ).context(not_valid(path)),
            },
        },
    }
}

/// What the outcome of a load holds.
pub open spec fn file_result(r: Result<ConfigFile, Error>) -> Result<Map<Key, Text>, Seq<Text>> {
    match r {
        Ok(file) => Ok(file@),
        Err(e) => Err(e@),
    }
}

/// The settings that the entries of a document store, where each of them is one.
pub fn read_entries(list: &Vec<(String, Option<String>)>) -> (r: Option<ConfigFile>)
    ensures
        (match r {
            Some(file) => Some(file@),
            None => None,
        }) == settings_of(entries_view(list@)),
{
    let ghost entries = entries_view(list@);
    let mut file = ConfigFile::default();
    let mut i: usize = 0;
    while i < list.len()
        invariant
            i <= list@.len(),
            entries == entries_view(list@),
            settings_of(entries.take(i as int)) == Some(file@),
        decreases list@.len() - i,
    {
        assert(entries.take(i + 1).drop_last() == entries.take(i as int));
        assert(entries.take(i + 1).last() == (
            list@[i as int].0@,
            text::text_option(list@[i as int].1),
        ));
        match (Key::named(list[i].0.as_str()), &list[i].1) {
            (Some(key), Some(value)) => {
                file.store(key, value.as_str());
            },
            _ => {
                proof {
                    lemma_bad_entry_is_final(entries, i + 1);
                }
                return None;
            },
        }
        i += 1;
    }
    assert(entries.take(entries.len() as int) == entries);
    Some(file)
}

impl ConfigFile {
    /// What the text of the file at `path` stores. A file that is not there yet
    /// reads as empty rather than as an error.
    pub fn load_from(path: &str, contents: Option<&str>, talk: &mut Talk) -> (r: Result<
        ConfigFile,
        Stop,
    >)
        ensures
            heard_file(r, final(talk)@) == loaded(
                path@,
                match contents {
                    Some(raw) => Some(raw@),
                    None => None,
                },
                old(talk)@,
            ),
    {
        let raw: &str = match contents {
            Some(raw) => raw,
            None => {
                return Ok(ConfigFile::default());
            },
        };
        let stop = match parse_toml(raw) {
            Ok(list) => match read_entries(&list) {
                Some(file) => {
                    return Ok(file);
                },
                None => match talk.text(Ask::ExplainConfig(raw.to_string())) {
                    Ok(cause) => Stop::Fail(Error::new(cause)),
                    Err(stop) => stop,
                },
            },
            Err(e) => Stop::Fail(Error::new(e)),
        };
        let r = stop.context(
            path.to_string().concat(
                " is not valid config; fix it by hand, or delete it and re-run `plane config set`",
            ),
        );
        assert(stop is Fail ==> r->Fail_0@ =~= seq![not_valid(path@)] + stop->Fail_0@);
        assert(toml_parse(raw@) is Err ==> seq![not_valid(path@)] + seq![toml_parse(raw@)->Err_0]
            =~= seq![not_valid(path@), toml_parse(raw@)->Err_0]);
        Err(r)
    }
}

// ---- the text of a file ----

/// The line above the settings.
pub open spec fn header() -> Text {
    "# Written by `plane config set`. Kept private (0600): an `api_key` line, when there is one, is a token in plaintext.\n"@
}

/// The settings that a file stores among the first `n` keys, in order.
pub open spec fn rows(file: Map<Key, Text>, n: nat) -> Seq<(Text, Text)>
    decreases n,
{
    if n == 0 || n > 7 {
        Seq::empty()
    } else {
        let before = rows(file, (n - 1) as nat);
        let key = KEYS@[n - 1];
        if file.contains_key(key) {
            before.push((config::name_of(key), file[key]))
        } else {
            before
        }
    }
}

/// Whether every value of a file can be printed.
pub open spec fn printable(file: Map<Key, Text>) -> bool {
    forall|key: Key| #[trigger] file.contains_key(key) ==> is_printable(file[key])
}

/// The text that a file is saved as.
pub open spec fn saved(file: Map<Key, Text>) -> Result<Text, Seq<Text>> {
    if !printable(file) {
        Err(
            seq![
                "Failed to serialize the config"@,
                "a value holds more than 255 quotation marks in a row"@,
            ],
        )
    } else {
        Ok(header() + toml_print(rows(file, 7)))
    }
}

fn short_runs_in(chars: &Vec<char>, c: char) -> (r: bool)
    ensures
        r == short_runs(chars@, c),
{
    let mut run: usize = 0;
    let mut i: usize = 0;
    while i < chars.len()
        invariant
            i <= chars@.len(),
            run <= 255,
            run == run_at_end(chars@.take(i as int), c),
            short_runs(chars@.take(i as int), c),
        decreases chars@.len() - i,
    {
        assert(chars@.take(i + 1).drop_last() == chars@.take(i as int));
        if chars[i] == c {
            run += 1;
        } else {
            run = 0;
        }
        if run > 255 {
            proof {
                lemma_long_run_is_final(chars@, c, i + 1);
            }
            return false;
        }
        i += 1;
    }
    assert(chars@.take(chars@.len() as int) == chars@);
    true
}

proof fn lemma_long_run_is_final(s: Text, c: char, i: int)
    requires
        0 <= i <= s.len(),
        !short_runs(s.take(i), c),
    ensures
        !short_runs(s, c),
    decreases s.len() - i,
{
    if i < s.len() {
        assert(s.take(i + 1).drop_last() == s.take(i));
        lemma_long_run_is_final(s, c, i + 1);
    } else {
        assert(s.take(i) == s);
    }
}

fn printable_value(value: &str) -> (r: bool)
    ensures
        r == is_printable(value@),
{
    let chars = text::chars_of(value);
    short_runs_in(&chars, '"') && short_runs_in(&chars, '\'')
}

/// The name of a setting is a bare key, and names one setting alone.
pub proof fn lemma_names()
    ensures
        forall|key: Key| is_bare_key(#[trigger] config::name_of(key)),
        forall|key: Key| config::key_named(#[trigger] config::name_of(key)) == Some(key),
{
    reveal_strlit("workspace");
    reveal_strlit("api_base");
    reveal_strlit("web_base");
    reveal_strlit("pass_vault");
    reveal_strlit("pass_item");
    reveal_strlit("pass_field");
    reveal_strlit("api_key");
    assert("workspace"@[0] == 'w');
    assert("pass_item"@[0] == 'p');
    assert("api_base"@[0] == 'a');
    assert("web_base"@[0] == 'w');
    assert("pass_vault"@[5] == 'v');
    assert("pass_field"@[5] == 'f');
    assert forall|key: Key| is_bare_key(#[trigger] config::name_of(key)) by {
        match key {
            Key::Workspace => {},
            Key::ApiBase => {},
            Key::WebBase => {},
            Key::PassVault => {},
            Key::PassItem => {},
            Key::PassField => {},
            Key::ApiKey => {},
        }
    }
    assert forall|key: Key| config::key_named(#[trigger] config::name_of(key)) == Some(key) by {
        match key {
            Key::Workspace => {},
            Key::ApiBase => {},
            Key::WebBase => {},
            Key::PassVault => {},
            Key::PassItem => {},
            Key::PassField => {},
            Key::ApiKey => {},
        }
    }
}

/// Every row is a setting among the first `n` keys with its value.
proof fn lemma_rows(file: Map<Key, Text>, n: nat)
    requires
        n <= 7,
    ensures
        forall|i: int|
            0 <= i < rows(file, n).len() ==> exists|k: int|
                0 <= k < n && file.contains_key(KEYS@[k]) && #[trigger] rows(file, n)[i] == (
                    config::name_of(#[trigger] KEYS@[k]),
                    file[KEYS@[k]],
                ),
    decreases n,
{
    if n > 0 {
        lemma_rows(file, (n - 1) as nat);
        let before = rows(file, (n - 1) as nat);
        assert forall|i: int| 0 <= i < rows(file, n).len() implies exists|k: int|
            0 <= k < n && file.contains_key(KEYS@[k]) && #[trigger] rows(file, n)[i] == (
                config::name_of(#[trigger] KEYS@[k]),
                file[KEYS@[k]],
            ) by {
            if i < before.len() {
                assert(rows(file, n)[i] == before[i]);
                let k = choose|k: int|
                    0 <= k < n - 1 && file.contains_key(KEYS@[k]) && before[i] == (
                        config::name_of(#[trigger] KEYS@[k]),
                        file[KEYS@[k]],
                    );
                assert(0 <= k < n);
            } else {
                assert(rows(file, n)[i] == (
                    config::name_of(KEYS@[n - 1]),
                    file[KEYS@[n - 1]],
                ));
            }
        }
    }
}

/// No two keys are the same.
proof fn lemma_keys_differ()
    ensures
        forall|i: int, j: int|
            0 <= i < j < 7 ==> #[trigger] KEYS@[i] != #[trigger] KEYS@[j],
{
}

/// The settings of a file that can be printed are a table.
proof fn lemma_rows_are_table(file: Map<Key, Text>, n: nat)
    requires
        n <= 7,
        printable(file),
    ensures
        is_table(rows(file, n)),
    decreases n,
{
    lemma_names();
    if n > 0 {
        let before = rows(file, (n - 1) as nat);
        lemma_rows_are_table(file, (n - 1) as nat);
        lemma_rows(file, (n - 1) as nat);
        lemma_keys_differ();
        let key = KEYS@[n - 1];
        if file.contains_key(key) {
            let after = rows(file, n);
            assert forall|i: int| 0 <= i < after.len() implies is_bare_key(
                (#[trigger] after[i]).0,
            ) && is_printable(after[i].1) by {
                if i < before.len() {
                    assert(after[i] == before[i]);
                }
            }
            assert forall|i: int, j: int| 0 <= i < j < after.len() implies (#[trigger] after[i]).0
                != (#[trigger] after[j]).0 by {
                assert(after[i] == before[i]);
                if j < before.len() {
                    assert(after[j] == before[j]);
                } else {
                    let k = choose|k: int|
                        0 <= k < n - 1 && file.contains_key(KEYS@[k]) && before[i] == (
                            config::name_of(#[trigger] KEYS@[k]),
                            file[KEYS@[k]],
                        );
                    assert(config::key_named(config::name_of(KEYS@[k])) == Some(KEYS@[k]));
                    assert(config::key_named(config::name_of(key)) == Some(key));
                }
            }
        }
    }
}

/// What the rows store is the file, as far as the first `n` keys go.
proof fn lemma_rows_store(file: Map<Key, Text>, n: nat)
    requires
        n <= 7,
    ensures
        settings_of(as_entries(rows(file, n))) is Some,
        forall|key: Key| #[trigger]
            settings_of(as_entries(rows(file, n)))->0.contains_key(key) <==> (
            file.contains_key(key) && exists|k: int| 0 <= k < n && #[trigger] KEYS@[k] == key),
        forall|key: Key| #[trigger]
            settings_of(as_entries(rows(file, n)))->0.contains_key(key) ==> settings_of(
                as_entries(rows(file, n)),
            )->0[key] == file[key],
    decreases n,
{
    lemma_names();
    if n == 0 {
        assert(as_entries(rows(file, n)).len() == 0);
    } else {
        lemma_rows_store(file, (n - 1) as nat);
        let before = rows(file, (n - 1) as nat);
        let kept = settings_of(as_entries(before))->0;
        let last = KEYS@[n - 1];
        let now = settings_of(as_entries(rows(file, n)))->0;
        if file.contains_key(last) {
            let entries = as_entries(rows(file, n));
            assert(entries.drop_last() =~= as_entries(before));
            assert(entries.last() == (config::name_of(last), Some(file[last])));
            assert(now == kept.insert(last, file[last]));
        } else {
            assert(now == kept);
        }
        assert forall|key: Key| #[trigger] now.contains_key(key) <==> (file.contains_key(key)
            && exists|k: int| 0 <= k < n && #[trigger] KEYS@[k] == key) by {
            if exists|k: int| 0 <= k < n - 1 && #[trigger] KEYS@[k] == key {
                let k = choose|k: int| 0 <= k < n - 1 && #[trigger] KEYS@[k] == key;
                assert(0 <= k < n && KEYS@[k] == key);
            }
            if key == last {
                assert(KEYS@[n - 1] == key);
            }
        }
    }
}

/// Every key is among the keys.
proof fn lemma_all_keys(key: Key)
    ensures
        exists|k: int| 0 <= k < 7 && #[trigger] KEYS@[k] == key,
{
    match key {
        Key::Workspace => assert(KEYS@[0] == key),
        Key::ApiBase => assert(KEYS@[1] == key),
        Key::WebBase => assert(KEYS@[2] == key),
        Key::PassVault => assert(KEYS@[3] == key),
        Key::PassItem => assert(KEYS@[4] == key),
        Key::PassField => assert(KEYS@[5] == key),
        Key::ApiKey => assert(KEYS@[6] == key),
    }
}

/// Reading the rows of a file back gives the file: every setting, and nothing
/// that was not set.
pub proof fn rows_read_back(file: Map<Key, Text>)
    ensures
        settings_of(as_entries(rows(file, 7))) == Some(file),
{
    lemma_rows_store(file, 7);
    let kept = settings_of(as_entries(rows(file, 7)))->0;
    assert forall|key: Key| kept.contains_key(key) == file.contains_key(key) by {
        lemma_all_keys(key);
    }
    assert(kept =~= file);
}

/// The header is a comment line.
proof fn lemma_header()
    ensures
        is_comment_line(header()),
{
    reveal_strlit(
        "# Written by `plane config set`. Kept private (0600): an `api_key` line, when there is one, is a token in plaintext.\n",
    );
}

impl ConfigFile {
    /// The text that the file is saved as. Whatever is loaded from that text
    /// is the file again.
    pub fn save_text(&self) -> (r: Result<String, Error>)
        ensures
            crate::names::text_result(r) == saved(self@),
            r is Ok ==> forall|path: Text, t: TalkView| #[trigger]
                loaded(path, Some(r->Ok_0@), t) == Heard::Got(self@, t),
    {
        let mut list: Vec<(String, String)> = Vec::new();
        let mut i: usize = 0;
        assert(text::text_pairs(list@) =~= rows(self@, 0));
        while i < 7
            invariant
                i <= 7,
                text::text_pairs(list@) == rows(self@, i as nat),
                forall|k: int|
                    0 <= k < i && self@.contains_key(#[trigger] KEYS@[k]) ==> is_printable(
                        self@[KEYS@[k]],
                    ),
            decreases 7 - i,
        {
            let key = KEYS[i];
            match self.raw(key) {
                Some(value) => {
                    if !printable_value(value) {
                        let e = Error::new(
                            "a value holds more than 255 quotation marks in a row".to_string(),
                        ).context("Failed to serialize the config".to_string());
                        assert(e@ =~= saved(self@)->Err_0);
                        return Err(e);
                    }
                    crate::client::push_pair(&mut list, key.name(), value);
                },
                None => {},
            }
            i += 1;
        }
        proof {
            assert forall|key: Key| #[trigger] self@.contains_key(key) implies is_printable(
                self@[key],
            ) by {
                lemma_all_keys(key);
                let k = choose|k: int| 0 <= k < 7 && #[trigger] KEYS@[k] == key;
                assert(is_printable(self@[KEYS@[k]]));
            }
            lemma_rows_are_table(self@, 7);
            rows_read_back(self@);
            lemma_header();
        }
        match print_toml(&list) {
            Ok(body) => {
                let r =
                    "# Written by `plane config set`. Kept private (0600): an `api_key` line, when there is one, is a token in plaintext.\n".to_string().concat(
                body.as_str());
                assert(toml_parse(header() + body@) == Ok::<Entries, Seq<char>>(
                    as_entries(rows(self@, 7)),
                ));
                Ok(r)
            },
            Err(e) => Err(Error::new(e).context("Failed to serialize the config".to_string())),
        }
    }
}

// ---- where the file is ----

/// What a command knows of the process it runs in.
#[derive(Debug, PartialEq, Eq)]
pub struct World {
    pub env: Env,
    /// `XDG_CONFIG_HOME`.
    pub config_home: Option<String>,
    /// `HOME`.
    pub home: Option<String>,
    pub pid: u32,
}

/// What a [`World`] holds.
pub struct WorldView {
    pub env: Seq<(Text, Text)>,
    pub config_home: Option<Text>,
    pub home: Option<Text>,
    pub pid: u32,
}

impl View for World {
    type V = WorldView;

    open spec fn view(&self) -> WorldView {
        WorldView {
            env: self.env@,
            config_home: text::text_option(self.config_home),
            home: text::text_option(self.home),
            pid: self.pid,
        }
    }
}

/// The variable below whose directory the config file is.
#[derive(Copy, Clone, Debug, PartialEq, Eq, Structural)]
pub enum Root {
    /// `plane/` below `XDG_CONFIG_HOME`.
    ConfigHome,
    /// `.config/plane/` below `HOME`.
    Home,
}

/// Where the config file is: below which directory, and how the directory that
/// holds the file is shown.
#[derive(Debug, PartialEq, Eq)]
pub struct Place {
    pub root: Root,
    pub dir: String,
}

/// What a [`Place`] holds.
pub struct PlaceView {
    pub root: Root,
    pub dir: Text,
}

impl View for Place {
    type V = PlaceView;

    open spec fn view(&self) -> PlaceView {
        PlaceView { root: self.root, dir: self.dir@ }
    }
}

impl PlaceView {
    /// The path of the file.
    pub open spec fn file(self) -> Text {
        self.dir + "/config.toml"@
    }

    /// The path of a file beside it.
    pub open spec fn beside(self, name: Text) -> Text {
        self.dir + "/"@ + name
    }
}

/// A path one level down.
pub open spec fn below(dir: Text, name: Text) -> Text {
    if dir.len() > 0 && dir.last() == '/' {
        dir + name
    } else {
        dir + "/"@ + name
    }
}

/// `XDG_CONFIG_HOME` where it is set, else `.config` below `HOME`.
pub open spec fn place_of(world: WorldView) -> Result<PlaceView, Seq<Text>> {
    match world.config_home {
        Some(dir) if dir.len() > 0 => Ok(
            PlaceView { root: Root::ConfigHome, dir: below(dir, "plane"@) },
        ),
        _ => match world.home {
            Some(dir) if dir.len() > 0 => Ok(
                PlaceView { root: Root::Home, dir: below(below(dir, ".config"@), "plane"@) },
            ),
            _ => Err(
                seq![
                    "Could not locate a config directory: neither XDG_CONFIG_HOME nor HOME is set."@,
                ],
            ),
        },
    }
}

fn down(dir: &str, name: &str) -> (r: String)
    ensures
        r@ == below(dir@, name@),
{
    let chars = text::chars_of(dir);
    let n: usize = chars.len();
    if n > 0 && chars[n - 1] == '/' {
        dir.to_string().concat(name)
    } else {
        dir.to_string().concat("/").concat(name)
    }
}

/// Where the config file is. An empty variable counts as unset.
pub fn path(world: &World) -> (r: Result<Place, Error>)
    ensures
        (match r {
            Ok(place) => Ok(place@),
            Err(e) => Err(e@),
        }) == place_of(world@),
{
    match &world.config_home {
        Some(dir) => {
            if !dir.as_str().is_empty() {
                return Ok(Place { root: Root::ConfigHome, dir: down(dir.as_str(), "plane") });
            }
        },
        None => {},
    }
    match &world.home {
        Some(dir) => {
            if !dir.as_str().is_empty() {
                let config = down(dir.as_str(), ".config");
                return Ok(Place { root: Root::Home, dir: down(config.as_str(), "plane") });
            }
        },
        None => {},
    }
    Err(
        Error::new(
            "Could not locate a config directory: neither XDG_CONFIG_HOME nor HOME is set.".to_string(),
        ),
    )
}

impl Place {
    /// The path of the file.
    pub fn file(&self) -> (r: String)
        ensures
            r@ == self@.file(),
    {
        self.dir.clone().concat("/config.toml")
    }

    fn beside(&self, name: &str) -> (r: String)
        ensures
            r@ == self@.beside(name@),
    {
        self.dir.clone().concat("/").concat(name)
    }
}

/// The name of the scratch file that a save renames from. It carries the
/// process id, so two processes writing at once cannot share it.
pub open spec fn scratch_name(pid: u32) -> Text {
    ".config.toml."@ + text::decimal(pid as nat) + ".tmp"@
}

/// The name of the scratch file, in the target's own directory so the rename
/// stays within one filesystem.
pub fn temp_name(pid: u32) -> (r: String)
    ensures
        r@ == scratch_name(pid),
{
    ".config.toml.".to_string().concat(text::decimal_text(pid as u64).as_str()).concat(".tmp")
}

// ---- reading and replacing the file ----

pub open spec fn heard_file(r: Result<ConfigFile, Stop>, t: TalkView) -> Heard<Map<Key, Text>> {
    match r {
        Ok(file) => Heard::Got(file@, t),
        Err(s) => script::stopped(s, t),
    }
}

/// Reads the text of the config file, or that there is none.
pub open spec fn fetching(world: WorldView, t: TalkView) -> Heard<Option<Text>> {
    match place_of(world) {
        Err(e) => Heard::Failed(e, t),
        Ok(place) => script::asked(t, AskView::ReadConfig).context(
            "Failed to read "@ + place.file(),
        ).next(
            |answer: AnswerView, t: TalkView|
                match answer {
                    AnswerView::Contents(contents) => Heard::Got(contents, t),
                    _ => Heard::Failed(script::misfit(), t),
                },
        ),
    }
}

/// Reads the config file.
pub open spec fn loading(world: WorldView, t: TalkView) -> Heard<Map<Key, Text>> {
    fetching(world, t).next(
        |contents: Option<Text>, t: TalkView|
            loaded(place_of(world)->Ok_0.file(), contents, t),
    )
}

/// Fails, once the scratch file has been removed or could not be.
pub open spec fn cleared(name: Text, e: Seq<Text>, t: TalkView) -> Heard<()> {
    match script::asked(t, AskView::RemoveScratch(name)) {
        Heard::Got(_, t) => Heard::Failed(e, t),
        Heard::Failed(_, t) => Heard::Failed(e, t),
        Heard::Asks(a) => Heard::Asks(a),
    }
}

/// Writes a scratch file and renames it over the config file.
pub open spec fn replacing(place: PlaceView, pid: u32, raw: Text, t: TalkView) -> Heard<()> {
    let name = scratch_name(pid);
    match script::done(t, AskView::WriteScratch(name, raw)) {
        Heard::Asks(a) => Heard::Asks(a),
        Heard::Failed(e, t) => cleared(
            name,
            seq!["Failed to write "@ + place.beside(name)] + e,
            t,
        ),
        Heard::Got(_, t) => match script::done(t, AskView::RenameScratch(name)) {
            Heard::Asks(a) => Heard::Asks(a),
            Heard::Failed(e, t) => cleared(name, seq!["Failed to write "@ + place.file()] + e, t),
            Heard::Got(_, t) => Heard::Got((), t),
        },
    }
}

/// Replaces the config file.
pub open spec fn saving_to(
    place: PlaceView,
    pid: u32,
    file: Map<Key, Text>,
    t: TalkView,
) -> Heard<()> {
    script::done(t, AskView::CreateConfigDir).context("Failed to create "@ + place.dir).next(
        |u: (), t: TalkView|
            match saved(file) {
                Ok(raw) => replacing(place, pid, raw, t),
                Err(e) => Heard::Failed(e, t),
            },
    )
}

/// Replaces the config file.
pub open spec fn saving(world: WorldView, file: Map<Key, Text>, t: TalkView) -> Heard<()> {
    match place_of(world) {
        Err(e) => Heard::Failed(e, t),
        Ok(place) => saving_to(place, world.pid, file, t),
    }
}

fn clear(talk: &mut Talk, name: String, e: Error) -> (r: Result<(), Stop>)
    ensures
        script::heard_done(r, final(talk)@) == cleared(name@, e@, old(talk)@),
{
    match talk.hear(Ask::RemoveScratch(name)) {
        Ok(_) => Err(Stop::Fail(e)),
        Err(Stop::Fail(_)) => Err(Stop::Fail(e)),
        Err(Stop::Ask(a)) => Err(Stop::Ask(a)),
    }
}

/// Writes beside the target and renames over it. A rename within one directory
/// is atomic, so an interrupted write leaves the previous file whole instead of
/// a truncated one that would then fail to parse on the next run.
fn replace(talk: &mut Talk, place: &Place, pid: u32, raw: String) -> (r: Result<(), Stop>)
    ensures
        script::heard_done(r, final(talk)@) == replacing(place@, pid, raw@, old(talk)@),
{
    let name = temp_name(pid);
    match talk.done(Ask::WriteScratch(name.clone(), raw)) {
        Err(Stop::Ask(a)) => Err(Stop::Ask(a)),
        Err(Stop::Fail(e)) => {
            let e = e.context(
                "Failed to write ".to_string().concat(place.beside(name.as_str()).as_str()),
            );
            clear(talk, name, e)
        },
        Ok(_) => match talk.done(Ask::RenameScratch(name.clone())) {
            Err(Stop::Ask(a)) => Err(Stop::Ask(a)),
            Err(Stop::Fail(e)) => {
                let e = e.context(
                    "Failed to write ".to_string().concat(place.file().as_str()),
                );
                clear(talk, name, e)
            },
            Ok(_) => Ok(()),
        },
    }
}

pub open spec fn heard_contents(r: Result<Option<String>, Stop>, t: TalkView) -> Heard<
    Option<Text>,
> {
    match r {
        Ok(contents) => Heard::Got(text::text_option(contents), t),
        Err(s) => script::stopped(s, t),
    }
}

/// Reads the text of the config file, or that there is none.
pub fn fetch(world: &World, talk: &mut Talk) -> (r: Result<Option<String>, Stop>)
    ensures
        heard_contents(r, final(talk)@) == fetching(world@, old(talk)@),
{
    let place = match path(world) {
        Ok(place) => place,
        Err(e) => {
            return Err(Stop::Fail(e));
        },
    };
    let answer = match talk.hear(Ask::ReadConfig) {
        Ok(answer) => answer,
        Err(stop) => {
            return Err(stop.context("Failed to read ".to_string().concat(place.file().as_str())));
        },
    };
    match answer {
        Answer::Contents(contents) => Ok(contents.clone()),
        _ => Err(Stop::Fail(script::misfit_error())),
    }
}

impl ConfigFile {
    pub fn load(world: &World, talk: &mut Talk) -> (r: Result<ConfigFile, Stop>)
        ensures
            heard_file(r, final(talk)@) == loading(world@, old(talk)@),
    {
        let contents = fetch(world, talk)?;
        let place = match path(world) {
            Ok(place) => place,
            Err(e) => {
                return Err(Stop::Fail(e));
            },
        };
        let raw: Option<&str> = match &contents {
            Some(raw) => Some(raw.as_str()),
            None => None,
        };
        ConfigFile::load_from(place.file().as_str(), raw, talk)
    }

    /// Replace the file at a place. The scratch file is private from the call
    /// that creates it, so the content is never readable by another account.
    pub fn save_to(&self, place: &Place, pid: u32, talk: &mut Talk) -> (r: Result<(), Stop>)
        ensures
            script::heard_done(r, final(talk)@) == saving_to(place@, pid, self@, old(talk)@),
    {
        match talk.done(Ask::CreateConfigDir) {
            Ok(_) => {},
            Err(stop) => {
                return Err(
                    stop.context("Failed to create ".to_string().concat(place.dir.as_str())),
                );
            },
        }
        match self.save_text() {
            Ok(raw) => replace(talk, place, pid, raw),
            Err(e) => Err(Stop::Fail(e)),
        }
    }

    pub fn save(&self, world: &World, talk: &mut Talk) -> (r: Result<(), Stop>)
        ensures
            script::heard_done(r, final(talk)@) == saving(world@, self@, old(talk)@),
    {
        match path(world) {
            Ok(place) => self.save_to(&place, world.pid, talk),
            Err(e) => Err(Stop::Fail(e)),
        }
    }
}

// ---- laws ----

/// The config file is touched by a rename alone, and only once the scratch file,
/// which is another file, has been written: an interrupted write leaves the
/// previous file whole.
pub proof fn a_rename_follows_a_whole_write(
    place: PlaceView,
    pid: u32,
    raw: Text,
    t: TalkView,
)
    ensures
        scratch_name(pid) != "config.toml"@,
        match replacing(place, pid, raw, t) {
            Heard::Asks(AskView::RenameScratch(name)) => t.at < t.answers.len()
                && t.answers[t.at as int] == AnswerView::Done && name == scratch_name(pid),
            Heard::Asks(AskView::WriteScratch(name, text)) => name == scratch_name(pid) && text
                == raw,
            Heard::Asks(a) => a == AskView::RemoveScratch(scratch_name(pid)),
            _ => true,
        },
{
    reveal_strlit("config.toml");
    reveal_strlit(".config.toml.");
    assert(scratch_name(pid)[0] == '.');
    assert("config.toml"@[0] == 'c');
}

/// The config file is `plane/config.toml` below `XDG_CONFIG_HOME`, or below
/// `.config` of the home directory where that is not set; an empty variable is not
/// set.
pub proof fn the_config_file_has_one_place(world: WorldView, dir: Text)
    requires
        dir.len() > 0,
        dir.last() != '/',
    ensures
        world.config_home == Some(dir) ==> (place_of(world) matches Ok(place) && place.root
            == Root::ConfigHome && place.dir == dir + "/plane"@ && place.file() == dir
            + "/plane/config.toml"@),
        world.config_home == Some(dir.push('/')) ==> (place_of(world) matches Ok(place)
            && place.root == Root::ConfigHome && place.file() == dir + "/plane/config.toml"@),
        (world.config_home is None || world.config_home->0.len() == 0) && world.home == Some(dir)
            ==> (place_of(world) matches Ok(place) && place.root == Root::Home && place.dir == dir
            + "/.config/plane"@ && place.file() == dir + "/.config/plane/config.toml"@),
        (world.config_home is None || world.config_home->0.len() == 0) && (world.home is None
            || world.home->0.len() == 0) ==> place_of(world) is Err,
{
    reveal_strlit("/");
    reveal_strlit("plane");
    reveal_strlit("/plane");
    reveal_strlit(".config");
    reveal_strlit("/config.toml");
    reveal_strlit("/plane/config.toml");
    reveal_strlit("/.config/plane");
    reveal_strlit("/.config/plane/config.toml");
    assert(below(dir, "plane"@) =~= dir + "/plane"@);
    assert(below(dir.push('/'), "plane"@) =~= dir + "/plane"@);
    assert(dir + "/plane"@ + "/config.toml"@ =~= dir + "/plane/config.toml"@);
    let config = below(dir, ".config"@);
    assert(config.last() == 'g');
    assert(below(config, "plane"@) =~= dir + "/.config/plane"@);
    assert(dir + "/.config/plane"@ + "/config.toml"@ =~= dir + "/.config/plane/config.toml"@);
}

/// Whether an entry of a document is a setting: it has the name of one, and it is a
/// string.
pub open spec fn is_setting(entry: (Text, Option<Text>)) -> bool {
    entry.1 is Some && exists|key: Key| config::name_of(key) == entry.0
}

proof fn lemma_setting(entry: (Text, Option<Text>), key: Key)
    ensures
        is_setting(entry) <==> entry.1 is Some && config::key_named(entry.0) is Some,
        config::key_named(entry.0) matches Some(k) ==> config::name_of(k) == entry.0,
        config::name_of(key) == entry.0 ==> config::key_named(entry.0) == Some(key),
{
    lemma_names();
    match config::key_named(entry.0) {
        Some(k) => assert(config::name_of(k) == entry.0),
        None => {},
    }
}

/// A config file stores the value of each of its entries under the setting of that
/// name, and nothing else; it is no config file where one of them is no setting.
pub proof fn each_entry_is_a_setting(entries: Entries, i: int, key: Key)
    ensures
        settings_of(entries) is Some <==> forall|k: int|
            0 <= k < entries.len() ==> is_setting(#[trigger] entries[k]),
        settings_of(entries) matches Some(file) ==> {
            &&& 0 <= i < entries.len() && config::name_of(key) == entries[i].0 && (forall|j: int|
                i < j < entries.len() ==> (#[trigger] entries[j]).0 != entries[i].0)
                ==> file.contains_key(key) && Some(file[key]) == entries[i].1
            &&& file.contains_key(key) ==> exists|k: int|
                0 <= k < entries.len() && (#[trigger] entries[k]).0 == config::name_of(key)
        },
    decreases entries.len(),
{
    if entries.len() > 0 {
        let front = entries.drop_last();
        let last = entries.last();
        each_entry_is_a_setting(front, i, key);
        lemma_setting(last, key);
        assert(forall|k: int| 0 <= k < front.len() ==> #[trigger] front[k] == entries[k]);
        if settings_of(entries) is None && settings_of(front) is None {
            let k = choose|k: int| 0 <= k < front.len() && !is_setting(#[trigger] front[k]);
            assert(!is_setting(entries[k]));
        }
        if settings_of(entries) is None && settings_of(front) is Some {
            assert(!is_setting(entries[entries.len() - 1]));
        }
        if let Some(file) = settings_of(entries) {
            assert forall|k: int| 0 <= k < entries.len() implies is_setting(
                #[trigger] entries[k],
            ) by {
                if k < front.len() {
                    assert(is_setting(front[k]));
                } else {
                    assert(entries[k] == last);
                }
            }
            let named = config::key_named(last.0)->0;
            assert(config::name_of(named) == last.0);
            assert(entries[entries.len() - 1].0 == config::name_of(named));
            if 0 <= i < entries.len() - 1 && config::name_of(key) == entries[i].0 {
                if forall|j: int| i < j < entries.len() ==> (#[trigger] entries[j]).0
                    != entries[i].0 {
                    assert(entries[entries.len() - 1].0 != entries[i].0);
                    assert(forall|j: int|
                        i < j < front.len() ==> (#[trigger] front[j]).0 != front[i].0);
                }
            }
            if file.contains_key(key) && key != named {
                let k = choose|k: int|
                    0 <= k < front.len() && (#[trigger] front[k]).0 == config::name_of(key);
                assert(entries[k].0 == config::name_of(key));
            }
        }
    }
}

/// Whether the answer to the `n`th question from here is that it was done.
pub open spec fn is_done(t: TalkView, n: int) -> bool {
    t.at + n < t.answers.len() && t.answers[t.at + n] == AnswerView::Done
}

/// Whether the answer to the `n`th question from here is that it failed.
pub open spec fn has_failed(t: TalkView, n: int) -> bool {
    t.at + n < t.answers.len() && t.answers[t.at + n] is Failed
}

/// A config file is saved in three steps: its directory is made, the whole of it is
/// written beside it, and what was written is renamed over it. Where the second or
/// third fails, what was written is removed, and the save fails.
pub proof fn a_file_is_saved_in_three_steps(
    world: WorldView,
    file: Map<Key, Text>,
    t: TalkView,
    raw: Text,
    name: Text,
)
    requires
        place_of(world) is Ok,
        saved(file) == Ok::<Text, Seq<Text>>(raw),
        name == ".config.toml."@ + text::decimal(world.pid as nat) + ".tmp"@,
    ensures
        t.at >= t.answers.len() ==> saving(world, file, t) == Heard::<()>::Asks(
            AskView::CreateConfigDir,
        ),
        has_failed(t, 0) ==> saving(world, file, t) is Failed,
        is_done(t, 0) && t.at + 1 >= t.answers.len() ==> saving(world, file, t) == Heard::<
            (),
        >::Asks(AskView::WriteScratch(name, raw)),
        is_done(t, 0) && is_done(t, 1) && t.at + 2 >= t.answers.len() ==> saving(world, file, t)
            == Heard::<()>::Asks(AskView::RenameScratch(name)),
        is_done(t, 0) && is_done(t, 1) && is_done(t, 2) ==> saving(world, file, t) == Heard::Got(
            (),
            t.further().further().further(),
        ),
        is_done(t, 0) && has_failed(t, 1) ==> if t.at + 2 >= t.answers.len() {
            saving(world, file, t) == Heard::<()>::Asks(AskView::RemoveScratch(name))
        } else {
            saving(world, file, t) is Failed
        },
        is_done(t, 0) && is_done(t, 1) && has_failed(t, 2) ==> if t.at + 3 >= t.answers.len() {
            saving(world, file, t) == Heard::<()>::Asks(AskView::RemoveScratch(name))
        } else {
            saving(world, file, t) is Failed
        },
{
}

/// The config file is read, and one that is not there stores nothing; one that
/// could not be read, or is no config file, is never taken for an empty one.
pub proof fn a_file_that_cannot_be_read_is_not_empty(world: WorldView, t: TalkView)
    requires
        place_of(world) is Ok,
    ensures
        t.at >= t.answers.len() ==> loading(world, t) == Heard::<Map<Key, Text>>::Asks(
            AskView::ReadConfig,
        ),
        has_failed(t, 0) ==> loading(world, t) is Failed,
        t.at < t.answers.len() ==> match t.answers[t.at as int] {
            AnswerView::Contents(None) => loading(world, t) == Heard::Got(
                Map::<Key, Text>::empty(),
                t.further(),
            ),
            AnswerView::Contents(Some(raw)) => match toml_parse(raw) {
                Ok(entries) => match settings_of(entries) {
                    Some(file) => loading(world, t) == Heard::Got(file, t.further()),
                    None => loading(world, t) !is Got,
                },
                Err(_) => loading(world, t) is Failed,
            },
            _ => loading(world, t) is Failed,
        },
{
}

/// Whether a row is a setting of a file with its value.
pub open spec fn is_row(file: Map<Key, Text>, row: (Text, Text)) -> bool {
    exists|key: Key| #[trigger]
        file.contains_key(key) && row == (config::name_of(key), file[key])
}

/// What a file is saved as has every setting of the file, under its name, and
/// nothing else.
pub proof fn every_setting_is_saved(file: Map<Key, Text>, key: Key)
    ensures
        printable(file) ==> saved(file) == Ok::<Text, Seq<Text>>(
            header() + toml_print(rows(file, 7)),
        ),
        !printable(file) ==> saved(file) is Err,
        file.contains_key(key) ==> rows(file, 7).contains((config::name_of(key), file[key])),
        forall|i: int|
            0 <= i < rows(file, 7).len() ==> is_row(file, #[trigger] rows(file, 7)[i]),
{
    lemma_rows_hold(file, 7);
    lemma_all_keys(key);
}

proof fn lemma_rows_hold(file: Map<Key, Text>, n: nat)
    requires
        n <= 7,
    ensures
        forall|k: int|
            0 <= k < n && file.contains_key(#[trigger] KEYS@[k]) ==> rows(file, n).contains(
                (config::name_of(KEYS@[k]), file[KEYS@[k]]),
            ),
        forall|i: int|
            0 <= i < rows(file, n).len() ==> is_row(file, #[trigger] rows(file, n)[i]),
    decreases n,
{
    if n > 0 {
        let m = (n - 1) as nat;
        lemma_rows_hold(file, m);
        let before = rows(file, m);
        let key = KEYS@[n - 1];
        assert forall|k: int| 0 <= k < n && file.contains_key(#[trigger] KEYS@[k]) implies rows(
            file,
            n,
        ).contains((config::name_of(KEYS@[k]), file[KEYS@[k]])) by {
            let one = (config::name_of(KEYS@[k]), file[KEYS@[k]]);
            if k < n - 1 {
                assert(before.contains(one));
                let i = before.index_of(one);
                assert(rows(file, n)[i] == one);
            } else {
                assert(rows(file, n)[rows(file, n).len() - 1] == one);
            }
        }
        assert forall|i: int| 0 <= i < rows(file, n).len() implies is_row(
            file,
            #[trigger] rows(file, n)[i],
        ) by {
            if i < before.len() {
                assert(rows(file, n)[i] == before[i]);
            } else {
                assert(file.contains_key(key) && rows(file, n)[i] == (
                    config::name_of(key),
                    file[key],
                ));
            }
        }
    }
}

/// A config file that is wrong, or cannot be read or written, is named in what is
/// said of it.
pub proof fn a_bad_config_file_is_named(
    world: WorldView,
    t: TalkView,
    place: PlaceView,
    e: Seq<Text>,
)
    requires
        place_of(world) == Ok::<PlaceView, Seq<Text>>(place),
        t.at < t.answers.len(),
    ensures
        t.answers[t.at as int] == AnswerView::Failed(e) ==> loading(world, t) == Heard::<
            Map<Key, Text>,
        >::Failed(seq!["Failed to read "@ + (place.dir + "/config.toml"@)] + e, t.further()),
        t.answers[t.at as int] matches AnswerView::Contents(Some(raw)) ==> (loading(
            world,
            t,
        ) matches Heard::Failed(said, _) ==> said.len() > 0 && text::starts(
            said[0],
            place.dir + "/config.toml"@ + " is not valid config"@,
        )),
{
    let front = place.dir + "/config.toml"@ + " is not valid config"@;
    let whole = not_valid(place.dir + "/config.toml"@);
    reveal_strlit(" is not valid config");
    reveal_strlit(
        " is not valid config; fix it by hand, or delete it and re-run `plane config set`",
    );
    assert(whole.subrange(0, front.len() as int) =~= front);
}

/// A save that failed says what could not be made or written, in front of what was
/// wrong.
pub proof fn a_failed_save_says_what_could_not_be_written(
    world: WorldView,
    file: Map<Key, Text>,
    t: TalkView,
    raw: Text,
    place: PlaceView,
    e: Seq<Text>,
)
    requires
        place_of(world) == Ok::<PlaceView, Seq<Text>>(place),
        saved(file) == Ok::<Text, Seq<Text>>(raw),
    ensures
        t.at < t.answers.len() && t.answers[t.at as int] == AnswerView::Failed(e) ==> saving(
            world,
            file,
            t,
        ) == Heard::<()>::Failed(seq!["Failed to create "@ + place.dir] + e, t.further()),
        is_done(t, 0) && t.at + 2 < t.answers.len() && t.answers[t.at as int + 1]
            == AnswerView::Failed(e) ==> (saving(world, file, t) matches Heard::Failed(said, _)
            && said == seq!["Failed to write "@ + (place.dir + "/"@ + scratch_name(world.pid))] + e),
        is_done(t, 0) && is_done(t, 1) && t.at + 3 < t.answers.len() && t.answers[t.at as int + 2]
            == AnswerView::Failed(e) ==> (saving(world, file, t) matches Heard::Failed(said, _)
            && said == seq!["Failed to write "@ + (place.dir + "/config.toml"@)] + e),
{
}

} // verus!
