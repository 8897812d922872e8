//! Persistent configuration.
//!
//! Settings live in `$XDG_CONFIG_HOME/plane/config.toml`, falling back to
//! `~/.config/plane/config.toml`. A file rather than exported variables,
//! because every context that runs `plane` reads the same file, while an
//! export only reaches the processes that descend from the shell that ran it.
//!
//! Precedence per setting: environment variable, then the file, then the
//! built-in default.
//!
//! `api_key` is the one setting that holds a credential, for machines with no
//! Proton Pass session. Nothing that renders a setting may print it:
//! [`effective`] hands every renderer a redacted row.

use crate::error::Error;
use crate::text;
use crate::text::Text;
use vstd::prelude::*;

verus! {

broadcast use crate::text::lemma_texts_push;

/// The API base of an instance reached over an SSH tunnel or on the same box.
pub const DEFAULT_API_BASE: &'static str = "http://localhost:8090/api/v1";

pub const DEFAULT_PASS_VAULT: &'static str = "Personal";

pub const DEFAULT_PASS_ITEM: &'static str = "plane";

pub const DEFAULT_PASS_FIELD: &'static str = "PAT";

/// What a credential's value renders as everywhere a value would be printed.
pub const MASK: &'static str = "(set)";

/// How much of a rejected key an error may echo.
pub const MAX_ECHO: usize = 32;

/// A configurable setting. Closed on purpose: an unknown key is a typo, and
/// silently storing it would look like it took effect.
#[derive(Copy, Clone, Debug, PartialEq, Eq, Structural)]
pub enum Key {
    Workspace,
    ApiBase,
    WebBase,
    PassVault,
    PassItem,
    PassField,
    ApiKey,
}

/// Every key, in the order `config show` prints them.
pub const KEYS: [Key; 7] = [
    Key::Workspace,
    Key::ApiBase,
    Key::WebBase,
    Key::PassVault,
    Key::PassItem,
    Key::PassField,
    Key::ApiKey,
];

/// The name of a setting in the file and on the command line.
pub open spec fn name_of(key: Key) -> Text {
    match key {
        Key::Workspace => "workspace"@,
        Key::ApiBase => "api_base"@,
        Key::WebBase => "web_base"@,
        Key::PassVault => "pass_vault"@,
        Key::PassItem => "pass_item"@,
        Key::PassField => "pass_field"@,
        Key::ApiKey => "api_key"@,
    }
}

/// The variable that overrides a setting.
pub open spec fn env_of(key: Key) -> Text {
    match key {
        Key::Workspace => "PLANE_WORKSPACE"@,
        Key::ApiBase => "PLANE_API_BASE"@,
        Key::WebBase => "PLANE_WEB_BASE"@,
        Key::PassVault => "PLANE_PASS_VAULT"@,
        Key::PassItem => "PLANE_PASS_ITEM"@,
        Key::PassField => "PLANE_PASS_FIELD"@,
        Key::ApiKey => "PLANE_API_KEY"@,
    }
}

/// The built-in value of a setting, where it has one.
pub open spec fn default_of(key: Key) -> Option<Text> {
    match key {
        Key::Workspace => None,
        Key::ApiBase => Some(DEFAULT_API_BASE@),
        Key::WebBase => None,
        Key::PassVault => Some(DEFAULT_PASS_VAULT@),
        Key::PassItem => Some(DEFAULT_PASS_ITEM@),
        Key::PassField => Some(DEFAULT_PASS_FIELD@),
        Key::ApiKey => None,
    }
}

/// One character of a key as the user typed it, in the spelling of the file.
pub open spec fn canonical_char(c: char) -> char {
    if c == '-' || c == ' ' || c == '.' {
        '_'
    } else {
        text::ascii_lower(c)
    }
}

/// A key as the user typed it, in the spelling of the file: lower case,
/// underscores for separators, and no `plane_` in front.
pub open spec fn canonical(input: Text) -> Text {
    let lowered = text::trimmed(input).map_values(|c: char| canonical_char(c));
    if text::starts(lowered, "plane_"@) {
        lowered.skip("plane_"@.len() as int)
    } else {
        lowered
    }
}

/// The key with a given name.
pub open spec fn key_named(name: Text) -> Option<Key> {
    if name == name_of(Key::Workspace) {
        Some(Key::Workspace)
    } else if name == name_of(Key::ApiBase) {
        Some(Key::ApiBase)
    } else if name == name_of(Key::WebBase) {
        Some(Key::WebBase)
    } else if name == name_of(Key::PassVault) {
        Some(Key::PassVault)
    } else if name == name_of(Key::PassItem) {
        Some(Key::PassItem)
    } else if name == name_of(Key::PassField) {
        Some(Key::PassField)
    } else if name == name_of(Key::ApiKey) {
        Some(Key::ApiKey)
    } else {
        None
    }
}

/// The names of all keys, in order.
pub open spec fn all_names() -> Seq<Text> {
    Seq::new(7, |i: int| name_of(KEYS@[i]))
}

/// A rejected key as an error echoes it: its first characters, and an ellipsis
/// where there are more.
pub open spec fn echo(input: Text) -> Text {
    let shown = text::trimmed(input);
    if shown.len() > MAX_ECHO {
        shown.take(MAX_ECHO as int).push('\u{2026}')
    } else {
        shown
    }
}

pub open spec fn is_secret_word(word: Text) -> bool {
    ||| word == "key"@
    ||| word == "token"@
    ||| word == "secret"@
    ||| word == "password"@
    ||| word == "credential"@
    ||| word == "pat"@
}

/// Whether a rejected key name reads as a credential rather than as a typo.
pub open spec fn reads_as_secret(name: Text) -> bool {
    ||| exists|i: int|
        0 <= i < text::split(name, '_').len() && is_secret_word(
            #[trigger] text::split(name, '_')[i],
        )
    ||| text::occurs(name, "apikey"@)
    ||| text::occurs(name, "token"@)
    ||| text::occurs(name, "secret"@)
    ||| text::occurs(name, "password"@)
}

/// Why a key was refused.
pub open spec fn refusal(input: Text) -> Text {
    if reads_as_secret(canonical(input)) {
        "`"@ + echo(input)
            + "` is not a config key. The one credential this file holds is spelled `api_key`: `plane config set api_key <token>` stores it in plaintext for a machine with no pass-cli.\nOtherwise set PLANE_API_KEY for one-off runs, or point `pass_vault` / `pass_item` / `pass_field` at the Proton Pass entry holding the token."@
    } else {
        "Unknown config key `"@ + echo(input) + "`. Valid keys: "@ + text::joined(
            all_names(),
            ", "@,
        ) + "."@
    }
}

/// The key that a user typed.
pub open spec fn parsed(input: Text) -> Result<Key, Seq<Text>> {
    match key_named(canonical(input)) {
        Some(key) => Ok(key),
        None => Err(seq![refusal(input)]),
    }
}

impl Key {
    pub fn name(self) -> (r: &'static str)
        ensures
            r@ == name_of(self),
    {
        match self {
            Key::Workspace => "workspace",
            Key::ApiBase => "api_base",
            Key::WebBase => "web_base",
            Key::PassVault => "pass_vault",
            Key::PassItem => "pass_item",
            Key::PassField => "pass_field",
            Key::ApiKey => "api_key",
        }
    }

    /// Whether the value is a credential rather than a setting, so no output
    /// path may print it back.
    pub fn is_secret(self) -> (r: bool)
        ensures
            r == (self == Key::ApiKey),
    {
        match self {
            Key::ApiKey => true,
            _ => false,
        }
    }

    /// The variable that overrides this key for one invocation.
    pub fn env(self) -> (r: &'static str)
        ensures
            r@ == env_of(self),
    {
        match self {
            Key::Workspace => "PLANE_WORKSPACE",
            Key::ApiBase => "PLANE_API_BASE",
            Key::WebBase => "PLANE_WEB_BASE",
            Key::PassVault => "PLANE_PASS_VAULT",
            Key::PassItem => "PLANE_PASS_ITEM",
            Key::PassField => "PLANE_PASS_FIELD",
            Key::ApiKey => "PLANE_API_KEY",
        }
    }

    /// `None` where guessing would be worse than failing: the workspace slug
    /// scopes every request path, the web origin is not derivable from the API
    /// base, and an unset token falls through to pass-cli.
    pub fn default_value(self) -> (r: Option<&'static str>)
        ensures
            match r {
                Some(v) => default_of(self) == Some(v@),
                None => default_of(self) is None,
            },
    {
        match self {
            Key::Workspace => None,
            Key::ApiBase => Some(DEFAULT_API_BASE),
            Key::WebBase => None,
            Key::PassVault => Some(DEFAULT_PASS_VAULT),
            Key::PassItem => Some(DEFAULT_PASS_ITEM),
            Key::PassField => Some(DEFAULT_PASS_FIELD),
            Key::ApiKey => None,
        }
    }

    /// The key with exactly this name.
    pub fn named(name: &str) -> (r: Option<Key>)
        ensures
            r == key_named(name@),
    {
        let mut i: usize = 0;
        while i < 7
            invariant
                i <= 7,
                forall|j: int| 0 <= j < i ==> name@ != name_of(#[trigger] KEYS@[j]),
            decreases 7 - i,
        {
            if text::same(KEYS[i].name(), name) {
                proof {
                    lemma_earlier_keys_differ(name@, i as int);
                }
                return Some(KEYS[i]);
            }
            i += 1;
        }
        proof {
            lemma_no_key(name@);
        }
        None
    }

    /// Parse a key as the user typed it. `PLANE_WEB_BASE`, `web-base` and
    /// `web_base` all name the same setting.
    pub fn parse(input: &str) -> (r: Result<Key, Error>)
        ensures
            (match r {
                Ok(key) => Ok(key),
                Err(e) => Err(e@),
            }) == parsed(input@),
    {
        let lowered = canonical_text(text::trim(input));
        let name: &str = match text::strip_prefix(lowered.as_str(), "plane_") {
            Some(rest) => rest,
            None => lowered.as_str(),
        };
        match Key::named(name) {
            Some(key) => Ok(key),
            None => {
                let shown = for_error(input);
                let message = if looks_like_a_secret(name) {
                    "`".to_string().concat(shown.as_str()).concat(
                        "` is not a config key. The one credential this file holds is spelled `api_key`: `plane config set api_key <token>` stores it in plaintext for a machine with no pass-cli.\nOtherwise set PLANE_API_KEY for one-off runs, or point `pass_vault` / `pass_item` / `pass_field` at the Proton Pass entry holding the token.",
                    )
                } else {
                    "Unknown config key `".to_string().concat(shown.as_str()).concat(
                        "`. Valid keys: ",
                    ).concat(key_list().as_str()).concat(".")
                };
                Err(Error::new(message))
            },
        }
    }
}

proof fn lemma_earlier_keys_differ(name: Text, i: int)
    requires
        0 <= i < 7,
        name == name_of(KEYS@[i]),
        forall|j: int| 0 <= j < i ==> name != name_of(#[trigger] KEYS@[j]),
    ensures
        key_named(name) == Some(KEYS@[i]),
{
    if i > 0 {
        assert(name != name_of(KEYS@[0]));
    }
    if i > 1 {
        assert(name != name_of(KEYS@[1]));
    }
    if i > 2 {
        assert(name != name_of(KEYS@[2]));
    }
    if i > 3 {
        assert(name != name_of(KEYS@[3]));
    }
    if i > 4 {
        assert(name != name_of(KEYS@[4]));
    }
    if i > 5 {
        assert(name != name_of(KEYS@[5]));
    }
}

proof fn lemma_no_key(name: Text)
    requires
        forall|j: int| 0 <= j < 7 ==> name != name_of(#[trigger] KEYS@[j]),
    ensures
        key_named(name) is None,
{
    assert(name != name_of(KEYS@[0]));
    assert(name != name_of(KEYS@[1]));
    assert(name != name_of(KEYS@[2]));
    assert(name != name_of(KEYS@[3]));
    assert(name != name_of(KEYS@[4]));
    assert(name != name_of(KEYS@[5]));
    assert(name != name_of(KEYS@[6]));
}

/// The characters of a typed key, each in the spelling of the file.
fn canonical_text(s: &str) -> (r: String)
    ensures
        r@ == s@.map_values(|c: char| canonical_char(c)),
{
    let ghost wanted = s@.map_values(|c: char| canonical_char(c));
    let chars = text::chars_of(s);
    let mut out: String = String::new();
    let mut i: usize = 0;
    while i < chars.len()
        invariant
            chars@ == s@,
            wanted == s@.map_values(|c: char| canonical_char(c)),
            i <= chars@.len(),
            out@ == wanted.take(i as int),
        decreases chars@.len() - i,
    {
        let c: char = chars[i];
        out.push(
            if c == '-' || c == ' ' || c == '.' {
                '_'
            } else {
                text::lower_char(c)
            },
        );
        assert(out@ =~= wanted.take(i + 1));
        i += 1;
    }
    assert(wanted.take(wanted.len() as int) == wanted);
    out
}

/// The names of all keys, as an error lists them.
pub fn key_list() -> (r: String)
    ensures
        r@ == text::joined(all_names(), ", "@),
{
    let mut names: Vec<String> = Vec::new();
    let mut i: usize = 0;
    while i < 7
        invariant
            i <= 7,
            text::texts(names@) == all_names().take(i as int),
        decreases 7 - i,
    {
        names.push(KEYS[i].name().to_string());
        assert(text::texts(names@) =~= all_names().take(i + 1));
        i += 1;
    }
    assert(all_names().take(7) =~= all_names());
    text::join(&names, ", ")
}

/// A rejected key as the error prints it. Swapping the positionals puts the
/// token where the key belongs, and the error outlives the command in a
/// scrollback or a log, so the echo is cut short.
pub fn for_error(input: &str) -> (r: String)
    ensures
        r@ == echo(input@),
{
    let shown: &str = text::trim(input);
    let mut out: String = text::first_chars(shown, MAX_ECHO).to_string();
    if shown.unicode_len() > MAX_ECHO {
        out.push('\u{2026}');
    }
    out
}

/// Whether a rejected key name reads as a credential rather than as a typo, so
/// the error can point at the one spelling that is stored.
pub fn looks_like_a_secret(name: &str) -> (r: bool)
    ensures
        r == reads_as_secret(name@),
{
    let parts = text::split_text(name, '_');
    let ghost pieces = text::split(name@, '_');
    let mut i: usize = 0;
    while i < parts.len()
        invariant
            i <= parts@.len(),
            pieces == text::texts(parts@),
            pieces == text::split(name@, '_'),
            forall|j: int| 0 <= j < i ==> !is_secret_word(#[trigger] pieces[j]),
        decreases parts@.len() - i,
    {
        let part: &str = parts[i].as_str();
        assert(pieces[i as int] == part@);
        if text::same(part, "key") || text::same(part, "token") || text::same(part, "secret")
            || text::same(part, "password") || text::same(part, "credential") || text::same(
            part,
            "pat",
        ) {
            return true;
        }
        i += 1;
    }
    text::contains(name, "apikey") || text::contains(name, "token") || text::contains(
        name,
        "secret",
    ) || text::contains(name, "password")
}

// ---- the file ----

/// The file as it is on disk. Absent keys are absent, not empty strings, so
/// `unset` really removes a line rather than storing `""`.
#[derive(Debug, PartialEq, Eq)]
pub struct ConfigFile {
    pub workspace: Option<String>,
    pub api_base: Option<String>,
    pub web_base: Option<String>,
    pub pass_vault: Option<String>,
    pub pass_item: Option<String>,
    pub pass_field: Option<String>,
    pub api_key: Option<String>,
}

impl ConfigFile {
    pub open spec fn held(self, key: Key) -> Option<String> {
        match key {
            Key::Workspace => self.workspace,
            Key::ApiBase => self.api_base,
            Key::WebBase => self.web_base,
            Key::PassVault => self.pass_vault,
            Key::PassItem => self.pass_item,
            Key::PassField => self.pass_field,
            Key::ApiKey => self.api_key,
        }
    }
}

/// The values that a file stores, by key.
impl View for ConfigFile {
    type V = Map<Key, Text>;

    open spec fn view(&self) -> Map<Key, Text> {
        Map::new(|key: Key| self.held(key) is Some, |key: Key| self.held(key)->0@)
    }
}

/// A value as it is used: the two origins carry no trailing slash, so a joined
/// URL cannot hold a doubled separator.
pub open spec fn normal(key: Key, value: Text) -> Text {
    match key {
        Key::ApiBase => text::drop_back(value, text::Class::Slash),
        Key::WebBase => text::drop_back(value, text::Class::Slash),
        _ => value,
    }
}

/// The stored value of a key, where it is more than white space.
pub open spec fn stored(file: Map<Key, Text>, key: Key) -> Option<Text> {
    if file.contains_key(key) && text::trimmed(file[key]).len() > 0 {
        Some(text::trimmed(file[key]))
    } else {
        None
    }
}

/// What `set` stores for a value as the user typed it.
pub open spec fn settled(key: Key, value: Text) -> Text {
    normal(key, text::trimmed(value))
}

/// Why an empty value is refused.
pub open spec fn empty_refusal(key: Key) -> Text {
    "`"@ + name_of(key) + "` cannot be set to an empty value. Use `plane config unset "@ + name_of(
        key,
    ) + "` to remove it."@
}

impl ConfigFile {
    fn slot(&mut self, key: Key) -> (r: &mut Option<String>)
        ensures
            *r == old(self).held(key),
            final(self).held(key) == *final(r),
            forall|other: Key| other != key ==> final(self).held(other) == old(self).held(other),
    {
        match key {
            Key::Workspace => &mut self.workspace,
            Key::ApiBase => &mut self.api_base,
            Key::WebBase => &mut self.web_base,
            Key::PassVault => &mut self.pass_vault,
            Key::PassItem => &mut self.pass_item,
            Key::PassField => &mut self.pass_field,
            Key::ApiKey => &mut self.api_key,
        }
    }

    /// The value of a key as the file spells it.
    pub fn raw(&self, key: Key) -> (r: Option<&str>)
        ensures
            match r {
                Some(v) => self@.contains_key(key) && self@[key] == v@,
                None => !self@.contains_key(key),
            },
    {
        let held = match key {
            Key::Workspace => &self.workspace,
            Key::ApiBase => &self.api_base,
            Key::WebBase => &self.web_base,
            Key::PassVault => &self.pass_vault,
            Key::PassItem => &self.pass_item,
            Key::PassField => &self.pass_field,
            Key::ApiKey => &self.api_key,
        };
        match held {
            Some(v) => Some(v.as_str()),
            None => None,
        }
    }

    pub fn get(&self, key: Key) -> (r: Option<&str>)
        ensures
            match r {
                Some(v) => stored(self@, key) == Some(v@),
                None => stored(self@, key) is None,
            },
    {
        match self.raw(key) {
            Some(held) => {
                let v: &str = text::trim(held);
                if v.is_empty() {
                    None
                } else {
                    Some(v)
                }
            },
            None => None,
        }
    }

    /// Store a value as it is.
    pub fn store(&mut self, key: Key, value: &str)
        ensures
            final(self)@ == old(self)@.insert(key, value@),
    {
        let ghost before = self@;
        *self.slot(key) = Some(value.to_string());
        assert(self@ =~= before.insert(key, value@));
    }

    /// Store a value, refusing one that is empty once it is cleaned up.
    pub fn set(&mut self, key: Key, value: &str) -> (r: Result<(), Error>)
        ensures
            match r {
                Ok(_) => settled(key, value@).len() > 0 && final(self)@ == old(self)@.insert(
                    key,
                    settled(key, value@),
                ),
                Err(e) => settled(key, value@).len() == 0 && final(self)@ == old(self)@ && e@
                    == seq![empty_refusal(key)],
            },
    {
        let value = normalize(key, text::trim(value));
        if value.as_str().is_empty() {
            return Err(
                Error::new(
                    "`".to_string().concat(key.name()).concat(
                        "` cannot be set to an empty value. Use `plane config unset ",
                    ).concat(key.name()).concat("` to remove it."),
                ),
            );
        }
        self.store(key, value.as_str());
        Ok(())
    }

    /// Remove a key, reporting whether it was there, so the caller can say
    /// "already unset" instead of implying it just deleted something.
    pub fn unset(&mut self, key: Key) -> (r: bool)
        ensures
            r == old(self)@.contains_key(key),
            final(self)@ == old(self)@.remove(key),
    {
        let ghost before = self@;
        let taken = self.slot(key).take();
        assert(self@ =~= before.remove(key));
        taken.is_some()
    }
}

impl Default for ConfigFile {
    fn default() -> (r: Self)
        ensures
            r@ == Map::<Key, Text>::empty(),
    {
        let r = ConfigFile {
            workspace: None,
            api_base: None,
            web_base: None,
            pass_vault: None,
            pass_item: None,
            pass_field: None,
            api_key: None,
        };
        assert(r@ =~= Map::<Key, Text>::empty());
        r
    }
}

impl Clone for ConfigFile {
    fn clone(&self) -> (r: Self)
        ensures
            r@ == self@,
    {
        let r = ConfigFile {
            workspace: self.workspace.clone(),
            api_base: self.api_base.clone(),
            web_base: self.web_base.clone(),
            pass_vault: self.pass_vault.clone(),
            pass_item: self.pass_item.clone(),
            pass_field: self.pass_field.clone(),
            api_key: self.api_key.clone(),
        };
        assert(r@ =~= self@);
        r
    }
}

/// Drops the trailing slashes of the two origins.
pub fn normalize(key: Key, value: &str) -> (r: String)
    ensures
        r@ == normal(key, value@),
{
    match key {
        Key::ApiBase => text::trim_end(value, text::Class::Slash).to_string(),
        Key::WebBase => text::trim_end(value, text::Class::Slash).to_string(),
        _ => value.to_string(),
    }
}

// ---- precedence ----

/// Where a value came from, which `config show` prints next to it: without it,
/// an env var shadowing the file looks like the file is wrong.
#[derive(Copy, Clone, Debug, PartialEq, Eq, Structural)]
pub enum Source {
    Env,
    File,
    Default,
}

pub open spec fn label_of(source: Source) -> Text {
    match source {
        Source::Env => "env"@,
        Source::File => "file"@,
        Source::Default => "default"@,
    }
}

impl Source {
    pub fn label(self) -> (r: &'static str)
        ensures
            r@ == label_of(self),
    {
        match self {
            Source::Env => "env",
            Source::File => "file",
            Source::Default => "default",
        }
    }
}

/// One setting as it will actually be used. `value` is `None` only for a key
/// that has no default and was never set.
#[derive(Debug, PartialEq, Eq)]
pub struct Resolved {
    pub key: Key,
    pub value: Option<String>,
    pub source: Source,
}

/// What a [`Resolved`] holds.
pub struct ResolvedView {
    pub key: Key,
    pub value: Option<Text>,
    pub source: Source,
}

impl View for Resolved {
    type V = ResolvedView;

    open spec fn view(&self) -> ResolvedView {
        ResolvedView { key: self.key, value: text::text_option(self.value), source: self.source }
    }
}

impl Clone for Resolved {
    fn clone(&self) -> (r: Self)
        ensures
            r@ == self@,
    {
        Resolved { key: self.key, value: self.value.clone(), source: self.source }
    }
}

/// The variable's value, where it is more than white space. An
/// exported-but-empty variable is how a shell says "unset" by accident.
pub open spec fn spoken(variable: Option<Text>) -> Option<Text> {
    match variable {
        Some(v) => if text::trimmed(v).len() > 0 {
            Some(text::trimmed(v))
        } else {
            None
        },
        None => None,
    }
}

/// The precedence rule: the variable, then the file, then the default.
pub open spec fn resolution(
    key: Key,
    file: Map<Key, Text>,
    variable: Option<Text>,
) -> ResolvedView {
    match spoken(variable) {
        Some(v) => ResolvedView { key, value: Some(normal(key, v)), source: Source::Env },
        None => match stored(file, key) {
            Some(v) => ResolvedView { key, value: Some(normal(key, v)), source: Source::File },
            None => ResolvedView { key, value: default_of(key), source: Source::Default },
        },
    }
}

/// A row with a credential's value replaced by the mask.
pub open spec fn masked(row: ResolvedView) -> ResolvedView {
    if row.key == Key::ApiKey && row.value is Some {
        ResolvedView { key: row.key, value: Some(MASK@), source: row.source }
    } else {
        row
    }
}

/// The source column of a row.
pub open spec fn source_column(row: ResolvedView) -> Text {
    if row.value is None {
        "unset"@
    } else {
        label_of(row.source)
    }
}

impl Resolved {
    /// What `config show` prints in the source column. `default` would be a lie
    /// for a key that has none: nothing was applied, the setting is missing.
    pub fn source_label(&self) -> (r: &'static str)
        ensures
            r@ == source_column(self@),
    {
        if self.value.is_none() {
            "unset"
        } else {
            self.source.label()
        }
    }

    /// The row with a credential's value replaced by [`MASK`].
    pub fn redacted(self) -> (r: Resolved)
        ensures
            r@ == masked(self@),
    {
        if self.key.is_secret() && self.value.is_some() {
            Resolved { key: self.key, value: Some(MASK.to_string()), source: self.source }
        } else {
            self
        }
    }
}

/// One setting, with the value of its variable given.
pub fn resolve_value(key: Key, file: &ConfigFile, variable: Option<&str>) -> (r: Resolved)
    ensures
        r@ == resolution(
            key,
            file@,
            match variable {
                Some(v) => Some(v@),
                None => None,
            },
        ),
{
    match variable {
        Some(v) => {
            let v: &str = text::trim(v);
            if !v.is_empty() {
                return Resolved { key, value: Some(normalize(key, v)), source: Source::Env };
            }
        },
        None => {},
    }
    match file.get(key) {
        Some(v) => Resolved { key, value: Some(normalize(key, v)), source: Source::File },
        None => Resolved {
            key,
            value: match key.default_value() {
                Some(v) => Some(v.to_string()),
                None => None,
            },
            source: Source::Default,
        },
    }
}

/// One setting, with the environment given as a function from the name of a
/// variable to its value. The function is asked for the key's own variable and
/// no other, and what it answers decides.
pub fn resolve_with(key: Key, file: &ConfigFile, env: impl Fn(&str) -> Option<String>) -> (r:
    Resolved)
    requires
        forall|name: &str| name@ == env_of(key) ==> call_requires(env, (name,)),
    ensures
        exists|name: &str, answer: Option<String>|
            name@ == env_of(key) && #[trigger] call_ensures(env, (name,), answer) && r@
                == resolution(key, file@, text::text_option(answer)),
{
    let name: &str = key.env();
    let answer: Option<String> = env(name);
    match &answer {
        Some(v) => resolve_value(key, file, Some(v.as_str())),
        None => resolve_value(key, file, None),
    }
}

/// The environment of a process, variable by variable.
#[derive(Debug, PartialEq, Eq)]
pub struct Env {
    pub vars: Vec<(String, String)>,
}

impl View for Env {
    type V = Seq<(Text, Text)>;

    open spec fn view(&self) -> Seq<(Text, Text)> {
        text::text_pairs(self.vars@)
    }
}

/// The value of a variable.
pub open spec fn variable(vars: Seq<(Text, Text)>, name: Text) -> Option<Text>
    decreases vars.len(),
{
    if vars.len() == 0 {
        None
    } else if vars[0].0 == name {
        Some(vars[0].1)
    } else {
        variable(vars.drop_first(), name)
    }
}

impl Env {
    pub fn var(&self, name: &str) -> (r: Option<&str>)
        ensures
            match r {
                Some(v) => variable(self@, name@) == Some(v@),
                None => variable(self@, name@) is None,
            },
    {
        let ghost vars = self@;
        let mut i: usize = 0;
        assert(vars.skip(0) == vars);
        while i < self.vars.len()
            invariant
                i <= self.vars@.len(),
                vars == text::text_pairs(self.vars@),
                variable(vars, name@) == variable(vars.skip(i as int), name@),
            decreases self.vars@.len() - i,
        {
            assert(vars[i as int] == (self.vars@[i as int].0@, self.vars@[i as int].1@));
            if text::same(self.vars[i].0.as_str(), name) {
                return Some(self.vars[i].1.as_str());
            }
            assert(vars.skip(i as int).drop_first() == vars.skip(i + 1));
            i += 1;
        }
        None
    }
}

/// What a setting comes to in an environment.
pub open spec fn setting(key: Key, file: Map<Key, Text>, env: Seq<(Text, Text)>) -> ResolvedView {
    resolution(key, file, variable(env, env_of(key)))
}

pub fn resolve(key: Key, file: &ConfigFile, env: &Env) -> (r: Resolved)
    ensures
        r@ == setting(key, file@, env@),
{
    resolve_value(key, file, env.var(key.env()))
}

/// What a list of rows holds.
pub open spec fn rows_of(rows: Seq<Resolved>) -> Seq<ResolvedView> {
    rows.map_values(|row: Resolved| row@)
}

/// Every setting as `config show` sees it, credentials already redacted.
pub open spec fn effective_rows(file: Map<Key, Text>, env: Seq<(Text, Text)>) -> Seq<
    ResolvedView,
> {
    Seq::new(7, |i: int| masked(setting(KEYS@[i], file, env)))
}

/// Every setting as `config show` sees it, credentials already redacted.
pub fn effective(file: &ConfigFile, env: &Env) -> (r: Vec<Resolved>)
    ensures
        rows_of(r@) == effective_rows(file@, env@),
{
    let mut rows: Vec<Resolved> = Vec::new();
    let mut i: usize = 0;
    while i < 7
        invariant
            i <= 7,
            rows@.len() == i,
            forall|j: int|
                0 <= j < i ==> (#[trigger] rows@[j])@ == masked(setting(KEYS@[j], file@, env@)),
        decreases 7 - i,
    {
        rows.push(resolve(KEYS[i], file, env).redacted());
        i += 1;
    }
    assert(rows_of(rows@) =~= effective_rows(file@, env@));
    rows
}

/// Why a command without a workspace cannot go on.
pub open spec fn no_workspace() -> Text {
    "No workspace set. Run `plane config set workspace <slug>`, or set PLANE_WORKSPACE for one call. The slug is the path segment in the web UI URL, e.g. `acme` in https://plane.example.com/acme/browse/."@
}

/// The workspace slug, which every request path is scoped by. No default:
/// guessing a slug turns a missing setting into a 404 against someone else's
/// workspace rather than into an answerable error.
pub fn workspace(file: &ConfigFile, env: &Env) -> (r: Result<String, Error>)
    ensures
        match r {
            Ok(v) => setting(Key::Workspace, file@, env@).value == Some(v@),
            Err(e) => setting(Key::Workspace, file@, env@).value is None && e@
                == seq![no_workspace()],
        },
{
    match resolve(Key::Workspace, file, env).value {
        Some(v) => Ok(v),
        None => Err(
            Error::new(
                "No workspace set. Run `plane config set workspace <slug>`, or set PLANE_WORKSPACE for one call. The slug is the path segment in the web UI URL, e.g. `acme` in https://plane.example.com/acme/browse/.".to_string(),
            ),
        ),
    }
}

pub open spec fn base_of(file: Map<Key, Text>, env: Seq<(Text, Text)>) -> Text {
    setting(Key::ApiBase, file, env).value->0
}

pub fn api_base(file: &ConfigFile, env: &Env) -> (r: String)
    ensures
        setting(Key::ApiBase, file@, env@).value == Some(r@),
        r@ == base_of(file@, env@),
{
    match resolve(Key::ApiBase, file, env).value {
        Some(v) => v,
        None => DEFAULT_API_BASE.to_string(),
    }
}

/// The browser origin of the instance. Unset means no `url:` line at all: a
/// placeholder would print a link that silently goes nowhere.
pub fn web_base(file: &ConfigFile, env: &Env) -> (r: Option<String>)
    ensures
        text::text_option(r) == setting(Key::WebBase, file@, env@).value,
{
    resolve(Key::WebBase, file, env).value
}

/// The token stored in the file, if there is one. The file only, not the
/// resolved value: the variable is read before anything touches the file.
pub fn stored_api_key(file: &ConfigFile) -> (r: Option<String>)
    ensures
        text::text_option(r) == stored(file@, Key::ApiKey),
{
    match file.get(Key::ApiKey) {
        Some(v) => Some(v.to_string()),
        None => None,
    }
}

/// Where in Proton Pass the token lives, as vault, item, field.
pub fn pass_coords(file: &ConfigFile, env: &Env) -> (r: (String, String, String))
    ensures
        setting(Key::PassVault, file@, env@).value == Some(r.0@),
        setting(Key::PassItem, file@, env@).value == Some(r.1@),
        setting(Key::PassField, file@, env@).value == Some(r.2@),
{
    let vault = match resolve(Key::PassVault, file, env).value {
        Some(v) => v,
        None => DEFAULT_PASS_VAULT.to_string(),
    };
    let item = match resolve(Key::PassItem, file, env).value {
        Some(v) => v,
        None => DEFAULT_PASS_ITEM.to_string(),
    };
    let field = match resolve(Key::PassField, file, env).value {
        Some(v) => v,
        None => DEFAULT_PASS_FIELD.to_string(),
    };
    (vault, item, field)
}

// ---- laws ----

/// A variable that holds more than white space is the setting, whatever the
/// file stores.
pub proof fn variable_beats_file(key: Key, file: Map<Key, Text>, v: Text)
    requires
        text::trimmed(v).len() > 0,
    ensures
        resolution(key, file, Some(v)) == (ResolvedView {
            key,
            value: Some(settled(key, v)),
            source: Source::Env,
        }),
{
}

/// A stored value is the setting where no variable speaks, and the built-in one
/// only where neither does. A variable of white space does not speak.
pub proof fn file_beats_default(key: Key, file: Map<Key, Text>, v: Option<Text>)
    requires
        spoken(v) is None,
    ensures
        resolution(key, file, v) == resolution(key, file, None),
        stored(file, key) is Some ==> resolution(key, file, v) == (ResolvedView {
            key,
            value: Some(normal(key, stored(file, key)->0)),
            source: Source::File,
        }),
        stored(file, key) is None ==> resolution(key, file, v) == (ResolvedView {
            key,
            value: default_of(key),
            source: Source::Default,
        }),
{
}

/// The two origins never end in a slash, wherever they come from, so a joined
/// URL cannot hold a doubled separator.
pub proof fn origins_end_in_no_slash(key: Key, file: Map<Key, Text>, v: Option<Text>)
    requires
        key == Key::ApiBase || key == Key::WebBase,
    ensures
        resolution(key, file, v).value is Some ==> (resolution(key, file, v).value->0.len() == 0
            || resolution(key, file, v).value->0.last() != '/'),
{
    match spoken(v) {
        Some(v) => {
            text::lemma_drop_back(v, text::Class::Slash);
        },
        None => match stored(file, key) {
            Some(v) => {
                text::lemma_drop_back(v, text::Class::Slash);
            },
            None => {
                reveal_strlit("http://localhost:8090/api/v1");
            },
        },
    }
}

/// What was set is what is read, without white space at the ends, and no other
/// setting changes.
pub proof fn set_then_get(file: Map<Key, Text>, key: Key, value: Text, other: Key)
    requires
        settled(key, value).len() > 0,
    ensures
        stored(file.insert(key, settled(key, value)), key) == Some(
            text::trimmed(settled(key, value)),
        ),
        key != Key::ApiBase && key != Key::WebBase ==> stored(
            file.insert(key, settled(key, value)),
            key,
        ) == Some(text::trimmed(value)),
        other != key ==> stored(file.insert(key, settled(key, value)), other) == stored(
            file,
            other,
        ),
{
    let kept = settled(key, value);
    text::lemma_trimmed_ends(value);
    text::lemma_drop_back(text::trimmed(value), text::Class::Slash);
    text::lemma_trimmed_nonempty(kept);
    if key != Key::ApiBase && key != Key::WebBase {
        text::lemma_trim_again(value);
    }
}

/// Removing a setting twice removes nothing the second time, and no other
/// setting changes.
pub proof fn unset_twice(file: Map<Key, Text>, key: Key, other: Key)
    ensures
        !file.remove(key).contains_key(key),
        file.remove(key).remove(key) == file.remove(key),
        stored(file.remove(key), key) is None,
        other != key ==> stored(file.remove(key), other) == stored(file, other),
{
    assert(file.remove(key).remove(key) =~= file.remove(key));
}

/// No row that a renderer gets carries a token: the row of the token holds the
/// mask or nothing.
pub proof fn no_row_carries_a_token(file: Map<Key, Text>, env: Seq<(Text, Text)>, i: int)
    requires
        0 <= i < 7,
    ensures
        effective_rows(file, env)[i].key == Key::ApiKey ==> effective_rows(file, env)[i].value
            is None || effective_rows(file, env)[i].value == Some(MASK@),
{
}

/// The rows that a renderer gets are the same for any two stored tokens: nothing
/// of a token is in them but that there is one.
pub proof fn rows_do_not_depend_on_the_token(
    file: Map<Key, Text>,
    env: Seq<(Text, Text)>,
    one: Text,
    another: Text,
)
    requires
        text::trimmed(one).len() > 0,
        text::trimmed(another).len() > 0,
    ensures
        effective_rows(file.insert(Key::ApiKey, one), env) == effective_rows(
            file.insert(Key::ApiKey, another),
            env,
        ),
{
    assert(effective_rows(file.insert(Key::ApiKey, one), env) =~= effective_rows(
        file.insert(Key::ApiKey, another),
        env,
    ));
}

/// A rejected key is echoed no further than a few characters.
pub proof fn echo_is_short(input: Text)
    ensures
        echo(input).len() <= MAX_ECHO + 1,
        echo(input).take(
            if echo(input).len() <= MAX_ECHO {
                echo(input).len() as int
            } else {
                MAX_ECHO as int
            },
        ) == text::head(text::trimmed(input), MAX_ECHO as nat),
{
    let shown = text::trimmed(input);
    if shown.len() > MAX_ECHO {
        assert(echo(input).take(MAX_ECHO as int) =~= shown.take(MAX_ECHO as int));
    } else {
        assert(echo(input).take(shown.len() as int) =~= shown);
    }
}

/// Two spellings that differ in ASCII case and separators alone name the same
/// setting.
pub proof fn spelling_does_not_matter(a: Text, b: Text)
    requires
        text::trimmed(a).len() == text::trimmed(b).len(),
        forall|i: int|
            0 <= i < text::trimmed(a).len() ==> canonical_char(#[trigger] text::trimmed(a)[i])
                == canonical_char(text::trimmed(b)[i]),
    ensures
        key_named(canonical(a)) == key_named(canonical(b)),
{
    let x = text::trimmed(a).map_values(|c: char| canonical_char(c));
    let y = text::trimmed(b).map_values(|c: char| canonical_char(c));
    assert(x =~= y);
}

proof fn lemma_canonical_name(typed: Text, name: Text)
    requires
        typed.len() > 0,
        !text::is_white_space(typed[0]),
        !text::is_white_space(typed.last()),
        typed.map_values(|c: char| canonical_char(c)) == name,
        !text::starts(name, "plane_"@),
    ensures
        canonical(typed) == name,
{
    text::lemma_trim_nothing(typed);
}

proof fn lemma_canonical_env(typed: Text, name: Text)
    requires
        typed.len() > 0,
        !text::is_white_space(typed[0]),
        !text::is_white_space(typed.last()),
        typed.map_values(|c: char| canonical_char(c)) == "plane_"@ + name,
    ensures
        canonical(typed) == name,
{
    text::lemma_trim_nothing(typed);
    let lowered = "plane_"@ + name;
    assert(lowered.subrange(0, "plane_"@.len() as int) =~= "plane_"@);
    assert(lowered.skip("plane_"@.len() as int) =~= name);
}

/// Both documented spellings of a setting name it: the one of the file, and the
/// variable.
pub proof fn documented_spellings_parse(key: Key)
    ensures
        parsed(name_of(key)) == Ok::<Key, Seq<Text>>(key),
        parsed(env_of(key)) == Ok::<Key, Seq<Text>>(key),
{
    crate::store::lemma_names();
    reveal_strlit("plane_");
    reveal_strlit("workspace");
    reveal_strlit("api_base");
    reveal_strlit("web_base");
    reveal_strlit("pass_vault");
    reveal_strlit("pass_item");
    reveal_strlit("pass_field");
    reveal_strlit("api_key");
    reveal_strlit("PLANE_WORKSPACE");
    reveal_strlit("PLANE_API_BASE");
    reveal_strlit("PLANE_WEB_BASE");
    reveal_strlit("PLANE_PASS_VAULT");
    reveal_strlit("PLANE_PASS_ITEM");
    reveal_strlit("PLANE_PASS_FIELD");
    reveal_strlit("PLANE_API_KEY");
    let name = name_of(key);
    let env = env_of(key);
    assert(name.map_values(|c: char| canonical_char(c)) =~= name);
    assert(env.map_values(|c: char| canonical_char(c)) =~= "plane_"@ + name);
    if text::starts(name, "plane_"@) {
        assert(name.subrange(0, 6)[0] == 'p');
        assert(name.subrange(0, 6)[1] == 'l');
    }
    lemma_canonical_name(name, name);
    lemma_canonical_env(env, name);
}

/// A variable has the value of its first mention in the environment, and none
/// where it is not mentioned.
pub proof fn a_variable_is_its_first_mention(vars: Seq<(Text, Text)>, name: Text)
    ensures
        match variable(vars, name) {
            Some(v) => exists|i: int|
                0 <= i < vars.len() && #[trigger] vars[i] == (name, v) && forall|j: int|
                    0 <= j < i ==> (#[trigger] vars[j]).0 != name,
            None => forall|i: int| 0 <= i < vars.len() ==> (#[trigger] vars[i]).0 != name,
        },
    decreases vars.len(),
{
    if vars.len() > 0 {
        let rest = vars.drop_first();
        a_variable_is_its_first_mention(rest, name);
        assert(forall|i: int| 0 <= i < rest.len() ==> #[trigger] rest[i] == vars[i + 1]);
        if vars[0].0 == name {
            assert(vars[0] == (name, vars[0].1));
        } else {
            match variable(rest, name) {
                Some(v) => {
                    let i = choose|i: int|
                        0 <= i < rest.len() && #[trigger] rest[i] == (name, v) && forall|j: int|
                            0 <= j < i ==> (#[trigger] rest[j]).0 != name;
                    assert(vars[i + 1] == (name, v));
                    assert forall|j: int| 0 <= j < i + 1 implies (#[trigger] vars[j]).0 != name by {
                        if j > 0 {
                            assert(rest[j - 1] == vars[j]);
                        }
                    }
                },
                None => {
                    assert forall|j: int| 0 <= j < vars.len() implies (#[trigger] vars[j]).0
                        != name by {
                        if j > 0 {
                            assert(rest[j - 1] == vars[j]);
                        }
                    }
                },
            }
        }
    }
}

/// A value is stored as it was typed, without white space around it; an origin
/// loses the slashes that it ends with, and nothing else.
pub proof fn a_value_is_stored_as_typed(key: Key, value: Text)
    ensures
        key != Key::ApiBase && key != Key::WebBase ==> settled(key, value) == text::trimmed(value),
        key == Key::ApiBase || key == Key::WebBase ==> {
            &&& settled(key, value).len() <= text::trimmed(value).len()
            &&& settled(key, value) == text::trimmed(value).take(settled(key, value).len() as int)
            &&& forall|i: int|
                settled(key, value).len() <= i < text::trimmed(value).len() ==> #[trigger]
                text::trimmed(value)[i] == '/'
            &&& settled(key, value).len() > 0 ==> settled(key, value).last() != '/'
        },
{
    let typed = text::trimmed(value);
    text::lemma_drop_back(typed, text::Class::Slash);
    lemma_slashes(typed);
}

proof fn lemma_slashes(s: Text)
    ensures
        forall|i: int|
            text::drop_back(s, text::Class::Slash).len() <= i < s.len() ==> #[trigger] s[i] == '/',
    decreases s.len(),
{
    if s.len() > 0 && s.last() == '/' {
        lemma_slashes(s.drop_last());
        assert(forall|i: int| 0 <= i < s.len() - 1 ==> #[trigger] s[i] == s.drop_last()[i]);
    }
}

/// Where nothing is set, the instance is the one on this machine and the token is
/// looked for under a fixed name; a workspace, a web address and a token are never
/// made up.
pub proof fn what_has_no_default_is_never_made_up(key: Key)
    ensures
        default_of(Key::ApiBase) == Some("http://localhost:8090/api/v1"@),
        default_of(Key::PassVault) == Some("Personal"@),
        default_of(Key::PassItem) == Some("plane"@),
        default_of(Key::PassField) == Some("PAT"@),
        key == Key::Workspace || key == Key::WebBase || key == Key::ApiKey ==> default_of(key)
            is None,
{
}

/// Every setting has a row, under its own name, with the value that is in effect
/// and where that came from; of the token, only whether there is one.
pub proof fn every_setting_has_a_row(file: Map<Key, Text>, env: Seq<(Text, Text)>, key: Key)
    ensures
        effective_rows(file, env).len() == 7,
        exists|i: int|
            0 <= i < 7 && (#[trigger] effective_rows(file, env)[i]).key == key && effective_rows(
                file,
                env,
            )[i].source == setting(key, file, env).source && (key != Key::ApiKey
                ==> effective_rows(file, env)[i].value == setting(key, file, env).value) && (
            effective_rows(file, env)[i].value is Some <==> setting(key, file, env).value is Some),
        forall|i: int, j: int|
            0 <= i < j < 7 ==> (#[trigger] effective_rows(file, env)[i]).key != (
            #[trigger] effective_rows(file, env)[j]).key,
{
    let rows = effective_rows(file, env);
    let i: int = match key {
        Key::Workspace => 0,
        Key::ApiBase => 1,
        Key::WebBase => 2,
        Key::PassVault => 3,
        Key::PassItem => 4,
        Key::PassField => 5,
        Key::ApiKey => 6,
    };
    assert(KEYS@[i] == key);
    assert(rows[i].key == key);
    assert(KEYS@[0] == Key::Workspace && KEYS@[1] == Key::ApiBase && KEYS@[2] == Key::WebBase);
    assert(KEYS@[3] == Key::PassVault && KEYS@[4] == Key::PassItem && KEYS@[5] == Key::PassField);
    assert(KEYS@[6] == Key::ApiKey);
}

/// A key that is refused as a typo is answered with every key that there is.
pub proof fn a_typo_is_answered_with_the_keys(input: Text, key: Key)
    requires
        key_named(canonical(input)) is None,
    ensures
        parsed(input) == Err::<Key, Seq<Text>>(seq![refusal(input)]),
        text::occurs(refusal(input), echo(input)),
        !reads_as_secret(canonical(input)) ==> text::occurs(refusal(input), name_of(key)),
        reads_as_secret(canonical(input)) ==> text::occurs(
            refusal(input),
            "` is not a config key. The one credential this file holds is spelled `api_key`"@,
        ),
{
    let shown = echo(input);
    if reads_as_secret(canonical(input)) {
        let rest =
            "` is not a config key. The one credential this file holds is spelled `api_key`: `plane config set api_key <token>` stores it in plaintext for a machine with no pass-cli.\nOtherwise set PLANE_API_KEY for one-off runs, or point `pass_vault` / `pass_item` / `pass_field` at the Proton Pass entry holding the token."@;
        let said =
            "` is not a config key. The one credential this file holds is spelled `api_key`"@;
        reveal_strlit(
            "` is not a config key. The one credential this file holds is spelled `api_key`: `plane config set api_key <token>` stores it in plaintext for a machine with no pass-cli.\nOtherwise set PLANE_API_KEY for one-off runs, or point `pass_vault` / `pass_item` / `pass_field` at the Proton Pass entry holding the token.",
        );
        reveal_strlit(
            "` is not a config key. The one credential this file holds is spelled `api_key`",
        );
        let at = ("`"@ + shown).len() as int;
        assert(refusal(input).subrange(at, at + said.len()) =~= said);
        assert(text::occurs_at(refusal(input), said, at));
        let at = "`"@.len() as int;
        assert(refusal(input).subrange(at, at + shown.len()) =~= shown);
        assert(text::occurs_at(refusal(input), shown, at));
    } else {
        let i: int = match key {
            Key::Workspace => 0,
            Key::ApiBase => 1,
            Key::WebBase => 2,
            Key::PassVault => 3,
            Key::PassItem => 4,
            Key::PassField => 5,
            Key::ApiKey => 6,
        };
        assert(KEYS@[i] == key);
        assert(all_names()[i] == name_of(key));
        let list = text::joined(all_names(), ", "@);
        text::joining_keeps_each_piece(all_names(), ", "@, i);
        let k = choose|k: int| text::occurs_at(list, name_of(key), k);
        let front = "Unknown config key `"@ + shown + "`. Valid keys: "@;
        let at = front.len() + k;
        let n = name_of(key).len() as int;
        assert(refusal(input).subrange(at, at + n) =~= list.subrange(k, k + n));
        assert(text::occurs_at(refusal(input), name_of(key), at));
        let at = "Unknown config key `"@.len() as int;
        assert(refusal(input).subrange(at, at + shown.len()) =~= shown);
        assert(text::occurs_at(refusal(input), shown, at));
    }
}

/// An empty value is refused with the name of the setting and how to remove it.
pub proof fn an_empty_value_is_told_how_to_unset(key: Key)
    ensures
        text::occurs(empty_refusal(key), "`plane config unset "@ + name_of(key) + "`"@),
{
    let a = "`"@ + name_of(key) + "` cannot be set to an empty value. Use "@;
    let hint = "`plane config unset "@ + name_of(key) + "`"@;
    let b = " to remove it."@;
    reveal_strlit("` cannot be set to an empty value. Use `plane config unset ");
    reveal_strlit("` cannot be set to an empty value. Use ");
    reveal_strlit("`plane config unset ");
    reveal_strlit("` to remove it.");
    reveal_strlit("`");
    reveal_strlit(" to remove it.");
    assert("` cannot be set to an empty value. Use `plane config unset "@
        =~= "` cannot be set to an empty value. Use "@ + "`plane config unset "@);
    assert("` to remove it."@ =~= "`"@ + b);
    assert(empty_refusal(key) =~= a + hint + b);
    text::lemma_between(a, hint, b);
}

/// A hyphen, a space and a dot in a key stand for an underscore, and letters for
/// those in lower case; everything else stands for itself.
pub proof fn separators_stand_for_an_underscore(c: char)
    ensures
        canonical_char(c) == '_' <==> c == '-' || c == ' ' || c == '.' || c == '_',
        c != '-' && c != ' ' && c != '.' ==> canonical_char(c) == text::ascii_lower(c),
{
}

/// A name reads as a credential where one of its words is one for a credential, or
/// where one of the longer ones stands anywhere in it.
pub proof fn a_word_for_a_credential_reads_as_one(name: Text, i: int, word: Text)
    requires
        word == "key"@ || word == "token"@ || word == "secret"@ || word == "password"@ || word
            == "credential"@ || word == "pat"@,
    ensures
        0 <= i < text::split(name, '_').len() && text::split(name, '_')[i] == word
            ==> reads_as_secret(name),
        text::occurs(name, "apikey"@) ==> reads_as_secret(name),
        word != "key"@ && word != "credential"@ && word != "pat"@ && text::occurs(name, word)
            ==> reads_as_secret(name),
{
}

} // verus!
