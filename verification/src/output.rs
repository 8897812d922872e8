//! Rendering. Compact aligned lines by default, raw API body under `--json`.
//!
//! `--json` prints exactly what Plane answered, so anything this module chooses
//! not to show is still one flag away.

use crate::config;
use crate::config::{Resolved, ResolvedView};
use crate::error::Error;
use crate::json;
use crate::json::{Json, JsonView};
use crate::markdown;
use crate::names;
use crate::text;
use crate::text::Text;
use vstd::prelude::*;

verus! {

broadcast use crate::text::lemma_texts_push;

/// What is printed of a value: the value itself under `--json`, else the
/// rendered text, and nothing where that is empty.
pub open spec fn emitted(raw: JsonView, as_json: bool, rendered: Text) -> Option<Text> {
    if as_json {
        Some(json::json_pretty(raw))
    } else if rendered.len() == 0 {
        None
    } else {
        Some(rendered)
    }
}

/// Print either the raw API value or a rendered view.
pub fn emit(raw: &Json, as_json: bool, rendered: String) -> (r: Option<String>)
    ensures
        text::text_option(r) == emitted(raw@, as_json, rendered@),
{
    if as_json {
        Some(raw.to_pretty())
    } else if rendered.as_str().is_empty() {
        None
    } else {
        Some(rendered)
    }
}

/// What `--json` prints for a list.
pub open spec fn list_value(items: Seq<JsonView>) -> JsonView {
    JsonView::Object(
        seq![
            ("count"@, json::number(items.len() as u64)),
            ("results"@, JsonView::Array(items)),
        ],
    )
}

pub fn list_json(items: &Vec<Json>) -> (r: Json)
    ensures
        r@ == list_value(json::values(items@)),
{
    let mut fields = json::Fields::new();
    fields.put("count", json::number_of(items.len() as u64));
    fields.put("results", json::array(json::copies(items)));
    assert(fields@ =~= list_value(json::values(items@))->Object_0);
    fields.object()
}

// ---- fields ----

/// A string field, or nothing when absent or no string.
pub open spec fn field_of(v: JsonView, key: Text) -> Text {
    match v.member_text(key) {
        Some(s) => s,
        None => Seq::empty(),
    }
}

/// A string field, or `""` when absent or null.
pub fn field<'a>(v: &'a Json, key: &str) -> (r: &'a str)
    ensures
        r@ == field_of(v@, key@),
{
    match v.get_str(key) {
        Some(s) => s,
        None => {
            proof {
                reveal_strlit("");
                assert(""@ =~= Seq::<char>::empty());
            }
            ""
        },
    }
}

/// A string field that must not be empty.
pub open spec fn required_of(v: JsonView, key: Text, what: Text) -> Result<Text, Seq<Text>> {
    if field_of(v, key).len() > 0 {
        Ok(field_of(v, key))
    } else {
        Err(
            seq![
                "Plane's response for "@ + what + " carries no `"@ + key
                    + "`, so there is nothing to address."@,
            ],
        )
    }
}

/// A string field that must exist, for the ones that become URL segments or
/// payload values. Defaulting those to `""` turns a malformed response into a
/// 404 on `projects//issues/` rather than into a legible error.
pub fn required_field(v: &Json, key: &str, what: &str) -> (r: Result<String, Error>)
    ensures
        names::text_result(r) == required_of(v@, key@, what@),
{
    let s: &str = field(v, key);
    if s.is_empty() {
        Err(
            Error::new(
                "Plane's response for ".to_string().concat(what).concat(" carries no `").concat(
                    key,
                ).concat("`, so there is nothing to address."),
            ),
        )
    } else {
        Ok(s.to_string())
    }
}

/// The state name of an issue fetched with `?expand=state`.
pub open spec fn state_of(issue: JsonView) -> Text {
    match issue.member("state"@) {
        Some(state) => field_of(state, "name"@),
        None => Seq::empty(),
    }
}

/// The state name of an issue fetched with `?expand=state`.
///
/// `expand` substitutes the object in place, so this reads `.state.name`. There
/// is no `.state_detail` on CE; looking for one silently yields nothing.
pub fn state_name(issue: &Json) -> (r: &str)
    ensures
        r@ == state_of(issue@),
{
    match issue.get("state") {
        Some(state) => field(state, "name"),
        None => {
            proof {
                reveal_strlit("");
                assert(""@ =~= Seq::<char>::empty());
            }
            ""
        },
    }
}

/// The label names of an issue fetched with `?expand=labels`.
pub open spec fn labels_of(issue: JsonView) -> Seq<Text> {
    match issue.member("labels"@) {
        Some(JsonView::Array(labels)) => names::names_in(labels),
        _ => Seq::empty(),
    }
}

/// The label names of an issue fetched with `?expand=labels`.
pub fn label_names(issue: &Json) -> (r: Vec<String>)
    ensures
        text::texts(r@) == labels_of(issue@),
{
    let labels: Option<&Vec<Json>> = match issue.get("labels") {
        Some(v) => v.as_array(),
        None => None,
    };
    match labels {
        Some(list) => names::name_list(list),
        None => {
            let r: Vec<String> = Vec::new();
            assert(text::texts(r@) =~= Seq::empty());
            r
        },
    }
}

/// A dash in place of nothing.
pub open spec fn dashed(s: Text) -> Text {
    if s.len() == 0 {
        "-"@
    } else {
        s
    }
}

pub fn dash(s: &str) -> (r: &str)
    ensures
        r@ == dashed(s@),
{
    if s.is_empty() {
        "-"
    } else {
        s
    }
}

// ---- columns ----

/// The length of the longest of some texts.
pub fn width(items: &Vec<String>) -> (r: usize)
    ensures
        r == text::widest(text::texts(items@)),
{
    let ghost all = text::texts(items@);
    let mut w: usize = 0;
    let mut i: usize = 0;
    while i < items.len()
        invariant
            i <= items@.len(),
            all == text::texts(items@),
            w == text::widest(all.take(i as int)),
        decreases items@.len() - i,
    {
        assert(all.take(i + 1).drop_last() == all.take(i as int));
        assert(all.take(i + 1).last() == items@[i as int]@);
        let n: usize = items[i].as_str().unicode_len();
        if n > w {
            w = n;
        }
        i += 1;
    }
    assert(all.take(all.len() as int) == all);
    w
}

/// Pads with spaces up to a width, which counts characters: byte padding would
/// misalign any row holding an umlaut.
pub fn pad(s: &str, w: usize) -> (r: String)
    ensures
        r@ == text::padded(s@, w as nat),
{
    let n: usize = s.unicode_len();
    let mut out: String = s.to_string();
    let mut i: usize = n;
    while i < w
        invariant
            n == s@.len(),
            n <= i,
            i <= w || i == n,
            out@ == s@ + text::spaces((i - n) as nat),
        decreases w - i,
    {
        out.push(' ');
        assert(out@ =~= s@ + text::spaces((i + 1 - n) as nat));
        i += 1;
    }
    assert(n >= w ==> out@ =~= s@);
    out
}

/// A text padded to the width of the widest is as wide as the widest, so what
/// follows begins in one column.
pub proof fn padding_aligns(items: Seq<Text>, i: int)
    requires
        0 <= i < items.len(),
    ensures
        text::padded(items[i], text::widest(items)).len() == text::widest(items),
        text::padded(items[i], text::widest(items)).take(items[i].len() as int) == items[i],
    decreases items.len(),
{
    lemma_widest(items, i);
    let p = text::padded(items[i], text::widest(items));
    assert(p.take(items[i].len() as int) =~= items[i]);
}

proof fn lemma_widest(items: Seq<Text>, i: int)
    requires
        0 <= i < items.len(),
    ensures
        items[i].len() <= text::widest(items),
    decreases items.len(),
{
    if i < items.len() - 1 {
        lemma_widest(items.drop_last(), i);
        assert(items.drop_last()[i] == items[i]);
    }
}

/// One line of a table: its cells, each padded to the width of its column.
pub open spec fn line(cells: Seq<Text>, widths: Seq<nat>) -> Text {
    text::joined(
        Seq::new(cells.len(), |i: int| text::padded(cells[i], widths[i])),
        "  "@,
    ) + "\n"@
}

/// The lines of a table.
pub open spec fn table_lines(rows: Seq<Seq<Text>>, widths: Seq<nat>) -> Text
    decreases rows.len(),
{
    if rows.len() == 0 {
        Seq::empty()
    } else {
        table_lines(rows.drop_last(), widths) + line(rows.last(), widths)
    }
}

/// One column of a table.
pub open spec fn column(rows: Seq<Seq<Text>>, k: int) -> Seq<Text> {
    rows.map_values(|row: Seq<Text>| row[k])
}

/// A table below a title.
pub open spec fn table(title: Text, rows: Seq<Seq<Text>>, widths: Seq<nat>) -> Text {
    text::drop_back(title + "\n"@ + table_lines(rows, widths), text::Class::White)
}

/// What a list of rows holds.
pub open spec fn grid(rows: Seq<Vec<String>>) -> Seq<Seq<Text>> {
    rows.map_values(|row: Vec<String>| text::texts(row@))
}

/// What a list of widths holds.
pub open spec fn widths_of(widths: Seq<usize>) -> Seq<nat> {
    widths.map_values(|w: usize| w as nat)
}

fn line_text(cells: &Vec<String>, widths: &Vec<usize>) -> (r: String)
    requires
        cells@.len() <= widths@.len(),
    ensures
        r@ == line(text::texts(cells@), widths_of(widths@)),
{
    let ghost wanted = Seq::new(
        cells@.len(),
        |i: int| text::padded(text::texts(cells@)[i], widths_of(widths@)[i]),
    );
    let mut padded: Vec<String> = Vec::new();
    let mut i: usize = 0;
    while i < cells.len()
        invariant
            cells@.len() <= widths@.len(),
            i <= cells@.len(),
            padded@.len() == i,
            wanted.len() == cells@.len(),
            wanted == Seq::new(
                cells@.len(),
                |i: int| text::padded(text::texts(cells@)[i], widths_of(widths@)[i]),
            ),
            forall|j: int| 0 <= j < i ==> (#[trigger] padded@[j])@ == wanted[j],
        decreases cells@.len() - i,
    {
        padded.push(pad(cells[i].as_str(), widths[i]));
        i += 1;
    }
    assert(text::texts(padded@) =~= wanted);
    assert(wanted =~= Seq::new(
        text::texts(cells@).len(),
        |i: int| text::padded(text::texts(cells@)[i], widths_of(widths@)[i]),
    ));
    text::join(&padded, "  ").concat("\n")
}

fn lines_text(rows: &Vec<Vec<String>>, widths: &Vec<usize>) -> (r: String)
    requires
        forall|i: int| 0 <= i < rows@.len() ==> (#[trigger] rows@[i])@.len() <= widths@.len(),
    ensures
        r@ == table_lines(grid(rows@), widths_of(widths@)),
{
    let ghost all = grid(rows@);
    let mut out: String = String::new();
    let mut i: usize = 0;
    while i < rows.len()
        invariant
            i <= rows@.len(),
            all == grid(rows@),
            forall|i: int| 0 <= i < rows@.len() ==> (#[trigger] rows@[i])@.len() <= widths@.len(),
            out@ == table_lines(all.take(i as int), widths_of(widths@)),
        decreases rows@.len() - i,
    {
        assert(all.take(i + 1).drop_last() == all.take(i as int));
        assert(all.take(i + 1).last() == text::texts(rows@[i as int]@));
        out.append(line_text(&rows[i], widths).as_str());
        i += 1;
    }
    assert(all.take(all.len() as int) == all);
    out
}

fn table_text(title: &str, rows: &Vec<Vec<String>>, widths: &Vec<usize>) -> (r: String)
    requires
        forall|i: int| 0 <= i < rows@.len() ==> (#[trigger] rows@[i])@.len() <= widths@.len(),
    ensures
        r@ == table(title@, grid(rows@), widths_of(widths@)),
{
    let out = title.to_string().concat("\n").concat(lines_text(rows, widths).as_str());
    text::trim_end(out.as_str(), text::Class::White).to_string()
}

fn column_width(rows: &Vec<Vec<String>>, k: usize) -> (r: usize)
    requires
        forall|i: int| 0 <= i < rows@.len() ==> k < (#[trigger] rows@[i])@.len(),
    ensures
        r == text::widest(column(grid(rows@), k as int)),
{
    let mut cells: Vec<String> = Vec::new();
    let mut i: usize = 0;
    while i < rows.len()
        invariant
            i <= rows@.len(),
            cells@.len() == i,
            forall|i: int| 0 <= i < rows@.len() ==> k < (#[trigger] rows@[i])@.len(),
            forall|j: int| 0 <= j < i ==> (#[trigger] cells@[j])@ == rows@[j]@[k as int]@,
        decreases rows@.len() - i,
    {
        cells.push(rows[i][k].clone());
        i += 1;
    }
    assert(text::texts(cells@) =~= column(grid(rows@), k as int));
    width(&cells)
}

fn three(a: &str, b: &str, c: &str) -> (r: Vec<String>)
    ensures
        text::texts(r@) == seq![a@, b@, c@],
        r@.len() == 3,
{
    let mut r: Vec<String> = Vec::new();
    r.push(a.to_string());
    r.push(b.to_string());
    r.push(c.to_string());
    assert(text::texts(r@) =~= seq![a@, b@, c@]);
    r
}

fn four(a: &str, b: &str, c: &str, d: &str) -> (r: Vec<String>)
    ensures
        text::texts(r@) == seq![a@, b@, c@, d@],
        r@.len() == 4,
{
    let mut r = three(a, b, c);
    r.push(d.to_string());
    assert(text::texts(r@) =~= seq![a@, b@, c@, d@]);
    r
}

// ---- URLs ----

/// Browser URL for an issue.
pub open spec fn url_of(web_base: Option<Text>, workspace: Text, reference: Text) -> Option<Text> {
    match web_base {
        Some(base) => Some(base + "/"@ + workspace + "/browse/"@ + reference + "/"@),
        None => None,
    }
}

/// Browser URL for an issue, which is what a vault bridge line points at.
/// `None` when no web origin is configured.
pub fn issue_url(web_base: &Option<String>, workspace: &str, reference: &str) -> (r: Option<String>)
    ensures
        text::text_option(r) == url_of(text::text_option(*web_base), workspace@, reference@),
{
    match web_base {
        Some(base) => Some(
            base.clone().concat("/").concat(workspace).concat("/browse/").concat(reference).concat(
                "/",
            ),
        ),
        None => None,
    }
}

// ---- settings ----

pub open spec fn value_text(row: ResolvedView) -> Text {
    match row.value {
        Some(v) => v,
        None => Seq::empty(),
    }
}

pub open spec fn setting_cells(row: ResolvedView) -> Seq<Text> {
    seq![config::name_of(row.key), dashed(value_text(row)), config::source_column(row)]
}

/// The effective settings, each with the source it came from.
pub open spec fn settings_table(path: Text, exists: bool, rows: Seq<ResolvedView>) -> Text {
    let names = rows.map_values(|row: ResolvedView| config::name_of(row.key));
    let values = rows.map_values(|row: ResolvedView| value_text(row));
    path + (if exists {
        Seq::empty()
    } else {
        "  (not written yet)"@
    }) + "\n"@ + table_lines(
        rows.map_values(|row: ResolvedView| setting_cells(row)),
        seq![text::widest(names), text::widest(values), 0],
    )
        + "\nauth: PLANE_API_KEY, else the stored api_key, else pass-cli. The token itself is never printed."@
}

/// The effective settings, each with the source it came from. The source column
/// is the point of the command: a variable shadowing the file is otherwise
/// indistinguishable from a file that was never written.
///
/// Rows arrive from [`config::effective`], which has already masked `api_key`,
/// so this prints the mask and the source without ever holding the token.
pub fn config_show(path: &str, exists: bool, rows: &Vec<Resolved>) -> (r: String)
    ensures
        r@ == settings_table(path@, exists, config::rows_of(rows@)),
{
    let ghost views = config::rows_of(rows@);
    let mut names: Vec<String> = Vec::new();
    let mut values: Vec<String> = Vec::new();
    let mut cells: Vec<Vec<String>> = Vec::new();
    let mut i: usize = 0;
    while i < rows.len()
        invariant
            i <= rows@.len(),
            views == config::rows_of(rows@),
            names@.len() == i,
            values@.len() == i,
            cells@.len() == i,
            forall|j: int|
                0 <= j < i ==> (#[trigger] names@[j])@ == config::name_of(rows@[j]@.key),
            forall|j: int| 0 <= j < i ==> (#[trigger] values@[j])@ == value_text(rows@[j]@),
            forall|j: int|
                0 <= j < i ==> text::texts((#[trigger] cells@[j])@) == setting_cells(rows@[j]@)
                    && cells@[j]@.len() == 3,
        decreases rows@.len() - i,
    {
        let row = &rows[i];
        let value: String = match &row.value {
            Some(v) => v.clone(),
            None => String::new(),
        };
        let name: &str = row.key.name();
        cells.push(three(name, dash(value.as_str()), row.source_label()));
        names.push(name.to_string());
        values.push(value);
        i += 1;
    }
    let mut widths: Vec<usize> = Vec::new();
    widths.push(width(&names));
    widths.push(width(&values));
    widths.push(0);
    proof {
        assert(text::texts(names@) =~= views.map_values(
            |row: ResolvedView| config::name_of(row.key),
        ));
        assert(text::texts(values@) =~= views.map_values(|row: ResolvedView| value_text(row)));
        assert(grid(cells@) =~= views.map_values(|row: ResolvedView| setting_cells(row)));
        assert(widths_of(widths@) =~= seq![
            text::widest(text::texts(names@)),
            text::widest(text::texts(values@)),
            0,
        ]);
    }
    let missing: String = if exists {
        String::new()
    } else {
        "  (not written yet)".to_string()
    };
    path.to_string().concat(missing.as_str()).concat("\n").concat(
        lines_text(&cells, &widths).as_str(),
    ).concat(
        "\nauth: PLANE_API_KEY, else the stored api_key, else pass-cli. The token itself is never printed.",
    )
}

// ---- one issue ----

/// One issue in full.
pub open spec fn detail_of(
    issue: JsonView,
    reference: Text,
    workspace: Text,
    web_base: Option<Text>,
) -> Text {
    let labels = labels_of(issue);
    let body = markdown::plain(field_of(issue, "description_html"@));
    let head = reference + "  "@ + field_of(issue, "name"@) + "\n"@;
    let state = "  state:    "@ + dashed(state_of(issue)) + "\n"@;
    let priority = "  priority: "@ + dashed(field_of(issue, "priority"@)) + "\n"@;
    let due = "  due:      "@ + dashed(field_of(issue, "target_date"@)) + "\n"@;
    let tags = "  labels:   "@ + (if labels.len() == 0 {
        "-"@
    } else {
        text::joined(labels, ", "@)
    }) + "\n"@;
    let url = match url_of(web_base, workspace, reference) {
        Some(url) => "  url:      "@ + url + "\n"@,
        None => Seq::empty(),
    };
    let description = if body.len() == 0 {
        Seq::empty()
    } else {
        "\n"@ + body + "\n"@
    };
    text::drop_back(head + state + priority + due + tags + url + description, text::Class::White)
}

/// One issue in full.
pub fn issue_detail(
    issue: &Json,
    reference: &str,
    workspace: &str,
    web_base: &Option<String>,
) -> (r: String)
    ensures
        r@ == detail_of(issue@, reference@, workspace@, text::text_option(*web_base)),
{
    let head = reference.to_string().concat("  ").concat(field(issue, "name")).concat("\n");
    let state = "  state:    ".to_string().concat(dash(state_name(issue))).concat("\n");
    let priority = "  priority: ".to_string().concat(dash(field(issue, "priority"))).concat("\n");
    let due = "  due:      ".to_string().concat(dash(field(issue, "target_date"))).concat("\n");
    let labels = label_names(issue);
    let shown: String = if labels.len() == 0 {
        "-".to_string()
    } else {
        text::join(&labels, ", ")
    };
    let tags = "  labels:   ".to_string().concat(shown.as_str()).concat("\n");
    let url: String = match issue_url(web_base, workspace, reference) {
        Some(url) => "  url:      ".to_string().concat(url.as_str()).concat("\n"),
        None => String::new(),
    };
    let body = markdown::to_text(field(issue, "description_html"));
    let description: String = if body.as_str().is_empty() {
        String::new()
    } else {
        "\n".to_string().concat(body.as_str()).concat("\n")
    };
    let out = head.concat(state.as_str()).concat(priority.as_str()).concat(due.as_str()).concat(
        tags.as_str(),
    ).concat(url.as_str()).concat(description.as_str());
    text::trim_end(out.as_str(), text::Class::White).to_string()
}

// ---- lists ----

/// The number of an issue, as its reference spells it.
pub open spec fn sequence_text(issue: JsonView) -> Text {
    match issue.member("sequence_id"@) {
        Some(JsonView::Int(n)) => text::signed_decimal(n as int),
        _ => "?"@,
    }
}

pub fn sequence(issue: &Json) -> (r: String)
    ensures
        r@ == sequence_text(issue@),
{
    match issue.get("sequence_id") {
        Some(v) => match v.as_i64() {
            Some(n) => text::signed_text(n),
            None => "?".to_string(),
        },
        None => "?".to_string(),
    }
}

/// The kinds of things that are listed.
#[derive(Copy, Clone, Debug, PartialEq, Eq, Structural)]
pub enum Kind {
    Issues,
    Projects,
    Modules,
    Labels,
    States,
}

pub open spec fn noun_of(kind: Kind) -> Text {
    match kind {
        Kind::Issues => "issues"@,
        Kind::Projects => "projects"@,
        Kind::Modules => "modules"@,
        Kind::Labels => "labels"@,
        Kind::States => "states"@,
    }
}

/// The cells of one thing in a list.
pub open spec fn cells_of(kind: Kind, identifier: Text, item: JsonView) -> Seq<Text> {
    match kind {
        Kind::Issues => seq![
            identifier + "-"@ + sequence_text(item),
            dashed(state_of(item)),
            dashed(field_of(item, "priority"@)),
            field_of(item, "name"@),
        ],
        Kind::Projects => seq![
            field_of(item, "identifier"@),
            field_of(item, "name"@),
            field_of(item, "id"@),
        ],
        Kind::Modules => seq![
            field_of(item, "name"@),
            dashed(field_of(item, "status"@)),
            field_of(item, "id"@),
        ],
        Kind::Labels => seq![
            field_of(item, "name"@),
            dashed(field_of(item, "color"@)),
            field_of(item, "id"@),
        ],
        Kind::States => seq![
            field_of(item, "name"@),
            field_of(item, "group"@),
            field_of(item, "id"@),
        ],
    }
}

pub open spec fn rows_of(kind: Kind, identifier: Text, items: Seq<JsonView>) -> Seq<Seq<Text>> {
    items.map_values(|item: JsonView| cells_of(kind, identifier, item))
}

/// The widths of the columns of a list: as wide as the widest cell where cells
/// are lined up, and nothing for the last column.
pub open spec fn list_widths(kind: Kind, rows: Seq<Seq<Text>>) -> Seq<nat> {
    match kind {
        Kind::Issues => seq![
            text::widest(column(rows, 0)),
            text::widest(column(rows, 1)),
            text::widest(column(rows, 2)),
            0,
        ],
        Kind::Projects => seq![text::widest(column(rows, 0)), text::widest(column(rows, 1)), 0],
        _ => seq![text::widest(column(rows, 0)), 9, 0],
    }
}

/// A list of things, one aligned line each.
pub open spec fn list_table(
    kind: Kind,
    identifier: Text,
    title: Text,
    items: Seq<JsonView>,
) -> Text {
    let rows = rows_of(kind, identifier, items);
    table(title + text::decimal(items.len()) + " "@ + noun_of(kind), rows, list_widths(kind, rows))
}

fn cells(kind: Kind, identifier: &str, item: &Json) -> (r: Vec<String>)
    ensures
        text::texts(r@) == cells_of(kind, identifier@, item@),
        r@.len() == cells_of(kind, identifier@, item@).len(),
{
    match kind {
        Kind::Issues => four(
            identifier.to_string().concat("-").concat(sequence(item).as_str()).as_str(),
            dash(state_name(item)),
            dash(field(item, "priority")),
            field(item, "name"),
        ),
        Kind::Projects => three(
            field(item, "identifier"),
            field(item, "name"),
            field(item, "id"),
        ),
        Kind::Modules => three(
            field(item, "name"),
            dash(field(item, "status")),
            field(item, "id"),
        ),
        Kind::Labels => three(field(item, "name"), dash(field(item, "color")), field(item, "id")),
        Kind::States => three(field(item, "name"), field(item, "group"), field(item, "id")),
    }
}

fn list_text(kind: Kind, identifier: &str, title: &str, items: &Vec<Json>) -> (r: String)
    ensures
        r@ == list_table(kind, identifier@, title@, json::values(items@)),
{
    let ghost wanted = rows_of(kind, identifier@, json::values(items@));
    let mut rows: Vec<Vec<String>> = Vec::new();
    let mut i: usize = 0;
    while i < items.len()
        invariant
            i <= items@.len(),
            rows@.len() == i,
            forall|j: int|
                0 <= j < i ==> text::texts((#[trigger] rows@[j])@) == cells_of(
                    kind,
                    identifier@,
                    items@[j]@,
                ),
            forall|j: int|
                0 <= j < i ==> (#[trigger] rows@[j])@.len() == (if kind == Kind::Issues {
                    4int
                } else {
                    3
                }),
        decreases items@.len() - i,
    {
        rows.push(cells(kind, identifier, &items[i]));
        i += 1;
    }
    assert(grid(rows@) =~= wanted);
    let mut widths: Vec<usize> = Vec::new();
    widths.push(column_width(&rows, 0));
    let noun: &str = match kind {
        Kind::Issues => {
            widths.push(column_width(&rows, 1));
            widths.push(column_width(&rows, 2));
            "issues"
        },
        Kind::Projects => {
            widths.push(column_width(&rows, 1));
            "projects"
        },
        Kind::Modules => {
            widths.push(9);
            "modules"
        },
        Kind::Labels => {
            widths.push(9);
            "labels"
        },
        Kind::States => {
            widths.push(9);
            "states"
        },
    };
    widths.push(0);
    assert(widths_of(widths@) =~= list_widths(kind, wanted));
    let count = text::decimal_text(items.len() as u64);
    let full = title.to_string().concat(count.as_str()).concat(" ").concat(noun);
    table_text(full.as_str(), &rows, &widths)
}

pub open spec fn issues_shown(issues: Seq<JsonView>, identifier: Text, heading: Text) -> Text {
    if issues.len() == 0 {
        heading + ": no issues"@
    } else {
        list_table(Kind::Issues, identifier, heading + ": "@, issues)
    }
}

/// A list of issues, one aligned line each.
pub fn issue_list(issues: &Vec<Json>, identifier: &str, heading: &str) -> (r: String)
    ensures
        r@ == issues_shown(json::values(issues@), identifier@, heading@),
{
    if issues.len() == 0 {
        heading.to_string().concat(": no issues")
    } else {
        let title = heading.to_string().concat(": ");
        list_text(Kind::Issues, identifier, title.as_str(), issues)
    }
}

pub open spec fn projects_shown(projects: Seq<JsonView>) -> Text {
    if projects.len() == 0 {
        "No projects"@
    } else {
        list_table(Kind::Projects, Seq::empty(), Seq::empty(), projects)
    }
}

pub fn project_list(projects: &Vec<Json>) -> (r: String)
    ensures
        r@ == projects_shown(json::values(projects@)),
{
    if projects.len() == 0 {
        "No projects".to_string()
    } else {
        proof {
            reveal_strlit("");
            assert(""@ =~= Seq::<char>::empty());
        }
        list_text(Kind::Projects, "", "", projects)
    }
}

/// The list of a kind of things of a project.
pub open spec fn things_shown(kind: Kind, items: Seq<JsonView>, identifier: Text) -> Text {
    if items.len() == 0 {
        identifier + ": no "@ + noun_of(kind)
    } else {
        list_table(kind, identifier, identifier + ": "@, items)
    }
}

pub fn module_list(modules: &Vec<Json>, identifier: &str) -> (r: String)
    ensures
        r@ == things_shown(Kind::Modules, json::values(modules@), identifier@),
{
    if modules.len() == 0 {
        identifier.to_string().concat(": no ").concat("modules")
    } else {
        let title = identifier.to_string().concat(": ");
        list_text(Kind::Modules, identifier, title.as_str(), modules)
    }
}

pub fn label_list(labels: &Vec<Json>, identifier: &str) -> (r: String)
    ensures
        r@ == things_shown(Kind::Labels, json::values(labels@), identifier@),
{
    if labels.len() == 0 {
        identifier.to_string().concat(": no ").concat("labels")
    } else {
        let title = identifier.to_string().concat(": ");
        list_text(Kind::Labels, identifier, title.as_str(), labels)
    }
}

pub fn state_list(states: &Vec<Json>, identifier: &str) -> (r: String)
    ensures
        r@ == things_shown(Kind::States, json::values(states@), identifier@),
{
    if states.len() == 0 {
        identifier.to_string().concat(": no ").concat("states")
    } else {
        let title = identifier.to_string().concat(": ");
        list_text(Kind::States, identifier, title.as_str(), states)
    }
}

// ---- attachments ----

/// What is stored about a file, by key.
pub open spec fn attribute(attachment: JsonView, key: Text) -> Text {
    match attachment.member("attributes"@) {
        Some(attributes) => field_of(attributes, key),
        None => Seq::empty(),
    }
}

fn attribute_text<'a>(attachment: &'a Json, key: &str) -> (r: &'a str)
    ensures
        r@ == attribute(attachment@, key@),
{
    match attachment.get("attributes") {
        Some(attributes) => field(attributes, key),
        None => {
            proof {
                reveal_strlit("");
                assert(""@ =~= Seq::<char>::empty());
            }
            ""
        },
    }
}

/// The stored file name of an attachment.
pub open spec fn stored_name(attachment: JsonView) -> Text {
    if attribute(attachment, "name"@).len() == 0 {
        "?"@
    } else {
        attribute(attachment, "name"@)
    }
}

/// The stored file name of an attachment, which lives under `attributes`.
pub fn attachment_name(attachment: &Json) -> (r: &str)
    ensures
        r@ == stored_name(attachment@),
{
    let name: &str = attribute_text(attachment, "name");
    if name.is_empty() {
        "?"
    } else {
        name
    }
}

/// What marks an upload that was never confirmed: the row exists and the file
/// does not.
pub open spec fn pending_mark(attachment: JsonView) -> Text {
    if attachment.member("is_uploaded"@) == Some(JsonView::Bool(false)) {
        "  (upload not confirmed)"@
    } else {
        Seq::empty()
    }
}

pub open spec fn attachment_cells(attachment: JsonView, size: Text) -> Seq<Text> {
    seq![
        stored_name(attachment),
        size,
        dashed(attribute(attachment, "type"@)),
        field_of(attachment, "id"@) + pending_mark(attachment),
    ]
}

/// The attachments of one issue, with their sizes as they are shown.
pub open spec fn attachments_shown(
    attachments: Seq<JsonView>,
    sizes: Seq<Text>,
    reference: Text,
) -> Text {
    if attachments.len() == 0 {
        reference + ": no attachments"@
    } else {
        let rows = Seq::new(
            attachments.len(),
            |i: int| attachment_cells(attachments[i], sizes[i]),
        );
        table(
            reference + ": "@ + text::decimal(attachments.len()) + " attachments"@,
            rows,
            seq![
                text::widest(column(rows, 0)),
                text::widest(column(rows, 1)),
                text::widest(column(rows, 2)),
                0,
            ],
        )
    }
}

/// The attachments of one issue. Name, size and MIME live under `attributes`;
/// `size` is also a top-level float, which comes in as it is shown.
pub fn attachment_list(attachments: &Vec<Json>, sizes: &Vec<String>, reference: &str) -> (r: String)
    requires
        sizes@.len() == attachments@.len(),
    ensures
        r@ == attachments_shown(
            json::values(attachments@),
            text::texts(sizes@),
            reference@,
        ),
{
    if attachments.len() == 0 {
        return reference.to_string().concat(": no attachments");
    }
    let ghost items = json::values(attachments@);
    let ghost wanted = Seq::new(
        items.len(),
        |i: int| attachment_cells(items[i], text::texts(sizes@)[i]),
    );
    let mut rows: Vec<Vec<String>> = Vec::new();
    let mut i: usize = 0;
    while i < attachments.len()
        invariant
            sizes@.len() == attachments@.len(),
            i <= attachments@.len(),
            rows@.len() == i,
            forall|j: int|
                0 <= j < i ==> text::texts((#[trigger] rows@[j])@) == attachment_cells(
                    attachments@[j]@,
                    sizes@[j]@,
                ) && rows@[j]@.len() == 4,
        decreases attachments@.len() - i,
    {
        let a = &attachments[i];
        let unconfirmed: bool = match a.get("is_uploaded") {
            Some(v) => match v.as_bool() {
                Some(b) => !b,
                None => false,
            },
            None => false,
        };
        let pending: String = if unconfirmed {
            "  (upload not confirmed)".to_string()
        } else {
            String::new()
        };
        rows.push(
            four(
                attachment_name(a),
                sizes[i].as_str(),
                dash(attribute_text(a, "type")),
                field(a, "id").to_string().concat(pending.as_str()).as_str(),
            ),
        );
        i += 1;
    }
    assert(grid(rows@) =~= wanted);
    let mut widths: Vec<usize> = Vec::new();
    widths.push(column_width(&rows, 0));
    widths.push(column_width(&rows, 1));
    widths.push(column_width(&rows, 2));
    widths.push(0);
    assert(widths_of(widths@) =~= seq![
        text::widest(column(wanted, 0)),
        text::widest(column(wanted, 1)),
        text::widest(column(wanted, 2)),
        0,
    ]);
    let title = reference.to_string().concat(": ").concat(
        text::decimal_text(attachments.len() as u64).as_str(),
    ).concat(" attachments");
    table_text(title.as_str(), &rows, &widths)
}

// ---- laws ----

/// What is printed of a value: the value itself under `--json`, and else the text
/// that it was rendered as, where there is any.
pub proof fn json_prints_the_value_itself(raw: JsonView, rendered: Text)
    ensures
        emitted(raw, true, rendered) == Some(json::json_pretty(raw)),
        rendered.len() > 0 ==> emitted(raw, false, rendered) == Some(rendered),
        rendered.len() == 0 ==> emitted(raw, false, rendered) is None,
{
}

/// A title that ends in more than white space is still there once the white space
/// behind a table is dropped.
proof fn lemma_title_stays(title: Text, rows: Seq<Seq<Text>>, widths: Seq<nat>)
    requires
        title.len() > 0,
        !text::is_white_space(title.last()),
    ensures
        text::starts(table(title, rows, widths), title),
{
    let rest = "\n"@ + table_lines(rows, widths);
    let whole = title + "\n"@ + table_lines(rows, widths);
    let n = title.len() as int;
    assert(whole =~= title + rest);
    assert(whole[n - 1] == title.last());
    lemma_front_stays(whole, n);
    let kept = text::drop_back(whole, text::Class::White);
    let k = kept.len() as int;
    assert(kept == whole.take(k));
    assert(whole.take(k).subrange(0, n) =~= whole.subrange(0, n));
    assert((title + rest).subrange(0, n) =~= title);
}

proof fn lemma_front_stays(s: Text, n: int)
    requires
        0 < n <= s.len(),
        !text::is_white_space(s[n - 1]),
    ensures
        n <= text::drop_back(s, text::Class::White).len() <= s.len(),
        text::drop_back(s, text::Class::White) == s.take(
            text::drop_back(s, text::Class::White).len() as int,
        ),
    decreases s.len(),
{
    text::lemma_drop_back(s, text::Class::White);
    if s.len() > n && text::is_white_space(s.last()) {
        lemma_front_stays(s.drop_last(), n);
    }
}

/// A list of attachments says how many there are, before anything else.
pub proof fn a_list_is_never_blank(attachments: Seq<JsonView>, sizes: Seq<Text>, reference: Text)
    requires
        attachments.len() > 0,
    ensures
        text::starts(
            attachments_shown(attachments, sizes, reference),
            reference + ": "@ + text::decimal(attachments.len()) + " attachments"@,
        ),
        attachments_shown(attachments, sizes, reference).len() > 0,
{
    reveal_strlit(" attachments");
    let title = reference + ": "@ + text::decimal(attachments.len()) + " attachments"@;
    let rows = Seq::new(
        attachments.len(),
        |i: int| attachment_cells(attachments[i], sizes[i]),
    );
    lemma_title_stays(
        title,
        rows,
        seq![
            text::widest(column(rows, 0)),
            text::widest(column(rows, 1)),
            text::widest(column(rows, 2)),
            0,
        ],
    );
}

/// What stands in a text and ends in more than white space is still there once the
/// white space at the end is dropped.
proof fn lemma_part_stays(a: Text, part: Text, b: Text)
    requires
        part.len() > 0,
        !text::is_white_space(part.last()),
    ensures
        text::occurs_at(
            text::drop_back(a + part + b, text::Class::White),
            part,
            a.len() as int,
        ),
        text::occurs(text::drop_back(a + part + b, text::Class::White), part),
{
    let whole = a + part + b;
    let n = (a.len() + part.len()) as int;
    assert(whole[n - 1] == part.last());
    lemma_front_stays(whole, n);
    let kept = text::drop_back(whole, text::Class::White);
    assert(kept.subrange(a.len() as int, n) =~= whole.subrange(a.len() as int, n));
    assert(whole.subrange(a.len() as int, n) =~= part);
    assert(text::occurs_at(kept, part, a.len() as int));
}

/// Whether a text ends in more than white space.
pub open spec fn is_closed(s: Text) -> bool {
    s.len() > 0 && !text::is_white_space(s.last())
}

/// One issue in full begins with its reference and title, and says its state,
/// priority, due date, labels, address and description, each from the field that
/// holds it, with a dash for what is not set.
#[verifier::rlimit(40)]
pub proof fn an_issue_in_full_says_its_fields(
    issue: JsonView,
    reference: Text,
    workspace: Text,
    web_base: Option<Text>,
    s: Text,
)
    ensures
        is_closed(s) && issue.member("name"@) == Some(JsonView::Text(s)) ==> text::starts(
            detail_of(issue, reference, workspace, web_base),
            reference + "  "@ + s,
        ),
        is_closed(s) && (issue.member("state"@) matches Some(state) && state.member("name"@)
            == Some(JsonView::Text(s))) ==> text::occurs(
            detail_of(issue, reference, workspace, web_base),
            "  state:    "@ + s,
        ),
        issue.member("state"@) is None ==> text::occurs(
            detail_of(issue, reference, workspace, web_base),
            "  state:    "@ + "-"@,
        ),
        is_closed(s) && issue.member("priority"@) == Some(JsonView::Text(s)) ==> text::occurs(
            detail_of(issue, reference, workspace, web_base),
            "  priority: "@ + s,
        ),
        issue.member("priority"@) is None ==> text::occurs(
            detail_of(issue, reference, workspace, web_base),
            "  priority: "@ + "-"@,
        ),
        is_closed(s) && issue.member("target_date"@) == Some(JsonView::Text(s)) ==> text::occurs(
            detail_of(issue, reference, workspace, web_base),
            "  due:      "@ + s,
        ),
        issue.member("target_date"@) is None ==> text::occurs(
            detail_of(issue, reference, workspace, web_base),
            "  due:      "@ + "-"@,
        ),
        is_closed(s) && labels_of(issue).len() > 0 && text::joined(labels_of(issue), ", "@) == s
            ==> text::occurs(
            detail_of(issue, reference, workspace, web_base),
            "  labels:   "@ + s,
        ),
        labels_of(issue).len() == 0 ==> text::occurs(
            detail_of(issue, reference, workspace, web_base),
            "  labels:   "@ + "-"@,
        ),
        web_base is Some ==> text::occurs(
            detail_of(issue, reference, workspace, web_base),
            "  url:      "@ + web_base->0 + "/"@ + workspace + "/browse/"@ + reference + "/"@,
        ),
        is_closed(s) && (issue.member("description_html"@) matches Some(JsonView::Text(html))
            && markdown::plain(html) == s) ==> text::occurs(
            detail_of(issue, reference, workspace, web_base),
            "\n"@ + s,
        ),
        detail_of(issue, reference, workspace, web_base).len() > 0,
{
    reveal_strlit("-");
    reveal_strlit("/");
    let labels = labels_of(issue);
    let body = markdown::plain(field_of(issue, "description_html"@));
    let none = Seq::<char>::empty();
    let name = field_of(issue, "name"@);
    let n = "\n"@;
    let head = reference + "  "@ + name + n;
    let state = "  state:    "@ + dashed(state_of(issue)) + n;
    let priority = "  priority: "@ + dashed(field_of(issue, "priority"@)) + n;
    let due = "  due:      "@ + dashed(field_of(issue, "target_date"@)) + n;
    let said = if labels.len() == 0 {
        "-"@
    } else {
        text::joined(labels, ", "@)
    };
    let tags = "  labels:   "@ + said + n;
    let url = match url_of(web_base, workspace, reference) {
        Some(url) => "  url:      "@ + url + n,
        None => none,
    };
    let description = if body.len() == 0 {
        none
    } else {
        n + body + n
    };
    let detail = detail_of(issue, reference, workspace, web_base);
    lemma_pieces(head, state, priority, due, tags, url, description);
    if is_closed(name) {
        lemma_item_stays(
            none,
            reference + "  "@,
            name,
            state + priority + due + tags + url + description,
        );
    }
    if is_closed(dashed(state_of(issue))) {
        lemma_item_stays(
            head,
            "  state:    "@,
            dashed(state_of(issue)),
            priority + due + tags + url + description,
        );
    }
    if is_closed(dashed(field_of(issue, "priority"@))) {
        lemma_item_stays(
            head + state,
            "  priority: "@,
            dashed(field_of(issue, "priority"@)),
            due + tags + url + description,
        );
    }
    if is_closed(dashed(field_of(issue, "target_date"@))) {
        lemma_item_stays(
            head + state + priority,
            "  due:      "@,
            dashed(field_of(issue, "target_date"@)),
            tags + url + description,
        );
    }
    if is_closed(said) {
        lemma_item_stays(
            head + state + priority + due,
            "  labels:   "@,
            said,
            url + description,
        );
    }
    if let Some(base) = web_base {
        let address = base + "/"@ + workspace + "/browse/"@ + reference + "/"@;
        lemma_address("  url:      "@, base, workspace, reference);
        lemma_item_stays(
            head + state + priority + due + tags,
            "  url:      "@,
            address,
            description,
        );
    }
    if is_closed(body) {
        lemma_item_stays(head + state + priority + due + tags + url, n, body, none);
        assert(head + state + priority + due + tags + url + description + none =~= head + state
            + priority + due + tags + url + description);
    }
    lemma_colon(said);
    let rest = "   "@ + said + n;
    lemma_part_stays(head + state + priority + due, "  labels:"@, rest + (url + description));
    lemma_around(head + state + priority + due, "  labels:"@, rest, url + description);
}

proof fn lemma_pieces(a: Text, b: Text, c: Text, d: Text, e: Text, f: Text, g: Text)
    ensures
        a + b + c + d + e + f + g == Seq::<char>::empty() + a + (b + c + d + e + f + g),
        a + b + c + d + e + f + g == a + b + (c + d + e + f + g),
        a + b + c + d + e + f + g == a + b + c + (d + e + f + g),
        a + b + c + d + e + f + g == a + b + c + d + (e + f + g),
        a + b + c + d + e + f + g == a + b + c + d + e + (f + g),
        a + b + c + d + e + f + g == a + b + c + d + e + f + g + Seq::<char>::empty(),
{
    assert(a + b + c + d + e + f + g =~= Seq::<char>::empty() + a + (b + c + d + e + f + g));
    assert(a + b + c + d + e + f + g =~= a + b + (c + d + e + f + g));
    assert(a + b + c + d + e + f + g =~= a + b + c + (d + e + f + g));
    assert(a + b + c + d + e + f + g =~= a + b + c + d + (e + f + g));
    assert(a + b + c + d + e + f + g =~= a + b + c + d + e + (f + g));
    assert(a + b + c + d + e + f + g =~= a + b + c + d + e + f + g + Seq::<char>::empty());
}

proof fn lemma_item_stays(a: Text, label: Text, value: Text, b: Text)
    requires
        is_closed(value),
    ensures
        text::occurs_at(
            text::drop_back(a + (label + value + "\n"@) + b, text::Class::White),
            label + value,
            a.len() as int,
        ),
        text::occurs(
            text::drop_back(a + (label + value + "\n"@) + b, text::Class::White),
            label + value,
        ),
{
    let part = label + value;
    assert(part.last() == value.last());
    lemma_around(a, part, "\n"@, b);
    lemma_part_stays(a, part, "\n"@ + b);
}

proof fn lemma_around(a: Text, b: Text, c: Text, d: Text)
    ensures
        a + (b + c) + d == a + b + (c + d),
{
    assert(a + (b + c) + d =~= a + b + (c + d));
}

proof fn lemma_address(label: Text, base: Text, workspace: Text, reference: Text)
    ensures
        is_closed(base + "/"@ + workspace + "/browse/"@ + reference + "/"@),
        label + (base + "/"@ + workspace + "/browse/"@ + reference + "/"@) == label + base + "/"@
            + workspace + "/browse/"@ + reference + "/"@,
{
    reveal_strlit("/");
    let address = base + "/"@ + workspace + "/browse/"@ + reference + "/"@;
    assert(address.last() == '/');
    assert(label + address =~= label + base + "/"@ + workspace + "/browse/"@ + reference + "/"@);
}

proof fn lemma_colon(said: Text)
    ensures
        "  labels:   "@ + said + "\n"@ == "  labels:"@ + ("   "@ + said + "\n"@),
        is_closed("  labels:"@),
{
    reveal_strlit("  labels:   ");
    reveal_strlit("  labels:");
    reveal_strlit("   ");
    assert("  labels:"@.last() == ':');
    assert("  labels:   "@ =~= "  labels:"@ + "   "@);
    assert("  labels:   "@ + said + "\n"@ =~= "  labels:"@ + ("   "@ + said + "\n"@));
}

proof fn lemma_line_stands(rows: Seq<Seq<Text>>, widths: Seq<nat>, i: int) -> (parts: (Text, Text))
    requires
        0 <= i < rows.len(),
    ensures
        table_lines(rows, widths) == parts.0 + line(rows[i], widths) + parts.1,
    decreases rows.len(),
{
    let front = rows.drop_last();
    if i == rows.len() - 1 {
        let none = Seq::<char>::empty();
        assert(table_lines(rows, widths) =~= table_lines(front, widths) + line(rows[i], widths)
            + none);
        (table_lines(front, widths), none)
    } else {
        let parts = lemma_line_stands(front, widths, i);
        assert(front[i] == rows[i]);
        let b = parts.1 + line(rows.last(), widths);
        assert(table_lines(rows, widths) =~= parts.0 + line(rows[i], widths) + b);
        (parts.0, b)
    }
}

/// A text followed by spaces, up to a width, and two more.
pub open spec fn in_column(s: Text, w: nat) -> Text {
    s + text::spaces(if s.len() < w {
        (w - s.len()) as nat
    } else {
        0
    }) + "  "@
}

/// What is said of a thing in a list of its kind, before its last column.
pub open spec fn first_columns(kind: Kind, identifier: Text, item: JsonView, w: Seq<nat>) -> Text {
    match kind {
        Kind::Issues => in_column(identifier + "-"@ + sequence_text(item), w[0]) + in_column(
            dashed(state_of(item)),
            w[1],
        ) + in_column(dashed(field_of(item, "priority"@)), w[2]),
        Kind::Projects => in_column(field_of(item, "identifier"@), w[0]) + in_column(
            field_of(item, "name"@),
            w[1],
        ),
        Kind::Modules => in_column(field_of(item, "name"@), w[0]) + in_column(
            dashed(field_of(item, "status"@)),
            w[1],
        ),
        Kind::Labels => in_column(field_of(item, "name"@), w[0]) + in_column(
            dashed(field_of(item, "color"@)),
            w[1],
        ),
        Kind::States => in_column(field_of(item, "name"@), w[0]) + in_column(
            field_of(item, "group"@),
            w[1],
        ),
    }
}

/// What a thing in a list of its kind is said last: the title of an issue, and the
/// id of anything else.
pub open spec fn last_column(kind: Kind, item: JsonView) -> Text {
    field_of(
        item,
        if kind == Kind::Issues {
            "name"@
        } else {
            "id"@
        },
    )
}

/// Each thing in a list has a line of its own, with its fields in their columns,
/// and the list says first what it is a list of and how many there are.
#[verifier::rlimit(40)]
pub proof fn a_list_has_a_line_for_each(
    kind: Kind,
    identifier: Text,
    title: Text,
    items: Seq<JsonView>,
    i: int,
)
    requires
        0 <= i < items.len(),
    ensures
        text::starts(
            list_table(kind, identifier, title, items),
            title + text::decimal(items.len()) + " "@ + noun_of(kind),
        ),
        is_closed(last_column(kind, items[i])) ==> exists|w: Seq<nat>|
            text::occurs(
                list_table(kind, identifier, title, items),
                #[trigger] first_columns(kind, identifier, items[i], w) + last_column(
                    kind,
                    items[i],
                ),
            ),
{
    reveal_strlit("issues");
    reveal_strlit("projects");
    reveal_strlit("modules");
    reveal_strlit("labels");
    reveal_strlit("states");
    let rows = rows_of(kind, identifier, items);
    let widths = list_widths(kind, rows);
    let full = title + text::decimal(items.len()) + " "@ + noun_of(kind);
    assert(full.last() == 's');
    lemma_title_stays(full, rows, widths);
    if is_closed(last_column(kind, items[i])) {
        assert(rows[i] == cells_of(kind, identifier, items[i]));
        let shown = first_columns(kind, identifier, items[i], widths) + last_column(
            kind,
            items[i],
        );
        lemma_columns(kind, identifier, items[i], widths);
        let parts = lemma_line_stands(rows, widths, i);
        assert(shown.last() == last_column(kind, items[i]).last());
        let a = full + "\n"@ + parts.0;
        let b = "\n"@ + parts.1;
        lemma_within(full + "\n"@, parts.0, shown, "\n"@, parts.1);
        lemma_part_stays(a, shown, b);
    }
}

proof fn lemma_within(title: Text, a: Text, part: Text, end: Text, b: Text)
    ensures
        title + (a + (part + end) + b) == title + a + part + (end + b),
{
    assert(title + (a + (part + end) + b) =~= title + a + part + (end + b));
}

#[verifier::rlimit(40)]
proof fn lemma_columns(kind: Kind, identifier: Text, item: JsonView, w: Seq<nat>)
    requires
        w.len() == (if kind == Kind::Issues {
            4int
        } else {
            3
        }),
        w.last() == 0,
    ensures
        line(cells_of(kind, identifier, item), w) == first_columns(kind, identifier, item, w)
            + last_column(kind, item) + "\n"@,
{
    reveal_with_fuel(text::joined, 5);
    let cells = cells_of(kind, identifier, item);
    let columns = Seq::new(cells.len(), |k: int| text::padded(cells[k], w[k]));
    let gap = "  "@;
    assert(text::padded(cells[0], w[0]) + gap =~= in_column(cells[0], w[0]));
    assert(text::padded(cells[1], w[1]) + gap =~= in_column(cells[1], w[1]));
    assert(columns.drop_last().drop_last()[0] == columns[0]);
    if kind == Kind::Issues {
        assert(text::padded(cells[2], w[2]) + gap =~= in_column(cells[2], w[2]));
        assert(columns.drop_last().drop_last().drop_last() =~= seq![columns[0]]);
        assert(columns.drop_last().drop_last().last() == columns[1]);
        assert(columns.drop_last().last() == columns[2]);
        assert(text::joined(columns, gap) =~= columns[0] + gap + columns[1] + gap + columns[2] + gap
            + columns[3]);
        assert(text::joined(columns, gap) =~= first_columns(kind, identifier, item, w)
            + last_column(kind, item));
    } else {
        assert(columns.drop_last().drop_last() =~= seq![columns[0]]);
        assert(columns.drop_last().last() == columns[1]);
        assert(text::joined(columns, gap) =~= columns[0] + gap + columns[1] + gap + columns[2]);
        assert(text::joined(columns, gap) =~= first_columns(kind, identifier, item, w)
            + last_column(kind, item));
    }
}

/// A list without rows says so, and names what it is a list of.
pub proof fn an_empty_list_says_so(kind: Kind, items: Seq<JsonView>, whose: Text)
    ensures
        items.len() == 0 ==> issues_shown(items, whose, whose) == whose + ": no issues"@
            && projects_shown(items) == "No projects"@ && things_shown(kind, items, whose) == whose
            + ": no "@ + noun_of(kind),
        items.len() > 0 ==> {
            &&& issues_shown(items, whose, whose) == list_table(
                Kind::Issues,
                whose,
                whose + ": "@,
                items,
            )
            &&& projects_shown(items) == list_table(
                Kind::Projects,
                Seq::empty(),
                Seq::empty(),
                items,
            )
            &&& things_shown(kind, items, whose) == list_table(kind, whose, whose + ": "@, items)
        },
{
}

/// An issue is in the state, and has the labels, that its own fields name.
pub proof fn an_issue_says_its_state_and_labels(issue: JsonView, state: JsonView, s: Text)
    ensures
        issue.member("state"@) == Some(state) && state.member("name"@) == Some(JsonView::Text(s))
            ==> state_of(issue) == s,
        issue.member("state"@) is None ==> state_of(issue).len() == 0,
        issue.member("labels"@) matches Some(JsonView::Array(labels)) ==> (labels_of(
            issue,
        ).contains(s) <==> exists|i: int|
            0 <= i < labels.len() && (#[trigger] labels[i]).member("name"@) == Some(
                JsonView::Text(s),
            )),
        issue.member("labels"@) is None ==> labels_of(issue).len() == 0,
{
    if let Some(JsonView::Array(labels)) = issue.member("labels"@) {
        names::names_are_those_of_the_things(labels, s);
    }
}

/// A value, or a dash where there is none or it is empty.
pub open spec fn value_or_dash(value: Option<Text>) -> Text {
    match value {
        Some(v) if v.len() > 0 => v,
        _ => "-"@,
    }
}

/// The settings are shown below the path of their file, one line each, with the
/// name, the value or a dash, and the source.
#[verifier::rlimit(40)]
pub proof fn each_setting_has_a_line(path: Text, exists: bool, rows: Seq<ResolvedView>, i: int)
    requires
        0 <= i < rows.len(),
    ensures
        text::starts(
            settings_table(path, exists, rows),
            path + (if exists {
                "\n"@
            } else {
                "  (not written yet)"@
            }),
        ),
        exists|w0: nat, w1: nat|
            text::occurs(
                settings_table(path, exists, rows),
                #[trigger] in_column(config::name_of(rows[i].key), w0) + #[trigger] in_column(
                    value_or_dash(rows[i].value),
                    w1,
                ) + (match (rows[i].value, rows[i].source) {
                    (None, _) => "unset"@,
                    (Some(_), config::Source::Env) => "env"@,
                    (Some(_), config::Source::File) => "file"@,
                    (Some(_), config::Source::Default) => "default"@,
                }),
            ),
{
    let names = rows.map_values(|row: ResolvedView| config::name_of(row.key));
    let values = rows.map_values(|row: ResolvedView| value_text(row));
    let cells = rows.map_values(|row: ResolvedView| setting_cells(row));
    let widths: Seq<nat> = seq![text::widest(names), text::widest(values), 0];
    let whole = settings_table(path, exists, rows);
    let head = path + (if exists {
        "\n"@
    } else {
        "  (not written yet)"@
    });
    assert(whole.subrange(0, head.len() as int) =~= head);
    let shown = in_column(config::name_of(rows[i].key), widths[0]) + in_column(
        dashed(value_text(rows[i])),
        widths[1],
    ) + config::source_column(rows[i]);
    assert(cells[i] == setting_cells(rows[i]));
    assert(dashed(value_text(rows[i])) == value_or_dash(rows[i].value));
    lemma_setting_line(rows[i], widths);
    let parts = lemma_line_stands(cells, widths, i);
    let before = path + (if exists {
        Seq::empty()
    } else {
        "  (not written yet)"@
    }) + "\n"@;
    let note =
        "\nauth: PLANE_API_KEY, else the stored api_key, else pass-cli. The token itself is never printed."@;
    lemma_within(before, parts.0, shown, "\n"@, parts.1);
    let a = before + parts.0;
    let b = "\n"@ + parts.1;
    assert(whole == a + shown + b + note);
    text::lemma_between(a, shown, b + note);
    lemma_around(a, shown, b, note);
    assert(a + shown + b + note =~= a + (shown + b) + note);
}

proof fn lemma_setting_line(row: ResolvedView, w: Seq<nat>)
    requires
        w.len() == 3,
        w[2] == 0,
    ensures
        line(setting_cells(row), w) == in_column(config::name_of(row.key), w[0]) + in_column(
            dashed(value_text(row)),
            w[1],
        ) + config::source_column(row) + "\n"@,
{
    reveal_with_fuel(text::joined, 4);
    let cells = setting_cells(row);
    let columns = Seq::new(cells.len(), |k: int| text::padded(cells[k], w[k]));
    let gap = "  "@;
    assert(text::padded(cells[0], w[0]) + gap =~= in_column(cells[0], w[0]));
    assert(text::padded(cells[1], w[1]) + gap =~= in_column(cells[1], w[1]));
    assert(columns.drop_last().drop_last() =~= seq![columns[0]]);
    assert(columns.drop_last().last() == columns[1]);
    assert(text::joined(columns, gap) =~= columns[0] + gap + columns[1] + gap + columns[2]);
    assert(text::joined(columns, gap) =~= in_column(cells[0], w[0]) + in_column(cells[1], w[1])
        + cells[2]);
}

/// Each attachment has a line of its own, with its name, its size as it is shown,
/// its type and its id, and a mark where its upload was never confirmed.
#[verifier::rlimit(40)]
pub proof fn each_attachment_has_a_line(
    attachments: Seq<JsonView>,
    sizes: Seq<Text>,
    reference: Text,
    i: int,
    attributes: JsonView,
    name: Text,
    kind: Text,
    id: Text,
)
    requires
        0 <= i < attachments.len(),
        attachments[i].member("attributes"@) == Some(attributes),
        attributes.member("name"@) == Some(JsonView::Text(name)),
        attributes.member("type"@) == Some(JsonView::Text(kind)),
        attachments[i].member("id"@) == Some(JsonView::Text(id)),
        name.len() > 0,
        kind.len() > 0,
        is_closed(id),
    ensures
        exists|w0: nat, w1: nat, w2: nat|
            text::occurs(
                attachments_shown(attachments, sizes, reference),
                #[trigger] in_column(name, w0) + #[trigger] in_column(sizes[i], w1)
                    + #[trigger] in_column(kind, w2) + id + (if attachments[i].member(
                    "is_uploaded"@,
                ) == Some(JsonView::Bool(false)) {
                    "  (upload not confirmed)"@
                } else {
                    ""@
                }),
            ),
        attachments[i].member("is_uploaded"@) != Some(JsonView::Bool(false)) ==> pending_mark(
            attachments[i],
        ).len() == 0,
{
    reveal_strlit("");
    reveal_strlit("  (upload not confirmed)");
    reveal_strlit(" attachments");
    let rows = Seq::new(
        attachments.len(),
        |i: int| attachment_cells(attachments[i], sizes[i]),
    );
    let w: Seq<nat> = seq![
        text::widest(column(rows, 0)),
        text::widest(column(rows, 1)),
        text::widest(column(rows, 2)),
        0,
    ];
    let mark = pending_mark(attachments[i]);
    let last = id + mark;
    let front = in_column(name, w[0]) + in_column(sizes[i], w[1]) + in_column(kind, w[2]);
    let shown = front + last;
    lemma_attachment_line(rows[i], w);
    let parts = lemma_line_stands(rows, w, i);
    let full = reference + ": "@ + text::decimal(attachments.len()) + " attachments"@;
    assert(is_closed(last)) by {
        if attachments[i].member("is_uploaded"@) == Some(JsonView::Bool(false)) {
            assert(last.last() == ')');
        } else {
            assert(last =~= id);
        }
    }
    assert(shown.last() == last.last());
    lemma_within(full + "\n"@, parts.0, shown, "\n"@, parts.1);
    lemma_part_stays(full + "\n"@ + parts.0, shown, "\n"@ + parts.1);
    assert(shown =~= front + id + mark);
    assert(mark =~= if attachments[i].member("is_uploaded"@) == Some(JsonView::Bool(false)) {
        "  (upload not confirmed)"@
    } else {
        ""@
    });
}

proof fn lemma_attachment_line(cells: Seq<Text>, w: Seq<nat>)
    requires
        cells.len() == 4,
        w.len() == 4,
        w[3] == 0,
    ensures
        line(cells, w) == in_column(cells[0], w[0]) + in_column(cells[1], w[1]) + in_column(
            cells[2],
            w[2],
        ) + cells[3] + "\n"@,
{
    reveal_with_fuel(text::joined, 5);
    let columns = Seq::new(cells.len(), |k: int| text::padded(cells[k], w[k]));
    let gap = "  "@;
    assert(text::padded(cells[0], w[0]) + gap =~= in_column(cells[0], w[0]));
    assert(text::padded(cells[1], w[1]) + gap =~= in_column(cells[1], w[1]));
    assert(text::padded(cells[2], w[2]) + gap =~= in_column(cells[2], w[2]));
    assert(columns.drop_last().drop_last().drop_last() =~= seq![columns[0]]);
    assert(columns.drop_last().drop_last().last() == columns[1]);
    assert(columns.drop_last().last() == columns[2]);
    assert(text::joined(columns, gap) =~= columns[0] + gap + columns[1] + gap + columns[2] + gap
        + columns[3]);
    assert(text::joined(columns, gap) =~= in_column(cells[0], w[0]) + in_column(cells[1], w[1])
        + in_column(cells[2], w[2]) + cells[3]);
}

/// A field that is needed is the text that is there; one that is missing or empty
/// is an error that names it and what it was looked for in.
pub proof fn a_needed_field_is_there_or_named(v: JsonView, key: Text, what: Text)
    ensures
        match required_of(v, key, what) {
            Ok(s) => s.len() > 0 && v.member(key) == Some(JsonView::Text(s)),
            Err(e) => !(v.member(key) matches Some(JsonView::Text(s)) && s.len() > 0) && e.len()
                == 1 && text::occurs(e[0], key) && text::occurs(e[0], what),
        },
{
    let front = "Plane's response for "@;
    let middle = " carries no `"@;
    let end = "`, so there is nothing to address."@;
    text::lemma_between(front + what + middle, key, end);
    text::lemma_between(front, what, middle + key + end);
    assert(front + what + middle + key + end =~= front + what + (middle + key + end));
}

} // verus!
