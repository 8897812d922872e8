//! Markdown in, HTML out, and back again for display.
//!
//! `description_html` is the field Plane stores, so markdown written straight
//! into it is kept literally: asterisks stay asterisks. Everything that is
//! written therefore goes through [`to_html`] first. Reading back, [`to_text`]
//! flattens the stored HTML so `plane issue get` prints prose rather than
//! Plane's editor markup.

use crate::text;
use crate::text::Text;
use pulldown_cmark::{html, Event, Options, Parser};
use vstd::prelude::*;

verus! {

// ---- markdown to HTML ----

/// Tables, strikethrough and task lists, as `pulldown_cmark` numbers its
/// extensions.
pub const EXTENSIONS: u32 = 0b11010;

/// One piece of a parsed document, as far as it matters here.
#[derive(Debug, PartialEq, Eq)]
pub enum Piece {
    /// Raw HTML, block or inline.
    Raw(String),
    /// Text, which is escaped when it is rendered.
    Text(String),
    /// Anything else.
    Other,
}

/// What a [`Piece`] holds.
pub enum PieceView {
    Raw(Text),
    Text(Text),
    Other,
}

impl View for Piece {
    type V = PieceView;

    open spec fn view(&self) -> PieceView {
        match self {
            Piece::Raw(s) => PieceView::Raw(s@),
            Piece::Text(s) => PieceView::Text(s@),
            Piece::Other => PieceView::Other,
        }
    }
}

pub open spec fn pieces_of(list: Seq<Piece>) -> Seq<PieceView> {
    list.map_values(|p: Piece| p@)
}

/// The events that `pulldown_cmark::Parser` yields for a document under the
/// given extensions.
pub uninterp spec fn md_events(md: Seq<char>, options: u32) -> Seq<PieceView>;

/// What `pulldown_cmark::html::push_html` renders of a document, with the raw
/// and text pieces of its events replaced by the given ones.
pub uninterp spec fn md_html(md: Seq<char>, options: u32, pieces: Seq<PieceView>) -> Seq<char>;

/// `pulldown_cmark::Parser`: the events of a document in order, which depend on
/// the document and the extensions alone.
#[verifier::external_body]
fn parse_markdown(md: &str, options: u32) -> (r: Vec<Piece>)
    ensures
        pieces_of(r@) == md_events(md@, options),
{
    Parser::new_ext(md, Options::from_bits_truncate(options)).map(|event| match event {
        Event::Html(s) => Piece::Raw(s.to_string()),
        Event::InlineHtml(s) => Piece::Raw(s.to_string()),
        Event::Text(s) => Piece::Text(s.to_string()),
        _ => Piece::Other,
    }).collect()
}

/// `pulldown_cmark::html::push_html`: the HTML of a document whose events carry
/// the given pieces, which depends on the three arguments alone. Not claimed is
/// what the HTML of a piece looks like.
#[verifier::external_body]
fn render_html(md: &str, options: u32, pieces: &Vec<Piece>) -> (r: String)
    ensures
        r@ == md_html(md@, options, pieces_of(pieces@)),
{
    let mut out = String::new();
    let events = Parser::new_ext(md, Options::from_bits_truncate(options)).zip(pieces);
    html::push_html(&mut out, events.map(|(event, piece)| match piece {
        Piece::Raw(s) => Event::Html(s.clone().into()),
        Piece::Text(s) => Event::Text(s.clone().into()),
        Piece::Other => event,
    }));
    out
}

/// One piece with raw HTML made text.
pub open spec fn neutral_piece(piece: PieceView) -> PieceView {
    match piece {
        PieceView::Raw(s) => PieceView::Text(s),
        _ => piece,
    }
}

/// The pieces of a document with raw HTML made text.
pub open spec fn neutral(pieces: Seq<PieceView>) -> Seq<PieceView> {
    pieces.map_values(|p: PieceView| neutral_piece(p))
}

/// Makes raw HTML text, which escapes it on render: the characters survive and
/// the markup does not.
pub fn neutralise(pieces: Vec<Piece>) -> (r: Vec<Piece>)
    ensures
        pieces_of(r@) == neutral(pieces_of(pieces@)),
{
    let mut out: Vec<Piece> = Vec::new();
    let mut i: usize = 0;
    while i < pieces.len()
        invariant
            i <= pieces@.len(),
            out@.len() == i,
            forall|j: int| 0 <= j < i ==> (#[trigger] out@[j])@ == neutral_piece(pieces@[j]@),
        decreases pieces@.len() - i,
    {
        out.push(
            match &pieces[i] {
                Piece::Raw(s) => Piece::Text(s.clone()),
                Piece::Text(s) => Piece::Text(s.clone()),
                Piece::Other => Piece::Other,
            },
        );
        i += 1;
    }
    assert(pieces_of(out@) =~= neutral(pieces_of(pieces@)));
    out
}

/// Raw HTML in a document is neutralised rather than passed through: no piece
/// of what is rendered is raw, and every piece keeps its characters.
pub proof fn no_raw_html_is_rendered(pieces: Seq<PieceView>, i: int)
    requires
        0 <= i < pieces.len(),
    ensures
        neutral(pieces).len() == pieces.len(),
        neutral(pieces)[i] !is Raw,
        pieces[i] is Raw ==> neutral(pieces)[i] == PieceView::Text(pieces[i]->Raw_0),
        pieces[i] !is Raw ==> neutral(pieces)[i] == pieces[i],
{
}

/// The HTML that is stored for a document.
pub open spec fn html_of(md: Text) -> Text {
    md_html(md, EXTENSIONS, neutral(md_events(md, EXTENSIONS)))
}

/// Convert markdown to the HTML Plane stores in `description_html`.
///
/// Raw HTML in the source is neutralised rather than passed through: an agent
/// piping an extracted document into `--desc-md -` would otherwise store
/// document-controlled markup on the board.
pub fn to_html(md: &str) -> (r: String)
    ensures
        r@ == html_of(md@),
{
    let pieces = neutralise(parse_markdown(md, EXTENSIONS));
    render_html(md, EXTENSIONS, &pieces)
}

// ---- HTML to text ----

/// The ASCII letters and digits that a text begins with.
pub open spec fn leading_word(s: Text) -> Text
    decreases s.len(),
{
    if s.len() > 0 && text::is_alphanumeric(s[0]) {
        seq![s[0]] + leading_word(s.drop_first())
    } else {
        Seq::empty()
    }
}

/// The name of a tag in lower case, given what stands between its brackets.
pub open spec fn tag_name(tag: Text) -> Text {
    text::ascii_lowered(leading_word(text::drop_front(tag, text::Class::Slash)))
}

/// The tags that end a block.
pub open spec fn is_block(name: Text) -> bool {
    ||| name == "p"@
    ||| name == "div"@
    ||| name == "li"@
    ||| name == "tr"@
    ||| name == "h1"@
    ||| name == "h2"@
    ||| name == "h3"@
    ||| name == "h4"@
    ||| name == "h5"@
    ||| name == "h6"@
    ||| name == "blockquote"@
    ||| name == "pre"@
    ||| name == "ul"@
    ||| name == "ol"@
    ||| name == "table"@
}

/// Whether a tag breaks the line: `br` does, and a block where it ends, so text
/// does not run together into one paragraph.
pub open spec fn breaks_line(tag: Text) -> bool {
    tag_name(tag) == "br"@ || (tag.len() > 0 && tag[0] == '/' && is_block(tag_name(tag)))
}

/// `html` with line breaks for its tags. A tag that is not closed runs to the
/// end.
pub open spec fn untagged(html: Text) -> Text
    decreases html.len(),
{
    if html.len() == 0 {
        Seq::empty()
    } else if html[0] != '<' {
        seq![html[0]] + untagged(html.drop_first())
    } else {
        let after = html.drop_first();
        let end = text::position(after, '>') as int;
        let tag = if end < after.len() {
            after.take(end)
        } else {
            after
        };
        let rest = if end < after.len() {
            untagged(after.skip(end + 1))
        } else {
            Seq::empty()
        };
        if breaks_line(tag) {
            seq!['\n'] + rest
        } else {
            rest
        }
    }
}

/// The character that an entity at the start of a text stands for, and how long
/// the entity is.
pub open spec fn entity_at(s: Text) -> Option<(char, int)> {
    if text::starts(s, "&nbsp;"@) {
        Some((' ', 6))
    } else if text::starts(s, "&lt;"@) {
        Some(('<', 4))
    } else if text::starts(s, "&gt;"@) {
        Some(('>', 4))
    } else if text::starts(s, "&quot;"@) {
        Some(('"', 6))
    } else if text::starts(s, "&#39;"@) {
        Some(('\'', 5))
    } else if text::starts(s, "&#x27;"@) {
        Some(('\'', 6))
    } else if text::starts(s, "&amp;"@) {
        Some(('&', 5))
    } else {
        None
    }
}

/// `s` with its entities decoded, in one pass from the front. What an entity
/// decodes into is not looked at again, so `&amp;lt;` becomes `&lt;`. The seven
/// entities hold one `&` each, at the front, and no decoded character but the
/// `&` of `&amp;`, so decoding them one after the other with `&amp;` last comes
/// to the same, as [`decoding_in_turn_is_decoding_once`] shows.
pub open spec fn decoded(s: Text) -> Text
    decreases s.len(),
{
    if s.len() == 0 {
        Seq::empty()
    } else {
        match entity_at(s) {
            Some((c, n)) => if 0 < n <= s.len() {
                seq![c] + decoded(s.skip(n))
            } else {
                Seq::empty()
            },
            None => seq![s[0]] + decoded(s.drop_first()),
        }
    }
}

/// HTML as readable plain text.
pub open spec fn plain(html: Text) -> Text {
    text::trimmed(decoded(untagged(html)))
}

fn block_name(name: &str) -> (r: bool)
    ensures
        r == is_block(name@),
{
    text::same(name, "p") || text::same(name, "div") || text::same(name, "li") || text::same(
        name,
        "tr",
    ) || text::same(name, "h1") || text::same(name, "h2") || text::same(name, "h3") || text::same(
        name,
        "h4",
    ) || text::same(name, "h5") || text::same(name, "h6") || text::same(name, "blockquote")
        || text::same(name, "pre") || text::same(name, "ul") || text::same(name, "ol")
        || text::same(name, "table")
}

fn word_of(s: &str) -> (r: String)
    ensures
        r@ == text::ascii_lowered(leading_word(s@)),
{
    let chars = text::chars_of(s);
    let mut out: String = String::new();
    let mut i: usize = 0;
    assert(s@.skip(0) == s@);
    assert(out@ + text::ascii_lowered(leading_word(s@)) =~= text::ascii_lowered(
        leading_word(s@),
    ));
    while i < chars.len() && text::alphanumeric(chars[i])
        invariant
            chars@ == s@,
            i <= chars@.len(),
            out@ + text::ascii_lowered(leading_word(s@.skip(i as int))) == text::ascii_lowered(
                leading_word(s@),
            ),
        decreases chars@.len() - i,
    {
        let ghost before = out@;
        let ghost here = s@.skip(i as int);
        assert(here.drop_first() == s@.skip(i + 1));
        out.push(text::lower_char(chars[i]));
        assert(text::ascii_lowered(leading_word(here)) =~= seq![text::ascii_lower(here[0])]
            + text::ascii_lowered(leading_word(s@.skip(i + 1))));
        assert(out@ + text::ascii_lowered(leading_word(s@.skip(i + 1))) =~= before
            + text::ascii_lowered(leading_word(here)));
        i += 1;
    }
    assert(leading_word(s@.skip(i as int)) =~= Seq::empty());
    assert(out@ + text::ascii_lowered(leading_word(s@.skip(i as int))) =~= out@);
    out
}

fn line_break(tag: &str) -> (r: bool)
    ensures
        r == breaks_line(tag@),
{
    let name = word_of(text::trim_start(tag, text::Class::Slash));
    if text::same(name.as_str(), "br") {
        return true;
    }
    let chars = text::chars_of(tag);
    chars.len() > 0 && chars[0] == '/' && block_name(name.as_str())
}

/// Replaces the tags of HTML by line breaks.
pub fn strip_tags(html: &str) -> (r: String)
    ensures
        r@ == untagged(html@),
{
    let chars = text::chars_of(html);
    let n: usize = chars.len();
    let mut out: String = String::new();
    let mut i: usize = 0;
    assert(html@.skip(0) == html@);
    assert(out@ + untagged(html@) =~= untagged(html@));
    while i < n
        invariant
            chars@ == html@,
            n == html@.len(),
            i <= n,
            out@ + untagged(html@.skip(i as int)) == untagged(html@),
        decreases n - i,
    {
        let ghost before = out@;
        let ghost here = html@.skip(i as int);
        assert(here.drop_first() == html@.skip(i + 1));
        if chars[i] != '<' {
            out.push(chars[i]);
            assert(out@ + untagged(html@.skip(i + 1)) =~= before + untagged(here));
            i += 1;
        } else {
            let ghost after = html@.skip(i + 1);
            assert(after.skip(0) == after);
            let mut end: usize = i + 1;
            while end < n && chars[end] != '>'
                invariant
                    chars@ == html@,
                    n == html@.len(),
                    i + 1 <= end <= n,
                    after == html@.skip(i + 1),
                    text::position(after, '>') == end - (i + 1) + text::position(
                        after.skip(end - (i + 1)),
                        '>',
                    ),
                decreases n - end,
            {
                assert(after.skip(end - (i + 1)).drop_first() == after.skip(end + 1 - (i + 1)));
                end += 1;
            }
            let tag: &str = html.substring_char(i + 1, end);
            assert(tag@ =~= after.take(end - (i + 1)));
            let broken: bool = line_break(tag);
            if broken {
                out.push('\n');
            }
            if end < n {
                assert(after.skip(end - (i + 1) + 1) == html@.skip(end + 1));
                assert(out@ + untagged(html@.skip(end + 1)) =~= before + untagged(here));
                i = end + 1;
            } else {
                assert(after.take(end - (i + 1)) == after);
                assert(html@.skip(n as int) =~= Seq::empty());
                assert(out@ + untagged(html@.skip(n as int)) =~= before + untagged(here));
                i = n;
            }
        }
    }
    assert(html@.skip(n as int) =~= Seq::empty());
    assert(out@ + untagged(html@.skip(n as int)) =~= out@);
    out
}

fn entity(chars: &Vec<char>, i: usize) -> (r: Option<(char, usize)>)
    requires
        i <= chars@.len(),
    ensures
        match r {
            Some((c, n)) => entity_at(chars@.skip(i as int)) == Some((c, n as int)) && 0 < n && i
                + n <= chars@.len(),
            None => entity_at(chars@.skip(i as int)) is None,
        },
{
    proof {
        reveal_strlit("&nbsp;");
        reveal_strlit("&lt;");
        reveal_strlit("&gt;");
        reveal_strlit("&quot;");
        reveal_strlit("&#39;");
        reveal_strlit("&#x27;");
        reveal_strlit("&amp;");
        lemma_stands_there(chars@, "&nbsp;"@, i as int);
        lemma_stands_there(chars@, "&lt;"@, i as int);
        lemma_stands_there(chars@, "&gt;"@, i as int);
        lemma_stands_there(chars@, "&quot;"@, i as int);
        lemma_stands_there(chars@, "&#39;"@, i as int);
        lemma_stands_there(chars@, "&#x27;"@, i as int);
        lemma_stands_there(chars@, "&amp;"@, i as int);
    }
    if text::stands_at(chars, &text::chars_of("&nbsp;"), i) {
        Some((' ', 6))
    } else if text::stands_at(chars, &text::chars_of("&lt;"), i) {
        Some(('<', 4))
    } else if text::stands_at(chars, &text::chars_of("&gt;"), i) {
        Some(('>', 4))
    } else if text::stands_at(chars, &text::chars_of("&quot;"), i) {
        Some(('"', 6))
    } else if text::stands_at(chars, &text::chars_of("&#39;"), i) {
        Some(('\'', 5))
    } else if text::stands_at(chars, &text::chars_of("&#x27;"), i) {
        Some(('\'', 6))
    } else if text::stands_at(chars, &text::chars_of("&amp;"), i) {
        Some(('&', 5))
    } else {
        None
    }
}

proof fn lemma_stands_there(s: Text, needle: Text, i: int)
    requires
        0 <= i <= s.len(),
    ensures
        text::occurs_at(s, needle, i) == text::starts(s.skip(i), needle),
{
    if i + needle.len() <= s.len() {
        assert(s.skip(i).subrange(0, needle.len() as int) =~= s.subrange(i, i + needle.len()));
    }
}

/// Decodes the handful of entities Plane emits, each once.
pub fn decode_entities(s: &str) -> (r: String)
    ensures
        r@ == decoded(s@),
{
    let chars = text::chars_of(s);
    let mut out: String = String::new();
    let mut i: usize = 0;
    assert(s@.skip(0) == s@);
    assert(out@ + decoded(s@) =~= decoded(s@));
    while i < chars.len()
        invariant
            chars@ == s@,
            i <= chars@.len(),
            out@ + decoded(s@.skip(i as int)) == decoded(s@),
        decreases chars@.len() - i,
    {
        let ghost before = out@;
        let ghost here = s@.skip(i as int);
        match entity(&chars, i) {
            Some((c, n)) => {
                out.push(c);
                assert(here.skip(n as int) == s@.skip(i + n));
                assert(out@ + decoded(s@.skip(i + n)) =~= before + decoded(here));
                i += n;
            },
            None => {
                out.push(chars[i]);
                assert(here.drop_first() == s@.skip(i + 1));
                assert(out@ + decoded(s@.skip(i + 1)) =~= before + decoded(here));
                i += 1;
            },
        }
    }
    assert(s@.skip(s@.len() as int) =~= Seq::empty());
    assert(out@ + decoded(s@.skip(s@.len() as int)) =~= out@);
    out
}

/// Flatten HTML to readable plain text.
///
/// Deliberately minimal: it turns block tags into line breaks, drops the rest
/// of the markup, and decodes the handful of entities Plane emits. The raw
/// field is always one `--json` away when the exact markup matters.
pub fn to_text(html_in: &str) -> (r: String)
    ensures
        r@ == plain(html_in@),
{
    let stripped = strip_tags(html_in);
    let read = decode_entities(stripped.as_str());
    text::trim(read.as_str()).to_string()
}

// ---- laws ----

/// The entities, in the order in which they can be decoded one after the other.
pub open spec fn entity_name(i: int) -> Text {
    if i == 0 {
        "&nbsp;"@
    } else if i == 1 {
        "&lt;"@
    } else if i == 2 {
        "&gt;"@
    } else if i == 3 {
        "&quot;"@
    } else if i == 4 {
        "&#39;"@
    } else if i == 5 {
        "&#x27;"@
    } else {
        "&amp;"@
    }
}

/// What an entity stands for.
pub open spec fn entity_char(i: int) -> char {
    if i == 0 {
        ' '
    } else if i == 1 {
        '<'
    } else if i == 2 {
        '>'
    } else if i == 3 {
        '"'
    } else if i == 4 || i == 5 {
        '\''
    } else {
        '&'
    }
}

/// `s` with every occurrence of `from` replaced by `to`.
pub open spec fn replaced(s: Text, from: Text, to: char) -> Text
    decreases s.len(),
{
    if s.len() == 0 {
        Seq::empty()
    } else if from.len() > 0 && text::starts(s, from) {
        seq![to] + replaced(s.skip(from.len() as int), from, to)
    } else {
        seq![s[0]] + replaced(s.drop_first(), from, to)
    }
}

/// `s` with the first `k` entities decoded one after the other, each in a pass
/// of its own.
pub open spec fn decoded_in_turn(s: Text, k: nat) -> Text
    decreases k,
{
    if k == 0 {
        s
    } else {
        replaced(
            decoded_in_turn(s, (k - 1) as nat),
            entity_name(k - 1),
            entity_char(k - 1),
        )
    }
}

/// Which of the first `k` entities a text begins with.
spec fn entity_among(s: Text, k: nat) -> Option<int>
    decreases k,
{
    if k == 0 {
        None
    } else {
        match entity_among(s, (k - 1) as nat) {
            Some(i) => Some(i),
            None => if text::starts(s, entity_name(k - 1)) {
                Some(k - 1)
            } else {
                None
            },
        }
    }
}

/// `s` with the first `k` entities decoded in one pass.
spec fn decoded_with(s: Text, k: nat) -> Text
    decreases s.len(),
{
    if s.len() == 0 {
        Seq::empty()
    } else {
        match entity_among(s, k) {
            Some(i) => if 0 < entity_name(i).len() <= s.len() {
                seq![entity_char(i)] + decoded_with(s.skip(entity_name(i).len() as int), k)
            } else {
                Seq::empty()
            },
            None => seq![s[0]] + decoded_with(s.drop_first(), k),
        }
    }
}

/// A character that no entity begins with or decodes into.
spec fn is_inner(c: char) -> bool {
    c != '&' && c != ' ' && c != '<' && c != '>' && c != '"' && c != '\''
}

proof fn lemma_entity_name(i: int)
    requires
        0 <= i < 7,
    ensures
        4 <= entity_name(i).len() <= 6,
        entity_name(i)[0] == '&',
        forall|j: int| 0 < j < entity_name(i).len() ==> is_inner(#[trigger] entity_name(i)[j]),
{
    reveal_strlit("&nbsp;");
    reveal_strlit("&lt;");
    reveal_strlit("&gt;");
    reveal_strlit("&quot;");
    reveal_strlit("&#39;");
    reveal_strlit("&#x27;");
    reveal_strlit("&amp;");
}

proof fn lemma_entity_among(s: Text, k: nat)
    requires
        k <= 7,
    ensures
        match entity_among(s, k) {
            Some(i) => 0 <= i < k && text::starts(s, entity_name(i)) && s.len() >= 4 && s[0]
                == '&',
            None => true,
        },
        s.len() > 0 && s[0] != '&' ==> entity_among(s, k) is None,
    decreases k,
{
    if k > 0 {
        lemma_entity_among(s, (k - 1) as nat);
        lemma_entity_name(k - 1);
        if text::starts(s, entity_name(k - 1)) {
            let n = entity_name(k - 1).len() as int;
            assert(s.subrange(0, n)[0] == s[0]);
        }
    }
}

/// Inner characters are copied.
proof fn lemma_inner_is_copied(w: Text, rest: Text, k: nat)
    requires
        k <= 7,
        forall|j: int| 0 <= j < w.len() ==> is_inner(#[trigger] w[j]),
    ensures
        decoded_with(w + rest, k) == w + decoded_with(rest, k),
    decreases w.len(),
{
    if w.len() == 0 {
        assert(w + rest =~= rest);
        assert(w + decoded_with(rest, k) =~= decoded_with(rest, k));
    } else {
        let s = w + rest;
        lemma_entity_among(s, k);
        assert(s[0] == w[0]);
        assert(s.drop_first() =~= w.drop_first() + rest);
        assert forall|j: int| 0 <= j < w.drop_first().len() implies is_inner(
            #[trigger] w.drop_first()[j],
        ) by {
            assert(w.drop_first()[j] == w[j + 1]);
        }
        lemma_inner_is_copied(w.drop_first(), rest, k);
        assert(decoded_with(s, k) =~= w + decoded_with(rest, k));
    }
}

/// Inner characters at the front of what was decoded were there before.
proof fn lemma_inner_was_there(s: Text, w: Text, k: nat)
    requires
        k <= 6,
        forall|j: int| 0 <= j < w.len() ==> is_inner(#[trigger] w[j]),
        text::starts(decoded_with(s, k), w),
    ensures
        text::starts(s, w),
    decreases w.len(),
{
    let d = decoded_with(s, k);
    if w.len() == 0 {
        assert(s.subrange(0, 0) =~= w);
    } else {
        lemma_entity_among(s, k);
        assert(d.subrange(0, w.len() as int)[0] == w[0]);
        assert(s.len() > 0);
        assert(is_inner(w[0]));
        assert(d[0] == w[0]);
        match entity_among(s, k) {
            Some(i) => {
                lemma_entity_name(i);
                assert(d[0] == entity_char(i));
                assert(false);
            },
            None => {
                let tail = s.drop_first();
                let rest = w.drop_first();
                assert(d =~= seq![s[0]] + decoded_with(tail, k));
                assert(d.drop_first() =~= decoded_with(tail, k));
                assert(decoded_with(tail, k).subrange(0, rest.len() as int) =~= rest) by {
                    assert forall|j: int| 0 <= j < rest.len() implies decoded_with(
                        tail,
                        k,
                    ).subrange(0, rest.len() as int)[j] == rest[j] by {
                        assert(d.subrange(0, w.len() as int)[j + 1] == w[j + 1]);
                    }
                }
                assert forall|j: int| 0 <= j < rest.len() implies is_inner(
                    #[trigger] rest[j],
                ) by {
                    assert(rest[j] == w[j + 1]);
                }
                lemma_inner_was_there(tail, rest, k);
                assert(s.subrange(0, w.len() as int) =~= w) by {
                    assert forall|j: int| 0 <= j < w.len() implies s.subrange(
                        0,
                        w.len() as int,
                    )[j] == w[j] by {
                        if j > 0 {
                            assert(tail.subrange(0, rest.len() as int)[j - 1] == rest[j - 1]);
                        }
                    }
                }
            },
        }
    }
}

/// Decoding one more entity after a pass is decoding it in the same pass.
proof fn lemma_one_more(s: Text, k: nat)
    requires
        k < 7,
    ensures
        replaced(decoded_with(s, k), entity_name(k as int), entity_char(k as int))
            == decoded_with(s, k + 1),
    decreases s.len(),
{
    let name = entity_name(k as int);
    let to = entity_char(k as int);
    lemma_entity_name(k as int);
    lemma_entity_among(s, k);
    lemma_entity_among(s, k + 1);
    if s.len() > 0 {
        let d = decoded_with(s, k);
        match entity_among(s, k) {
            Some(i) => {
                lemma_entity_name(i);
                let rest = s.skip(entity_name(i).len() as int);
                lemma_one_more(rest, k);
                assert(d[0] == entity_char(i));
                assert(d[0] != '&');
                if text::starts(d, name) {
                    assert(d.subrange(0, name.len() as int)[0] == '&');
                }
                assert(d.drop_first() =~= decoded_with(rest, k));
            },
            None => {
                if text::starts(s, name) {
                    let n = name.len() as int;
                    let rest = s.skip(n);
                    let inner = name.drop_first();
                    assert(s.subrange(0, n) == name);
                    assert(s.drop_first() =~= inner + rest) by {
                        assert forall|j: int| 0 <= j < n - 1 implies s.drop_first()[j] == inner[j] by {
                            assert(s.subrange(0, n)[j + 1] == name[j + 1]);
                        }
                    }
                    assert forall|j: int| 0 <= j < inner.len() implies is_inner(
                        #[trigger] inner[j],
                    ) by {
                        assert(inner[j] == name[j + 1]);
                    }
                    lemma_inner_is_copied(inner, rest, k);
                    assert(d =~= name + decoded_with(rest, k)) by {
                        assert(s[0] == s.subrange(0, n)[0]);
                        assert(name =~= seq!['&'] + inner);
                    }
                    assert(d.subrange(0, n) =~= name);
                    assert(d.skip(n) =~= decoded_with(rest, k));
                    lemma_one_more(rest, k);
                    assert(entity_among(s, k + 1) == Some(k as int));
                } else {
                    let tail = s.drop_first();
                    lemma_one_more(tail, k);
                    assert(entity_among(s, k + 1) is None);
                    assert(d.drop_first() =~= decoded_with(tail, k));
                    if text::starts(d, name) {
                        let n = name.len() as int;
                        let inner = name.drop_first();
                        assert(d.subrange(0, n)[0] == '&');
                        assert(decoded_with(tail, k).subrange(0, n - 1) =~= inner) by {
                            assert forall|j: int| 0 <= j < n - 1 implies decoded_with(
                                tail,
                                k,
                            ).subrange(0, n - 1)[j] == inner[j] by {
                                assert(d.subrange(0, n)[j + 1] == name[j + 1]);
                            }
                        }
                        assert forall|j: int| 0 <= j < inner.len() implies is_inner(
                            #[trigger] inner[j],
                        ) by {
                            assert(inner[j] == name[j + 1]);
                        }
                        lemma_inner_was_there(tail, inner, k);
                        assert(s.subrange(0, n) =~= name) by {
                            assert forall|j: int| 0 <= j < n implies s.subrange(0, n)[j]
                                == name[j] by {
                                if j > 0 {
                                    assert(tail.subrange(0, n - 1)[j - 1] == inner[j - 1]);
                                }
                            }
                        }
                        assert(false);
                    }
                }
            },
        }
    }
}

proof fn lemma_in_turn(s: Text, k: nat)
    requires
        k <= 7,
    ensures
        decoded_in_turn(s, k) == decoded_with(s, k),
    decreases k,
{
    if k == 0 {
        lemma_nothing_decoded(s);
    } else {
        lemma_in_turn(s, (k - 1) as nat);
        lemma_one_more(s, (k - 1) as nat);
    }
}

proof fn lemma_nothing_decoded(s: Text)
    ensures
        decoded_with(s, 0) == s,
    decreases s.len(),
{
    if s.len() > 0 {
        lemma_nothing_decoded(s.drop_first());
        assert(decoded_with(s, 0) =~= s);
    } else {
        assert(decoded_with(s, 0) =~= s);
    }
}

proof fn lemma_all_decoded(s: Text)
    ensures
        decoded_with(s, 7) == decoded(s),
    decreases s.len(),
{
    if s.len() > 0 {
        reveal_with_fuel(entity_among, 8);
        reveal_strlit("&nbsp;");
        reveal_strlit("&lt;");
        reveal_strlit("&gt;");
        reveal_strlit("&quot;");
        reveal_strlit("&#39;");
        reveal_strlit("&#x27;");
        reveal_strlit("&amp;");
        match entity_at(s) {
            Some((c, n)) => {
                lemma_all_decoded(s.skip(n));
            },
            None => {
                lemma_all_decoded(s.drop_first());
            },
        }
    }
}

/// Decoding the entities one after the other, each over the whole text and
/// `&amp;` last, is decoding every entity once: nothing decodes twice.
pub proof fn decoding_in_turn_is_decoding_once(s: Text)
    ensures
        decoded_in_turn(s, 7) == decoded(s),
{
    lemma_in_turn(s, 7);
    lemma_all_decoded(s);
}

/// Text without tags and entities is shown as it is, without white space around
/// it.
pub proof fn plain_text_stays(s: Text)
    requires
        !s.contains('<'),
        !s.contains('&'),
    ensures
        plain(s) == text::trimmed(s),
{
    lemma_no_tags(s, Seq::empty());
    assert(s + Seq::<char>::empty() =~= s);
    assert(untagged(s) =~= s);
    lemma_no_entities(s);
}

proof fn lemma_no_tags(a: Text, b: Text)
    requires
        !a.contains('<'),
    ensures
        untagged(a + b) == a + untagged(b),
    decreases a.len(),
{
    if a.len() == 0 {
        assert(a + b =~= b);
        assert(a + untagged(b) =~= untagged(b));
    } else {
        assert(a.contains(a[0]));
        let rest = a.drop_first();
        assert forall|i: int| 0 <= i < rest.len() implies rest[i] != '<' by {
            assert(a.contains(a[i + 1]));
        }
        lemma_no_tags(rest, b);
        assert((a + b).drop_first() =~= rest + b);
        assert(seq![a[0]] + (rest + untagged(b)) =~= a + untagged(b));
    }
}

proof fn lemma_no_entities(s: Text)
    requires
        !s.contains('&'),
    ensures
        decoded(s) == s,
    decreases s.len(),
{
    if s.len() > 0 {
        assert(s.contains(s[0]));
        let rest = s.drop_first();
        assert forall|i: int| 0 <= i < rest.len() implies rest[i] != '&' by {
            assert(s.contains(s[i + 1]));
        }
        lemma_no_entities(rest);
        reveal_strlit("&nbsp;");
        reveal_strlit("&lt;");
        reveal_strlit("&gt;");
        reveal_strlit("&quot;");
        reveal_strlit("&#39;");
        reveal_strlit("&#x27;");
        reveal_strlit("&amp;");
        assert(s.len() >= 6 ==> s.subrange(0, 6)[0] == s[0]);
        assert(s.len() >= 5 ==> s.subrange(0, 5)[0] == s[0]);
        assert(s.len() >= 4 ==> s.subrange(0, 4)[0] == s[0]);
        assert(entity_at(s) is None);
        assert(seq![s[0]] + rest =~= s);
    }
}

/// A tag is dropped with its brackets, or becomes a line break where it breaks the
/// line; what stands before and after it is there as it would be without it. A tag
/// that does not end takes the rest with it.
pub proof fn a_tag_is_dropped_or_breaks_the_line(before: Text, tag: Text, after: Text)
    requires
        !before.contains('<'),
        !tag.contains('>'),
    ensures
        untagged(before + ("<"@ + tag + ">"@ + after)) == before + (if breaks_line(tag) {
            "\n"@
        } else {
            ""@
        }) + untagged(after),
        untagged(before + ("<"@ + tag)) == before + (if breaks_line(tag) {
            "\n"@
        } else {
            ""@
        }),
{
    reveal_strlit("<");
    reveal_strlit(">");
    reveal_strlit("\n");
    reveal_strlit("");
    let n = tag.len() as int;
    let closed = "<"@ + tag + ">"@ + after;
    let open = "<"@ + tag;
    lemma_no_tags(before, closed);
    lemma_no_tags(before, open);
    let rest = closed.drop_first();
    assert(rest =~= tag + ">"@ + after);
    text::lemma_position(rest, '>');
    assert(rest[n] == '>');
    let p = text::position(rest, '>') as int;
    if p < n {
        assert(rest[p] == tag[p]);
        assert(tag.contains(tag[p]));
    }
    assert(p == n);
    assert(rest.take(n) =~= tag);
    assert(rest.skip(n + 1) =~= after);
    assert(open.drop_first() =~= tag);
    text::lemma_position(tag, '>');
    if text::position(tag, '>') < n {
        assert(tag.contains(tag[text::position(tag, '>') as int]));
    }
    let mark = if breaks_line(tag) {
        "\n"@
    } else {
        ""@
    };
    assert(untagged(closed) =~= mark + untagged(after));
    assert(untagged(open) =~= mark);
    assert(before + (mark + untagged(after)) =~= before + mark + untagged(after));
}

/// A line ends where a block ends and at a `br`, in either case of letters; no
/// other tag breaks it, and none where it begins.
pub proof fn a_line_ends_where_a_block_ends(name: Text, rest: Text)
    requires
        name.len() > 0,
        forall|i: int| 0 <= i < name.len() ==> text::is_alphanumeric(#[trigger] name[i]),
        rest.len() > 0 ==> !text::is_alphanumeric(rest[0]),
    ensures
        breaks_line(name + rest) <==> text::ascii_lowered(name) == "br"@,
        breaks_line("/"@ + name + rest) <==> text::ascii_lowered(name) == "br"@ || is_block(
            text::ascii_lowered(name),
        ),
{
    reveal_strlit("/");
    lemma_leading(name, rest);
    let begins = name + rest;
    let ends = "/"@ + name + rest;
    assert(begins[0] == name[0]);
    assert(text::is_alphanumeric(name[0]));
    assert(text::drop_front(begins, text::Class::Slash) == begins);
    assert(ends[0] == '/');
    assert(ends.drop_first() =~= begins);
    assert(text::drop_front(ends, text::Class::Slash) == begins);
}

proof fn lemma_leading(name: Text, rest: Text)
    requires
        forall|i: int| 0 <= i < name.len() ==> text::is_alphanumeric(#[trigger] name[i]),
        rest.len() > 0 ==> !text::is_alphanumeric(rest[0]),
    ensures
        leading_word(name + rest) == name,
    decreases name.len(),
{
    if name.len() == 0 {
        assert(name + rest =~= rest);
        assert(leading_word(rest) =~= name);
    } else {
        let shorter = name.drop_first();
        assert forall|i: int| 0 <= i < shorter.len() implies text::is_alphanumeric(
            #[trigger] shorter[i],
        ) by {
            assert(shorter[i] == name[i + 1]);
        }
        lemma_leading(shorter, rest);
        assert((name + rest).drop_first() =~= shorter + rest);
        assert(seq![name[0]] + shorter =~= name);
    }
}

/// What is rendered of a document is rendered from its pieces, none of them raw
/// HTML: each that was raw is text with the same characters, and every other one is
/// as it was.
pub proof fn what_is_rendered_holds_no_raw_html(md: Text)
    ensures
        exists|pieces: Seq<PieceView>|
            {
                let parsed = md_events(md, 0b11010);
                &&& html_of(md) == #[trigger] md_html(md, 0b11010, pieces)
                &&& pieces.len() == parsed.len()
                &&& forall|i: int|
                    0 <= i < pieces.len() ==> #[trigger] pieces[i] == (match parsed[i] {
                        PieceView::Raw(s) => PieceView::Text(s),
                        other => other,
                    })
            },
{
    let pieces = neutral(md_events(md, EXTENSIONS));
    assert(html_of(md) == md_html(md, 0b11010, pieces));
}

} // verus!
