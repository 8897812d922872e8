use plane::markdown::{decode_entities, neutralise, strip_tags, to_html, to_text, Piece};

#[test]
fn markdown_becomes_html() {
    let html = to_html("**bold** and `code`");
    assert!(html.contains("<strong>bold</strong>"));
    assert!(html.contains("<code>code</code>"));
}

#[test]
fn raw_html_is_escaped_rather_than_passed_through() {
    // A block-level script tag: the characters stay, the tag does not.
    let html = to_html("<script>alert(1)</script>");
    assert!(!html.contains("<script>"), "{html}");
    assert!(
        html.contains("&lt;script&gt;alert(1)&lt;/script&gt;"),
        "{html}"
    );
    // Inline HTML in the middle of a paragraph, same treatment, and the
    // surrounding markdown still renders.
    let inline = to_html("a <img src=x onerror=alert(1)> **b**");
    assert!(!inline.contains("<img"), "{inline}");
    assert!(inline.contains("&lt;img"), "{inline}");
    assert!(inline.contains("<strong>b</strong>"), "{inline}");
}

#[test]
fn html_becomes_readable_text() {
    let html = "<p class=\"editor-paragraph-block\"><strong>Waiting for:</strong> Jonas</p><p>Second line</p>";
    assert_eq!(to_text(html), "Waiting for: Jonas\nSecond line");
}

#[test]
fn line_breaks_survive() {
    assert_eq!(to_text("<p>a<br>b</p>"), "a\nb");
}

#[test]
fn entities_are_decoded_once() {
    assert_eq!(
        to_text("<p>Bau&amp;Co &lt;tag&gt; &quot;q&quot;</p>"),
        "Bau&Co <tag> \"q\""
    );
    // A literal, escaped entity must not decode into a real angle bracket.
    assert_eq!(to_text("<p>&amp;lt;</p>"), "&lt;");
}

#[test]
fn umlauts_and_non_ascii_survive_the_round_trip() {
    let html = to_html("Prüfungsverwaltung, Grünflächen, München");
    assert_eq!(to_text(&html), "Prüfungsverwaltung, Grünflächen, München");
}

#[test]
fn tables_strikethrough_and_task_lists_are_on() {
    assert_eq!(to_html("~~a~~"), "<p><del>a</del></p>\n");
    assert!(to_html("- [x] a").contains("type=\"checkbox\""));
    assert!(to_html("|a|\n|-|\n|b|").contains("<td>b</td>"));
    // Footnotes are not.
    assert!(!to_html("a[^1]\n\n[^1]: b").contains("footnote"));
    assert_eq!(to_html("a < b & c"), "<p>a &lt; b &amp; c</p>\n");
}

#[test]
fn raw_pieces_become_text_and_nothing_else_changes() {
    let pieces = vec![
        Piece::Raw("<b>".to_string()),
        Piece::Text("x".to_string()),
        Piece::Other,
    ];
    assert_eq!(
        neutralise(pieces),
        vec![Piece::Text("<b>".to_string()), Piece::Text("x".to_string()), Piece::Other]
    );
}

#[test]
fn tags_break_lines_where_blocks_end() {
    assert_eq!(strip_tags("<h1>a</h1>b<DIV>c</DIV>"), "a\nbc\n");
    assert_eq!(strip_tags("<ul><li>a</li><li>b</li></ul>"), "a\nb\n\n");
    assert_eq!(strip_tags("a<br/>b<BR >c"), "a\nb\nc");
    assert_eq!(strip_tags("a<em>b</em>c<p>d"), "abcd");
    // A tag that is not closed runs to the end.
    assert_eq!(strip_tags("a<p b"), "a");
    assert_eq!(strip_tags("a</p"), "a\n");
    assert_eq!(strip_tags("a//<//p>b"), "a//\nb");
}

#[test]
fn every_entity_that_plane_emits_is_decoded() {
    assert_eq!(decode_entities("&nbsp;&lt;&gt;&quot;&#39;&#x27;&amp;"), " <>\"''&");
    assert_eq!(decode_entities("&amp;amp;"), "&amp;");
    assert_eq!(decode_entities("&am&lt;p;"), "&am<p;");
    assert_eq!(decode_entities("&euro; & &lt"), "&euro; & &lt");
}
