use mdbook_markdown::{
    add_footnote_defs, collate, new_cmark_parser, render_markdown, render_markdown_with_path,
    render_markdown_with_warnings, render_tokens, Definition, Footnotes, LinkContext, Token,
    TokenKind, Usage, Warning,
};
use pulldown_cmark::{CowStr, Event, Tag, TagEnd};

fn rendered(text: &str) -> (String, Vec<Warning>) {
    render_markdown_with_warnings(text, false, None, &Vec::new())
}

#[test]
fn a_reference_and_its_definition() {
    let (html, warnings) = rendered("Text[^note].\n\n[^note]: The note.\n");
    assert_eq!(
        html,
        "<p>Text<sup class=\"footnote-reference\" id=\"fr-note-1\">\
         <a href=\"#footnote-note\">1</a></sup>.</p>\n\
         <hr>\n<ol class=\"footnote-definition\">\
         <li id=\"footnote-note\">\n<p>The note. <a href=\"#fr-note-1\">↩</a></p>\n</li>\n\
         </ol>"
    );
    assert!(warnings.is_empty());
    assert_eq!(html.matches("<sup class=\"footnote-reference\"").count(), 1);
    assert_eq!(html.matches("<li id=\"footnote-").count(), 1);
    assert_eq!(html.matches("id=\"fr-note-1\"").count(), 1);
    assert_eq!(html.matches("href=\"#fr-note-1\"").count(), 1);
}

#[test]
fn a_definition_that_nothing_refers_to() {
    let (html, warnings) = rendered("Text.\n\n[^note]: The note.\n");
    assert_eq!(html, "<p>Text.</p>\n<hr>\n<ol class=\"footnote-definition\"></ol>");
    assert_eq!(html.matches("<li").count(), 0);
    assert_eq!(warnings, vec![Warning::UnreferencedDefinition("note".to_string())]);
}

#[test]
fn a_page_without_footnotes_gets_no_list() {
    let (html, warnings) = rendered("Text.\n");
    assert_eq!(html, "<p>Text.</p>\n");
    assert!(warnings.is_empty());
}

#[test]
fn references_are_numbered_in_the_order_of_their_first_use() {
    let (html, warnings) =
        rendered("A[^b] B[^a] C[^b].\n\n[^a]: First defined.\n\n[^b]: Second defined.\n");
    assert_eq!(
        html,
        "<p>A<sup class=\"footnote-reference\" id=\"fr-b-1\"><a href=\"#footnote-b\">1</a></sup> \
         B<sup class=\"footnote-reference\" id=\"fr-a-1\"><a href=\"#footnote-a\">2</a></sup> \
         C<sup class=\"footnote-reference\" id=\"fr-b-2\"><a href=\"#footnote-b\">1</a></sup>.</p>\n\
         <hr>\n<ol class=\"footnote-definition\">\
         <li id=\"footnote-b\">\n<p>Second defined. <a href=\"#fr-b-1\">↩</a> \
         <a href=\"#fr-b-2\">↩2</a></p>\n</li>\n\
         <li id=\"footnote-a\">\n<p>First defined. <a href=\"#fr-a-1\">↩</a></p>\n</li>\n\
         </ol>"
    );
    assert!(warnings.is_empty());
}

#[test]
fn the_first_of_two_definitions_stays() {
    let (html, warnings) = rendered("A[^a].\n\n[^a]: One.\n\n[^a]: Two.\n");
    assert!(html.contains("<p>One. <a href=\"#fr-a-1\">↩</a></p>"));
    assert!(!html.contains("Two."));
    assert_eq!(warnings, vec![Warning::DuplicateDefinition("a".to_string())]);
}

#[test]
fn a_definition_may_refer_to_another_footnote() {
    let (html, warnings) = rendered("A[^a].\n\n[^a]: See[^b].\n\n[^b]: End.\n");
    assert_eq!(
        html,
        "<p>A<sup class=\"footnote-reference\" id=\"fr-a-1\"><a href=\"#footnote-a\">1</a></sup>.</p>\n\
         <hr>\n<ol class=\"footnote-definition\">\
         <li id=\"footnote-a\">\n<p>See<sup class=\"footnote-reference\" id=\"fr-b-1\">\
         <a href=\"#footnote-b\">2</a></sup>. <a href=\"#fr-a-1\">↩</a></p>\n</li>\n\
         <li id=\"footnote-b\">\n<p>End. <a href=\"#fr-b-1\">↩</a></p>\n</li>\n\
         </ol>"
    );
    assert!(warnings.is_empty());
}

#[test]
fn links_back_follow_a_body_that_ends_with_no_paragraph() {
    let (html, _) = rendered("A[^a].\n\n[^a]:\n    ```\n    code\n    ```\n");
    assert!(
        html.ends_with(
            "<li id=\"footnote-a\">\n<pre><code>code\n</code></pre>\n \
             <a href=\"#fr-a-1\">↩</a></li>\n</ol>"
        ),
        "{}",
        html
    );
}

#[test]
fn names_are_escaped() {
    let (html, _) = rendered("A[^a&b].\n\n[^a&b]: Note.\n");
    assert!(html.contains("id=\"fr-a&amp;b-1\""), "{}", html);
    assert!(html.contains("href=\"#footnote-a&amp;b\""), "{}", html);
    assert!(html.contains("<li id=\"footnote-a&amp;b\">"), "{}", html);
}

#[test]
fn links_back_carry_the_page_on_the_print_page() {
    let html =
        render_markdown_with_path("A[^a].\n\n[^a]: Note.\n", false, Some("chapter/sub.md"));
    assert_eq!(
        html,
        "<p>A<sup class=\"footnote-reference\" id=\"fr-a-1\"><a href=\"#footnote-a\">1</a></sup>.</p>\n\
         <hr>\n<ol class=\"footnote-definition\">\
         <li id=\"footnote-a\">\n<p>Note. <a href=\"#chapter-sub-fr-a-1\">↩</a></p>\n</li>\n\
         </ol>"
    );
}

#[test]
fn a_name_without_a_definition_is_no_reference_to_the_parser() {
    let html = render_markdown("A[^a] B[^missing].\n\n[^a]: Note.\n", false);
    assert!(html.contains("B[^missing]."), "{}", html);
    assert_eq!(html.matches("<sup class=\"footnote-reference\"").count(), 1);
    assert_eq!(html.matches("<li id=").count(), 1);
}

#[test]
fn a_reference_without_a_definition_is_numbered_and_nothing_is_listed() {
    let tokens = vec![
        other(Event::Start(Tag::Paragraph)),
        marked(
            TokenKind::FootnoteReference,
            "gone",
            Event::FootnoteReference(CowStr::Borrowed("gone")),
        ),
        marked(TokenKind::ParagraphEnd, "", Event::End(TagEnd::Paragraph)),
    ];
    let (html, warnings) = render_tokens(tokens, None, &Vec::new());
    assert_eq!(
        html,
        "<p><sup class=\"footnote-reference\" id=\"fr-gone-1\">\
         <a href=\"#footnote-gone\">1</a></sup></p>\n"
    );
    assert!(warnings.is_empty());
}

fn other<'a>(raw: Event<'a>) -> Token<'a> {
    Token { kind: TokenKind::Other, text: String::new(), raw: Some(raw) }
}

fn marked<'a>(kind: TokenKind, text: &str, raw: Event<'a>) -> Token<'a> {
    Token { kind, text: text.to_string(), raw: Some(raw) }
}

#[test]
fn a_definition_inside_a_definition_is_warned_of() {
    let tokens = vec![
        marked(
            TokenKind::FootnoteDefinition,
            "a",
            Event::Start(Tag::FootnoteDefinition(CowStr::Borrowed("a"))),
        ),
        other(Event::Text(CowStr::Borrowed("x"))),
        marked(
            TokenKind::FootnoteDefinition,
            "b",
            Event::Start(Tag::FootnoteDefinition(CowStr::Borrowed("b"))),
        ),
        other(Event::Text(CowStr::Borrowed("y"))),
        marked(TokenKind::FootnoteDefinitionEnd, "", Event::End(TagEnd::FootnoteDefinition)),
        other(Event::Text(CowStr::Borrowed("z"))),
    ];
    let (html, warnings) = render_tokens(tokens, None, &Vec::new());
    assert_eq!(html, "z<hr>\n<ol class=\"footnote-definition\"></ol>");
    assert_eq!(
        warnings,
        vec![Warning::NestedDefinition, Warning::UnreferencedDefinition("b".to_string())]
    );
}

#[test]
fn the_list_of_definitions_follows_the_records() {
    let paragraph = |text: &'static str| {
        vec![
            other(Event::Start(Tag::Paragraph)),
            other(Event::Text(CowStr::Borrowed(text))),
            marked(TokenKind::ParagraphEnd, "", Event::End(TagEnd::Paragraph)),
        ]
    };
    let definitions = vec![
        Definition { name: "late".to_string(), body: paragraph("Late.") },
        Definition { name: "unused".to_string(), body: paragraph("Unused.") },
        Definition { name: "early".to_string(), body: paragraph("Early.") },
        Definition { name: "late".to_string(), body: paragraph("Again.") },
        Definition { name: "bare".to_string(), body: vec![other(Event::Rule)] },
        Definition { name: "empty".to_string(), body: Vec::new() },
    ];
    let usages = vec![
        Usage { name: "early".to_string(), count: 1 },
        Usage { name: "missing".to_string(), count: 3 },
        Usage { name: "late".to_string(), count: 2 },
        Usage { name: "bare".to_string(), count: 1 },
        Usage { name: "empty".to_string(), count: 1 },
    ];
    let mut body = String::from("page");
    let warnings = add_footnote_defs(&mut body, Some("a/b.md"), definitions, &usages);
    assert_eq!(
        body,
        "page<hr>\n<ol class=\"footnote-definition\">\
         <li id=\"footnote-early\">\n<p>Early. <a href=\"#a-b-fr-early-1\">↩</a></p>\n</li>\n\
         <li id=\"footnote-late\">\n<p>Late. <a href=\"#a-b-fr-late-1\">↩</a> \
         <a href=\"#a-b-fr-late-2\">↩2</a></p>\n</li>\n\
         <li id=\"footnote-bare\">\n<hr />\n <a href=\"#a-b-fr-bare-1\">↩</a></li>\n\
         <li id=\"footnote-empty\"> <a href=\"#a-b-fr-empty-1\">↩</a></li>\n\
         </ol>"
    );
    assert_eq!(warnings, vec![Warning::UnreferencedDefinition("unused".to_string())]);
}

#[test]
fn footnotes_are_collated_as_the_tokens_are_read() {
    let text =
        "A[^b] B[^a] C[^b].\n\n[^a]: First.\n\n[^c]: Third.\n\n[^a]: Again.\n\n[^b]: Second.\n";
    let ctx = LinkContext::new(None, &Vec::new());
    let notes = collate(new_cmark_parser(text, false), &ctx);
    assert_eq!(
        notes.usages,
        vec![
            Usage { name: "b".to_string(), count: 2 },
            Usage { name: "a".to_string(), count: 1 },
        ]
    );
    let names: Vec<&str> = notes.definitions.iter().map(|d| d.name.as_str()).collect();
    assert_eq!(names, vec!["a", "c", "b"]);
    assert_eq!(notes.definitions[0].body.len(), 3);
    assert_eq!(notes.definitions[0].body[2].kind, TokenKind::ParagraphEnd);
    assert_eq!(notes.warnings, vec![Warning::DuplicateDefinition("a".to_string())]);
    assert_eq!(notes.name, "");
    assert!(notes.body.is_empty());
    let references: Vec<&str> = notes
        .main
        .iter()
        .filter(|t| t.raw.is_none())
        .map(|t| t.text.as_str())
        .collect();
    assert_eq!(
        references,
        vec![
            "<sup class=\"footnote-reference\" id=\"fr-b-1\"><a href=\"#footnote-b\">1</a></sup>",
            "<sup class=\"footnote-reference\" id=\"fr-a-1\"><a href=\"#footnote-a\">2</a></sup>",
            "<sup class=\"footnote-reference\" id=\"fr-b-2\"><a href=\"#footnote-b\">1</a></sup>",
        ]
    );
}

#[test]
fn tokens_are_read_one_by_one() {
    let mut notes = Footnotes::new();
    notes.feed(marked(
        TokenKind::FootnoteReference,
        "x<y",
        Event::FootnoteReference(CowStr::Borrowed("x<y")),
    ));
    notes.feed(other(Event::Rule));
    notes.feed(marked(
        TokenKind::FootnoteDefinition,
        "x<y",
        Event::Start(Tag::FootnoteDefinition(CowStr::Borrowed("x<y"))),
    ));
    assert_eq!(notes.name, "x&lt;y");
    notes.feed(other(Event::Rule));
    notes.feed(marked(
        TokenKind::FootnoteReference,
        "z",
        Event::FootnoteReference(CowStr::Borrowed("z")),
    ));
    assert_eq!(notes.main.len(), 2);
    assert_eq!(notes.body.len(), 2);
    assert_eq!(
        notes.body[1].text,
        "<sup class=\"footnote-reference\" id=\"fr-z-1\"><a href=\"#footnote-z\">2</a></sup>"
    );
    notes.feed(marked(TokenKind::FootnoteDefinitionEnd, "", Event::End(TagEnd::FootnoteDefinition)));
    assert_eq!(notes.name, "");
    assert!(notes.body.is_empty());
    assert_eq!(notes.definitions.len(), 1);
    assert_eq!(notes.definitions[0].name, "x&lt;y");
    assert_eq!(notes.definitions[0].body.len(), 2);
    assert_eq!(
        notes.usages,
        vec![
            Usage { name: "x&lt;y".to_string(), count: 1 },
            Usage { name: "z".to_string(), count: 1 },
        ]
    );
    assert!(notes.warnings.is_empty());
}
