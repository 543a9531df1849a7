use mdbook_markdown::{
    adjust_links, clean_codeblock_headers, collapse_whitespace, new_cmark_parser, render_markdown,
    render_tokens, wrap_tables, Extensions, LinkContext, Token, TokenKind,
};
use pulldown_cmark::{CodeBlockKind, CowStr, Event, LinkType, Options, Parser, Tag, TagEnd};

fn token<'a>(kind: TokenKind, text: &str, raw: Event<'a>) -> Token<'a> {
    Token { kind, text: text.to_string(), raw: Some(raw) }
}

fn link(link_type: LinkType, dest: &'static str) -> Event<'static> {
    Event::Start(Tag::Link {
        link_type,
        dest_url: CowStr::Borrowed(dest),
        title: CowStr::Borrowed(""),
        id: CowStr::Borrowed(""),
    })
}

fn kinds_and_texts(text: &str) -> Vec<(TokenKind, String)> {
    new_cmark_parser(text, false).into_iter().map(|t| (t.kind, t.text)).collect()
}

fn plain(kind: TokenKind) -> (TokenKind, String) {
    (kind, String::new())
}

fn with(kind: TokenKind, text: &str) -> (TokenKind, String) {
    (kind, text.to_string())
}

#[test]
fn tokens_say_what_the_parser_made() {
    assert_eq!(
        kinds_and_texts("[a](b.md) <c@d.e> ![i](j.png) <b>x</b>\n"),
        vec![
            plain(TokenKind::Other),
            with(TokenKind::Link, "b.md"),
            plain(TokenKind::Other),
            plain(TokenKind::Other),
            plain(TokenKind::Other),
            with(TokenKind::EmailLink, "c@d.e"),
            plain(TokenKind::Other),
            plain(TokenKind::Other),
            plain(TokenKind::Other),
            with(TokenKind::Image, "j.png"),
            plain(TokenKind::Other),
            plain(TokenKind::Other),
            plain(TokenKind::Other),
            with(TokenKind::InlineHtml, "<b>"),
            plain(TokenKind::Other),
            with(TokenKind::InlineHtml, "</b>"),
            plain(TokenKind::ParagraphEnd),
        ]
    );
    assert_eq!(
        kinds_and_texts("```rust ignore\nx\n```\n\n    y\n"),
        vec![
            with(TokenKind::CodeFence, "rust ignore"),
            plain(TokenKind::Other),
            plain(TokenKind::Other),
            plain(TokenKind::Other),
            plain(TokenKind::Other),
            plain(TokenKind::Other),
        ]
    );
    assert_eq!(
        kinds_and_texts("<div>\nx\n</div>\n"),
        vec![
            plain(TokenKind::Other),
            with(TokenKind::Html, "<div>\n"),
            with(TokenKind::Html, "x\n"),
            with(TokenKind::Html, "</div>\n"),
            plain(TokenKind::Other),
        ]
    );
    assert_eq!(
        kinds_and_texts("x[^n]\n\n[^n]: y\n"),
        vec![
            plain(TokenKind::Other),
            plain(TokenKind::Other),
            with(TokenKind::FootnoteReference, "n"),
            plain(TokenKind::ParagraphEnd),
            with(TokenKind::FootnoteDefinition, "n"),
            plain(TokenKind::Other),
            plain(TokenKind::Other),
            plain(TokenKind::ParagraphEnd),
            plain(TokenKind::FootnoteDefinitionEnd),
        ]
    );
    let table: Vec<TokenKind> =
        new_cmark_parser("| a |\n|---|\n| b |\n", false).into_iter().map(|t| t.kind).collect();
    assert_eq!(table.first(), Some(&TokenKind::TableStart));
    assert_eq!(table.last(), Some(&TokenKind::TableEnd));
    assert_eq!(table.iter().filter(|k| **k != TokenKind::Other).count(), 2);
}

#[test]
fn the_parser_gets_the_extensions_of_a_book() {
    let text = "~~gone~~ 'q'\n\n| a |\n|---|\n| b |\n\n- [x] done\n\n# h {#id}\n\nx[^n]\n\n[^n]: note\n";
    for smart in [false, true] {
        let mut options = Options::empty();
        options.insert(Options::ENABLE_TABLES);
        options.insert(Options::ENABLE_FOOTNOTES);
        options.insert(Options::ENABLE_STRIKETHROUGH);
        options.insert(Options::ENABLE_TASKLISTS);
        options.insert(Options::ENABLE_HEADING_ATTRIBUTES);
        if smart {
            options.insert(Options::ENABLE_SMART_PUNCTUATION);
        }
        let expected: Vec<Event> = Parser::new_ext(text, options).collect();
        let tokens = new_cmark_parser(text, smart);
        let events: Vec<Event> = tokens.into_iter().map(|t| t.raw.unwrap()).collect();
        assert_eq!(events, expected);
    }
    let plain: Vec<Event> = Parser::new(text).collect();
    let events: Vec<Event> =
        new_cmark_parser(text, false).into_iter().map(|t| t.raw.unwrap()).collect();
    assert_ne!(events, plain);
}

#[test]
fn the_extensions_of_a_book() {
    for smart in [false, true] {
        assert_eq!(
            Extensions::for_book(smart),
            Extensions {
                tables: true,
                footnotes: true,
                strikethrough: true,
                tasklists: true,
                heading_attributes: true,
                smart_punctuation: smart,
            }
        );
    }
}

#[test]
fn plain_markdown_is_rendered_as_the_parser_events_are() {
    let text = "# Title\n\nSome *text* with `code`, ~~gone~~.\n\n- one\n- two\n\n> quote\n\n---\n";
    let mut options = Options::empty();
    options.insert(Options::ENABLE_TABLES);
    options.insert(Options::ENABLE_FOOTNOTES);
    options.insert(Options::ENABLE_STRIKETHROUGH);
    options.insert(Options::ENABLE_TASKLISTS);
    options.insert(Options::ENABLE_HEADING_ATTRIBUTES);
    let mut expected = String::new();
    pulldown_cmark::html::push_html(&mut expected, Parser::new_ext(text, options));
    assert_eq!(render_markdown(text, false), expected);
    let (html, warnings) = render_tokens(new_cmark_parser(text, false), None, &Vec::new());
    assert_eq!(html, expected);
    assert!(warnings.is_empty());
    let (html, _) =
        render_tokens(new_cmark_parser(text, false), Some("chapter/sub.md"), &Vec::new());
    assert_eq!(html, expected);
}

#[test]
fn a_token_is_rendered_with_its_own_text() {
    let tokens = vec![
        token(TokenKind::Other, "", Event::Start(Tag::Paragraph)),
        token(TokenKind::Link, "https://example.com/b.html", link(LinkType::Inline, "a.md")),
        token(TokenKind::Other, "ignored", Event::Text(CowStr::Borrowed("shown"))),
        token(TokenKind::Other, "", Event::End(TagEnd::Link)),
        token(TokenKind::InlineHtml, "<i>", Event::InlineHtml(CowStr::Borrowed("<b>"))),
        Token::html("<hr>".to_string()),
        token(TokenKind::ParagraphEnd, "", Event::End(TagEnd::Paragraph)),
    ];
    let (html, warnings) = render_tokens(tokens, None, &Vec::new());
    assert_eq!(html, "<p><a href=\"https://example.com/b.html\">shown</a><i><hr></p>\n");
    assert!(warnings.is_empty());
}

#[test]
fn html_that_the_library_makes_is_a_token_without_an_event() {
    let t = Token::html("<hr>".to_string());
    assert_eq!(t.kind, TokenKind::Html);
    assert_eq!(t.text, "<hr>");
    assert!(t.raw.is_none());
}

#[test]
fn the_info_string_of_a_code_block_is_cleaned() {
    let raw = Event::Start(Tag::CodeBlock(CodeBlockKind::Fenced(CowStr::Borrowed(""))));
    let t = token(TokenKind::CodeFence, "rust,  no_run\t, ,\u{a0}property\n", raw.clone());
    let t = clean_codeblock_headers(t);
    assert_eq!(t.kind, TokenKind::CodeFence);
    assert_eq!(t.text, "rust,,,no_run,,,,property");
    assert_eq!(t.raw, Some(raw));
    let t = clean_codeblock_headers(token(
        TokenKind::Html,
        "a b",
        Event::Html(CowStr::Borrowed("a b")),
    ));
    assert_eq!(t.text, "a b");
}

#[test]
fn destinations_of_tokens_are_adjusted() {
    let ctx = LinkContext::new(Some("chapter/sub.md"), &Vec::new());
    let t = adjust_links(token(TokenKind::Link, "other.md", link(LinkType::Inline, "other.md")), &ctx);
    assert_eq!(t.kind, TokenKind::Link);
    assert_eq!(t.text, "#chapter-other");
    let t = adjust_links(token(TokenKind::EmailLink, "a@b.md", link(LinkType::Email, "a@b.md")), &ctx);
    assert_eq!(t.text, "a@b.md");
    let t = adjust_links(
        token(TokenKind::Image, "i.png", Event::Text(CowStr::Borrowed(""))),
        &ctx,
    );
    assert_eq!(t.text, "chapter/i.png");
    let t = adjust_links(
        token(TokenKind::Html, "<img src=\"i.png\">", Event::Html(CowStr::Borrowed(""))),
        &ctx,
    );
    assert_eq!(t.text, "<img src=\"chapter/i.png\">");
    let t = adjust_links(
        token(TokenKind::InlineHtml, "<a href=\"#x\">", Event::InlineHtml(CowStr::Borrowed(""))),
        &ctx,
    );
    assert_eq!(t.text, "<a href=\"#chapter-sub-x\">");
    let t = adjust_links(
        token(TokenKind::Other, "other.md", Event::Text(CowStr::Borrowed("other.md"))),
        &ctx,
    );
    assert_eq!(t.text, "other.md");
}

#[test]
fn the_wrapper_goes_around_a_table() {
    let (a, b) = wrap_tables(token(TokenKind::TableStart, "", Event::Start(Tag::Table(Vec::new()))));
    let (a, b) = (a.unwrap(), b.unwrap());
    assert_eq!(a.kind, TokenKind::Html);
    assert_eq!(a.text, "<div class=\"table-wrapper\">");
    assert!(a.raw.is_none());
    assert_eq!(b.kind, TokenKind::TableStart);
    let (a, b) = wrap_tables(token(TokenKind::TableEnd, "", Event::End(TagEnd::Table)));
    let (a, b) = (a.unwrap(), b.unwrap());
    assert_eq!(a.kind, TokenKind::TableEnd);
    assert_eq!(b.kind, TokenKind::Html);
    assert_eq!(b.text, "</div>");
    let (a, b) = wrap_tables(token(TokenKind::Other, "", Event::Rule));
    assert_eq!(a.unwrap().kind, TokenKind::Other);
    assert!(b.is_none());
}

#[test]
fn runs_of_white_space_collapse() {
    assert_eq!(collapse_whitespace("a  b"), "a b");
    assert_eq!(collapse_whitespace("a \n\t b"), "a b");
    assert_eq!(collapse_whitespace("a b"), "a b");
    assert_eq!(collapse_whitespace("a\nb"), "a\nb");
    assert_eq!(collapse_whitespace("  "), " ");
    assert_eq!(collapse_whitespace("\t\t\tx  "), " x ");
    assert_eq!(collapse_whitespace(""), "");
    assert_eq!(collapse_whitespace("a\u{2003}\u{2003}b"), "a b");
}
