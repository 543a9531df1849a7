//! The stream of events that the markdown parser makes of a text, and its
//! rendering as HTML. Parsing and rendering are pulldown-cmark's; the library
//! reads and rewrites the events in between.

use pulldown_cmark::{CodeBlockKind, Event, LinkType, Options, Parser, Tag, TagEnd};
use vstd::prelude::*;

verus! {

/// An event of `pulldown_cmark`'s parser. The library does not look inside
/// one: it asks the functions below what it holds.
#[verifier::external_type_specification]
#[verifier::external_body]
pub struct ExRawEvent<'a>(Event<'a>);

/// What an event is to the library.
#[derive(Clone, Copy, Debug, PartialEq, Eq, Structural)]
pub enum TokenKind {
    /// The start of a fenced code block; the text is its info string.
    CodeFence,
    /// The start of a link; the text is its destination.
    Link,
    /// The start of a link to an e-mail address; the text is the address.
    EmailLink,
    /// The start of an image; the text is its source.
    Image,
    /// Raw HTML in a block; the text is the HTML.
    Html,
    /// Raw HTML in a line; the text is the HTML.
    InlineHtml,
    /// The start of a table.
    TableStart,
    /// The end of a table.
    TableEnd,
    /// The start of the definition of a footnote; the text is its name.
    FootnoteDefinition,
    /// The end of the definition of a footnote.
    FootnoteDefinitionEnd,
    /// A reference to a footnote; the text is its name.
    FootnoteReference,
    /// The end of a paragraph.
    ParagraphEnd,
    /// Any other event.
    Other,
}

/// One event of the stream: what the library reads of it, and the parser's
/// event itself.
pub struct Token<'a> {
    /// What kind of event this is.
    pub kind: TokenKind,
    /// The text that the library reads or rewrites; see `TokenKind`.
    pub text: String,
    /// The parser's event. Raw HTML that the library puts into the stream has
    /// none.
    pub raw: Option<Event<'a>>,
}

/// The mathematical content of a `Token`.
pub struct TokenView<'a> {
    pub kind: TokenKind,
    pub text: Seq<char>,
    pub raw: Option<Event<'a>>,
}

impl<'a> View for Token<'a> {
    type V = TokenView<'a>;

    open spec fn view(&self) -> TokenView<'a> {
        TokenView { kind: self.kind, text: self.text@, raw: self.raw }
    }
}

/// The contents of the items, one for one.
pub open spec fn views<T: View>(items: Seq<T>) -> Seq<T::V> {
    Seq::new(items.len(), |i: int| items[i]@)
}

/// Raw HTML that the library puts into the stream.
pub open spec fn html_token(html: Seq<char>) -> TokenView<'static> {
    TokenView { kind: TokenKind::Html, text: html, raw: None }
}

/// The extensions to CommonMark that the parser is asked for.
#[derive(Clone, Copy, Debug, PartialEq, Eq, Structural)]
pub struct Extensions {
    pub tables: bool,
    pub footnotes: bool,
    pub strikethrough: bool,
    pub tasklists: bool,
    pub heading_attributes: bool,
    pub smart_punctuation: bool,
}

/// The extensions of a book: all but smart punctuation, which is the book's
/// choice.
pub open spec fn book_extensions(smart_punctuation: bool) -> Extensions {
    Extensions {
        tables: true,
        footnotes: true,
        strikethrough: true,
        tasklists: true,
        heading_attributes: true,
        smart_punctuation,
    }
}

/// The events that `pulldown_cmark::Parser` yields for a text with the given
/// extensions, each as a token.
pub uninterp spec fn parsed(text: Seq<char>, extensions: Extensions) -> Seq<TokenView<'static>>;

/// The HTML that `pulldown_cmark::html::push_html` writes for the events that
/// the tokens stand for.
pub uninterp spec fn rendered(tokens: Seq<TokenView<'static>>) -> Seq<char>;

/// The text in an event of pulldown-cmark, where it has one that the library
/// reads: the info string of a fenced code block, the destination of a link or
/// an image, raw HTML, or the name of a footnote. Empty for any other event.
#[verifier::external_body]
fn payload_of(raw: &Event<'_>) -> String {
    match raw {
        Event::Start(Tag::CodeBlock(CodeBlockKind::Fenced(s)))
        | Event::Start(Tag::Link { dest_url: s, .. })
        | Event::Start(Tag::Image { dest_url: s, .. })
        | Event::Start(Tag::FootnoteDefinition(s))
        | Event::Html(s)
        | Event::InlineHtml(s)
        | Event::FootnoteReference(s) => s.to_string(),
        _ => String::new(),
    }
}

/// The kind of an event of pulldown-cmark that starts a tag.
#[verifier::external_body]
fn start_kind(raw: &Event<'_>) -> TokenKind {
    match raw {
        Event::Start(Tag::CodeBlock(CodeBlockKind::Fenced(_))) => TokenKind::CodeFence,
        Event::Start(Tag::Link { link_type: LinkType::Email, .. }) => TokenKind::EmailLink,
        Event::Start(Tag::Link { .. }) => TokenKind::Link,
        Event::Start(Tag::Image { .. }) => TokenKind::Image,
        Event::Start(Tag::Table(_)) => TokenKind::TableStart,
        Event::Start(Tag::FootnoteDefinition(_)) => TokenKind::FootnoteDefinition,
        _ => TokenKind::Other,
    }
}

/// The kind of an event of pulldown-cmark that starts no tag.
#[verifier::external_body]
fn leaf_kind(raw: &Event<'_>) -> TokenKind {
    match raw {
        Event::Html(_) => TokenKind::Html,
        Event::InlineHtml(_) => TokenKind::InlineHtml,
        Event::FootnoteReference(_) => TokenKind::FootnoteReference,
        Event::End(TagEnd::Table) => TokenKind::TableEnd,
        Event::End(TagEnd::FootnoteDefinition) => TokenKind::FootnoteDefinitionEnd,
        Event::End(TagEnd::Paragraph) => TokenKind::ParagraphEnd,
        _ => TokenKind::Other,
    }
}

/// The event of pulldown-cmark with `text` in the place of its info string,
/// its destination or its HTML. An event without such a text is handed back.
#[verifier::external_body]
fn with_payload<'a>(raw: Event<'a>, text: String) -> Event<'a> {
    match raw {
        Event::Start(Tag::Link { link_type, title, id, .. }) => {
            Event::Start(Tag::Link { link_type, dest_url: text.into(), title, id })
        },
        Event::Start(Tag::Image { link_type, title, id, .. }) => {
            Event::Start(Tag::Image { link_type, dest_url: text.into(), title, id })
        },
        Event::Start(Tag::CodeBlock(CodeBlockKind::Fenced(_))) => {
            Event::Start(Tag::CodeBlock(CodeBlockKind::Fenced(text.into())))
        },
        Event::Html(_) => Event::Html(text.into()),
        Event::InlineHtml(_) => Event::InlineHtml(text.into()),
        other => other,
    }
}

/// The event of pulldown-cmark for raw HTML.
#[verifier::external_body]
fn html_event(html: String) -> Event<'static> {
    Event::Html(html.into())
}

impl<'a> Token<'a> {
    /// The token for an event of the parser.
    pub(crate) fn parsed(raw: Event<'a>) -> (t: Token<'a>)
        ensures
            t.raw == Some(raw),
    {
        let started = start_kind(&raw);
        let kind = match started {
            TokenKind::Other => leaf_kind(&raw),
            _ => started,
        };
        Token { kind, text: payload_of(&raw), raw: Some(raw) }
    }

    /// The token for raw HTML that the library puts into the stream.
    pub fn html(html: String) -> (t: Token<'static>)
        ensures
            t@ == html_token(html@),
    {
        Token { kind: TokenKind::Html, text: html, raw: None }
    }

    /// The event that the token is rendered as: the parser's event, with the
    /// token's text in it where the kind carries one; raw HTML where there is
    /// no event of the parser.
    pub(crate) fn into_raw(self) -> (event: Event<'a>)
        ensures
            self.raw is Some && !carries_text(self.kind) ==> self.raw == Some(event),
    {
        match self.raw {
            Some(raw) => match self.kind {
                TokenKind::CodeFence
                | TokenKind::Link
                | TokenKind::Image
                | TokenKind::Html
                | TokenKind::InlineHtml => with_payload(raw, self.text),
                _ => raw,
            },
            None => html_event(self.text),
        }
    }
}

/// Whether the text of a token of this kind takes the place of the text in
/// the parser's event when the token is rendered: the info string of a fenced
/// code block, the destination of a link or an image, and raw HTML. A token of
/// any other kind is rendered as the parser's event, whatever its text.
pub open spec fn carries_text(kind: TokenKind) -> bool {
    kind == TokenKind::CodeFence || kind == TokenKind::Link || kind == TokenKind::Image || kind
        == TokenKind::Html || kind == TokenKind::InlineHtml
}

impl Extensions {
    /// The extensions of a book.
    pub fn for_book(smart_punctuation: bool) -> (e: Extensions)
        ensures
            e == book_extensions(smart_punctuation),
    {
        Extensions {
            tables: true,
            footnotes: true,
            strikethrough: true,
            tasklists: true,
            heading_attributes: true,
            smart_punctuation,
        }
    }
}

/// The events of `text`: `pulldown_cmark::Parser::new_ext` with the options
/// that `extensions` asks for, run to its end. The result is a function of the
/// text and the extensions alone.
#[verifier::external_body]
pub(crate) fn parse_with<'a>(text: &'a str, extensions: &Extensions) -> (tokens: Vec<Token<'a>>)
    ensures
        views(tokens@) == parsed(text@, *extensions),
{
    let mut options = Options::empty();
    options.set(Options::ENABLE_TABLES, extensions.tables);
    options.set(Options::ENABLE_FOOTNOTES, extensions.footnotes);
    options.set(Options::ENABLE_STRIKETHROUGH, extensions.strikethrough);
    options.set(Options::ENABLE_TASKLISTS, extensions.tasklists);
    options.set(Options::ENABLE_HEADING_ATTRIBUTES, extensions.heading_attributes);
    options.set(Options::ENABLE_SMART_PUNCTUATION, extensions.smart_punctuation);
    Parser::new_ext(text, options).map(Token::parsed).collect()
}

/// Appends to `body` the HTML of the tokens: `pulldown_cmark::html::push_html`
/// on the events that they are rendered as. What is appended is a function
/// of the tokens alone.
#[verifier::external_body]
pub(crate) fn push_tokens<'a>(body: &mut String, tokens: Vec<Token<'a>>)
    ensures
        final(body)@ == old(body)@ + rendered(views(tokens@)),
{
    pulldown_cmark::html::push_html(body, tokens.into_iter().map(Token::into_raw));
}

/// The events of a book's text, as tokens.
pub fn new_cmark_parser<'a>(text: &'a str, smart_punctuation: bool) -> (tokens: Vec<Token<'a>>)
    ensures
        views(tokens@) == parsed(text@, book_extensions(smart_punctuation)),
{
    parse_with(text, &Extensions::for_book(smart_punctuation))
}

} // verus!
