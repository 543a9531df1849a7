//! A page of markdown as HTML: the tokens of the parser, each rewritten, the
//! footnotes collated, the page rendered and the list of footnotes added.

use crate::escape::spec_special_escape;
use crate::footnotes::{
    add_footnote_defs, appendix, appendix_items, backlink_prefix, counts_within,
    definition_tokens, is_footnote_kind, law_definition_alone, law_footnote_round_trip,
    law_one_footnote_one_item, law_step_keeps_well_formed, lemma_step_counts, no_footnotes,
    note_step, note_steps, reference_html, unreferenced, well_formed, DefinitionView, Footnotes,
    FootnotesView, UsageView, Warning, WarningView,
};
use crate::links::{context_of, text_of, LinkContext, LinkContextView};
use crate::tokens::{
    book_extensions, html_token, new_cmark_parser, parsed, push_tokens, rendered, views, Token,
    TokenKind, TokenView,
};
use crate::transform::{
    adjust_links, clean_codeblock_headers, pair_tokens, spec_adjust_links,
    spec_clean_codeblock_headers, spec_wrap_tables, table_wrapper_close, table_wrapper_open,
    wrap_tables,
};
use vstd::prelude::*;

verus! {

/// What a token of the parser becomes before the footnotes are collated: its
/// info string cleaned, its destinations rendered, and the wrapper of a table
/// around it.
pub open spec fn prepare(t: TokenView, ctx: LinkContextView) -> Seq<TokenView> {
    spec_wrap_tables(spec_adjust_links(spec_clean_codeblock_headers(t), ctx))
}

/// What has been made of the footnotes once all the tokens are read, each
/// prepared before it is read.
pub open spec fn collated<'a>(tokens: Seq<TokenView<'a>>, ctx: LinkContextView) -> FootnotesView<
    'a,
>
    decreases tokens.len(),
{
    if tokens.len() == 0 {
        no_footnotes()
    } else {
        note_steps(collated(tokens.drop_last(), ctx), prepare(tokens.last(), ctx))
    }
}

/// The HTML of a page: its own tokens rendered and, where a definition of a
/// footnote was kept, the list of definitions behind them.
pub open spec fn spec_render(tokens: Seq<TokenView>, ctx: LinkContextView) -> Seq<char> {
    let notes = collated(tokens, ctx);
    if notes.definitions.len() > 0 {
        rendered(notes.main) + appendix(notes.definitions, notes.usages, ctx.page)
    } else {
        rendered(notes.main)
    }
}

/// The warnings of a page: those of reading its tokens, then one for each
/// definition that is kept and never referred to.
pub open spec fn spec_warnings(tokens: Seq<TokenView>, ctx: LinkContextView) -> Seq<WarningView> {
    let notes = collated(tokens, ctx);
    notes.warnings + unreferenced(
        notes.definitions,
        notes.usages,
        notes.definitions.len() as int,
    )
}

/// Reads all the tokens of a page, each prepared before it is read.
pub fn collate<'a>(tokens: Vec<Token<'a>>, ctx: &LinkContext) -> (notes: Footnotes<'a>)
    ensures
        notes@ == collated(views(tokens@), ctx@),
        well_formed(notes@),
{
    proof {
        law_collated_is_well_formed(views(tokens@), ctx@);
    }
    let ghost all = views(tokens@);
    let mut notes = Footnotes::new();
    assert(all.take(0) =~= Seq::empty());
    for token in it: tokens
        invariant
            it.seq() == tokens@,
            all == views(tokens@),
            notes@ == collated(all.take(it.index()), ctx@),
            counts_within(notes@.usages, it.index()),
    {
        let ghost i = it.index();
        let ghost before = notes@;
        let ghost pieces = prepare(token@, ctx@);
        assert(all[i] == token@);
        assert(all.take(i + 1).drop_last() =~= all.take(i));
        let pair = wrap_tables(adjust_links(clean_codeblock_headers(token), ctx));
        assert(pair_tokens(pair) == pieces);
        assert(pieces.len() == 2 ==> pieces[0].kind != TokenKind::FootnoteReference && pieces[1].kind
            != TokenKind::FootnoteReference);
        assert(i < tokens.len());
        match pair.0 {
            Some(t) => {
                proof {
                    lemma_step_counts(before, t@, i);
                }
                notes.feed(t);
            },
            None => {},
        }
        let ghost middle = notes@;
        assert(pair.1 is Some ==> counts_within(middle.usages, i));
        match pair.1 {
            Some(t) => {
                proof {
                    lemma_step_counts(middle, t@, i);
                }
                notes.feed(t);
            },
            None => {},
        }
        proof {
            if pieces.len() == 1 {
                assert(pieces.drop_last() =~= Seq::empty());
                assert(note_steps(before, pieces.drop_last()) == before);
                assert(note_steps(before, pieces) == note_step(before, pieces[0]));
            } else {
                let head = pieces.drop_last();
                assert(head.drop_last() =~= Seq::empty());
                assert(note_steps(before, head.drop_last()) == before);
                assert(head.last() == pieces[0]);
                assert(note_steps(before, head) == note_step(before, pieces[0]));
                assert(note_steps(before, pieces) == note_step(
                    note_step(before, pieces[0]),
                    pieces[1],
                ));
            }
            assert forall|k: int| 0 <= k < notes@.usages.len() implies (
            #[trigger] notes@.usages[k]).count <= i + 1 by {}
        }
    }
    assert(all.take(tokens.len() as int) =~= all);
    notes
}

/// Renders the tokens of a page, and says what there is to warn of.
pub fn render_tokens<'a>(
    tokens: Vec<Token<'a>>,
    path: Option<&str>,
    redirects: &Vec<(String, String)>,
) -> (r: (String, Vec<Warning>))
    ensures
        r.0@ == spec_render(views(tokens@), context_of(text_of(path), redirects@)),
        views(r.1@) == spec_warnings(views(tokens@), context_of(text_of(path), redirects@)),
{
    let ctx = LinkContext::new(path, redirects);
    let notes = collate(tokens, &ctx);
    let ghost view = notes@;
    let Footnotes { main, definitions, usages, mut warnings, .. } = notes;
    let mut html = String::new();
    push_tokens(&mut html, main);
    assert(html@ =~= rendered(view.main));
    if definitions.len() > 0 {
        let mut more = add_footnote_defs(&mut html, path, definitions, &usages);
        let ghost first = views(warnings@);
        let ghost second = views(more@);
        warnings.append(&mut more);
        assert(views(warnings@) =~= first + second);
    } else {
        assert(views(warnings@) + unreferenced(view.definitions, view.usages, 0) =~= views(
            warnings@,
        ));
    }
    (html, warnings)
}

/// Renders markdown to HTML, and says what there is to warn of. See
/// `render_markdown_with_path_and_redirects`.
pub fn render_markdown_with_warnings(
    text: &str,
    smart_punctuation: bool,
    path: Option<&str>,
    redirects: &Vec<(String, String)>,
) -> (r: (String, Vec<Warning>))
    ensures
        r.0@ == spec_render(
            parsed(text@, book_extensions(smart_punctuation)),
            context_of(text_of(path), redirects@),
        ),
        views(r.1@) == spec_warnings(
            parsed(text@, book_extensions(smart_punctuation)),
            context_of(text_of(path), redirects@),
        ),
{
    render_tokens(new_cmark_parser(text, smart_punctuation), path, redirects)
}

/// Renders markdown to HTML.
///
/// `path` is the path of the page from the root of the book. It is given for
/// the print page, where every link inside the book becomes a fragment of that
/// one page; for a page on its own it is `None`.
///
/// `redirects` are for the print page too: a link to a path that has moved
/// points to where it moved. They are tried in the order given, and the first
/// that the link means is followed; `order_redirects` puts a table in order.
pub fn render_markdown_with_path_and_redirects(
    text: &str,
    smart_punctuation: bool,
    path: Option<&str>,
    redirects: &Vec<(String, String)>,
) -> (html: String)
    ensures
        html@ == spec_render(
            parsed(text@, book_extensions(smart_punctuation)),
            context_of(text_of(path), redirects@),
        ),
{
    render_markdown_with_warnings(text, smart_punctuation, path, redirects).0
}

/// Renders markdown to HTML, without redirects.
pub fn render_markdown_with_path(text: &str, smart_punctuation: bool, path: Option<&str>) -> (html:
    String)
    ensures
        html@ == spec_render(
            parsed(text@, book_extensions(smart_punctuation)),
            context_of(text_of(path), Seq::empty()),
        ),
{
    let redirects: Vec<(String, String)> = Vec::new();
    render_markdown_with_path_and_redirects(text, smart_punctuation, path, &redirects)
}

/// Renders the markdown of a page on its own to HTML.
pub fn render_markdown(text: &str, smart_punctuation: bool) -> (html: String)
    ensures
        html@ == spec_render(
            parsed(text@, book_extensions(smart_punctuation)),
            context_of(None, Seq::empty()),
        ),
{
    render_markdown_with_path(text, smart_punctuation, None)
}

/// Whether the library leaves a token alone: it is no start or end of a
/// table and none of a footnote, and cleaning its info string and rendering
/// its destinations changes nothing.
pub open spec fn untouched(t: TokenView, ctx: LinkContextView) -> bool {
    &&& t.kind != TokenKind::TableStart
    &&& t.kind != TokenKind::TableEnd
    &&& !is_footnote_kind(t.kind)
    &&& spec_adjust_links(spec_clean_codeblock_headers(t), ctx) == t
}

/// A page of which the library leaves every token alone is rendered as the
/// parser's tokens are, with nothing added and nothing to warn of.
pub proof fn law_untouched_tokens_render_plainly(tokens: Seq<TokenView>, ctx: LinkContextView)
    requires
        forall|i: int| 0 <= i < tokens.len() ==> untouched(#[trigger] tokens[i], ctx),
    ensures
        spec_render(tokens, ctx) == rendered(tokens),
        spec_warnings(tokens, ctx) == Seq::<WarningView>::empty(),
{
    lemma_untouched_tokens_pass(tokens, ctx);
    let notes = collated(tokens, ctx);
    assert(unreferenced(notes.definitions, notes.usages, 0) == Seq::<WarningView>::empty());
    assert(notes.warnings + Seq::<WarningView>::empty() =~= notes.warnings);
}

/// Tokens that the library leaves alone all go to the page, in order.
proof fn lemma_untouched_tokens_pass(tokens: Seq<TokenView>, ctx: LinkContextView)
    requires
        forall|i: int| 0 <= i < tokens.len() ==> untouched(#[trigger] tokens[i], ctx),
    ensures
        collated(tokens, ctx) == (FootnotesView { main: tokens, ..no_footnotes() }),
    decreases tokens.len(),
{
    if tokens.len() == 0 {
        assert(tokens =~= Seq::empty());
    } else {
        let init = tokens.drop_last();
        let t = tokens.last();
        assert forall|i: int| 0 <= i < init.len() implies untouched(#[trigger] init[i], ctx) by {
            assert(init[i] == tokens[i]);
        }
        lemma_untouched_tokens_pass(init, ctx);
        assert(untouched(tokens[tokens.len() - 1], ctx));
        let pieces = prepare(t, ctx);
        assert(pieces == seq![t]);
        assert(pieces.drop_last() =~= Seq::empty());
        let before = collated(init, ctx);
        assert(note_steps(before, pieces.drop_last()) == before);
        assert(note_steps(before, pieces) == note_step(before, t));
        assert(init.push(t) =~= tokens);
    }
}

/// A token that is no link, no image, no raw HTML, no fenced code block, no
/// start or end of a table and none of a footnote is left alone.
pub proof fn law_other_tokens_are_untouched(t: TokenView, ctx: LinkContextView)
    requires
        t.kind == TokenKind::Other || t.kind == TokenKind::EmailLink || t.kind
            == TokenKind::ParagraphEnd,
    ensures
        untouched(t, ctx),
{
}

/// The table wrapper stands around every table: its opening right before the
/// start of a table and its closing right behind the end, whatever the page.
pub proof fn law_tables_are_wrapped(t: TokenView, ctx: LinkContextView)
    ensures
        t.kind == TokenKind::TableStart ==> prepare(t, ctx) == seq![
            html_token(table_wrapper_open()),
            t,
        ],
        t.kind == TokenKind::TableEnd ==> prepare(t, ctx) == seq![
            t,
            html_token(table_wrapper_close()),
        ],
{
}

/// What is made of the footnotes of any page is well formed.
pub proof fn law_collated_is_well_formed(tokens: Seq<TokenView>, ctx: LinkContextView)
    ensures
        well_formed(collated(tokens, ctx)),
    decreases tokens.len(),
{
    if tokens.len() > 0 {
        law_collated_is_well_formed(tokens.drop_last(), ctx);
        lemma_steps_keep_well_formed(
            collated(tokens.drop_last(), ctx),
            prepare(tokens.last(), ctx),
        );
    }
}

/// Reading tokens keeps the state well formed.
proof fn lemma_steps_keep_well_formed(st: FootnotesView, pieces: Seq<TokenView>)
    requires
        well_formed(st),
    ensures
        well_formed(note_steps(st, pieces)),
    decreases pieces.len(),
{
    if pieces.len() > 0 {
        lemma_steps_keep_well_formed(st, pieces.drop_last());
        law_step_keeps_well_formed(note_steps(st, pieces.drop_last()), pieces.last());
    }
}

/// Tokens that are prepared as themselves are read as they are.
proof fn lemma_collated_as_read(tokens: Seq<TokenView>, ctx: LinkContextView)
    requires
        forall|i: int| 0 <= i < tokens.len() ==> prepare(#[trigger] tokens[i], ctx) == seq![tokens[i]],
    ensures
        collated(tokens, ctx) == note_steps(no_footnotes(), tokens),
    decreases tokens.len(),
{
    if tokens.len() > 0 {
        let init = tokens.drop_last();
        let t = tokens.last();
        assert forall|i: int| 0 <= i < init.len() implies prepare(#[trigger] init[i], ctx) == seq![
            init[i],
        ] by {
            assert(init[i] == tokens[i]);
        }
        lemma_collated_as_read(init, ctx);
        assert(prepare(tokens[tokens.len() - 1], ctx) == seq![t]);
        let before = collated(init, ctx);
        assert(seq![t].drop_last() =~= Seq::<TokenView>::empty());
        assert(note_steps(before, seq![t].drop_last()) == before);
        assert(note_steps(before, seq![t]) == note_step(before, t));
    }
}

/// A page that holds nothing but the definition of a footnote: the list of
/// definitions is written without an item, and there is one warning, which
/// names the definition as not referred to. The name must not be empty once
/// escaped, and the library must leave the tokens of the body alone.
pub proof fn law_unreferenced_definition_is_left_out(
    start: TokenView,
    body: Seq<TokenView>,
    end: TokenView,
    ctx: LinkContextView,
)
    requires
        start.kind == TokenKind::FootnoteDefinition,
        end.kind == TokenKind::FootnoteDefinitionEnd,
        spec_special_escape(start.text).len() > 0,
        forall|i: int| 0 <= i < body.len() ==> untouched(#[trigger] body[i], ctx),
    ensures
        ({
            let page = (seq![start] + body).push(end);
            &&& spec_warnings(page, ctx) == seq![
                WarningView::UnreferencedDefinition(spec_special_escape(start.text)),
            ]
            &&& spec_render(page, ctx) == rendered(Seq::<TokenView>::empty())
                + "<hr>\n<ol class=\"footnote-definition\">"@ + "</ol>"@
        }),
{
    let page = (seq![start] + body).push(end);
    assert forall|i: int| 0 <= i < page.len() implies prepare(#[trigger] page[i], ctx) == seq![
        page[i],
    ] by {
        if 0 < i < page.len() - 1 {
            assert(page[i] == body[i - 1]);
            assert(untouched(body[i - 1], ctx));
        }
    }
    lemma_collated_as_read(page, ctx);
    assert forall|i: int| 0 <= i < body.len() implies !is_footnote_kind(#[trigger] body[i].kind) by {
        assert(untouched(body[i], ctx));
    }
    law_definition_alone(start, body, end);
    let notes = collated(page, ctx);
    assert(notes.warnings + unreferenced(notes.definitions, notes.usages, 1) =~= seq![
        WarningView::UnreferencedDefinition(spec_special_escape(start.text)),
    ]);
    assert(appendix_items(notes.definitions, notes.usages, backlink_prefix(ctx.page), 0)
        == Seq::<char>::empty());
    assert(rendered(notes.main) + ("<hr>\n<ol class=\"footnote-definition\">"@ + Seq::<char>::empty()
        + "</ol>"@) =~= rendered(Seq::<TokenView>::empty())
        + "<hr>\n<ol class=\"footnote-definition\">"@ + "</ol>"@);
}

/// A page with one reference to a footnote and then its definition: the page
/// gets the link for the reference under the number one, the list of
/// definitions has the one item of that definition with one link back, and
/// there is nothing to warn of. The name must not be empty once escaped, and
/// the library must leave the tokens of the body alone.
pub proof fn law_one_footnote_on_a_page(
    reference: TokenView,
    start: TokenView,
    body: Seq<TokenView>,
    end: TokenView,
    ctx: LinkContextView,
)
    requires
        reference.kind == TokenKind::FootnoteReference,
        start.kind == TokenKind::FootnoteDefinition,
        end.kind == TokenKind::FootnoteDefinitionEnd,
        start.text == reference.text,
        spec_special_escape(reference.text).len() > 0,
        forall|i: int| 0 <= i < body.len() ==> untouched(#[trigger] body[i], ctx),
    ensures
        ({
            let name = spec_special_escape(reference.text);
            let page = (seq![reference, start] + body).push(end);
            &&& spec_warnings(page, ctx) == Seq::<WarningView>::empty()
            &&& spec_render(page, ctx) == rendered(seq![html_token(reference_html(name, 1, 1))])
                + ("<hr>\n<ol class=\"footnote-definition\">"@ + rendered(
                definition_tokens(DefinitionView { name, body }, 1, backlink_prefix(ctx.page)),
            ) + "</ol>"@)
        }),
{
    let name = spec_special_escape(reference.text);
    let page = (seq![reference, start] + body).push(end);
    assert forall|i: int| 0 <= i < page.len() implies prepare(#[trigger] page[i], ctx) == seq![
        page[i],
    ] by {
        if 1 < i < page.len() - 1 {
            assert(page[i] == body[i - 2]);
            assert(untouched(body[i - 2], ctx));
        }
    }
    lemma_collated_as_read(page, ctx);
    assert forall|i: int| 0 <= i < body.len() implies !is_footnote_kind(#[trigger] body[i].kind) by {
        assert(untouched(body[i], ctx));
    }
    law_footnote_round_trip(reference, start, body, end);
    let definition = DefinitionView { name, body };
    let usage = UsageView { name, count: 1 };
    law_one_footnote_one_item(definition, usage, backlink_prefix(ctx.page));
    let notes = collated(page, ctx);
    assert(notes.warnings + unreferenced(notes.definitions, notes.usages, 1) =~= Seq::<
        WarningView,
    >::empty());
}

} // verus!
