//! What the library changes in a single token: the info string of a fenced
//! code block, the destinations of links, images and raw HTML, and the
//! wrapper around a table.

use crate::html::{fix_html_chars, spec_fix_html};
use crate::links::{
    fix_link_chars, fix_resource_chars, spec_fix_link, spec_fix_resource_link, LinkContext,
    LinkContextView,
};
use crate::text::{chars_of, string_of, white_space};
use crate::tokens::{html_token, Token, TokenKind, TokenView};
use vstd::prelude::*;
use vstd::string::StringExecFns;

verus! {

/// The info string of a fenced code block as a class of HTML: each space and
/// each tab becomes `,`, and any other white space is left out.
pub open spec fn clean_info(info: Seq<char>) -> Seq<char>
    decreases info.len(),
{
    if info.len() == 0 {
        Seq::empty()
    } else {
        let c = info.last();
        if c == ' ' || c == '\t' {
            clean_info(info.drop_last()).push(',')
        } else if white_space(c) {
            clean_info(info.drop_last())
        } else {
            clean_info(info.drop_last()).push(c)
        }
    }
}

/// A token with the info string of a fenced code block cleaned; any other
/// token as it is.
pub open spec fn spec_clean_codeblock_headers(t: TokenView) -> TokenView {
    if t.kind == TokenKind::CodeFence {
        TokenView { text: clean_info(t.text), ..t }
    } else {
        t
    }
}

/// A token with its destinations as they are once rendered: that of a link
/// which is no e-mail address, that of an image, and those in raw HTML. Any
/// other token as it is.
pub open spec fn spec_adjust_links(t: TokenView, ctx: LinkContextView) -> TokenView {
    match t.kind {
        TokenKind::Link => TokenView { text: spec_fix_link(t.text, ctx), ..t },
        TokenKind::Image => TokenView { text: spec_fix_resource_link(t.text, ctx.page), ..t },
        TokenKind::Html => TokenView { text: spec_fix_html(t.text, ctx), ..t },
        TokenKind::InlineHtml => TokenView { text: spec_fix_html(t.text, ctx), ..t },
        _ => t,
    }
}

/// What opens the wrapper of a table.
pub open spec fn table_wrapper_open() -> Seq<char> {
    "<div class=\"table-wrapper\">"@
}

/// What closes the wrapper of a table.
pub open spec fn table_wrapper_close() -> Seq<char> {
    "</div>"@
}

/// A token with the wrapper of a table around it: the opening before the
/// start of a table, the closing behind its end, and any other token alone.
pub open spec fn spec_wrap_tables(t: TokenView) -> Seq<TokenView> {
    match t.kind {
        TokenKind::TableStart => seq![html_token(table_wrapper_open()), t],
        TokenKind::TableEnd => seq![t, html_token(table_wrapper_close())],
        _ => seq![t],
    }
}

/// The tokens that a pair of optional tokens holds, in order.
pub open spec fn pair_tokens<'a>(pair: (Option<Token<'a>>, Option<Token<'a>>)) -> Seq<
    TokenView<'a>,
> {
    let first = match pair.0 {
        Some(t) => seq![t@],
        None => Seq::empty(),
    };
    match pair.1 {
        Some(t) => first.push(t@),
        None => first,
    }
}

/// The info string of a fenced code block as a class of HTML.
pub(crate) fn clean_info_text(info: &str) -> (r: String)
    ensures
        r@ == clean_info(info@),
{
    let mut r = String::new();
    for c in it: info.chars()
        invariant
            it.seq() == info@,
            r@ == clean_info(info@.take(it.index())),
    {
        assert(info@.take(it.index() + 1).drop_last() == info@.take(it.index()));
        if c == ' ' || c == '\t' {
            r.push(',');
        } else if !c.is_whitespace() {
            r.push(c);
        }
    }
    assert(info@.take(info@.len() as int) == info@);
    r
}

/// Cleans the info string of a fenced code block.
pub fn clean_codeblock_headers<'a>(token: Token<'a>) -> (r: Token<'a>)
    ensures
        r@ == spec_clean_codeblock_headers(token@),
{
    match token.kind {
        TokenKind::CodeFence => {
            let text = clean_info_text(token.text.as_str());
            Token { kind: token.kind, text, raw: token.raw }
        },
        _ => token,
    }
}

/// Gives a token the destinations that it has once rendered.
pub fn adjust_links<'a>(token: Token<'a>, ctx: &LinkContext) -> (r: Token<'a>)
    ensures
        r@ == spec_adjust_links(token@, ctx@),
{
    match token.kind {
        TokenKind::Link => {
            let text = string_of(&fix_link_chars(&chars_of(token.text.as_str()), ctx));
            Token { kind: token.kind, text, raw: token.raw }
        },
        TokenKind::Image => {
            let text = string_of(
                &fix_resource_chars(&chars_of(token.text.as_str()), ctx.page.as_ref()),
            );
            Token { kind: token.kind, text, raw: token.raw }
        },
        TokenKind::Html | TokenKind::InlineHtml => {
            let text = string_of(&fix_html_chars(&chars_of(token.text.as_str()), ctx));
            Token { kind: token.kind, text, raw: token.raw }
        },
        _ => token,
    }
}

/// Puts the wrapper of a table around the start and the end of one.
pub fn wrap_tables<'a>(token: Token<'a>) -> (r: (Option<Token<'a>>, Option<Token<'a>>))
    ensures
        pair_tokens(r) == spec_wrap_tables(token@),
        r.0 is Some,
        r.1 is Some <==> token.kind == TokenKind::TableStart || token.kind == TokenKind::TableEnd,
{
    match token.kind {
        TokenKind::TableStart => {
            let open = Token::html(String::from_str("<div class=\"table-wrapper\">"));
            (Some(open), Some(token))
        },
        TokenKind::TableEnd => {
            let close = Token::html(String::from_str("</div>"));
            (Some(token), Some(close))
        },
        _ => (Some(token), None),
    }
}

/// No space and no tab is left in a cleaned info string.
pub proof fn law_clean_info_has_no_blank(info: Seq<char>)
    ensures
        !clean_info(info).contains(' '),
        !clean_info(info).contains('\t'),
    decreases info.len(),
{
    if info.len() > 0 {
        law_clean_info_has_no_blank(info.drop_last());
        let init = clean_info(info.drop_last());
        let c = info.last();
        assert forall|b: char| (b == ' ' || b == '\t') && !init.contains(b) implies !clean_info(
            info,
        ).contains(b) by {
            if clean_info(info).contains(b) {
                let i = choose|i: int| 0 <= i < clean_info(info).len() && clean_info(info)[i] == b;
                if i < init.len() {
                    assert(init[i] == b);
                }
            }
        }
    }
}

/// No white space at all is left in a cleaned info string.
pub proof fn law_clean_info_has_no_white_space(info: Seq<char>)
    ensures
        forall|i: int|
            0 <= i < clean_info(info).len() ==> !white_space(#[trigger] clean_info(info)[i]),
    decreases info.len(),
{
    if info.len() > 0 {
        law_clean_info_has_no_white_space(info.drop_last());
        let init = clean_info(info.drop_last());
        assert(!white_space(','));
        assert forall|i: int| 0 <= i < clean_info(info).len() implies !white_space(
            #[trigger] clean_info(info)[i],
        ) by {
            if i < init.len() {
                assert(clean_info(info)[i] == init[i]);
            }
        }
    }
}

/// In an info string without other white space than spaces and tabs, cleaning
/// keeps every character in its place and puts `,` for each space and each
/// tab: the parts between them stay what and where they were.
pub proof fn law_clean_info_keeps_places(info: Seq<char>)
    requires
        forall|i: int| 0 <= i < info.len() && white_space(#[trigger] info[i]) ==> info[i] == ' '
            || info[i] == '\t',
    ensures
        clean_info(info).len() == info.len(),
        forall|i: int|
            0 <= i < info.len() ==> #[trigger] clean_info(info)[i] == (if info[i] == ' ' || info[i]
                == '\t' {
                ','
            } else {
                info[i]
            }),
    decreases info.len(),
{
    if info.len() > 0 {
        let init = info.drop_last();
        assert forall|i: int| 0 <= i < init.len() && white_space(#[trigger] init[i]) implies init[i]
            == ' ' || init[i] == '\t' by {
            assert(init[i] == info[i]);
        }
        law_clean_info_keeps_places(init);
        assert(white_space(info[info.len() - 1]) ==> info.last() == ' ' || info.last() == '\t');
        assert forall|i: int| 0 <= i < info.len() implies #[trigger] clean_info(info)[i] == (if info[i]
            == ' ' || info[i] == '\t' {
            ','
        } else {
            info[i]
        }) by {
            if i < init.len() {
                assert(clean_info(info)[i] == clean_info(init)[i]);
                assert(init[i] == info[i]);
            }
        }
    }
}

} // verus!
