//! Destinations inside raw HTML. A fragment of HTML is not parsed: it is
//! scanned for `href` and `name` in a tag that starts with `<a ` and for `src`
//! in one that starts with `<img `, each with its value in double quotes.

use crate::links::{
    fix_anchor_name_chars, fix_link_chars, fix_resource_chars, spec_fix_anchor_name, spec_fix_link,
    spec_fix_resource_link, LinkContext, LinkContextView,
};
use crate::text::{
    chars_of, find_char, find_char_from, matches_at, occurs_at, push_all, push_range, slice_of,
    string_of,
};
use vstd::prelude::*;

verus! {

/// An attribute whose value is a destination.
#[derive(Clone, Copy, Debug, PartialEq, Eq, Structural)]
pub enum HtmlAttr {
    /// `src` of `<img `.
    ImageSource,
    /// `name` of `<a `.
    AnchorName,
    /// `href` of `<a `.
    AnchorTarget,
}

/// How the tag of the attribute starts.
pub open spec fn attr_tag(attr: HtmlAttr) -> Seq<char> {
    match attr {
        HtmlAttr::ImageSource => "<img "@,
        HtmlAttr::AnchorName => "<a "@,
        HtmlAttr::AnchorTarget => "<a "@,
    }
}

/// The attribute's name, with `=` and the quote that opens its value.
pub open spec fn attr_name(attr: HtmlAttr) -> Seq<char> {
    match attr {
        HtmlAttr::ImageSource => "src=\""@,
        HtmlAttr::AnchorName => "name=\""@,
        HtmlAttr::AnchorTarget => "href=\""@,
    }
}

/// The value of the attribute once rendered.
pub open spec fn attr_value(attr: HtmlAttr, value: Seq<char>, ctx: LinkContextView) -> Seq<char> {
    match attr {
        HtmlAttr::ImageSource => spec_fix_resource_link(value, ctx.page),
        HtmlAttr::AnchorName => spec_fix_anchor_name(value, ctx.page),
        HtmlAttr::AnchorTarget => spec_fix_link(value, ctx),
    }
}

/// The index of the first `"` of `s` at or after `v`, or the length of `s`.
pub open spec fn quote_end(s: Seq<char>, v: int) -> int {
    v + find_char(s.skip(v), '"')
}

/// Whether a value that is not empty starts at `v` and is closed by a `"`.
pub open spec fn has_value(s: Seq<char>, v: int) -> bool {
    0 <= v < s.len() && s[v] != '"' && quote_end(s, v) < s.len()
}

/// Where, at or after `from` and before any `>`, `name` first stands with a
/// value behind it; -1 where it does not.
pub open spec fn attr_start(s: Seq<char>, name: Seq<char>, from: int) -> int
    decreases s.len() - from,
{
    if from < 0 || from >= s.len() {
        -1
    } else if occurs_at(name, s, from) && has_value(s, from + name.len()) {
        from
    } else if s[from] == '>' {
        -1
    } else {
        attr_start(s, name, from + 1)
    }
}

/// What stands for `s` from `from` on once each value of the attribute is
/// rendered. The text is read from the left. Where the tag starts and the
/// attribute is found in it, the text up to the value, the rendered value and
/// the closing `"` are given out, and reading goes on behind that quote. Any
/// other character is given out as it is.
pub open spec fn rewrite_attr(
    s: Seq<char>,
    from: int,
    attr: HtmlAttr,
    ctx: LinkContextView,
) -> Seq<char>
    decreases s.len() - from,
{
    if from < 0 || from >= s.len() {
        Seq::empty()
    } else {
        let q = if occurs_at(attr_tag(attr), s, from) {
            attr_start(s, attr_name(attr), from + attr_tag(attr).len())
        } else {
            -1
        };
        let v = q + attr_name(attr).len();
        let e = quote_end(s, v);
        if from <= q && v <= e && e < s.len() {
            s.subrange(from, v) + attr_value(attr, s.subrange(v, e), ctx).push('"') + rewrite_attr(
                s,
                e + 1,
                attr,
                ctx,
            )
        } else {
            seq![s[from]] + rewrite_attr(s, from + 1, attr, ctx)
        }
    }
}

/// A fragment of raw HTML once its destinations are rendered: first the `src`
/// of images, then the `name` of anchors, then the `href` of anchors.
pub open spec fn spec_fix_html(html: Seq<char>, ctx: LinkContextView) -> Seq<char> {
    rewrite_attr(
        rewrite_attr(rewrite_attr(html, 0, HtmlAttr::ImageSource, ctx), 0, HtmlAttr::AnchorName, ctx),
        0,
        HtmlAttr::AnchorTarget,
        ctx,
    )
}

/// How the tag of the attribute starts.
fn tag_chars(attr: HtmlAttr) -> (r: Vec<char>)
    ensures
        r@ == attr_tag(attr),
{
    match attr {
        HtmlAttr::ImageSource => chars_of("<img "),
        HtmlAttr::AnchorName => chars_of("<a "),
        HtmlAttr::AnchorTarget => chars_of("<a "),
    }
}

/// The attribute's name, with `=` and the opening quote.
fn name_chars(attr: HtmlAttr) -> (r: Vec<char>)
    ensures
        r@ == attr_name(attr),
{
    match attr {
        HtmlAttr::ImageSource => chars_of("src=\""),
        HtmlAttr::AnchorName => chars_of("name=\""),
        HtmlAttr::AnchorTarget => chars_of("href=\""),
    }
}

/// The value of the attribute once rendered.
fn value_chars(attr: HtmlAttr, value: &Vec<char>, ctx: &LinkContext) -> (r: Vec<char>)
    ensures
        r@ == attr_value(attr, value@, ctx@),
{
    match attr {
        HtmlAttr::ImageSource => fix_resource_chars(value, ctx.page.as_ref()),
        HtmlAttr::AnchorName => fix_anchor_name_chars(value, ctx.page.as_ref()),
        HtmlAttr::AnchorTarget => fix_link_chars(value, ctx),
    }
}

/// Where `name` first stands with a value behind it, at or after `from` and
/// before any `>`.
fn find_attr(s: &Vec<char>, name: &Vec<char>, from: usize) -> (r: Option<usize>)
    ensures
        match r {
            Some(q) => attr_start(s@, name@, from as int) == q,
            None => attr_start(s@, name@, from as int) == -1,
        },
{
    let mut j: usize = from;
    while j < s.len()
        invariant
            from <= j,
            attr_start(s@, name@, from as int) == attr_start(s@, name@, j as int),
        decreases s.len() - j,
    {
        if matches_at(s, j, name) {
            let v = j + name.len();
            if v < s.len() && s[v] != '"' && find_char_from(s, v, '"') < s.len() {
                return Some(j);
            }
        }
        if s[j] == '>' {
            return None;
        }
        j += 1;
    }
    None
}

/// `s` with each value of the attribute rendered.
pub(crate) fn rewrite_attr_chars(s: &Vec<char>, attr: HtmlAttr, ctx: &LinkContext) -> (r: Vec<char>)
    ensures
        r@ == rewrite_attr(s@, 0, attr, ctx@),
{
    let tag = tag_chars(attr);
    let name = name_chars(attr);
    let mut out: Vec<char> = Vec::new();
    let mut i: usize = 0;
    while i < s.len()
        invariant
            tag@ == attr_tag(attr),
            name@ == attr_name(attr),
            out@ + rewrite_attr(s@, i as int, attr, ctx@) == rewrite_attr(s@, 0, attr, ctx@),
        decreases s.len() - i,
    {
        let ghost before = out@;
        let ghost rest = rewrite_attr(s@, i as int, attr, ctx@);
        let found = if matches_at(s, i, &tag) {
            find_attr(s, &name, i + tag.len())
        } else {
            None
        };
        match found {
            Some(q) => {
                proof {
                    lemma_attr_start(s@, name@, i + tag@.len());
                }
                let v = q + name.len();
                let e = find_char_from(s, v, '"');
                push_range(&mut out, s, i, v);
                let value = slice_of(s, v, e);
                push_all(&mut out, &value_chars(attr, &value, ctx));
                out.push('"');
                let ghost piece = s@.subrange(i as int, v as int) + attr_value(
                    attr,
                    s@.subrange(v as int, e as int),
                    ctx@,
                ).push('"');
                assert(out@ == before + piece);
                assert(rest == piece + rewrite_attr(s@, e + 1, attr, ctx@));
                assert((before + piece) + rewrite_attr(s@, e + 1, attr, ctx@) == before + (piece
                    + rewrite_attr(s@, e + 1, attr, ctx@)));
                i = e + 1;
            },
            None => {
                out.push(s[i]);
                assert(rest == seq![s@[i as int]] + rewrite_attr(s@, i + 1, attr, ctx@));
                assert(before.push(s@[i as int]) + rewrite_attr(s@, i + 1, attr, ctx@) == before
                    + (seq![s@[i as int]] + rewrite_attr(s@, i + 1, attr, ctx@)));
                i += 1;
            },
        }
    }
    assert(out@ + Seq::<char>::empty() == out@);
    out
}

/// Where `attr_start` finds the name, the name stands there with a value.
pub proof fn lemma_attr_start(s: Seq<char>, name: Seq<char>, from: int)
    ensures
        attr_start(s, name, from) >= 0 ==> {
            let q = attr_start(s, name, from);
            &&& from <= q
            &&& occurs_at(name, s, q)
            &&& has_value(s, q + name.len())
        },
        attr_start(s, name, from) >= -1,
    decreases s.len() - from,
{
    if from < 0 || from >= s.len() {
    } else if occurs_at(name, s, from) && has_value(s, from + name.len()) {
    } else if s[from] == '>' {
    } else {
        lemma_attr_start(s, name, from + 1);
    }
}

/// A fragment of raw HTML once its destinations are rendered.
pub(crate) fn fix_html_chars(html: &Vec<char>, ctx: &LinkContext) -> (r: Vec<char>)
    ensures
        r@ == spec_fix_html(html@, ctx@),
{
    let a = rewrite_attr_chars(html, HtmlAttr::ImageSource, ctx);
    let b = rewrite_attr_chars(&a, HtmlAttr::AnchorName, ctx);
    rewrite_attr_chars(&b, HtmlAttr::AnchorTarget, ctx)
}

/// A fragment of raw HTML with the destinations that it has once the page is
/// rendered: the `src` of each `<img `, then the `name` and the `href` of each
/// `<a `.
pub fn fix_html(html: &str, ctx: &LinkContext) -> (fixed: String)
    ensures
        fixed@ == spec_fix_html(html@, ctx@),
{
    string_of(&fix_html_chars(&chars_of(html), ctx))
}

} // verus!
