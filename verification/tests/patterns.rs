use mdbook_markdown::{
    collapse_whitespace, fix_a_links, fix_html, fix_resource_links, id_from_content, normalize_id,
    LinkContext,
};
use regex::{Captures, Regex};

/// `collapse_whitespace` by way of a regular expression.
fn collapse_with_regex(text: &str) -> String {
    Regex::new(r"\s\s+").unwrap().replace_all(text, " ").into_owned()
}

/// `id_from_content` with the tags taken out by a regular expression.
fn id_with_regex(content: &str) -> String {
    let mut content = Regex::new(r"(<.*?>)").unwrap().replace_all(content, "").into_owned();
    for sub in ["&lt;", "&gt;", "&amp;", "&#39;", "&quot;"] {
        content = content.replace(sub, "");
    }
    let trimmed = content.trim().trim_start_matches('#').trim();
    normalize_id(trimmed)
}

/// The attributes of raw HTML found by regular expressions.
fn fix_html_with_regex(html: &str, page: Option<&str>, ctx: &LinkContext) -> String {
    let img = Regex::new(r#"(<img [^>]*?src=")([^"]+?)""#).unwrap();
    let name = Regex::new(r#"(<a [^>]*?name=")([^"]+?)""#).unwrap();
    let href = Regex::new(r#"(<a [^>]*?href=")([^"]+?)""#).unwrap();
    let a = img.replace_all(html, |caps: &Captures<'_>| {
        format!("{}{}\"", &caps[1], fix_resource_links(&caps[2], page))
    });
    let b = name.replace_all(&a, |caps: &Captures<'_>| match page {
        Some(_) => format!(
            "{}{}\"",
            &caps[1],
            fix_a_links(&format!("#{}", &caps[2]), ctx).trim_start_matches('#')
        ),
        None => format!("{}{}\"", &caps[1], &caps[2]),
    });
    href.replace_all(&b, |caps: &Captures<'_>| {
        format!("{}{}\"", &caps[1], fix_a_links(&caps[2], ctx))
    })
    .into_owned()
}

#[test]
fn collapsing_agrees_with_the_regular_expression() {
    for text in [
        "",
        " ",
        "  ",
        "a  b",
        "a b",
        "a\nb",
        "a \n b",
        "\t\t\tx  ",
        "a\u{a0}\u{a0}b",
        "a\u{2003} b\u{3000}",
        "  a   b    c  ",
        "one\r\ntwo\n\nthree",
        "é  ü",
    ] {
        assert_eq!(collapse_whitespace(text), collapse_with_regex(text), "for {:?}", text);
    }
}

#[test]
fn identifiers_agree_with_the_regular_expression() {
    for content in [
        "## Method-call expressions",
        "## title <span dir=rtl>foo</span>",
        "a < b > c",
        "a < b",
        "a > b < c",
        "a <b\nc> d",
        "a <<b>> c",
        "<>",
        "<",
        "x <a href=\"y>z\">w</a>",
        "&lt;<i>&gt;</i>&amp;",
        "<b>&l<i>t;</b>",
        "### <code>&lt;T&gt;</code> and 'quotes'",
        "  # <!-- c --> Title # ",
    ] {
        assert_eq!(id_from_content(content), id_with_regex(content), "for {:?}", content);
    }
}

#[test]
fn attributes_agree_with_the_regular_expressions() {
    let samples = [
        "<a href=\"x.md\">x</a>",
        "<a class=\"c\" href=\"x.md#y\" title=\"t\">x</a>",
        "<a name=\"top\"></a>",
        "<a name=\"top\" href=\"x.md\">",
        "<img src=\"i.png\">",
        "<img alt=\"a\" src=\"a.png\"><img src=\"b.png\">",
        "<a <a href=\"x.md\">",
        "<a x=\"<a href=\"y.md\">",
        "<a href=\"a>b.md\">",
        "<a title=\">\" href=\"x.md\">",
        "<a href=\"\" href=\"x.md\">",
        "<a href=\"abc href=\"x.md\">",
        "<a href=\"x.md",
        "<a href=\"",
        "<a href=",
        "<a ",
        "<a",
        "<abbr href=\"x.md\">",
        "<a\nhref=\"x.md\">",
        "<a \n href=\"x.md\"\n>",
        "text href=\"x.md\" <b> src=\"i.png\"",
        "<img src=\"a.png\" <a href=\"b.md\">",
        "<a href=\"one.md\"><img src=\"two.png\"></a><a name=\"n\" href=\"#n\">",
        "<A HREF=\"x.md\">",
        "<a href='x.md'>",
        "<a href=\"é.md\">ü</a>",
        "",
    ];
    for page in [None, Some("chapter/sub.md"), Some("index.md")] {
        let ctx = LinkContext::new(page, &Vec::new());
        for html in samples {
            assert_eq!(
                fix_html(html, &ctx),
                fix_html_with_regex(html, page, &ctx),
                "for {:?} on {:?}",
                html,
                page
            );
        }
    }
}
