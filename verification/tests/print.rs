use mdbook_markdown::{
    render_markdown, render_markdown_with_path, render_markdown_with_path_and_redirects,
};

// Tests relative links from the print page.
#[test]
fn relative_links() {
    let page = "# Testing relative links for the print page\n\
\n\
When we link to [the first section](../first/nested.md), it should work on\n\
both the print page and the non-print page.\n\
\n\
A [fragment link](#some-section) should work.\n\
\n\
Link [outside](../../std/foo/bar.html).\n\
\n\
![Some image](../images/picture.png)\n\
\n\
<a href=\"../first/markdown.md\">HTML Link</a>\n\
\n\
<img src=\"../images/picture.png\" alt=\"raw html\">\n\
\n\
## Some section\n";
    let html = render_markdown_with_path(page, false, Some("second/nested.md"));
    let expected = r##"<p>When we link to <a href="#first-nested">the first section</a>, it should work on
both the print page and the non-print page.</p>
<p>A <a href="#second-nested-some-section">fragment link</a> should work.</p>
<p>Link <a href="second/../../std/foo/bar.html">outside</a>.</p>
<p><img src="second/../images/picture.png" alt="Some image" /></p>
<p><a href="#first-markdown">HTML Link</a></p>
<img src="second/../images/picture.png" alt="raw html">
"##;
    assert_eq!(
        html,
        format!(
            "<h1>Testing relative links for the print page</h1>\n{}<h2>Some section</h2>\n",
            expected
        )
    );
}

#[test]
fn a_fragment_on_the_print_page() {
    assert_eq!(
        render_markdown_with_path("[x](#a)", false, Some("chapter/sub.md")),
        "<p><a href=\"#chapter-sub-a\">x</a></p>\n"
    );
    assert_eq!(render_markdown("[x](#a)", false), "<p><a href=\"#a\">x</a></p>\n");
}

#[test]
fn scheme_links_are_untouched() {
    let html = render_markdown("[x](https://example.com/)", false);
    assert!(html.contains("href=\"https://example.com/\""));
    let html = render_markdown_with_path("[x](https://example.com/)", false, Some("a/b.md"));
    assert!(html.contains("href=\"https://example.com/\""));
}

#[test]
fn markdown_links_point_to_html() {
    assert!(render_markdown("[x](page.md)", false).contains("href=\"page.html\""));
    assert!(render_markdown("[x](page.md#a)", false).contains("href=\"page.html#a\""));
}

#[test]
fn an_email_address_is_no_link_to_a_page() {
    assert_eq!(
        render_markdown_with_path("<someone@example.com>", false, Some("a/b.md")),
        "<p><a href=\"mailto:someone@example.com\">someone@example.com</a></p>\n"
    );
}

#[test]
fn redirects_are_followed_on_the_print_page() {
    let redirects = vec![("/a/old.html".to_string(), "new.html".to_string())];
    assert_eq!(
        render_markdown_with_path_and_redirects("[x](old.md#s)", false, Some("a/b.md"), &redirects),
        "<p><a href=\"#a-new-s\">x</a></p>\n"
    );
    assert_eq!(
        render_markdown_with_path_and_redirects("[x](old.md#s)", false, None, &redirects),
        "<p><a href=\"old.html#s\">x</a></p>\n"
    );
}

#[test]
fn rendering_its_own_output_changes_nothing() {
    for text in [
        "[x](page.md)",
        "[x](page.md#a)",
        "[x](https://example.com/)",
        "![i](img/a.png)",
        "<a href=\"dir/x.md\">x</a>",
    ] {
        let once = render_markdown(text, false);
        let twice = render_markdown(&once, false);
        assert_eq!(once, twice);
    }
}

#[test]
fn a_table_is_wrapped() {
    let html = render_markdown("| a | b |\n|---|---|\n| c | d |\n", false);
    assert!(html.starts_with("<div class=\"table-wrapper\"><table>"), "{}", html);
    assert!(html.ends_with("</table>\n</div>"), "{}", html);
    assert_eq!(html.matches("<div class=\"table-wrapper\">").count(), 1);
    assert_eq!(html.matches("</div>").count(), 1);
}

#[test]
fn an_info_string_becomes_a_class_without_spaces() {
    let html = render_markdown("```rust,  no_run , ,property\n```\n", false);
    assert_eq!(
        html,
        "<pre><code class=\"language-rust,,,no_run,,,,property\"></code></pre>\n"
    );
    let html = render_markdown("```rust\tignore\n```\n", false);
    assert_eq!(html, "<pre><code class=\"language-rust,ignore\"></code></pre>\n");
}
