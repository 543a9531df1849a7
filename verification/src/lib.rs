//! Markdown of a book rendered to HTML, for a page on its own and for the
//! print page that holds the whole book.

pub mod escape;
pub mod footnotes;
pub mod html;
pub mod ids;
pub mod links;
pub mod paths;
pub mod redirects;
pub mod render;
pub mod text;
pub mod tokens;
pub mod transform;

pub use crate::escape::{bracket_escape, special_escape};
pub use crate::footnotes::{add_footnote_defs, Definition, Footnotes, Usage, Warning};
pub use crate::html::fix_html;
pub use crate::ids::{
    checked_unique_id_from_content, collapse_whitespace, id_from_content, normalize_id,
    unique_id_from_content, IdCounter,
};
pub use crate::links::{
    add_base, fix_a_links, fix_print_page_link, fix_resource_links, LinkContext,
};
pub use crate::paths::{normalize_path, normalize_print_page_id};
pub use crate::redirects::order_redirects;
pub use crate::render::{
    collate, render_markdown, render_markdown_with_path, render_markdown_with_path_and_redirects,
    render_markdown_with_warnings, render_tokens,
};
pub use crate::tokens::{new_cmark_parser, Extensions, Token, TokenKind};
pub use crate::transform::{adjust_links, clean_codeblock_headers, wrap_tables};
