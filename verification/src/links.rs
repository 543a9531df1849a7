//! Where a link, an image or an attribute of raw HTML points once a page is
//! rendered, alone or as part of the print page.

use crate::paths::{
    base_chars, base_of, dir_chars, dir_of, escapes_root, law_single_segment_is_normal,
    leaves_root, normalize_chars, page_id, page_id_of, print_page_id_of, slice_of_all,
    spec_normalize_path, spec_normalize_print_page_id,
};
use crate::redirects::pairs_of;
use crate::text::{
    chars_of, ends_with, eq_ignore_ascii_case, eq_ignore_case, find_char, find_char_from,
    has_char, is_ascii_letter, is_prefix, is_suffix, lemma_find_char, push_all, push_range, push_str, replace_char,
    replace_char_in, slice_of, starts_with, string_of, trim_end_char, trim_end_char_of,
    trim_start_char, trim_start_char_of,
};
use vstd::prelude::*;

verus! {

/// What a destination is resolved against: the page being rendered, where it
/// is rendered for the print page, and the redirects of the book.
pub struct LinkContext {
    /// The page's path relative to the root of the book; `None` where the page
    /// is rendered alone.
    pub page: Option<Vec<char>>,
    /// Each redirect as the path that moved and where it moved to, in the
    /// order in which they are tried.
    pub redirects: Vec<(Vec<char>, Vec<char>)>,
}

/// The mathematical content of a `LinkContext`.
pub struct LinkContextView {
    pub page: Option<Seq<char>>,
    pub redirects: Seq<(Seq<char>, Seq<char>)>,
}

impl View for LinkContext {
    type V = LinkContextView;

    open spec fn view(&self) -> LinkContextView {
        LinkContextView {
            page: match self.page {
                Some(p) => Some(p@),
                None => None,
            },
            redirects: Seq::new(
                self.redirects@.len(),
                |i: int| (self.redirects@[i].0@, self.redirects@[i].1@),
            ),
        }
    }
}

/// What the context of a page is made of: the path of the page on the print
/// page, and the redirects in the order in which they are tried.
pub open spec fn context_of(page: Option<Seq<char>>, redirects: Seq<(String, String)>)
    -> LinkContextView {
    LinkContextView { page, redirects: pairs_of(redirects) }
}

/// The text of an optional string.
pub open spec fn text_of(s: Option<&str>) -> Option<Seq<char>> {
    match s {
        Some(s) => Some(s@),
        None => None,
    }
}

/// The number of ASCII letters that `s` starts with, counted from `from`.
pub open spec fn letter_run(s: Seq<char>, from: int) -> int
    decreases s.len() - from,
{
    if 0 <= from < s.len() && is_ascii_letter(s[from]) {
        1 + letter_run(s, from + 1)
    } else {
        0
    }
}

/// Whether a destination names a scheme: it starts with one ASCII letter or
/// more, and a `:` follows them.
pub open spec fn is_scheme_link(dest: Seq<char>) -> bool {
    let n = letter_run(dest, 0);
    n > 0 && n < dest.len() && dest[n] == ':'
}

/// A relative destination with `.md` before its fragment turned into `.html`.
/// The fragment starts at the first `#`. Any other destination is unchanged.
pub open spec fn html_extension(dest: Seq<char>) -> Seq<char> {
    let k = find_char(dest, '#');
    if is_suffix(".md"@, dest.take(k)) {
        dest.take(k - 3) + ".html"@ + dest.skip(k)
    } else {
        dest
    }
}

/// Where an image or another resource is found: a destination with a scheme or
/// a `/` at the start is left alone, any other is taken from the page's
/// directory.
pub open spec fn spec_fix_resource_link(dest: Seq<char>, page: Option<Seq<char>>) -> Seq<char> {
    if is_scheme_link(dest) || is_prefix("/"@, dest) {
        dest
    } else {
        base_of(page) + dest
    }
}

/// Whether the redirect of `source` is meant by the normal path `normal`: the
/// normal form of `source` equals `normal`, or `normal` without its fragment,
/// but for the case of ASCII letters.
pub open spec fn redirect_matches(source: Seq<char>, normal: Seq<char>) -> bool {
    let s = spec_normalize_path(trim_start_char(source, '/'));
    eq_ignore_ascii_case(s, normal) || eq_ignore_ascii_case(
        s,
        normal.take(find_char(normal, '#')),
    )
}

/// The index of the first redirect at or after `from` that `normal` means, or
/// the number of redirects.
pub open spec fn first_redirect(
    normal: Seq<char>,
    redirects: Seq<(Seq<char>, Seq<char>)>,
    from: int,
) -> int
    decreases redirects.len() - from,
{
    if from < 0 || from >= redirects.len() {
        redirects.len() as int
    } else if redirect_matches(redirects[from].0, normal) {
        from
    } else {
        first_redirect(normal, redirects, from + 1)
    }
}

/// Where the redirect from `source` to `target` sends the normal path
/// `normal`. A target with a scheme is taken as it is, any other from the
/// directory of `normal`. Where `source` has no `#`, the fragment of `normal`
/// is kept: after a `#`, or after a `-` where the target has a `#` already.
pub open spec fn redirected(normal: Seq<char>, source: Seq<char>, target: Seq<char>) -> Seq<
    char,
> {
    let k = find_char(normal, '#');
    let base = trim_end_char(
        trim_start_char(spec_normalize_path(dir_of(normal.take(k))), '/'),
        '/',
    );
    let moved = if is_scheme_link(target) {
        target
    } else if base.len() > 0 {
        base.push('/') + target
    } else {
        trim_start_char(target, '/')
    };
    if !source.contains('#') && k < normal.len() {
        if moved.contains('#') {
            moved.push('-') + normal.skip(k + 1)
        } else {
            moved.push('#') + normal.skip(k + 1)
        }
    } else {
        moved
    }
}

/// Where a normal path inside the book points on the print page. The first
/// redirect that it means is followed, once. A redirect to a target with a
/// scheme gives that destination. Otherwise a path that leads out of the book
/// stays as it is, and any other becomes the fragment `#` and its identifier.
pub open spec fn spec_fix_print_page_link(
    normal: Seq<char>,
    redirects: Seq<(Seq<char>, Seq<char>)>,
) -> Seq<char> {
    let i = first_redirect(normal, redirects, 0);
    if i < redirects.len() && is_scheme_link(redirects[i].1) {
        redirected(normal, redirects[i].0, redirects[i].1)
    } else {
        let path = if i < redirects.len() {
            spec_normalize_path(redirected(normal, redirects[i].0, redirects[i].1))
        } else {
            normal
        };
        if escapes_root(path) {
            path
        } else {
            seq!['#'] + spec_normalize_print_page_id(path)
        }
    }
}

/// Where a link points once rendered.
///
/// - A fragment alone stays on a page rendered alone; on the print page it
///   becomes `#`, the page's identifier, and the fragment with `-` for each `#`.
/// - A destination with a scheme or a `/` at the start is left alone.
/// - Any other is taken from the page's directory, with `.md` turned into
///   `.html`. Where the normal form of that leads out of the book, the
///   destination stays as it was taken from the directory. Otherwise the
///   result is the normal form on a page rendered alone, and a fragment of the
///   print page there.
pub open spec fn spec_fix_link(dest: Seq<char>, ctx: LinkContextView) -> Seq<char> {
    if is_prefix("#"@, dest) {
        match ctx.page {
            Some(p) => seq!['#'] + page_id(p) + replace_char(dest, '#', '-'),
            None => dest,
        }
    } else if is_scheme_link(dest) || is_prefix("/"@, dest) {
        dest
    } else {
        let fixed = base_of(ctx.page) + html_extension(dest);
        let normal = spec_normalize_path(fixed);
        if escapes_root(normal) {
            fixed
        } else if ctx.page is Some {
            spec_fix_print_page_link(normal, ctx.redirects)
        } else {
            normal
        }
    }
}

/// The name of an anchor once rendered: on the print page the page's
/// identifier and `-` stand before it.
pub open spec fn spec_fix_anchor_name(name: Seq<char>, page: Option<Seq<char>>) -> Seq<char> {
    match page {
        Some(p) => page_id(p).push('-') + name,
        None => name,
    }
}

/// Whether `s` starts with the letters of a scheme and a `:`.
pub(crate) fn has_scheme(s: &Vec<char>) -> (r: bool)
    ensures
        r == is_scheme_link(s@),
{
    let mut i: usize = 0;
    while i < s.len() && (('a' <= s[i] && s[i] <= 'z') || ('A' <= s[i] && s[i] <= 'Z'))
        invariant
            i <= s.len(),
            letter_run(s@, 0) == i + letter_run(s@, i as int),
        decreases s.len() - i,
    {
        i += 1;
    }
    i > 0 && i < s.len() && s[i] == ':'
}

/// `dest` with `.md` before its fragment turned into `.html`.
pub(crate) fn html_extension_of(dest: &Vec<char>) -> (r: Vec<char>)
    ensures
        r@ == html_extension(dest@),
{
    let k = find_char_from(dest, 0, '#');
    assert(dest@.skip(0) == dest@);
    let path = slice_of(dest, 0, k);
    assert(dest@.subrange(0, k as int) == dest@.take(k as int));
    if ends_with(&path, ".md") {
        proof {
            reveal_strlit(".md");
        }
        let mut r = slice_of(dest, 0, k - 3);
        push_str(&mut r, ".html");
        push_range(&mut r, dest, k, dest.len());
        assert(dest@.subrange(0, k - 3) == dest@.take(k - 3));
        assert(dest@.subrange(k as int, dest@.len() as int) == dest@.skip(k as int));
        r
    } else {
        slice_of_all(dest)
    }
}

/// Where an image or another resource is found.
pub(crate) fn fix_resource_chars(dest: &Vec<char>, page: Option<&Vec<char>>) -> (r: Vec<char>)
    ensures
        r@ == spec_fix_resource_link(
            dest@,
            match page {
                Some(p) => Some(p@),
                None => None,
            },
        ),
{
    if has_scheme(dest) || starts_with(dest, "/") {
        slice_of_all(dest)
    } else {
        let mut r = base_chars(page);
        push_all(&mut r, dest);
        r
    }
}

/// Whether the redirect of `source` is meant by the normal path `normal`.
fn means_redirect(source: &Vec<char>, normal: &Vec<char>) -> (r: bool)
    ensures
        r == redirect_matches(source@, normal@),
{
    let s = normalize_chars(&trim_start_char_of(source, '/'));
    if eq_ignore_case(&s, normal) {
        return true;
    }
    let k = find_char_from(normal, 0, '#');
    assert(normal@.skip(0) == normal@);
    let path = slice_of(normal, 0, k);
    assert(normal@.subrange(0, k as int) == normal@.take(k as int));
    eq_ignore_case(&s, &path)
}

/// Where the redirect from `source` to `target` sends `normal`.
fn follow_redirect(normal: &Vec<char>, source: &Vec<char>, target: &Vec<char>) -> (r: Vec<char>)
    ensures
        r@ == redirected(normal@, source@, target@),
{
    let k = find_char_from(normal, 0, '#');
    assert(normal@.skip(0) == normal@);
    let path = slice_of(normal, 0, k);
    assert(normal@.subrange(0, k as int) == normal@.take(k as int));
    let mut moved = if has_scheme(target) {
        slice_of_all(target)
    } else {
        let dir = normalize_chars(&dir_chars(&path));
        let mut base = trim_end_char_of(&trim_start_char_of(&dir, '/'), '/');
        if base.len() > 0 {
            base.push('/');
            push_all(&mut base, target);
            base
        } else {
            trim_start_char_of(target, '/')
        }
    };
    if !has_char(source, '#') && k < normal.len() {
        if has_char(&moved, '#') {
            moved.push('-');
        } else {
            moved.push('#');
        }
        push_range(&mut moved, normal, k + 1, normal.len());
        assert(normal@.subrange(k + 1, normal@.len() as int) == normal@.skip(k + 1));
    }
    moved
}

/// Where a normal path inside the book points on the print page.
pub(crate) fn fix_print_page_chars(normal: &Vec<char>, redirects: &Vec<(Vec<char>, Vec<char>)>) -> (r:
    Vec<char>)
    ensures
        r@ == spec_fix_print_page_link(
            normal@,
            Seq::new(redirects@.len(), |i: int| (redirects@[i].0@, redirects@[i].1@)),
        ),
{
    let ghost table = Seq::new(redirects@.len(), |i: int| (redirects@[i].0@, redirects@[i].1@));
    let mut i: usize = 0;
    while i < redirects.len() && !means_redirect(&redirects[i].0, normal)
        invariant
            i <= redirects.len(),
            table == Seq::new(redirects@.len(), |i: int| (redirects@[i].0@, redirects@[i].1@)),
            first_redirect(normal@, table, 0) == first_redirect(normal@, table, i as int),
        decreases redirects.len() - i,
    {
        i += 1;
    }
    let path = if i < redirects.len() {
        let moved = follow_redirect(normal, &redirects[i].0, &redirects[i].1);
        if has_scheme(&redirects[i].1) {
            return moved;
        }
        normalize_chars(&moved)
    } else {
        slice_of_all(normal)
    };
    if leaves_root(&path) {
        path
    } else {
        let mut r: Vec<char> = Vec::new();
        r.push('#');
        push_all(&mut r, &print_page_id_of(&path));
        r
    }
}

/// Where a link points once rendered.
pub(crate) fn fix_link_chars(dest: &Vec<char>, ctx: &LinkContext) -> (r: Vec<char>)
    ensures
        r@ == spec_fix_link(dest@, ctx@),
{
    if starts_with(dest, "#") {
        return match &ctx.page {
            Some(p) => {
                let mut r: Vec<char> = Vec::new();
                r.push('#');
                push_all(&mut r, &page_id_of(p));
                push_all(&mut r, &replace_char_in(dest, '#', '-'));
                r
            },
            None => slice_of_all(dest),
        };
    }
    if has_scheme(dest) || starts_with(dest, "/") {
        return slice_of_all(dest);
    }
    let mut fixed = base_chars(ctx.page.as_ref());
    push_all(&mut fixed, &html_extension_of(dest));
    let normal = normalize_chars(&fixed);
    if leaves_root(&normal) {
        fixed
    } else if ctx.page.is_some() {
        fix_print_page_chars(&normal, &ctx.redirects)
    } else {
        normal
    }
}

/// The name of an anchor once rendered.
pub(crate) fn fix_anchor_name_chars(name: &Vec<char>, page: Option<&Vec<char>>) -> (r: Vec<char>)
    ensures
        r@ == spec_fix_anchor_name(
            name@,
            match page {
                Some(p) => Some(p@),
                None => None,
            },
        ),
{
    match page {
        Some(p) => {
            let mut r = page_id_of(p);
            r.push('-');
            push_all(&mut r, name);
            r
        },
        None => slice_of_all(name),
    }
}

impl LinkContext {
    /// The context of a page. `page` is its path from the root of the book
    /// where it is rendered for the print page. The redirects are tried in
    /// the order given.
    pub fn new(page: Option<&str>, redirects: &Vec<(String, String)>) -> (ctx: LinkContext)
        ensures
            ctx@ == context_of(text_of(page), redirects@),
    {
        let page_chars = match page {
            Some(p) => Some(chars_of(p)),
            None => None,
        };
        let mut table: Vec<(Vec<char>, Vec<char>)> = Vec::new();
        let mut i: usize = 0;
        while i < redirects.len()
            invariant
                i <= redirects.len(),
                table.len() == i,
                forall|k: int|
                    0 <= k < i ==> (#[trigger] table[k]).0@ == redirects[k].0@ && table[k].1@
                        == redirects[k].1@,
            decreases redirects.len() - i,
        {
            table.push((chars_of(redirects[i].0.as_str()), chars_of(redirects[i].1.as_str())));
            i += 1;
        }
        let ctx = LinkContext { page: page_chars, redirects: table };
        assert(ctx@.redirects =~= context_of(text_of(page), redirects@).redirects);
        ctx
    }
}

/// What is put before a relative destination on a page: the directory of the
/// page and a `/`, or nothing where there is no page or it lies in the root.
pub fn add_base(path: Option<&str>) -> (base: String)
    ensures
        base@ == base_of(text_of(path)),
{
    match path {
        Some(p) => {
            let chars = chars_of(p);
            string_of(&base_chars(Some(&chars)))
        },
        None => String::new(),
    }
}

/// Where an image or another resource is found once the page is rendered.
pub fn fix_resource_links(dest: &str, path: Option<&str>) -> (fixed: String)
    ensures
        fixed@ == spec_fix_resource_link(dest@, text_of(path)),
{
    match path {
        Some(p) => {
            let chars = chars_of(p);
            string_of(&fix_resource_chars(&chars_of(dest), Some(&chars)))
        },
        None => string_of(&fix_resource_chars(&chars_of(dest), None)),
    }
}

/// Where a normal path inside the book points on the print page.
pub fn fix_print_page_link(normalized_path: String, redirects: &Vec<(String, String)>) -> (fixed:
    String)
    ensures
        fixed@ == spec_fix_print_page_link(
            normalized_path@,
            context_of(None, redirects@).redirects,
        ),
{
    let ctx = LinkContext::new(None, redirects);
    string_of(&fix_print_page_chars(&chars_of(normalized_path.as_str()), &ctx.redirects))
}

/// Where a link points once the page is rendered.
pub fn fix_a_links(dest: &str, ctx: &LinkContext) -> (fixed: String)
    ensures
        fixed@ == spec_fix_link(dest@, ctx@),
{
    string_of(&fix_link_chars(&chars_of(dest), ctx))
}

/// A destination with a scheme is left as it is, for a link and for a
/// resource, on every page.
pub proof fn law_scheme_links_are_untouched(dest: Seq<char>, ctx: LinkContextView)
    requires
        is_scheme_link(dest),
    ensures
        spec_fix_link(dest, ctx) == dest,
        spec_fix_resource_link(dest, ctx.page) == dest,
{
    reveal_strlit("#");
    assert(is_ascii_letter(dest[0]));
    if is_prefix("#"@, dest) {
        assert(dest.subrange(0, 1)[0] == '#');
    }
}

/// On a page rendered alone a fragment is left as it is.
pub proof fn law_fragment_stays_on_its_page(dest: Seq<char>, redirects: Seq<(Seq<char>, Seq<char>)>)
    requires
        is_prefix("#"@, dest),
    ensures
        spec_fix_link(dest, LinkContextView { page: None, redirects }) == dest,
{
}

/// On the print page a fragment without a further `#` gets the identifier of
/// its page before it: `#`, the identifier, `-` and the fragment.
pub proof fn law_fragment_on_the_print_page(
    fragment: Seq<char>,
    page: Seq<char>,
    redirects: Seq<(Seq<char>, Seq<char>)>,
)
    requires
        !fragment.contains('#'),
    ensures
        spec_fix_link(seq!['#'] + fragment, LinkContextView { page: Some(page), redirects })
            == (seq!['#'] + page_id(page)).push('-') + fragment,
{
    reveal_strlit("#");
    let dest = seq!['#'] + fragment;
    assert(dest.subrange(0, 1) =~= "#"@);
    assert forall|i: int| 0 <= i < fragment.len() implies fragment[i] != '#' by {
        assert(fragment.contains(fragment[i]));
    }
    assert(replace_char(dest, '#', '-') =~= seq!['-'] + fragment);
    assert(seq!['#'] + page_id(page) + (seq!['-'] + fragment) =~= (seq!['#'] + page_id(page)).push(
        '-',
    ) + fragment);
}

/// `.md` at the end of a destination, or before its fragment, becomes `.html`,
/// and the fragment stays as it is.
pub proof fn law_markdown_extension_becomes_html(stem: Seq<char>, fragment: Seq<char>)
    requires
        !stem.contains('#'),
        fragment.len() == 0 || fragment[0] == '#',
    ensures
        html_extension(stem + ".md"@ + fragment) == stem + ".html"@ + fragment,
{
    reveal_strlit(".md");
    let dest = stem + ".md"@ + fragment;
    let k = find_char(dest, '#');
    let n = stem.len() + 3;
    lemma_find_char(dest, '#');
    assert forall|i: int| 0 <= i < n implies dest[i] != '#' by {
        if i < stem.len() {
            assert(stem.contains(stem[i]));
        }
    }
    if fragment.len() > 0 {
        assert(dest[n as int] == '#');
    }
    assert(k == n);
    assert(dest.take(k) =~= stem + ".md"@);
    assert(dest.take(k).subrange(dest.take(k).len() - 3, dest.take(k).len() as int) =~= ".md"@);
    assert(dest.take(k - 3) =~= stem);
    assert(dest.skip(k) =~= fragment);
}

/// A link to a page of markdown beside a page rendered alone points to the
/// page of HTML, with its fragment, and rendering the result again changes
/// nothing. The link is a name without `#`, `/` or `\`, `.md`, and a fragment
/// without `/` or `\` or none; it names no scheme.
pub proof fn law_link_to_a_page_beside(
    stem: Seq<char>,
    fragment: Seq<char>,
    redirects: Seq<(Seq<char>, Seq<char>)>,
)
    requires
        !stem.contains('#'),
        fragment.len() == 0 || fragment[0] == '#',
        !(stem + fragment).contains('/'),
        !(stem + fragment).contains('\\'),
        !is_scheme_link(stem + ".md"@ + fragment),
        !is_scheme_link(stem + ".html"@ + fragment),
    ensures
        ({
            let alone = LinkContextView { page: None, redirects };
            let fixed = stem + ".html"@ + fragment;
            &&& spec_fix_link(stem + ".md"@ + fragment, alone) == fixed
            &&& spec_fix_link(fixed, alone) == fixed
        }),
{
    reveal_strlit(".md");
    reveal_strlit(".html");
    reveal_strlit("#");
    let alone = LinkContextView { page: None, redirects };
    let link = stem + ".md"@ + fragment;
    let fixed = stem + ".html"@ + fragment;
    law_markdown_extension_becomes_html(stem, fragment);
    assert(Seq::<char>::empty() + fixed =~= fixed);
    // The result is one segment.
    assert forall|i: int| 0 <= i < fixed.len() implies fixed[i] != '/' && fixed[i] != '\\' by {
        if i < stem.len() {
            assert((stem + fragment).contains((stem + fragment)[i]));
        } else if i >= stem.len() + 5 {
            assert((stem + fragment).contains((stem + fragment)[i - 5]));
        }
    }
    assert(fixed.len() >= 5);
    law_single_segment_is_normal(fixed);
    // Neither the link nor the result starts with `#`.
    if stem.len() > 0 {
        assert(stem.contains(stem[0]));
    }
    assert(link[0] != '#');
    assert(fixed[0] != '#');
    assert(!is_prefix("#"@, link)) by {
        if is_prefix("#"@, link) {
            assert(link.subrange(0, 1)[0] == '#');
        }
    }
    assert(!is_prefix("#"@, fixed)) by {
        if is_prefix("#"@, fixed) {
            assert(fixed.subrange(0, 1)[0] == '#');
        }
    }
    reveal_strlit("/");
    assert(!is_prefix("/"@, link)) by {
        if is_prefix("/"@, link) {
            assert(link.subrange(0, 1)[0] == '/');
            assert(link[0] == fixed[0]);
        }
    }
    assert(!is_prefix("/"@, fixed)) by {
        if is_prefix("/"@, fixed) {
            assert(fixed.subrange(0, 1)[0] == '/');
        }
    }
    // The result keeps its extension.
    lemma_html_extension_of_html(stem, fragment);
}

/// A destination that ends with `.html`, or has it before its fragment, keeps
/// its extension.
proof fn lemma_html_extension_of_html(stem: Seq<char>, fragment: Seq<char>)
    requires
        !stem.contains('#'),
        fragment.len() == 0 || fragment[0] == '#',
    ensures
        html_extension(stem + ".html"@ + fragment) == stem + ".html"@ + fragment,
{
    reveal_strlit(".md");
    reveal_strlit(".html");
    let dest = stem + ".html"@ + fragment;
    let k = find_char(dest, '#');
    let n = stem.len() + 5;
    lemma_find_char(dest, '#');
    assert forall|i: int| 0 <= i < n implies dest[i] != '#' by {
        if i < stem.len() {
            assert(stem.contains(stem[i]));
        }
    }
    if fragment.len() > 0 {
        assert(dest[n as int] == '#');
    }
    assert(k == n);
    let path = dest.take(k);
    if is_suffix(".md"@, path) {
        assert(path.subrange(path.len() - 3, path.len() as int)[0] == '.');
        assert(path[path.len() - 3] == dest[n - 3]);
    }
}

} // verus!
