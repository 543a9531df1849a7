//! Relative paths of a book, as text with `/` between the segments: their
//! normal form, the directory of a page, and the identifier that a page has on
//! the print page.

use crate::text::{
    chars_of, contains_seq, contains_str, ends_with, is_prefix, is_suffix, lower_ascii, occurs_at,
    push_all,
    replace_all, replace_all_in, replace_char, replace_char_in, slice_of, starts_with, string_of,
    to_lower_ascii, trim_end_char, trim_end_char_of, trim_start_char, trim_start_char_of,
};
use vstd::prelude::*;

verus! {

/// The segments of `s`: what stands between its `/`. There is one more
/// segment than there are `/`; a segment may be empty.
pub open spec fn split_path(s: Seq<char>) -> Seq<Seq<char>>
    decreases s.len(),
{
    if s.len() == 0 {
        seq![Seq::<char>::empty()]
    } else {
        let init = split_path(s.drop_last());
        if s.last() == '/' {
            init.push(Seq::<char>::empty())
        } else {
            init.update(init.len() - 1, init.last().push(s.last()))
        }
    }
}

/// The segment `.`.
pub open spec fn cur_dir() -> Seq<char> {
    seq!['.']
}

/// The segment `..`.
pub open spec fn parent_dir() -> Seq<char> {
    seq!['.', '.']
}

/// The segments kept once `seg` has followed `kept`: an empty segment and `.`
/// change nothing; `..` takes the last kept segment away, or is kept itself
/// where there is none to take or the last one is a `..` that leads out of
/// the book already; any other segment is kept.
pub open spec fn resolve_step(kept: Seq<Seq<char>>, seg: Seq<char>) -> Seq<Seq<char>> {
    if seg.len() == 0 || seg == cur_dir() {
        kept
    } else if seg == parent_dir() {
        if kept.len() > 0 && kept.last() != parent_dir() {
            kept.drop_last()
        } else {
            kept.push(seg)
        }
    } else {
        kept.push(seg)
    }
}

/// The segments kept of `segs`, taken from the left.
pub open spec fn resolve(segs: Seq<Seq<char>>) -> Seq<Seq<char>>
    decreases segs.len(),
{
    if segs.len() == 0 {
        Seq::empty()
    } else {
        resolve_step(resolve(segs.drop_last()), segs.last())
    }
}

/// The segments with a `/` between each two.
pub open spec fn join_path(segs: Seq<Seq<char>>) -> Seq<char>
    decreases segs.len(),
{
    if segs.len() == 0 {
        Seq::empty()
    } else if segs.len() == 1 {
        segs[0]
    } else {
        join_path(segs.drop_last()).push('/') + segs.last()
    }
}

/// The normal form of a path: its kept segments joined by `/`, with a `/` at
/// the end where the path had one and a segment is kept, every `\` turned into
/// `/`, and no `/` at the start.
pub open spec fn spec_normalize_path(path: Seq<char>) -> Seq<char> {
    let kept = resolve(split_path(path));
    let joined = if path.len() > 0 && path.last() == '/' && kept.len() > 0 {
        join_path(kept).push('/')
    } else {
        join_path(kept)
    };
    trim_start_char(replace_char(joined, '\\', '/'), '/')
}

/// Whether a normal form still leads out of the book: it starts with `../` or
/// holds `/../`.
pub open spec fn escapes_root(path: Seq<char>) -> bool {
    is_prefix("../"@, path) || contains_seq(path, "/../"@)
}

/// `s` without `suffix` at its end, where it ends with it.
pub open spec fn strip_suffix(s: Seq<char>, suffix: Seq<char>) -> Seq<char> {
    if is_suffix(suffix, s) {
        s.take(s.len() - suffix.len())
    } else {
        s
    }
}

/// The identifier for a normal path on the print page: `/` becomes `-`, then
/// `.html#` becomes `-`, then `#` becomes `-`, ASCII capitals become small, and
/// `.html` at the end is dropped.
pub open spec fn spec_normalize_print_page_id(path: Seq<char>) -> Seq<char> {
    strip_suffix(
        lower_ascii(
            replace_char(replace_all(replace_char(path, '/', '-'), ".html#"@, "-"@), '#', '-'),
        ),
        ".html"@,
    )
}

/// The identifier of a page on the print page: that of the normal form of its
/// path without `.md` at the end.
pub open spec fn page_id(page: Seq<char>) -> Seq<char> {
    spec_normalize_print_page_id(spec_normalize_path(strip_suffix(page, ".md"@)))
}

/// The index of the last `c` in `s`, or -1 where there is none.
pub open spec fn rfind_char(s: Seq<char>, c: char) -> int
    decreases s.len(),
{
    if s.len() == 0 {
        -1
    } else if s.last() == c {
        s.len() - 1
    } else {
        rfind_char(s.drop_last(), c)
    }
}

/// The directory of a path: with the `/` at the end of the path set aside,
/// what stands before its last `/`, without `/` at the end; empty where the
/// path has a single segment.
pub open spec fn dir_of(path: Seq<char>) -> Seq<char> {
    let p = trim_end_char(path, '/');
    let k = rfind_char(p, '/');
    if k < 0 {
        Seq::empty()
    } else {
        trim_end_char(p.take(k), '/')
    }
}

/// What is put before a relative destination on a page: the page's directory
/// and a `/`, or nothing where there is no page or its directory is empty.
pub open spec fn base_of(page: Option<Seq<char>>) -> Seq<char> {
    match page {
        Some(p) => if dir_of(p).len() > 0 {
            dir_of(p).push('/')
        } else {
            Seq::empty()
        },
        None => Seq::empty(),
    }
}

/// Whether the segment `s[from..to]` is `.`.
fn is_cur_dir(s: &Vec<char>, from: usize, to: usize) -> (r: bool)
    requires
        from <= to <= s.len(),
    ensures
        r == (s@.subrange(from as int, to as int) == cur_dir()),
{
    let r = to - from == 1 && s[from] == '.';
    proof {
        let seg = s@.subrange(from as int, to as int);
        if r {
            assert(seg =~= cur_dir());
        } else if seg.len() == 1 {
            assert(seg[0] != cur_dir()[0]);
        }
    }
    r
}

/// Whether the segment `s[from..to]` is `..`.
fn is_parent_dir(s: &Vec<char>, from: usize, to: usize) -> (r: bool)
    requires
        from <= to <= s.len(),
    ensures
        r == (s@.subrange(from as int, to as int) == parent_dir()),
{
    let r = to - from == 2 && s[from] == '.' && s[from + 1] == '.';
    proof {
        let seg = s@.subrange(from as int, to as int);
        if r {
            assert(seg =~= parent_dir());
        } else if seg.len() == 2 {
            assert(seg[0] != parent_dir()[0] || seg[1] != parent_dir()[1]);
        }
    }
    r
}

/// Lets the segment `s[from..to]` follow the kept segments.
fn keep_segment(
    kept: &mut Vec<Vec<char>>,
    Ghost(model): Ghost<Seq<Seq<char>>>,
    s: &Vec<char>,
    from: usize,
    to: usize,
)
    requires
        from <= to <= s.len(),
        models(old(kept)@, model),
    ensures
        models(final(kept)@, resolve_step(model, s@.subrange(from as int, to as int))),
{
    if from == to || is_cur_dir(s, from, to) {
        // an empty segment and `.` change nothing
    } else if is_parent_dir(s, from, to) {
        let n = kept.len();
        let taken = if n > 0 {
            let last = &kept[n - 1];
            assert(last@.subrange(0, last@.len() as int) == last@);
            !is_parent_dir(last, 0, last.len())
        } else {
            false
        };
        if taken {
            kept.pop();
        } else {
            kept.push(slice_of(s, from, to));
        }
    } else {
        kept.push(slice_of(s, from, to));
    }
}

/// The kept segments are those of the model, one for one.
pub open spec fn models(kept: Seq<Vec<char>>, model: Seq<Seq<char>>) -> bool {
    kept.len() == model.len() && forall|k: int| 0 <= k < kept.len() ==> (#[trigger] kept[k])@
        == model[k]
}

/// The normal form of `path`.
pub(crate) fn normalize_chars(path: &Vec<char>) -> (r: Vec<char>)
    ensures
        r@ == spec_normalize_path(path@),
{
    let mut kept: Vec<Vec<char>> = Vec::new();
    let ghost mut done: Seq<Seq<char>> = Seq::empty();
    let mut start: usize = 0;
    let mut i: usize = 0;
    assert(path@.take(0) == Seq::<char>::empty());
    assert(split_path(Seq::<char>::empty()) == done.push(path@.subrange(0, 0)));
    while i < path.len()
        invariant
            start <= i <= path.len(),
            split_path(path@.take(i as int)) == done.push(path@.subrange(start as int, i as int)),
            models(kept@, resolve(done)),
        decreases path.len() - i,
    {
        let ghost cur = path@.subrange(start as int, i as int);
        assert(path@.take(i + 1).drop_last() == path@.take(i as int));
        if path[i] == '/' {
            keep_segment(&mut kept, Ghost(resolve(done)), path, start, i);
            proof {
                assert(done.push(cur).drop_last() == done);
                done = done.push(cur);
            }
            start = i + 1;
            assert(path@.subrange(start as int, i + 1) == Seq::<char>::empty());
        } else {
            assert(cur.push(path@[i as int]) == path@.subrange(start as int, i + 1));
            assert(done.push(cur).update(done.len() as int, cur.push(path@[i as int]))
                =~= done.push(cur.push(path@[i as int])));
        }
        i += 1;
    }
    assert(path@.take(i as int) == path@);
    keep_segment(&mut kept, Ghost(resolve(done)), path, start, i);
    proof {
        let cur = path@.subrange(start as int, i as int);
        assert(done.push(cur).drop_last() == done);
        done = done.push(cur);
    }
    let ghost model = resolve(done);
    let mut joined: Vec<char> = Vec::new();
    let mut k: usize = 0;
    assert(model.take(0) == Seq::<Seq<char>>::empty());
    while k < kept.len()
        invariant
            k <= kept.len(),
            models(kept@, model),
            joined@ == join_path(model.take(k as int)),
        decreases kept.len() - k,
    {
        assert(model.take(k + 1).drop_last() == model.take(k as int));
        if k > 0 {
            joined.push('/');
        }
        push_all(&mut joined, &kept[k]);
        assert(joined@ == join_path(model.take(k + 1))) by {
            if k == 0 {
                assert(join_path(model.take(1)) == model[0]);
                assert(Seq::<char>::empty() + model[0] == model[0]);
            }
        }
        k += 1;
    }
    assert(model.take(k as int) == model);
    if path.len() > 0 && path[path.len() - 1] == '/' && kept.len() > 0 {
        joined.push('/');
    }
    let slashed = replace_char_in(&joined, '\\', '/');
    trim_start_char_of(&slashed, '/')
}

/// Whether a normal form still leads out of the book.
pub(crate) fn leaves_root(path: &Vec<char>) -> (r: bool)
    ensures
        r == escapes_root(path@),
{
    starts_with(path, "../") || contains_str(path, "/../")
}

/// `s` without the text `suffix` at its end, where it ends with it.
pub(crate) fn strip_suffix_of(s: &Vec<char>, suffix: &str) -> (r: Vec<char>)
    ensures
        r@ == strip_suffix(s@, suffix@),
{
    if ends_with(s, suffix) {
        let n = chars_of(suffix).len();
        let r = slice_of(s, 0, s.len() - n);
        assert(s@.subrange(0, s@.len() - suffix@.len()) == s@.take(s@.len() - suffix@.len()));
        r
    } else {
        slice_of_all(s)
    }
}

/// A copy of `s`.
pub(crate) fn slice_of_all(s: &Vec<char>) -> (r: Vec<char>)
    ensures
        r@ == s@,
{
    let r = slice_of(s, 0, s.len());
    assert(s@.subrange(0, s@.len() as int) == s@);
    r
}

/// The identifier for a normal path on the print page.
pub(crate) fn print_page_id_of(path: &Vec<char>) -> (r: Vec<char>)
    ensures
        r@ == spec_normalize_print_page_id(path@),
{
    let a = replace_char_in(path, '/', '-');
    let b = replace_all_in(&a, ".html#", "-");
    let c = replace_char_in(&b, '#', '-');
    let d = to_lower_ascii(&c);
    strip_suffix_of(&d, ".html")
}

/// The identifier of a page on the print page.
pub(crate) fn page_id_of(page: &Vec<char>) -> (r: Vec<char>)
    ensures
        r@ == page_id(page@),
{
    let stem = strip_suffix_of(page, ".md");
    let normal = normalize_chars(&stem);
    print_page_id_of(&normal)
}

/// The directory of a path.
pub(crate) fn dir_chars(path: &Vec<char>) -> (r: Vec<char>)
    ensures
        r@ == dir_of(path@),
{
    let p = trim_end_char_of(path, '/');
    let mut j: usize = p.len();
    assert(p@.take(j as int) == p@);
    while j > 0 && p[j - 1] != '/'
        invariant
            j <= p.len(),
            rfind_char(p@, '/') == rfind_char(p@.take(j as int), '/'),
        decreases j,
    {
        assert(p@.take(j as int).drop_last() == p@.take(j - 1));
        j -= 1;
    }
    if j == 0 {
        Vec::new()
    } else {
        let head = slice_of(&p, 0, j - 1);
        assert(p@.subrange(0, j - 1) == p@.take(j - 1));
        trim_end_char_of(&head, '/')
    }
}

/// What is put before a relative destination on a page.
pub(crate) fn base_chars(page: Option<&Vec<char>>) -> (r: Vec<char>)
    ensures
        r@ == base_of(
            match page {
                Some(p) => Some(p@),
                None => None,
            },
        ),
{
    match page {
        Some(p) => {
            let mut d = dir_chars(p);
            if d.len() > 0 {
                d.push('/');
            }
            d
        },
        None => Vec::new(),
    }
}

/// The normal form of a path: `.` segments and empty segments are dropped, a
/// `..` cancels the segment kept before it unless that is a `..` itself, `\`
/// becomes `/`, and nothing stands before the first segment. A `/` at the end
/// stays. A path that leads out of the book keeps its `..` at the start.
pub fn normalize_path(path: &str) -> (r: String)
    ensures
        r@ == spec_normalize_path(path@),
{
    let p = chars_of(path);
    let n = normalize_chars(&p);
    string_of(&n)
}

/// The identifier that a normal path has on the print page.
pub fn normalize_print_page_id(path: String) -> (r: String)
    ensures
        r@ == spec_normalize_print_page_id(path@),
{
    let p = chars_of(path.as_str());
    let n = print_page_id_of(&p);
    string_of(&n)
}

/// A normal form starts with no `/` and holds no `\`.
pub proof fn law_normal_path_has_no_root(path: Seq<char>)
    ensures
        spec_normalize_path(path).len() > 0 ==> spec_normalize_path(path)[0] != '/',
        !spec_normalize_path(path).contains('\\'),
{
    let kept = resolve(split_path(path));
    let joined = if path.len() > 0 && path.last() == '/' && kept.len() > 0 {
        join_path(kept).push('/')
    } else {
        join_path(kept)
    };
    let slashed = replace_char(joined, '\\', '/');
    lemma_trim_start_char(slashed, '/');
    let r = spec_normalize_path(path);
    if r.contains('\\') {
        let i = choose|i: int| 0 <= i < r.len() && r[i] == '\\';
        let n = slashed.len() - r.len();
        assert(r[i] == slashed[i + n]);
    }
}

/// What `trim_start_char` gives is the end of the text, and does not start
/// with the character.
pub proof fn lemma_trim_start_char(s: Seq<char>, c: char)
    ensures
        trim_start_char(s, c).len() <= s.len(),
        trim_start_char(s, c) == s.skip(s.len() - trim_start_char(s, c).len()),
        trim_start_char(s, c).len() > 0 ==> trim_start_char(s, c)[0] != c,
    decreases s.len(),
{
    if s.len() > 0 && s[0] == c {
        lemma_trim_start_char(s.skip(1), c);
        let t = trim_start_char(s, c);
        assert(s.skip(1).skip(s.len() - 1 - t.len()) =~= s.skip(s.len() - t.len()));
    } else {
        assert(s.skip(0) =~= s);
    }
}

/// A path of one segment is its own normal form and stays in the book: a
/// path that is not empty, holds no `/` and no `\`, and is neither `.` nor
/// `..`.
pub proof fn law_single_segment_is_normal(path: Seq<char>)
    requires
        path.len() > 0,
        !path.contains('/'),
        !path.contains('\\'),
        path != cur_dir(),
        path != parent_dir(),
    ensures
        spec_normalize_path(path) == path,
        !escapes_root(path),
{
    lemma_split_without_slash(path);
    let segs = seq![path];
    assert(segs.drop_last() =~= Seq::<Seq<char>>::empty());
    assert(resolve(segs.drop_last()) =~= Seq::<Seq<char>>::empty());
    assert(resolve(segs) =~= segs);
    assert(join_path(segs) == path);
    assert(path.contains(path.last()));
    assert(path.contains(path[0]));
    assert forall|i: int| 0 <= i < path.len() implies path[i] != '\\' by {
        assert(path.contains(path[i]));
    }
    assert(replace_char(path, '\\', '/') =~= path);
    assert(trim_start_char(path, '/') == path);
    reveal_strlit("../");
    reveal_strlit("/../");
    if is_prefix("../"@, path) {
        assert(path.subrange(0, 3)[2] == '/');
        assert(path.contains(path[2]));
    }
    if contains_seq(path, "/../"@) {
        let i = choose|i: int| occurs_at("/../"@, path, i);
        assert(path.subrange(i, i + 4)[0] == '/');
        assert(path.contains(path[i]));
    }
}

/// A text without `/` is one segment.
proof fn lemma_split_without_slash(s: Seq<char>)
    requires
        !s.contains('/'),
    ensures
        split_path(s) == seq![s],
    decreases s.len(),
{
    if s.len() == 0 {
        assert(s =~= Seq::<char>::empty());
    } else {
        let init = s.drop_last();
        assert forall|i: int| 0 <= i < init.len() implies init[i] != '/' by {
            assert(s.contains(s[i]));
        }
        lemma_split_without_slash(init);
        assert(s.contains(s.last()));
        assert(init.push(s.last()) =~= s);
        assert(seq![init].update(0, init.push(s.last())) =~= seq![s]);
    }
}

/// Whether kept segments are those of a normal form: none is empty or `.`,
/// and a `..` has only `..` before it.
pub open spec fn is_resolved(kept: Seq<Seq<char>>) -> bool {
    &&& forall|i: int| 0 <= i < kept.len() ==> (#[trigger] kept[i]).len() > 0 && kept[i] != cur_dir()
    &&& forall|i: int, j: int|
        0 <= i < j < kept.len() && kept[j] == parent_dir() ==> kept[i] == parent_dir()
}

/// No segment holds the character `c`.
pub open spec fn segments_without(segs: Seq<Seq<char>>, c: char) -> bool {
    forall|i: int| 0 <= i < segs.len() ==> !(#[trigger] segs[i]).contains(c)
}

/// The segments that a normal form is made of hold `..` only at the start:
/// a `..` that leads out of the book is never taken away, and none is left
/// behind a segment that stays in the book. No kept segment is empty, is `.`
/// or holds a `/`.
pub proof fn law_parents_come_first(path: Seq<char>)
    ensures
        is_resolved(resolve(split_path(path))),
        segments_without(resolve(split_path(path)), '/'),
{
    lemma_split_segments_without(path, '/');
    lemma_resolve_is_resolved(split_path(path));
    lemma_resolve_keeps_segments_without(split_path(path), '/');
}

/// A path whose kept segments start with `..` and go on has a normal form
/// that starts with `../`: it leads out of the book, and the normal form says
/// so. The path holds no `\`.
pub proof fn law_way_out_is_kept(path: Seq<char>)
    requires
        !path.contains('\\'),
        resolve(split_path(path)).len() >= 2,
        resolve(split_path(path))[0] == parent_dir(),
    ensures
        is_prefix("../"@, spec_normalize_path(path)),
        escapes_root(spec_normalize_path(path)),
{
    reveal_strlit("../");
    let kept = resolve(split_path(path));
    let joined = join_path(kept);
    lemma_split_segments_without(path, '\\');
    lemma_resolve_keeps_segments_without(split_path(path), '\\');
    lemma_join_without(kept, '\\');
    lemma_join_of_segments(kept);
    lemma_join_second(kept);
    assert(joined[0] == '.' && joined[1] == '.' && joined[2] == '/');
    let whole = if path.len() > 0 && path.last() == '/' {
        joined.push('/')
    } else {
        joined
    };
    assert forall|i: int| 0 <= i < whole.len() implies whole[i] != '\\' by {
        if i < joined.len() {
            assert(joined.contains(joined[i]));
        }
    }
    assert(replace_char(whole, '\\', '/') =~= whole);
    assert(trim_start_char(whole, '/') == whole);
    assert(whole.subrange(0, 3) =~= "../"@);
}

/// Behind the first of two or more joined segments stands a `/`.
proof fn lemma_join_second(segs: Seq<Seq<char>>)
    requires
        segs.len() >= 2,
    ensures
        join_path(segs).len() > segs[0].len(),
        join_path(segs)[segs[0].len() as int] == '/',
    decreases segs.len(),
{
    let init = segs.drop_last();
    assert(init[0] == segs[0]);
    if segs.len() > 2 {
        lemma_join_second(init);
    } else {
        assert(join_path(init) == segs[0]);
    }
}

/// A normal form is its own normal form, where the path holds no `\`.
pub proof fn law_normal_form_is_normal(path: Seq<char>)
    requires
        !path.contains('\\'),
    ensures
        spec_normalize_path(spec_normalize_path(path)) == spec_normalize_path(path),
{
    let segs = split_path(path);
    let kept = resolve(segs);
    lemma_split_segments_without(path, '/');
    lemma_split_segments_without(path, '\\');
    lemma_resolve_is_resolved(segs);
    lemma_resolve_keeps_segments_without(segs, '/');
    lemma_resolve_keeps_segments_without(segs, '\\');
    let normal = spec_normalize_path(path);
    if kept.len() == 0 {
        assert(join_path(kept) =~= Seq::<char>::empty());
        assert(replace_char(Seq::<char>::empty(), '\\', '/') =~= Seq::<char>::empty());
        assert(normal =~= Seq::<char>::empty());
        assert(split_path(normal) == seq![Seq::<char>::empty()]);
        assert(seq![Seq::<char>::empty()].drop_last() =~= Seq::<Seq<char>>::empty());
        assert(resolve(Seq::<Seq<char>>::empty()) =~= Seq::<Seq<char>>::empty());
        assert(resolve(split_path(normal)) =~= Seq::<Seq<char>>::empty());
    } else {
        let joined = join_path(kept);
        lemma_join_of_segments(kept);
        lemma_join_without(kept, '\\');
        lemma_split_of_join(kept);
        lemma_resolve_of_resolved(kept);
        assert(kept[0].len() > 0);
        assert(kept[0].contains(kept[0][0]));
        assert(joined[0] != '/');
        if path.len() > 0 && path.last() == '/' {
            let slashed = joined.push('/');
            assert forall|i: int| 0 <= i < slashed.len() implies slashed[i] != '\\' by {
                if i < joined.len() {
                    assert(joined.contains(joined[i]));
                }
            }
            assert(replace_char(slashed, '\\', '/') =~= slashed);
            assert(trim_start_char(slashed, '/') == slashed);
            assert(normal == slashed);
            assert(slashed.drop_last() =~= joined);
            assert(split_path(slashed) == kept.push(Seq::<char>::empty()));
            let again = kept.push(Seq::<char>::empty());
            assert(again.drop_last() =~= kept);
            assert(resolve(again) == kept);
        } else {
            assert forall|i: int| 0 <= i < joined.len() implies joined[i] != '\\' by {
                assert(joined.contains(joined[i]));
            }
            assert(replace_char(joined, '\\', '/') =~= joined);
            assert(trim_start_char(joined, '/') == joined);
            assert(normal == joined);
            assert(kept.last().len() > 0);
            assert(kept.last().contains(kept.last().last()));
            assert(joined.last() != '/');
        }
    }
}

/// The segments of a text hold no `/`, and no character that the text does
/// not hold.
proof fn lemma_split_segments_without(s: Seq<char>, c: char)
    requires
        c == '/' || !s.contains(c),
    ensures
        segments_without(split_path(s), c),
        split_path(s).len() > 0,
    decreases s.len(),
{
    if s.len() > 0 {
        let init = s.drop_last();
        if c != '/' {
            assert forall|i: int| 0 <= i < init.len() implies init[i] != c by {
                assert(s.contains(s[i]));
            }
            assert(s.contains(s.last()));
        }
        lemma_split_segments_without(init, c);
        let before = split_path(init);
        let after = split_path(s);
        assert forall|i: int| 0 <= i < after.len() implies !(#[trigger] after[i]).contains(c) by {
            if i < before.len() - 1 || s.last() == '/' && i < before.len() {
                assert(after[i] == before[i]);
            } else if s.last() != '/' {
                let seg = before.last().push(s.last());
                assert(after[i] == seg);
                if seg.contains(c) {
                    let k = choose|k: int| 0 <= k < seg.len() && seg[k] == c;
                    if k < before.last().len() {
                        assert(before.last().contains(before.last()[k]));
                    }
                }
            }
        }
    }
}

/// What is kept of segments that hold no `c` holds no `c`.
proof fn lemma_resolve_keeps_segments_without(segs: Seq<Seq<char>>, c: char)
    requires
        segments_without(segs, c),
    ensures
        segments_without(resolve(segs), c),
    decreases segs.len(),
{
    if segs.len() > 0 {
        let init = segs.drop_last();
        assert forall|i: int| 0 <= i < init.len() implies !(#[trigger] init[i]).contains(c) by {
            assert(init[i] == segs[i]);
        }
        lemma_resolve_keeps_segments_without(init, c);
        let before = resolve(init);
        let after = resolve(segs);
        assert forall|i: int| 0 <= i < after.len() implies !(#[trigger] after[i]).contains(c) by {
            if i < before.len() {
                assert(after[i] == before[i]);
            } else {
                assert(after[i] == segs.last());
            }
        }
    }
}

/// What is kept of any segments is resolved.
proof fn lemma_resolve_is_resolved(segs: Seq<Seq<char>>)
    ensures
        is_resolved(resolve(segs)),
    decreases segs.len(),
{
    if segs.len() > 0 {
        lemma_resolve_is_resolved(segs.drop_last());
        let before = resolve(segs.drop_last());
        let after = resolve(segs);
        assert forall|i: int| 0 <= i < after.len() implies (#[trigger] after[i]).len() > 0
            && after[i] != cur_dir() by {
            if i < before.len() {
                assert(after[i] == before[i]);
            }
        }
        assert forall|i: int, j: int|
            0 <= i < j < after.len() && after[j] == parent_dir() implies after[i]
            == parent_dir() by {
            if j < before.len() {
                assert(after[i] == before[i] && after[j] == before[j]);
            } else {
                // the segment that came last is a `..` behind a `..`, or the first
                assert(before.last() == parent_dir());
                if i < before.len() - 1 {
                    assert(before[before.len() - 1] == parent_dir());
                }
                assert(after[i] == before[i]);
            }
        }
    }
}

/// Resolved segments are all kept.
proof fn lemma_resolve_of_resolved(kept: Seq<Seq<char>>)
    requires
        is_resolved(kept),
    ensures
        resolve(kept) == kept,
    decreases kept.len(),
{
    if kept.len() == 0 {
        assert(resolve(kept) =~= kept);
    } else {
        let init = kept.drop_last();
        assert(is_resolved(init)) by {
            assert forall|i: int| 0 <= i < init.len() implies (#[trigger] init[i]).len() > 0
                && init[i] != cur_dir() by {
                assert(init[i] == kept[i]);
            }
            assert forall|i: int, j: int|
                0 <= i < j < init.len() && init[j] == parent_dir() implies init[i]
                == parent_dir() by {
                assert(init[i] == kept[i] && init[j] == kept[j]);
            }
        }
        lemma_resolve_of_resolved(init);
        assert(kept[kept.len() - 1].len() > 0);
        if kept.last() == parent_dir() && init.len() > 0 {
            assert(kept[init.len() - 1] == parent_dir());
            assert(init.last() == parent_dir());
        }
        assert(init.push(kept.last()) =~= kept);
    }
}

/// The text of joined segments starts with the first of them and ends with
/// the last.
proof fn lemma_join_of_segments(segs: Seq<Seq<char>>)
    requires
        segs.len() > 0,
    ensures
        join_path(segs).len() >= segs[0].len(),
        join_path(segs).len() >= segs.last().len(),
        forall|i: int| 0 <= i < segs[0].len() ==> join_path(segs)[i] == segs[0][i],
        segs.last().len() > 0 ==> join_path(segs).last() == segs.last().last(),
    decreases segs.len(),
{
    if segs.len() > 1 {
        lemma_join_of_segments(segs.drop_last());
        assert(segs.drop_last()[0] == segs[0]);
    }
}

/// The text of joined segments that hold no `c` holds none, where `c` is no
/// `/`.
proof fn lemma_join_without(segs: Seq<Seq<char>>, c: char)
    requires
        c != '/',
        segments_without(segs, c),
    ensures
        !join_path(segs).contains(c),
    decreases segs.len(),
{
    if segs.len() == 1 {
        assert(!segs[0].contains(c));
    } else if segs.len() > 1 {
        let init = segs.drop_last();
        assert forall|i: int| 0 <= i < init.len() implies !(#[trigger] init[i]).contains(c) by {
            assert(init[i] == segs[i]);
        }
        lemma_join_without(init, c);
        let joined = join_path(segs);
        let head = join_path(init);
        if joined.contains(c) {
            let k = choose|k: int| 0 <= k < joined.len() && joined[k] == c;
            if k < head.len() {
                assert(head.contains(head[k]));
            } else if k > head.len() {
                assert(!segs[segs.len() - 1].contains(c));
                assert(segs.last().contains(segs.last()[k - head.len() - 1]));
            }
        }
    }
}

/// A text behind which a text without `/` is put has the same segments, the
/// last of them longer by that text.
proof fn lemma_split_extended(s: Seq<char>, t: Seq<char>)
    requires
        !t.contains('/'),
    ensures
        split_path(s).len() > 0,
        split_path(s + t) == split_path(s).update(
            split_path(s).len() - 1,
            split_path(s).last() + t,
        ),
    decreases t.len(),
{
    lemma_split_segments_without(s, '/');
    let segs = split_path(s);
    if t.len() == 0 {
        assert(s + t =~= s);
        assert(segs.last() + t =~= segs.last());
        assert(segs.update(segs.len() - 1, segs.last()) =~= segs);
    } else {
        let init = t.drop_last();
        assert forall|i: int| 0 <= i < init.len() implies init[i] != '/' by {
            assert(t.contains(t[i]));
        }
        assert(t.contains(t.last()));
        lemma_split_extended(s, init);
        assert((s + t).drop_last() =~= s + init);
        assert((s + t).last() == t.last());
        assert((segs.last() + init).push(t.last()) =~= segs.last() + t);
        assert(segs.update(segs.len() - 1, segs.last() + init).update(
            segs.len() - 1,
            segs.last() + t,
        ) =~= segs.update(segs.len() - 1, segs.last() + t));
    }
}

/// Segments without `/` that are joined are the segments of the joined text.
proof fn lemma_split_of_join(segs: Seq<Seq<char>>)
    requires
        segs.len() > 0,
        segments_without(segs, '/'),
    ensures
        split_path(join_path(segs)) == segs,
    decreases segs.len(),
{
    if segs.len() == 1 {
        assert(!segs[0].contains('/'));
        lemma_split_without_slash(segs[0]);
        assert(seq![segs[0]] =~= segs);
    } else {
        let init = segs.drop_last();
        assert forall|i: int| 0 <= i < init.len() implies !(#[trigger] init[i]).contains('/') by {
            assert(init[i] == segs[i]);
        }
        lemma_split_of_join(init);
        let head = join_path(init).push('/');
        assert(head.drop_last() =~= join_path(init));
        assert(split_path(head) == init.push(Seq::<char>::empty()));
        assert(!segs[segs.len() - 1].contains('/'));
        lemma_split_extended(head, segs.last());
        assert(Seq::<char>::empty() + segs.last() =~= segs.last());
        assert(init.push(Seq::<char>::empty()).update(init.len() as int, segs.last()) =~= segs);
    }
}

} // verus!
