//! Identifiers of HTML elements made from the text of headings.

use crate::text::{
    alphanumeric, ascii_lower, chars_of, decimal, lemma_decimal_is_injective,
    lemma_decimal_is_not_empty, push_decimal, replace_all, replace_all_in, string_of, trim,
    trim_of, trim_start_char, trim_start_char_of, white_space,
};
use vstd::hash_map::StringHashMap;
use vstd::prelude::*;

verus! {

/// What a character of a heading becomes in an identifier: a letter, a digit,
/// `_` or `-` stays, an ASCII capital as its small letter; white space becomes
/// `-`; anything else is left out.
pub open spec fn id_char(c: char) -> Option<char> {
    if alphanumeric(c) || c == '_' || c == '-' {
        Some(ascii_lower(c))
    } else if white_space(c) {
        Some('-')
    } else {
        None
    }
}

/// The identifier made of `content`, character by character.
pub open spec fn spec_normalize_id(content: Seq<char>) -> Seq<char>
    decreases content.len(),
{
    if content.len() == 0 {
        Seq::empty()
    } else {
        match id_char(content.last()) {
            Some(c) => spec_normalize_id(content.drop_last()).push(c),
            None => spec_normalize_id(content.drop_last()),
        }
    }
}

/// The index of the first `>` or line feed of `s` at or after `from`, or the
/// length of `s`.
pub open spec fn tag_close(s: Seq<char>, from: int) -> int
    decreases s.len() - from,
{
    if from < 0 || from >= s.len() {
        s.len() as int
    } else if s[from] == '>' || s[from] == '\n' {
        from
    } else {
        tag_close(s, from + 1)
    }
}

/// `s` from `from` on without its tags. A tag starts with `<` and ends with
/// the next `>` on the same line; a `<` that no `>` follows on its line stays.
pub open spec fn strip_tags(s: Seq<char>, from: int) -> Seq<char>
    decreases s.len() - from,
{
    if from < 0 || from >= s.len() {
        Seq::empty()
    } else {
        let close = tag_close(s, from + 1);
        if s[from] == '<' && from < close < s.len() && s[close] == '>' {
            strip_tags(s, close + 1)
        } else {
            seq![s[from]] + strip_tags(s, from + 1)
        }
    }
}

/// `s` without `&lt;`, then without `&gt;`, `&amp;`, `&#39;` and `&quot;`,
/// each taken out everywhere before the next is looked for.
pub open spec fn strip_entities(s: Seq<char>) -> Seq<char> {
    let none = Seq::<char>::empty();
    replace_all(
        replace_all(
            replace_all(replace_all(replace_all(s, "&lt;"@, none), "&gt;"@, none), "&amp;"@, none),
            "&#39;"@,
            none,
        ),
        "&quot;"@,
        none,
    )
}

/// The identifier for the text of a heading: tags and the escapes of
/// `strip_entities` are taken out, then white space around the text, the `#`
/// at its start and white space again, and what is left is made an identifier.
pub open spec fn spec_id_from_content(content: Seq<char>) -> Seq<char> {
    spec_normalize_id(trim(trim_start_char(trim(strip_entities(strip_tags(content, 0))), '#')))
}

/// The `count`-th use of an identifier, counted from zero: the identifier
/// itself at first, then with `-` and the count behind it.
pub open spec fn numbered_id(id: Seq<char>, count: nat) -> Seq<char> {
    if count == 0 {
        id
    } else {
        id.push('-') + decimal(count)
    }
}

/// How often `id` has been given out.
pub open spec fn count_of(counts: Map<Seq<char>, usize>, id: Seq<char>) -> nat {
    if counts.contains_key(id) {
        counts[id] as nat
    } else {
        0
    }
}

/// The identifier that a heading gets, and the counts after it.
pub open spec fn spec_unique_id_from_content(content: Seq<char>, counts: Map<Seq<char>, usize>) -> (
    Seq<char>,
    Map<Seq<char>, usize>,
) {
    let id = spec_id_from_content(content);
    (numbered_id(id, count_of(counts, id)), counts.insert(id, (count_of(counts, id) + 1) as usize))
}

/// `text` where each run of two or more white-space characters, read from
/// `from` on, has become one space.
pub open spec fn collapse_from(text: Seq<char>, from: int) -> Seq<char>
    decreases text.len() - from,
{
    if from < 0 || from >= text.len() {
        Seq::empty()
    } else {
        let n = white_run(text, from);
        if n >= 2 && from + n <= text.len() {
            seq![' '] + collapse_from(text, from + n)
        } else {
            seq![text[from]] + collapse_from(text, from + 1)
        }
    }
}

/// The number of white-space characters that follow each other from `from`.
pub open spec fn white_run(text: Seq<char>, from: int) -> int
    decreases text.len() - from,
{
    if 0 <= from < text.len() && white_space(text[from]) {
        1 + white_run(text, from + 1)
    } else {
        0
    }
}

/// How often each identifier of a page, or of a book on its print page, has
/// been given out.
pub struct IdCounter {
    counts: StringHashMap<usize>,
}

impl View for IdCounter {
    type V = Map<Seq<char>, usize>;

    closed spec fn view(&self) -> Map<Seq<char>, usize> {
        self.counts@
    }
}

impl IdCounter {
    /// A counter that has given out nothing.
    pub fn new() -> (counter: IdCounter)
        ensures
            counter@ == Map::<Seq<char>, usize>::empty(),
    {
        IdCounter { counts: StringHashMap::new() }
    }

    /// How often `id` has been given out.
    pub fn count(&self, id: &str) -> (n: usize)
        ensures
            n == count_of(self@, id@),
    {
        match self.counts.get(id) {
            Some(n) => *n,
            None => 0,
        }
    }
}

impl Default for IdCounter {
    fn default() -> (counter: IdCounter)
        ensures
            counter@ == Map::<Seq<char>, usize>::empty(),
    {
        IdCounter::new()
    }
}

/// The identifier made of `content`.
fn normalize_id_chars(content: &Vec<char>) -> (r: Vec<char>)
    ensures
        r@ == spec_normalize_id(content@),
{
    let mut r: Vec<char> = Vec::new();
    let mut i: usize = 0;
    assert(content@.take(0) == Seq::<char>::empty());
    while i < content.len()
        invariant
            i <= content.len(),
            r@ == spec_normalize_id(content@.take(i as int)),
        decreases content.len() - i,
    {
        assert(content@.take(i + 1).drop_last() == content@.take(i as int));
        let c = content[i];
        if c.is_alphanumeric() || c == '_' || c == '-' {
            r.push(c.to_ascii_lowercase());
        } else if c.is_whitespace() {
            r.push('-');
        }
        i += 1;
    }
    assert(content@.take(i as int) == content@);
    r
}

/// `s` without its tags.
fn strip_tags_chars(s: &Vec<char>) -> (r: Vec<char>)
    ensures
        r@ == strip_tags(s@, 0),
{
    let mut r: Vec<char> = Vec::new();
    let mut i: usize = 0;
    while i < s.len()
        invariant
            r@ + strip_tags(s@, i as int) == strip_tags(s@, 0),
        decreases s.len() - i,
    {
        let ghost before = r@;
        let mut close: usize = i + 1;
        if s[i] == '<' {
            while close < s.len() && s[close] != '>' && s[close] != '\n'
                invariant
                    i < close,
                    tag_close(s@, i + 1) == tag_close(s@, close as int),
                decreases s.len() - close,
            {
                close += 1;
            }
        }
        if s[i] == '<' && close < s.len() && s[close] == '>' {
            i = close + 1;
        } else {
            r.push(s[i]);
            assert(before.push(s@[i as int]) + strip_tags(s@, i + 1) == before + (seq![
                s@[i as int],
            ] + strip_tags(s@, i + 1)));
            i += 1;
        }
    }
    assert(r@ + Seq::<char>::empty() == r@);
    r
}

/// The identifier for the text of a heading.
fn id_chars(content: &Vec<char>) -> (r: Vec<char>)
    ensures
        r@ == spec_id_from_content(content@),
{
    let a = strip_tags_chars(content);
    proof {
        reveal_strlit("");
        assert(""@ == Seq::<char>::empty());
    }
    let b = replace_all_in(&a, "&lt;", "");
    let c = replace_all_in(&b, "&gt;", "");
    let d = replace_all_in(&c, "&amp;", "");
    let e = replace_all_in(&d, "&#39;", "");
    let f = replace_all_in(&e, "&quot;", "");
    let g = trim_of(&trim_start_char_of(&trim_of(&f), '#'));
    normalize_id_chars(&g)
}

/// Turns `content` into an identifier of an HTML element: letters, digits,
/// `_` and `-` stay, ASCII capitals as small letters; each white-space
/// character becomes `-`; anything else is left out.
pub fn normalize_id(content: &str) -> (id: String)
    ensures
        id@ == spec_normalize_id(content@),
{
    string_of(&normalize_id_chars(&chars_of(content)))
}

/// The identifier for the text of a heading, whatever was given out before.
pub fn id_from_content(content: &str) -> (id: String)
    ensures
        id@ == spec_id_from_content(content@),
{
    string_of(&id_chars(&chars_of(content)))
}

/// Gives out the identifier `id` once more: the identifier itself the first
/// time, then with `-1`, `-2` and so on behind it. The counter counts the use.
fn give_out(id: Vec<char>, id_counter: &mut IdCounter) -> (unique: String)
    requires
        count_of(old(id_counter)@, id@) < usize::MAX,
    ensures
        unique@ == numbered_id(id@, count_of(old(id_counter)@, id@)),
        final(id_counter)@ == old(id_counter)@.insert(
            id@,
            (count_of(old(id_counter)@, id@) + 1) as usize,
        ),
{
    let mut id = id;
    let key = string_of(&id);
    let count = id_counter.count(key.as_str());
    if count > 0 {
        id.push('-');
        push_decimal(&mut id, count);
    }
    id_counter.counts.insert(key, count + 1);
    string_of(&id)
}

/// The identifier for the text of a heading, numbered by this counter: the
/// identifier of the text the first time, and with `-1`, `-2` and so on behind
/// it from its second use on. The counter counts the use.
///
/// Headings with one identifier all get different results. A heading whose
/// own identifier is such a numbered one is counted for itself: after two
/// headings `foo`, a heading `foo-1` gets `foo-1` again.
///
/// The identifier must not have been given out as often as a `usize` can
/// count; `checked_unique_id_from_content` tests that.
pub fn unique_id_from_content(content: &str, id_counter: &mut IdCounter) -> (unique: String)
    requires
        count_of(old(id_counter)@, spec_id_from_content(content@)) < usize::MAX,
    ensures
        (unique@, final(id_counter)@) == spec_unique_id_from_content(content@, old(id_counter)@),
{
    give_out(id_chars(&chars_of(content)), id_counter)
}

/// The identifier that `unique_id_from_content` gives, or `None`, with the
/// counter as it was, where the identifier has been given out as often as a
/// `usize` can count.
pub fn checked_unique_id_from_content(content: &str, id_counter: &mut IdCounter) -> (unique:
    Option<String>)
    ensures
        match unique {
            Some(u) => count_of(old(id_counter)@, spec_id_from_content(content@)) < usize::MAX && (
            u@, final(id_counter)@) == spec_unique_id_from_content(content@, old(id_counter)@),
            None => count_of(old(id_counter)@, spec_id_from_content(content@)) == usize::MAX
                && final(id_counter)@ == old(id_counter)@,
        },
{
    let id = id_chars(&chars_of(content));
    let key = string_of(&id);
    if id_counter.count(key.as_str()) < usize::MAX {
        Some(give_out(id, id_counter))
    } else {
        None
    }
}

/// `text` with each run of two or more white-space characters turned into one
/// space.
pub fn collapse_whitespace(text: &str) -> (collapsed: String)
    ensures
        collapsed@ == collapse_from(text@, 0),
{
    let s = chars_of(text);
    let mut r: Vec<char> = Vec::new();
    let mut i: usize = 0;
    while i < s.len()
        invariant
            s@ == text@,
            r@ + collapse_from(s@, i as int) == collapse_from(s@, 0),
        decreases s.len() - i,
    {
        let ghost before = r@;
        let mut j: usize = i;
        while j < s.len() && s[j].is_whitespace()
            invariant
                i <= j <= s.len(),
                white_run(s@, i as int) == (j - i) + white_run(s@, j as int),
            decreases s.len() - j,
        {
            j += 1;
        }
        if j - i >= 2 {
            r.push(' ');
            assert(before.push(' ') + collapse_from(s@, j as int) == before + (seq![' ']
                + collapse_from(s@, j as int)));
            i = j;
        } else {
            r.push(s[i]);
            assert(before.push(s@[i as int]) + collapse_from(s@, i + 1) == before + (seq![
                s@[i as int],
            ] + collapse_from(s@, i + 1)));
            i += 1;
        }
    }
    assert(r@ + Seq::<char>::empty() == r@);
    string_of(&r)
}

/// A heading met twice by a counter that had not met it gets its identifier
/// the first time, and that identifier with `-1` behind it the second time.
pub proof fn law_second_use_is_numbered(content: Seq<char>, counts: Map<Seq<char>, usize>)
    requires
        !counts.contains_key(spec_id_from_content(content)),
    ensures
        ({
            let first = spec_unique_id_from_content(content, counts);
            let second = spec_unique_id_from_content(content, first.1);
            &&& first.0 == spec_id_from_content(content)
            &&& second.0 == spec_id_from_content(content) + "-1"@
        }),
{
    reveal_strlit("-1");
    let id = spec_id_from_content(content);
    assert(decimal(1) == seq!['1']);
    assert(id.push('-') + seq!['1'] =~= id + "-1"@);
}

/// Giving out an identifier raises its count by one and leaves every other
/// count as it was: no count ever goes down.
pub proof fn law_counts_never_decrease(
    content: Seq<char>,
    counts: Map<Seq<char>, usize>,
    other: Seq<char>,
)
    requires
        count_of(counts, spec_id_from_content(content)) < usize::MAX,
    ensures
        ({
            let after = spec_unique_id_from_content(content, counts).1;
            &&& count_of(after, spec_id_from_content(content)) == count_of(
                counts,
                spec_id_from_content(content),
            ) + 1
            &&& other != spec_id_from_content(content) ==> count_of(after, other) == count_of(
                counts,
                other,
            )
        }),
{
}

/// However often one identifier is given out, no two of its uses get the
/// same text.
pub proof fn law_uses_of_an_identifier_differ(id: Seq<char>, first: nat, second: nat)
    requires
        first != second,
    ensures
        numbered_id(id, first) != numbered_id(id, second),
{
    let a = numbered_id(id, first);
    let b = numbered_id(id, second);
    lemma_decimal_is_not_empty(first);
    lemma_decimal_is_not_empty(second);
    if first != 0 && second != 0 {
        if a == b {
            assert(a.skip(id.len() as int + 1) =~= decimal(first));
            assert(b.skip(id.len() as int + 1) =~= decimal(second));
            lemma_decimal_is_injective(first, second);
        }
    } else {
        assert(a.len() != b.len());
    }
}

} // verus!
