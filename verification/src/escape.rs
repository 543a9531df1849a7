//! Escaping of text that goes into HTML, character for character.

use vstd::prelude::*;
use vstd::string::StringExecFns;

verus! {

/// What stands for `c` where `<`, `>`, `'`, `"`, `\` and `&` are escaped.
pub open spec fn special_entity(c: char) -> Seq<char> {
    if c == '<' {
        "&lt;"@
    } else if c == '>' {
        "&gt;"@
    } else if c == '\'' {
        "&#39;"@
    } else if c == '"' {
        "&quot;"@
    } else if c == '\\' {
        "&#92;"@
    } else if c == '&' {
        "&amp;"@
    } else {
        seq![c]
    }
}

/// What stands for `c` where only `<` and `>` are escaped.
pub open spec fn bracket_entity(c: char) -> Seq<char> {
    if c == '<' {
        "&lt;"@
    } else if c == '>' {
        "&gt;"@
    } else {
        seq![c]
    }
}

/// `s` with each character replaced by what `special_entity` gives for it.
pub open spec fn spec_special_escape(s: Seq<char>) -> Seq<char>
    decreases s.len(),
{
    if s.len() == 0 {
        Seq::empty()
    } else {
        spec_special_escape(s.drop_last()) + special_entity(s.last())
    }
}

/// `s` with each character replaced by what `bracket_entity` gives for it.
pub open spec fn spec_bracket_escape(s: Seq<char>) -> Seq<char>
    decreases s.len(),
{
    if s.len() == 0 {
        Seq::empty()
    } else {
        spec_bracket_escape(s.drop_last()) + bracket_entity(s.last())
    }
}

/// Escapes `<`, `>`, `'`, `"`, `\` and `&`, for text that becomes part of a
/// name or an identifier.
pub fn special_escape(s: &str) -> (escaped: String)
    ensures
        escaped@ == spec_special_escape(s@),
{
    let mut escaped = String::new();
    for c in it: s.chars()
        invariant
            it.seq() == s@,
            escaped@ == spec_special_escape(s@.take(it.index())),
    {
        assert(s@.take(it.index() + 1).drop_last() == s@.take(it.index()));
        if c == '<' {
            escaped.append("&lt;");
        } else if c == '>' {
            escaped.append("&gt;");
        } else if c == '\'' {
            escaped.append("&#39;");
        } else if c == '"' {
            escaped.append("&quot;");
        } else if c == '\\' {
            escaped.append("&#92;");
        } else if c == '&' {
            escaped.append("&amp;");
        } else {
            escaped.push(c);
        }
    }
    assert(s@.take(s@.len() as int) == s@);
    escaped
}

/// Escapes `<` and `>`, for text in which only a tag must not start.
pub fn bracket_escape(s: &str) -> (escaped: String)
    ensures
        escaped@ == spec_bracket_escape(s@),
{
    let mut escaped = String::new();
    for c in it: s.chars()
        invariant
            it.seq() == s@,
            escaped@ == spec_bracket_escape(s@.take(it.index())),
    {
        assert(s@.take(it.index() + 1).drop_last() == s@.take(it.index()));
        if c == '<' {
            escaped.append("&lt;");
        } else if c == '>' {
            escaped.append("&gt;");
        } else {
            escaped.push(c);
        }
    }
    assert(s@.take(s@.len() as int) == s@);
    escaped
}

/// Whether `c` is one of `<`, `>`, `'`, `"` and `\`.
pub open spec fn is_special(c: char) -> bool {
    c == '<' || c == '>' || c == '\'' || c == '"' || c == '\\'
}

/// None of `<`, `>`, `'`, `"` and `\` is left in text that `special_escape`
/// has escaped.
pub proof fn law_special_escape_leaves_none(s: Seq<char>)
    ensures
        forall|i: int|
            0 <= i < spec_special_escape(s).len() ==> !is_special(
                #[trigger] spec_special_escape(s)[i],
            ),
    decreases s.len(),
{
    if s.len() > 0 {
        law_special_escape_leaves_none(s.drop_last());
        reveal_strlit("&lt;");
        reveal_strlit("&gt;");
        reveal_strlit("&#39;");
        reveal_strlit("&quot;");
        reveal_strlit("&#92;");
        reveal_strlit("&amp;");
        let init = spec_special_escape(s.drop_last());
        let last = special_entity(s.last());
        assert forall|j: int| 0 <= j < last.len() implies !is_special(#[trigger] last[j]) by {}
        assert forall|i: int| 0 <= i < spec_special_escape(s).len() implies !is_special(
            #[trigger] spec_special_escape(s)[i],
        ) by {
            if i < init.len() {
                assert(spec_special_escape(s)[i] == init[i]);
            } else {
                assert(spec_special_escape(s)[i] == last[i - init.len()]);
            }
        }
    }
}

/// No `<` and no `>` is left in text that `bracket_escape` has escaped.
pub proof fn law_bracket_escape_leaves_none(s: Seq<char>)
    ensures
        forall|i: int|
            0 <= i < spec_bracket_escape(s).len() ==> #[trigger] spec_bracket_escape(s)[i] != '<'
                && spec_bracket_escape(s)[i] != '>',
    decreases s.len(),
{
    if s.len() > 0 {
        law_bracket_escape_leaves_none(s.drop_last());
        reveal_strlit("&lt;");
        reveal_strlit("&gt;");
        let init = spec_bracket_escape(s.drop_last());
        let last = bracket_entity(s.last());
        assert forall|j: int| 0 <= j < last.len() implies #[trigger] last[j] != '<' && last[j]
            != '>' by {}
        assert forall|i: int| 0 <= i < spec_bracket_escape(s).len() implies #[trigger] spec_bracket_escape(
            s,
        )[i] != '<' && spec_bracket_escape(s)[i] != '>' by {
            if i < init.len() {
                assert(spec_bracket_escape(s)[i] == init[i]);
            } else {
                assert(spec_bracket_escape(s)[i] == last[i - init.len()]);
            }
        }
    }
}

} // verus!
