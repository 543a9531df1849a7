//! Footnotes. Their definitions are taken out of the stream while it is read,
//! each reference becomes a numbered link, and the definitions that are
//! referred to follow the page as a list, in the order of their numbers, each
//! with links back to its references.

use crate::escape::{special_escape, spec_special_escape};
use crate::links::text_of;
use crate::paths::{page_id, page_id_of};
use crate::text::{chars_of, decimal, push_all, push_decimal, push_str, string_of};
use crate::tokens::{html_token, push_tokens, rendered, views, Token, TokenKind, TokenView};
use vstd::prelude::*;
use vstd::string::StringExecFns;

verus! {

/// The definition of a footnote: its name, escaped, and the tokens between
/// its start and its end.
pub struct Definition<'a> {
    pub name: String,
    pub body: Vec<Token<'a>>,
}

/// The mathematical content of a `Definition`.
pub struct DefinitionView<'a> {
    pub name: Seq<char>,
    pub body: Seq<TokenView<'a>>,
}

impl<'a> View for Definition<'a> {
    type V = DefinitionView<'a>;

    open spec fn view(&self) -> DefinitionView<'a> {
        DefinitionView { name: self.name@, body: views(self.body@) }
    }
}

/// How often a footnote has been referred to. The records stand in the order
/// in which the footnotes were first referred to: the number shown for a
/// footnote is its place among them, counted from one.
#[derive(Debug, PartialEq, Eq)]
pub struct Usage {
    pub name: String,
    pub count: usize,
}

/// The mathematical content of a `Usage`.
pub struct UsageView {
    pub name: Seq<char>,
    pub count: nat,
}

impl View for Usage {
    type V = UsageView;

    open spec fn view(&self) -> UsageView {
        UsageView { name: self.name@, count: self.count as nat }
    }
}

/// Something about the footnotes of a page that its author should know.
#[derive(Debug, PartialEq, Eq)]
pub enum Warning {
    /// A definition started while tokens of another were being read.
    NestedDefinition,
    /// A second definition with this name; the first one stays.
    DuplicateDefinition(String),
    /// A definition with this name that nothing refers to; it is left out.
    UnreferencedDefinition(String),
}

/// The mathematical content of a `Warning`.
pub enum WarningView {
    NestedDefinition,
    DuplicateDefinition(Seq<char>),
    UnreferencedDefinition(Seq<char>),
}

impl View for Warning {
    type V = WarningView;

    open spec fn view(&self) -> WarningView {
        match self {
            Warning::NestedDefinition => WarningView::NestedDefinition,
            Warning::DuplicateDefinition(name) => WarningView::DuplicateDefinition(name@),
            Warning::UnreferencedDefinition(name) => WarningView::UnreferencedDefinition(name@),
        }
    }
}

/// What has been made of the tokens read so far.
pub struct Footnotes<'a> {
    /// The tokens of the page itself, references replaced.
    pub main: Vec<Token<'a>>,
    /// The name of the definition that is being read; empty outside of one.
    pub name: String,
    /// The tokens read of that definition.
    pub body: Vec<Token<'a>>,
    /// The definitions read, the first of each name, in the order of their
    /// ends.
    pub definitions: Vec<Definition<'a>>,
    /// The footnotes referred to, in the order of their first references.
    pub usages: Vec<Usage>,
    /// What there was to warn of, in order.
    pub warnings: Vec<Warning>,
}

/// The mathematical content of a `Footnotes`.
pub struct FootnotesView<'a> {
    pub main: Seq<TokenView<'a>>,
    pub name: Seq<char>,
    pub body: Seq<TokenView<'a>>,
    pub definitions: Seq<DefinitionView<'a>>,
    pub usages: Seq<UsageView>,
    pub warnings: Seq<WarningView>,
}

impl<'a> View for Footnotes<'a> {
    type V = FootnotesView<'a>;

    open spec fn view(&self) -> FootnotesView<'a> {
        FootnotesView {
            main: views(self.main@),
            name: self.name@,
            body: views(self.body@),
            definitions: views(self.definitions@),
            usages: views(self.usages@),
            warnings: views(self.warnings@),
        }
    }
}

/// The state before any token is read.
pub open spec fn no_footnotes() -> FootnotesView<'static> {
    FootnotesView {
        main: Seq::empty(),
        name: Seq::empty(),
        body: Seq::empty(),
        definitions: Seq::empty(),
        usages: Seq::empty(),
        warnings: Seq::empty(),
    }
}

/// The index of the first record of `name` at or after `from`, or the number
/// of records.
pub open spec fn usage_index(usages: Seq<UsageView>, name: Seq<char>, from: int) -> int
    decreases usages.len() - from,
{
    if from < 0 || from >= usages.len() {
        usages.len() as int
    } else if usages[from].name == name {
        from
    } else {
        usage_index(usages, name, from + 1)
    }
}

/// The index of the first definition of `name` at or after `from`, or the
/// number of definitions.
pub open spec fn definition_index(
    definitions: Seq<DefinitionView>,
    name: Seq<char>,
    from: int,
) -> int
    decreases definitions.len() - from,
{
    if from < 0 || from >= definitions.len() {
        definitions.len() as int
    } else if definitions[from].name == name {
        from
    } else {
        definition_index(definitions, name, from + 1)
    }
}

/// The HTML that stands for a reference: the `count`-th reference to the
/// footnote `name`, which is shown as `number`.
pub open spec fn reference_html(name: Seq<char>, count: nat, number: nat) -> Seq<char> {
    "<sup class=\"footnote-reference\" id=\""@ + reference_id(name, count)
        + "\"><a href=\"#footnote-"@ + name + "\">"@ + decimal(number) + "</a></sup>"@
}

/// The identifier of the `count`-th reference to the footnote `name`.
pub open spec fn reference_id(name: Seq<char>, count: nat) -> Seq<char> {
    "fr-"@ + name + "-"@ + decimal(count)
}

/// The records once `name` has been referred to once more.
pub open spec fn count_reference(usages: Seq<UsageView>, name: Seq<char>) -> Seq<UsageView> {
    let k = usage_index(usages, name, 0);
    if k < usages.len() {
        usages.update(k, UsageView { name, count: usages[k].count + 1 })
    } else {
        usages.push(UsageView { name, count: 1 })
    }
}

/// The state once the token `t` has been read.
///
/// - The start of a definition sets the name that is being read, escaped. It
///   warns where tokens of a definition are waiting.
/// - The end of a definition keeps what was read under that name, unless a
///   definition of that name is kept already, which is warned of. Nothing is
///   being read after it.
/// - A reference is counted, and the HTML for it takes its place.
/// - Any token, that HTML too, goes to the definition that is being read, or
///   to the page where none is.
pub open spec fn note_step<'a>(st: FootnotesView<'a>, t: TokenView<'a>) -> FootnotesView<'a> {
    match t.kind {
        TokenKind::FootnoteDefinition => FootnotesView {
            name: spec_special_escape(t.text),
            warnings: if st.body.len() > 0 {
                st.warnings.push(WarningView::NestedDefinition)
            } else {
                st.warnings
            },
            ..st
        },
        TokenKind::FootnoteDefinitionEnd => if definition_index(st.definitions, st.name, 0)
            < st.definitions.len() {
            FootnotesView {
                name: Seq::empty(),
                body: Seq::empty(),
                warnings: st.warnings.push(WarningView::DuplicateDefinition(st.name)),
                ..st
            }
        } else {
            FootnotesView {
                name: Seq::empty(),
                body: Seq::empty(),
                definitions: st.definitions.push(DefinitionView { name: st.name, body: st.body }),
                ..st
            }
        },
        TokenKind::FootnoteReference => {
            let name = spec_special_escape(t.text);
            let k = usage_index(st.usages, name, 0);
            let usages = count_reference(st.usages, name);
            let html = html_token(reference_html(name, usages[k].count, (k + 1) as nat));
            if st.name.len() == 0 {
                FootnotesView { main: st.main.push(html), usages, ..st }
            } else {
                FootnotesView { body: st.body.push(html), usages, ..st }
            }
        },
        _ => if st.name.len() == 0 {
            FootnotesView { main: st.main.push(t), ..st }
        } else {
            FootnotesView { body: st.body.push(t), ..st }
        },
    }
}

/// The state once the tokens `pieces` have been read, in order.
pub open spec fn note_steps<'a>(st: FootnotesView<'a>, pieces: Seq<TokenView<'a>>) -> FootnotesView<
    'a,
>
    decreases pieces.len(),
{
    if pieces.len() == 0 {
        st
    } else {
        note_step(note_steps(st, pieces.drop_last()), pieces.last())
    }
}

/// What stands before the target of a link back on the print page: the page's
/// identifier and `-`, or nothing where the identifier is empty or the page is
/// rendered alone.
pub open spec fn backlink_prefix(page: Option<Seq<char>>) -> Seq<char> {
    match page {
        Some(p) => if page_id(p).len() == 0 {
            Seq::empty()
        } else {
            page_id(p) + "-"@
        },
        None => Seq::empty(),
    }
}

/// The link from a definition back to the `usage`-th reference to it. The
/// first one shows an arrow, each later one the arrow and its number.
pub open spec fn backlink_html(prefix: Seq<char>, name: Seq<char>, usage: nat) -> Seq<char> {
    " <a href=\"#"@ + prefix + reference_id(name, usage) + "\">↩"@ + (if usage == 1 {
        Seq::empty()
    } else {
        decimal(usage)
    }) + "</a>"@
}

/// The links back to the first `count` references, in order.
pub open spec fn backlinks(prefix: Seq<char>, name: Seq<char>, count: nat) -> Seq<
    TokenView<'static>,
>
    decreases count,
{
    if count == 0 {
        Seq::empty()
    } else {
        backlinks(prefix, name, (count - 1) as nat).push(
            html_token(backlink_html(prefix, name, count)),
        )
    }
}

/// What opens the list item of a definition.
pub open spec fn item_open(name: Seq<char>) -> Seq<char> {
    "<li id=\"footnote-"@ + name + "\">"@
}

/// The tokens of a definition in the list: the opening of its item, its body
/// with the links back, and the closing of the item. The links stand at the
/// end of the last paragraph where the body ends with one, and behind the
/// body otherwise.
pub open spec fn definition_tokens<'a>(
    definition: DefinitionView<'a>,
    count: nat,
    prefix: Seq<char>,
) -> Seq<TokenView<'a>> {
    let open = seq![html_token(item_open(definition.name))];
    let links = backlinks(prefix, definition.name, count);
    let body = definition.body;
    let inner = if body.len() > 0 && body.last().kind == TokenKind::ParagraphEnd {
        (open + body.drop_last() + links).push(body.last())
    } else {
        open + body + links
    };
    inner.push(html_token("</li>\n"@))
}

/// The HTML of the list items for the first `upto` records. A record gives
/// an item where it is the first of its name and a definition of that name is
/// kept.
pub open spec fn appendix_items(
    definitions: Seq<DefinitionView>,
    usages: Seq<UsageView>,
    prefix: Seq<char>,
    upto: int,
) -> Seq<char>
    decreases upto,
{
    if upto <= 0 {
        Seq::empty()
    } else {
        appendix_items(definitions, usages, prefix, upto - 1) + appendix_item(
            definitions,
            usages,
            prefix,
            upto - 1,
        )
    }
}

/// The definition that the record `k` shows, where it shows one.
pub open spec fn shown<'a>(
    definitions: Seq<DefinitionView<'a>>,
    usages: Seq<UsageView>,
    k: int,
) -> Option<DefinitionView<'a>> {
    let d = definition_index(definitions, usages[k].name, 0);
    if usage_index(usages, usages[k].name, 0) == k && d < definitions.len() {
        Some(definitions[d])
    } else {
        None
    }
}

/// The HTML of the list item for the record `k`; empty where it shows no
/// definition.
pub open spec fn appendix_item(
    definitions: Seq<DefinitionView>,
    usages: Seq<UsageView>,
    prefix: Seq<char>,
    k: int,
) -> Seq<char> {
    match shown(definitions, usages, k) {
        Some(d) => rendered(definition_tokens(d, usages[k].count, prefix)),
        None => Seq::empty(),
    }
}

/// The list of definitions that follows a page: a rule, and an ordered list
/// with an item for each record that shows a definition, in the order of the
/// records.
pub open spec fn appendix(
    definitions: Seq<DefinitionView>,
    usages: Seq<UsageView>,
    page: Option<Seq<char>>,
) -> Seq<char> {
    "<hr>\n<ol class=\"footnote-definition\">"@ + appendix_items(
        definitions,
        usages,
        backlink_prefix(page),
        usages.len() as int,
    ) + "</ol>"@
}

/// The warnings for the first `upto` definitions: one for each that no record
/// names.
pub open spec fn unreferenced(
    definitions: Seq<DefinitionView>,
    usages: Seq<UsageView>,
    upto: int,
) -> Seq<WarningView>
    decreases upto,
{
    if upto <= 0 {
        Seq::empty()
    } else {
        let name = definitions[upto - 1].name;
        if usage_index(usages, name, 0) < usages.len() {
            unreferenced(definitions, usages, upto - 1)
        } else {
            unreferenced(definitions, usages, upto - 1).push(
                WarningView::UnreferencedDefinition(name),
            )
        }
    }
}

/// Every count is at most `bound`.
pub open spec fn counts_within(usages: Seq<UsageView>, bound: int) -> bool {
    forall|k: int| 0 <= k < usages.len() ==> (#[trigger] usages[k]).count <= bound
}

/// `usage_index` gives the first record of the name.
pub proof fn lemma_usage_index(usages: Seq<UsageView>, name: Seq<char>, from: int)
    requires
        0 <= from <= usages.len(),
    ensures
        from <= usage_index(usages, name, from) <= usages.len(),
        usage_index(usages, name, from) < usages.len() ==> usages[usage_index(
            usages,
            name,
            from,
        )].name == name,
        forall|j: int| from <= j < usage_index(usages, name, from) ==> usages[j].name != name,
    decreases usages.len() - from,
{
    if from < usages.len() && usages[from].name != name {
        lemma_usage_index(usages, name, from + 1);
    }
}

/// `definition_index` gives the first definition of the name.
pub proof fn lemma_definition_index(definitions: Seq<DefinitionView>, name: Seq<char>, from: int)
    requires
        0 <= from <= definitions.len(),
    ensures
        from <= definition_index(definitions, name, from) <= definitions.len(),
        definition_index(definitions, name, from) < definitions.len() ==> definitions[definition_index(
            definitions,
            name,
            from,
        )].name == name,
        forall|j: int|
            from <= j < definition_index(definitions, name, from) ==> definitions[j].name != name,
    decreases definitions.len() - from,
{
    if from < definitions.len() && definitions[from].name != name {
        lemma_definition_index(definitions, name, from + 1);
    }
}

/// A token raises no count by more than one, and none unless it is a
/// reference.
pub proof fn lemma_step_counts(st: FootnotesView, t: TokenView, bound: int)
    requires
        0 <= bound,
        counts_within(st.usages, bound),
    ensures
        counts_within(note_step(st, t).usages, bound + 1),
        t.kind != TokenKind::FootnoteReference ==> note_step(st, t).usages == st.usages,
{
    if t.kind == TokenKind::FootnoteReference {
        let name = spec_special_escape(t.text);
        lemma_usage_index(st.usages, name, 0);
        let after = note_step(st, t).usages;
        assert(after == count_reference(st.usages, name));
        assert forall|k: int| 0 <= k < after.len() implies (#[trigger] after[k]).count <= bound
            + 1 by {
            if k < st.usages.len() {
                assert(st.usages[k].count <= bound);
            }
        }
    } else {
        assert forall|k: int| 0 <= k < st.usages.len() implies (#[trigger] st.usages[k]).count
            <= bound + 1 by {
            assert(st.usages[k].count <= bound);
        }
    }
}

impl<'a> Footnotes<'a> {
    /// The state before any token is read.
    pub fn new() -> (notes: Footnotes<'a>)
        ensures
            notes@ == no_footnotes(),
            well_formed(notes@),
    {
        let notes = Footnotes {
            main: Vec::new(),
            name: String::new(),
            body: Vec::new(),
            definitions: Vec::new(),
            usages: Vec::new(),
            warnings: Vec::new(),
        };
        assert(notes@.main =~= Seq::empty());
        assert(notes@.body =~= Seq::empty());
        assert(notes@.definitions =~= Seq::empty());
        assert(notes@.usages =~= Seq::empty());
        assert(notes@.warnings =~= Seq::empty());
        notes
    }

    /// The index of the first record of `name`, or the number of records.
    fn find_usage(&self, name: &String) -> (k: usize)
        ensures
            k == usage_index(self@.usages, name@, 0),
            k <= self.usages.len(),
    {
        let mut k: usize = 0;
        while k < self.usages.len() && self.usages[k].name != *name
            invariant
                k <= self.usages.len(),
                usage_index(self@.usages, name@, 0) == usage_index(self@.usages, name@, k as int),
            decreases self.usages.len() - k,
        {
            k += 1;
        }
        k
    }

    /// Whether a definition of `name` is kept.
    fn has_definition(&self, name: &String) -> (r: bool)
        ensures
            r == (definition_index(self@.definitions, name@, 0) < self.definitions.len()),
    {
        let mut d: usize = 0;
        while d < self.definitions.len() && self.definitions[d].name != *name
            invariant
                d <= self.definitions.len(),
                definition_index(self@.definitions, name@, 0) == definition_index(
                    self@.definitions,
                    name@,
                    d as int,
                ),
            decreases self.definitions.len() - d,
        {
            d += 1;
        }
        d < self.definitions.len()
    }

    /// Puts a token where tokens go now: into the definition that is being
    /// read, or onto the page.
    fn place(&mut self, token: Token<'a>)
        ensures
            final(self)@ == (if old(self)@.name.len() == 0 {
                FootnotesView { main: old(self)@.main.push(token@), ..old(self)@ }
            } else {
                FootnotesView { body: old(self)@.body.push(token@), ..old(self)@ }
            }),
    {
        if self.name.as_str().is_empty() {
            self.main.push(token);
            assert(views(self.main@) =~= views(old(self).main@).push(token@));
        } else {
            self.body.push(token);
            assert(views(self.body@) =~= views(old(self).body@).push(token@));
        }
    }

    /// Reads one token.
    pub fn feed(&mut self, token: Token<'a>)
        requires
            counts_within(old(self)@.usages, usize::MAX - 1),
        ensures
            final(self)@ == note_step(old(self)@, token@),
            well_formed(old(self)@) ==> well_formed(final(self)@),
    {
        proof {
            if well_formed(old(self)@) {
                law_step_keeps_well_formed(old(self)@, token@);
            }
        }
        match token.kind {
            TokenKind::FootnoteDefinition => {
                if self.body.len() > 0 {
                    self.warnings.push(Warning::NestedDefinition);
                    assert(views(self.warnings@) =~= views(old(self).warnings@).push(
                        WarningView::NestedDefinition,
                    ));
                }
                self.name = special_escape(token.text.as_str());
            },
            TokenKind::FootnoteDefinitionEnd => {
                let mut name = String::new();
                let mut body: Vec<Token<'a>> = Vec::new();
                std::mem::swap(&mut self.name, &mut name);
                std::mem::swap(&mut self.body, &mut body);
                assert(views(self.body@) =~= Seq::empty());
                if self.has_definition(&name) {
                    let ghost warning = WarningView::DuplicateDefinition(name@);
                    self.warnings.push(Warning::DuplicateDefinition(name));
                    assert(views(self.warnings@) =~= views(old(self).warnings@).push(warning));
                } else {
                    let definition = Definition { name, body };
                    let ghost view = definition@;
                    self.definitions.push(definition);
                    assert(views(self.definitions@) =~= views(old(self).definitions@).push(view));
                }
            },
            TokenKind::FootnoteReference => {
                let name = special_escape(token.text.as_str());
                let k = self.find_usage(&name);
                proof {
                    lemma_usage_index(old(self)@.usages, name@, 0);
                }
                let count = if k < self.usages.len() {
                    assert(old(self)@.usages[k as int].count <= usize::MAX - 1);
                    let count = self.usages[k].count + 1;
                    let ghost view = UsageView { name: name@, count: count as nat };
                    self.usages.set(k, Usage { name: name.clone(), count });
                    assert(views(self.usages@) =~= views(old(self).usages@).update(k as int, view));
                    count
                } else {
                    let ghost view = UsageView { name: name@, count: 1 };
                    self.usages.push(Usage { name: name.clone(), count: 1 });
                    assert(views(self.usages@) =~= views(old(self).usages@).push(view));
                    1
                };
                assert(k < self.usages.len());
                let html = reference_text(&name, count, k + 1);
                self.place(Token::html(html));
            },
            _ => {
                self.place(token);
            },
        }
    }
}

/// The HTML that stands for a reference.
fn reference_text(name: &String, count: usize, number: usize) -> (r: String)
    ensures
        r@ == reference_html(name@, count as nat, number as nat),
{
    let n = chars_of(name.as_str());
    let mut h: Vec<char> = Vec::new();
    push_str(&mut h, "<sup class=\"footnote-reference\" id=\"");
    push_str(&mut h, "fr-");
    push_all(&mut h, &n);
    push_str(&mut h, "-");
    push_decimal(&mut h, count);
    push_str(&mut h, "\"><a href=\"#footnote-");
    push_all(&mut h, &n);
    push_str(&mut h, "\">");
    push_decimal(&mut h, number);
    push_str(&mut h, "</a></sup>");
    assert(h@ =~= reference_html(name@, count as nat, number as nat));
    string_of(&h)
}

/// The link from a definition back to a reference.
fn backlink_text(prefix: &Vec<char>, name: &Vec<char>, usage: usize) -> (r: String)
    ensures
        r@ == backlink_html(prefix@, name@, usage as nat),
{
    let mut h: Vec<char> = Vec::new();
    push_str(&mut h, " <a href=\"#");
    push_all(&mut h, prefix);
    push_str(&mut h, "fr-");
    push_all(&mut h, name);
    push_str(&mut h, "-");
    push_decimal(&mut h, usage);
    push_str(&mut h, "\">↩");
    if usage != 1 {
        push_decimal(&mut h, usage);
    }
    push_str(&mut h, "</a>");
    assert(h@ =~= backlink_html(prefix@, name@, usage as nat));
    string_of(&h)
}

/// What stands before the target of a link back.
fn backlink_prefix_chars(page: Option<&Vec<char>>) -> (r: Vec<char>)
    ensures
        r@ == backlink_prefix(
            match page {
                Some(p) => Some(p@),
                None => None,
            },
        ),
{
    match page {
        Some(p) => {
            let mut id = page_id_of(p);
            if id.len() > 0 {
                push_str(&mut id, "-");
            }
            id
        },
        None => Vec::new(),
    }
}

/// The tokens of a definition in the list.
fn definition_list_item<'a>(definition: Definition<'a>, count: usize, prefix: &Vec<char>) -> (r:
    Vec<Token<'a>>)
    ensures
        views(r@) == definition_tokens(definition@, count as nat, prefix@),
{
    let ghost def = definition@;
    let Definition { name, body } = definition;
    let mut body = body;
    let n = chars_of(name.as_str());
    let mut open: Vec<char> = Vec::new();
    push_str(&mut open, "<li id=\"footnote-");
    push_all(&mut open, &n);
    push_str(&mut open, "\">");
    assert(open@ =~= item_open(name@));
    let mut r: Vec<Token<'a>> = Vec::new();
    r.push(Token::html(string_of(&open)));
    let last = if body.len() > 0 && body[body.len() - 1].kind == TokenKind::ParagraphEnd {
        body.pop()
    } else {
        None
    };
    let ghost head = views(body@);
    assert(match last {
        Some(t) => def.body.len() > 0 && def.body.last().kind == TokenKind::ParagraphEnd && t@
            == def.body.last() && head =~= def.body.drop_last(),
        None => !(def.body.len() > 0 && def.body.last().kind == TokenKind::ParagraphEnd) && head
            =~= def.body,
    });
    r.append(&mut body);
    let ghost start = seq![html_token(item_open(name@))] + head;
    assert(views(r@) =~= start);
    let mut usage: usize = 0;
    while usage < count
        invariant
            usage <= count,
            n@ == name@,
            views(r@) == start + backlinks(prefix@, name@, usage as nat),
        decreases count - usage,
    {
        usage += 1;
        let ghost before = views(r@);
        let link = Token::html(backlink_text(prefix, &n, usage));
        let ghost link_view = link@;
        r.push(link);
        assert(views(r@) =~= before.push(link_view));
        assert(before.push(link_view) =~= start + backlinks(prefix@, name@, usage as nat));
    }
    match last {
        Some(t) => {
            let ghost before = views(r@);
            let ghost view = t@;
            r.push(t);
            assert(views(r@) =~= before.push(view));
        },
        None => {},
    }
    let ghost before = views(r@);
    r.push(Token::html(String::from_str("</li>\n")));
    assert(views(r@) =~= before.push(html_token("</li>\n"@)));
    r
}

/// The definitions that the records show, each in the place of its record.
fn place_definitions<'a>(definitions: Vec<Definition<'a>>, usages: &Vec<Usage>) -> (r: (
    Vec<Option<Definition<'a>>>,
    Vec<Warning>,
))
    ensures
        r.0.len() == usages.len(),
        forall|k: int|
            0 <= k < usages.len() ==> (match #[trigger] r.0[k] {
                Some(d) => Some(d@),
                None => None,
            }) == shown(views(definitions@), views(usages@), k),
        views(r.1@) == unreferenced(views(definitions@), views(usages@), definitions.len() as int),
{
    let ghost defs = views(definitions@);
    let ghost uses = views(usages@);
    let mut slots: Vec<Option<Definition<'a>>> = Vec::new();
    let mut k: usize = 0;
    while k < usages.len()
        invariant
            k <= usages.len(),
            slots.len() == k,
            forall|j: int| 0 <= j < k ==> (#[trigger] slots[j]) is None,
        decreases usages.len() - k,
    {
        slots.push(None);
        k += 1;
    }
    let mut warnings: Vec<Warning> = Vec::new();
    assert(views(warnings@) =~= unreferenced(defs, uses, 0));
    assert forall|k: int| 0 <= k < uses.len() implies shown(defs.take(0), uses, k) is None by {}
    for definition in it: definitions
        invariant
            it.seq() == definitions@,
            defs == views(definitions@),
            uses == views(usages@),
            slots.len() == usages.len(),
            forall|k: int|
                0 <= k < usages.len() ==> (match #[trigger] slots[k] {
                    Some(d) => Some(d@),
                    None => None,
                }) == shown(defs.take(it.index()), uses, k),
            views(warnings@) == unreferenced(defs, uses, it.index()),
    {
        let ghost i = it.index();
        let ghost name = definition.name@;
        assert(defs[i] == definition@);
        assert(defs.take(i + 1).drop_last() == defs.take(i));
        let mut k: usize = 0;
        while k < usages.len() && usages[k].name != definition.name
            invariant
                k <= usages.len(),
                uses == views(usages@),
                name == definition.name@,
                usage_index(uses, name, 0) == usage_index(uses, name, k as int),
            decreases usages.len() - k,
        {
            k += 1;
        }
        proof {
            lemma_usage_index(uses, name, 0);
            assert forall|j: int| 0 <= j < uses.len() implies shown(defs.take(i + 1), uses, j) == (
            if j == k && shown(defs.take(i), uses, j) is None {
                Some(defs[i])
            } else {
                shown(defs.take(i), uses, j)
            }) by {
                lemma_usage_index(uses, uses[j].name, 0);
                lemma_definition_index(defs.take(i), uses[j].name, 0);
                lemma_definition_index(defs.take(i + 1), uses[j].name, 0);
                let before = definition_index(defs.take(i), uses[j].name, 0);
                let after = definition_index(defs.take(i + 1), uses[j].name, 0);
                if before < i {
                    assert(defs.take(i + 1)[before] == defs.take(i)[before]);
                    if after < before {
                        assert(defs.take(i)[after] == defs.take(i + 1)[after]);
                    }
                    assert(after == before);
                } else {
                    if after < i {
                        assert(defs.take(i)[after] == defs.take(i + 1)[after]);
                    }
                    assert(after >= i);
                    assert(defs.take(i + 1)[i] == defs[i]);
                }
            }
        }
        if k < usages.len() {
            let free = match &slots[k] {
                Some(_) => false,
                None => true,
            };
            if free {
                slots.set(k, Some(definition));
            }
        } else {
            let ghost before = views(warnings@);
            warnings.push(Warning::UnreferencedDefinition(definition.name));
            assert(views(warnings@) =~= before.push(WarningView::UnreferencedDefinition(name)));
        }
    }
    assert(defs.take(definitions.len() as int) == defs);
    (slots, warnings)
}

/// Adds the list of definitions to `body`: a rule and an ordered list with an
/// item for each footnote that is referred to and defined, in the order of
/// the records. Gives back a warning for each definition that no record
/// names.
pub fn add_footnote_defs<'a>(
    body: &mut String,
    path: Option<&str>,
    definitions: Vec<Definition<'a>>,
    usages: &Vec<Usage>,
) -> (warnings: Vec<Warning>)
    ensures
        final(body)@ == old(body)@ + appendix(views(definitions@), views(usages@), text_of(path)),
        views(warnings@) == unreferenced(
            views(definitions@),
            views(usages@),
            definitions.len() as int,
        ),
{
    let ghost defs = views(definitions@);
    let ghost uses = views(usages@);
    let prefix = match path {
        Some(p) => {
            let page = chars_of(p);
            backlink_prefix_chars(Some(&page))
        },
        None => backlink_prefix_chars(None),
    };
    let (slots, warnings) = place_definitions(definitions, usages);
    body.append("<hr>\n<ol class=\"footnote-definition\">");
    let ghost start = body@;
    assert(start + appendix_items(defs, uses, prefix@, 0) =~= start);
    let mut at: usize = 0;
    for slot in it: slots
        invariant
            it.seq() == slots@,
            at == it.index(),
            slots.len() == usages.len(),
            uses == views(usages@),
            forall|k: int|
                0 <= k < usages.len() ==> (match #[trigger] slots[k] {
                    Some(d) => Some(d@),
                    None => None,
                }) == shown(defs, uses, k),
            body@ == start + appendix_items(defs, uses, prefix@, it.index()),
    {
        let ghost k = it.index();
        let ghost before = body@;
        assert(slot == slots[k]);
        match slot {
            Some(definition) => {
                let item = definition_list_item(definition, usages[at].count, &prefix);
                push_tokens(body, item);
                assert(body@ == before + appendix_item(defs, uses, prefix@, k));
            },
            None => {
                assert(before + appendix_item(defs, uses, prefix@, k) =~= before);
            },
        }
        assert((start + appendix_items(defs, uses, prefix@, k)) + appendix_item(
            defs,
            uses,
            prefix@,
            k,
        ) =~= start + appendix_items(defs, uses, prefix@, k + 1));
        at += 1;
    }
    let ghost items = appendix_items(defs, uses, prefix@, usages.len() as int);
    body.append("</ol>");
    assert(body@ =~= old(body)@ + ("<hr>\n<ol class=\"footnote-definition\">"@ + items + "</ol>"@));
    warnings
}

/// No two records share a name, every record counts a reference, and no two
/// definitions share a name.
pub open spec fn well_formed(st: FootnotesView) -> bool {
    &&& forall|i: int, j: int|
        0 <= i < j < st.usages.len() ==> st.usages[i].name != st.usages[j].name
    &&& forall|i: int| 0 <= i < st.usages.len() ==> (#[trigger] st.usages[i]).count >= 1
    &&& forall|i: int, j: int|
        0 <= i < j < st.definitions.len() ==> st.definitions[i].name != st.definitions[j].name
}

/// Whether a token is a start or an end of a definition, or a reference.
pub open spec fn is_footnote_kind(kind: TokenKind) -> bool {
    kind == TokenKind::FootnoteDefinition || kind == TokenKind::FootnoteDefinitionEnd || kind
        == TokenKind::FootnoteReference
}

/// Reading a token keeps the state well formed.
pub proof fn law_step_keeps_well_formed(st: FootnotesView, t: TokenView)
    requires
        well_formed(st),
    ensures
        well_formed(note_step(st, t)),
{
    let after = note_step(st, t);
    if t.kind == TokenKind::FootnoteReference {
        let name = spec_special_escape(t.text);
        lemma_usage_index(st.usages, name, 0);
        assert(after.usages == count_reference(st.usages, name));
        assert forall|i: int, j: int| 0 <= i < j < after.usages.len() implies after.usages[i].name
            != after.usages[j].name by {
            if j < st.usages.len() {
                assert(st.usages[i].name != st.usages[j].name);
            }
        }
        assert forall|i: int| 0 <= i < after.usages.len() implies (#[trigger] after.usages[i]).count
            >= 1 by {
            if i < st.usages.len() {
                assert(st.usages[i].count >= 1);
            }
        }
    } else if t.kind == TokenKind::FootnoteDefinitionEnd {
        lemma_definition_index(st.definitions, st.name, 0);
        assert forall|i: int, j: int| 0 <= i < j < after.definitions.len() implies after.definitions[i].name
            != after.definitions[j].name by {
            if j < st.definitions.len() {
                assert(st.definitions[i].name != st.definitions[j].name);
            }
        }
    }
}

/// Every reference has a number when it is read: the footnote has a record
/// then, its number is the place of that record, and a footnote that had a
/// record before keeps it where it was.
pub proof fn law_reference_is_numbered(st: FootnotesView, t: TokenView)
    requires
        t.kind == TokenKind::FootnoteReference,
    ensures
        ({
            let name = spec_special_escape(t.text);
            let before = usage_index(st.usages, name, 0);
            let after = usage_index(note_step(st, t).usages, name, 0);
            &&& after < note_step(st, t).usages.len()
            &&& after == before
            &&& note_step(st, t).usages[after].count == (if before < st.usages.len() {
                st.usages[before].count + 1
            } else {
                1
            })
        }),
{
    let name = spec_special_escape(t.text);
    let after = note_step(st, t).usages;
    lemma_usage_index(st.usages, name, 0);
    lemma_usage_index(after, name, 0);
    let before = usage_index(st.usages, name, 0);
    assert(after == count_reference(st.usages, name));
    assert(after[before].name == name);
    if usage_index(after, name, 0) < before {
        assert(st.usages[usage_index(after, name, 0)].name == name);
    }
}

/// A record shows no definition but one of its own name: a definition that
/// nothing refers to is in no item of the list.
pub proof fn law_only_referenced_definitions_are_shown(
    definitions: Seq<DefinitionView>,
    usages: Seq<UsageView>,
    k: int,
)
    requires
        0 <= k < usages.len(),
    ensures
        shown(definitions, usages, k) matches Some(d) ==> d.name == usages[k].name
            && definitions.contains(d),
{
    lemma_definition_index(definitions, usages[k].name, 0);
}

/// In a well-formed state every record is the first of its name: it shows
/// the definition of its name wherever one is kept.
pub proof fn law_records_show_their_definitions(st: FootnotesView, k: int)
    requires
        well_formed(st),
        0 <= k < st.usages.len(),
    ensures
        usage_index(st.usages, st.usages[k].name, 0) == k,
        definition_index(st.definitions, st.usages[k].name, 0) < st.definitions.len() ==> shown(
            st.definitions,
            st.usages,
            k,
        ) == Some(st.definitions[definition_index(st.definitions, st.usages[k].name, 0)]),
{
    lemma_usage_index(st.usages, st.usages[k].name, 0);
    let first = usage_index(st.usages, st.usages[k].name, 0);
    if first < k {
        assert(st.usages[first].name != st.usages[k].name);
    }
}

/// Where nothing is referred to, the list has no item, and there is one
/// warning for each definition.
pub proof fn law_nothing_referenced_nothing_listed(
    definitions: Seq<DefinitionView>,
    prefix: Seq<char>,
    upto: int,
)
    requires
        0 <= upto <= definitions.len(),
    ensures
        appendix_items(definitions, Seq::empty(), prefix, 0) == Seq::<char>::empty(),
        unreferenced(definitions, Seq::empty(), upto).len() == upto,
        forall|i: int|
            0 <= i < upto ==> unreferenced(definitions, Seq::empty(), upto)[i]
                == WarningView::UnreferencedDefinition(definitions[i].name),
    decreases upto,
{
    if upto > 0 {
        law_nothing_referenced_nothing_listed(definitions, prefix, upto - 1);
    }
}

/// One definition and one record of its name give a list of one item, the
/// definition with its links back, and no warning.
pub proof fn law_one_footnote_one_item(
    definition: DefinitionView,
    usage: UsageView,
    prefix: Seq<char>,
)
    requires
        usage.name == definition.name,
    ensures
        appendix_items(seq![definition], seq![usage], prefix, 1) == rendered(
            definition_tokens(definition, usage.count, prefix),
        ),
        unreferenced(seq![definition], seq![usage], 1) == Seq::<WarningView>::empty(),
{
    let definitions = seq![definition];
    let usages = seq![usage];
    assert(appendix_items(definitions, usages, prefix, 0) == Seq::<char>::empty());
    assert(shown(definitions, usages, 0) == Some(definition));
    assert(Seq::<char>::empty() + appendix_item(definitions, usages, prefix, 0) =~= appendix_item(
        definitions,
        usages,
        prefix,
        0,
    ));
    assert(unreferenced(definitions, usages, 0) == Seq::<WarningView>::empty());
}

/// A reference to a footnote and then its definition, read from the start:
/// the page gets the link for the first reference under the number one, the
/// definition is kept with its body, the record counts one reference, and
/// there is nothing to warn of. The name must not be empty once escaped, and
/// the body must hold no token of a footnote.
pub proof fn law_footnote_round_trip(
    reference: TokenView,
    start: TokenView,
    body: Seq<TokenView>,
    end: TokenView,
)
    requires
        reference.kind == TokenKind::FootnoteReference,
        start.kind == TokenKind::FootnoteDefinition,
        end.kind == TokenKind::FootnoteDefinitionEnd,
        start.text == reference.text,
        spec_special_escape(reference.text).len() > 0,
        forall|i: int| 0 <= i < body.len() ==> !is_footnote_kind(#[trigger] body[i].kind),
    ensures
        ({
            let name = spec_special_escape(reference.text);
            let st = note_steps(no_footnotes(), (seq![reference, start] + body).push(end));
            &&& st.main == seq![html_token(reference_html(name, 1, 1))]
            &&& st.definitions == seq![DefinitionView { name, body }]
            &&& st.usages == seq![UsageView { name, count: 1 }]
            &&& st.warnings == Seq::<WarningView>::empty()
            &&& st.name.len() == 0
        }),
{
    let name = spec_special_escape(reference.text);
    let head = seq![reference, start];
    let s0 = no_footnotes();
    assert(head.drop_last() =~= seq![reference]);
    assert(seq![reference].drop_last() =~= Seq::<TokenView>::empty());
    assert(note_steps(s0, Seq::<TokenView>::empty()) == s0);
    assert(note_steps(s0, seq![reference]) == note_step(s0, reference));
    let s1 = note_step(s0, reference);
    assert(s1.usages =~= seq![UsageView { name, count: 1 }]);
    assert(s1.main =~= seq![html_token(reference_html(name, 1, 1))]);
    let s2 = note_step(s1, start);
    assert(note_steps(s0, head) == s2);
    lemma_body_is_buffered(s2, head, body, body.len() as int);
    assert((head + body).take((head.len() + body.len()) as int) =~= head + body);
    assert(body.take(body.len() as int) =~= body);
    let s3 = note_steps(s0, head + body);
    let all = (head + body).push(end);
    assert(all.drop_last() =~= head + body);
    assert(note_steps(s0, all) == note_step(s3, end));
    assert(s3.body =~= body);
    let s4 = note_step(s3, end);
    assert(s4.definitions =~= seq![DefinitionView { name, body }]);
}

/// A definition that nothing refers to, read from the start: it is kept with
/// its body, nothing goes to the page, no footnote is counted, and there is
/// one warning, which names it. The name must not be empty once escaped, and
/// the body must hold no token of a footnote.
pub proof fn law_definition_alone(start: TokenView, body: Seq<TokenView>, end: TokenView)
    requires
        start.kind == TokenKind::FootnoteDefinition,
        end.kind == TokenKind::FootnoteDefinitionEnd,
        spec_special_escape(start.text).len() > 0,
        forall|i: int| 0 <= i < body.len() ==> !is_footnote_kind(#[trigger] body[i].kind),
    ensures
        ({
            let name = spec_special_escape(start.text);
            let st = note_steps(no_footnotes(), (seq![start] + body).push(end));
            &&& st.main == Seq::<TokenView>::empty()
            &&& st.definitions == seq![DefinitionView { name, body }]
            &&& st.usages == Seq::<UsageView>::empty()
            &&& st.warnings == Seq::<WarningView>::empty()
            &&& unreferenced(st.definitions, st.usages, 1) == seq![
                WarningView::UnreferencedDefinition(name),
            ]
        }),
{
    let name = spec_special_escape(start.text);
    let head = seq![start];
    let s0 = no_footnotes();
    assert(head.drop_last() =~= Seq::<TokenView>::empty());
    assert(note_steps(s0, Seq::<TokenView>::empty()) == s0);
    let s1 = note_step(s0, start);
    assert(note_steps(s0, head) == s1);
    lemma_body_is_buffered(s1, head, body, body.len() as int);
    assert((head + body).take((head.len() + body.len()) as int) =~= head + body);
    assert(body.take(body.len() as int) =~= body);
    let s2 = note_steps(s0, head + body);
    let all = (head + body).push(end);
    assert(all.drop_last() =~= head + body);
    assert(note_steps(s0, all) == note_step(s2, end));
    assert(s2.body =~= body);
    let s3 = note_step(s2, end);
    assert(s3.definitions =~= seq![DefinitionView { name, body }]);
    assert(unreferenced(s3.definitions, s3.usages, 0) == Seq::<WarningView>::empty());
    assert(unreferenced(s3.definitions, s3.usages, 1) =~= seq![
        WarningView::UnreferencedDefinition(name),
    ]);
}

/// Tokens that are none of a footnote, read inside a definition, are added to
/// its body and change nothing else.
proof fn lemma_body_is_buffered(
    st: FootnotesView,
    head: Seq<TokenView>,
    body: Seq<TokenView>,
    n: int,
)
    requires
        st == note_steps(no_footnotes(), head),
        st.name.len() > 0,
        0 <= n <= body.len(),
        forall|i: int| 0 <= i < body.len() ==> !is_footnote_kind(#[trigger] body[i].kind),
    ensures
        note_steps(no_footnotes(), (head + body).take(head.len() + n)) == (FootnotesView {
            body: st.body + body.take(n),
            ..st
        }),
    decreases n,
{
    let pieces = (head + body).take(head.len() + n);
    if n == 0 {
        assert(pieces =~= head);
        assert(st.body + body.take(0) =~= st.body);
    } else {
        lemma_body_is_buffered(st, head, body, n - 1);
        assert(pieces.drop_last() =~= (head + body).take(head.len() + n - 1));
        assert(pieces.last() == body[n - 1]);
        assert(!is_footnote_kind(body[n - 1].kind));
        assert((st.body + body.take(n - 1)).push(body[n - 1]) =~= st.body + body.take(n));
    }
}

} // verus!
