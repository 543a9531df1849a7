//! The order in which the redirects of a book are tried: the longest path
//! that moved first, and paths of one length in the order of their text.

use crate::text::chars_of;
use vstd::prelude::*;

verus! {

/// Each redirect as the path that moved and where it moved to, as text.
pub open spec fn pairs_of(table: Seq<(String, String)>) -> Seq<(Seq<char>, Seq<char>)> {
    Seq::new(table.len(), |i: int| (table[i].0@, table[i].1@))
}

/// Whether `a` comes no later than `b` in the order of their text, where the
/// two agree before the index `from`: at the first index at which they differ
/// `a` has the smaller character.
pub open spec fn text_le(a: Seq<char>, b: Seq<char>, from: int) -> bool
    decreases a.len() - from,
{
    if from < 0 || from >= a.len() || from >= b.len() {
        true
    } else if a[from] != b[from] {
        a[from] < b[from]
    } else {
        text_le(a, b, from + 1)
    }
}

/// Whether a redirect of the path `a` is tried no later than one of the path
/// `b`: `a` is longer, or as long and no later in the order of their text.
pub open spec fn tried_before(a: Seq<char>, b: Seq<char>) -> bool {
    a.len() > b.len() || (a.len() == b.len() && text_le(a, b, 0))
}

/// Each redirect is tried no later than those behind it.
pub open spec fn in_order(pairs: Seq<(Seq<char>, Seq<char>)>) -> bool {
    forall|i: int, j: int| 0 <= i < j < pairs.len() ==> tried_before(pairs[i].0, pairs[j].0)
}

/// Of two texts of one length, one comes no later than the other.
proof fn lemma_text_le_total(a: Seq<char>, b: Seq<char>, from: int)
    requires
        a.len() == b.len(),
    ensures
        text_le(a, b, from) || text_le(b, a, from),
    decreases a.len() - from,
{
    if 0 <= from < a.len() && a[from] == b[from] {
        lemma_text_le_total(a, b, from + 1);
    }
}

/// What comes no later than a text that comes no later than a third comes no
/// later than the third.
proof fn lemma_text_le_transitive(a: Seq<char>, b: Seq<char>, c: Seq<char>, from: int)
    requires
        a.len() == b.len(),
        b.len() == c.len(),
        text_le(a, b, from),
        text_le(b, c, from),
    ensures
        text_le(a, c, from),
    decreases a.len() - from,
{
    if 0 <= from < a.len() && a[from] == b[from] && b[from] == c[from] {
        lemma_text_le_transitive(a, b, c, from + 1);
    }
}

/// Two texts of one length of which each comes no later than the other are
/// the same.
proof fn lemma_text_le_decides(a: Seq<char>, b: Seq<char>, from: int)
    requires
        a.len() == b.len(),
        0 <= from,
        text_le(a, b, from),
        text_le(b, a, from),
    ensures
        forall|i: int| from <= i < a.len() ==> a[i] == b[i],
    decreases a.len() - from,
{
    if from < a.len() {
        lemma_text_le_decides(a, b, from + 1);
    }
}

/// The order leaves nothing open between different paths: two paths of which
/// each is tried no later than the other are the same path.
pub proof fn law_order_of_paths_is_decided(a: Seq<char>, b: Seq<char>)
    requires
        tried_before(a, b),
        tried_before(b, a),
    ensures
        a == b,
{
    lemma_text_le_decides(a, b, 0);
    assert(a =~= b);
}

/// Of two paths one is tried no later than the other.
pub proof fn lemma_tried_before_total(a: Seq<char>, b: Seq<char>)
    ensures
        tried_before(a, b) || tried_before(b, a),
{
    if a.len() == b.len() {
        lemma_text_le_total(a, b, 0);
    }
}

/// What is tried no later than a path that is tried no later than a third is
/// tried no later than the third.
pub proof fn lemma_tried_before_transitive(a: Seq<char>, b: Seq<char>, c: Seq<char>)
    requires
        tried_before(a, b),
        tried_before(b, c),
    ensures
        tried_before(a, c),
{
    if a.len() == b.len() && b.len() == c.len() {
        lemma_text_le_transitive(a, b, c, 0);
    }
}

/// Putting a redirect into a table adds it to what the table holds and takes
/// nothing away.
proof fn lemma_insert_adds_one(
    pairs: Seq<(Seq<char>, Seq<char>)>,
    at: int,
    pair: (Seq<char>, Seq<char>),
)
    requires
        0 <= at <= pairs.len(),
    ensures
        pairs.insert(at, pair).to_multiset() == pairs.to_multiset().insert(pair),
{
    let longer = pairs.insert(at, pair);
    longer.to_multiset_ensures();
    assert(longer[at] == pair);
    assert(longer.remove(at) =~= pairs);
    assert(longer.to_multiset().remove(pair) =~= pairs.to_multiset());
    assert(longer.contains(pair));
    assert(longer.to_multiset() =~= pairs.to_multiset().insert(pair));
}

/// Whether a redirect of the path `a` is tried no later than one of the path
/// `b`.
fn comes_before(a: &Vec<char>, b: &Vec<char>) -> (r: bool)
    ensures
        r == tried_before(a@, b@),
{
    if a.len() != b.len() {
        return a.len() > b.len();
    }
    let mut i: usize = 0;
    while i < a.len()
        invariant
            i <= a.len(),
            a.len() == b.len(),
            text_le(a@, b@, 0) == text_le(a@, b@, i as int),
        decreases a.len() - i,
    {
        if a[i] != b[i] {
            return a[i] < b[i];
        }
        i += 1;
    }
    true
}

/// The redirects of a book in the order in which they are tried: the longest
/// path that moved first, and paths of one length in the order of their text.
/// Every redirect of the table is in the result, as often as it is in the
/// table, and nothing else.
pub fn order_redirects(table: Vec<(String, String)>) -> (ordered: Vec<(String, String)>)
    ensures
        pairs_of(ordered@).to_multiset() == pairs_of(table@).to_multiset(),
        in_order(pairs_of(ordered@)),
{
    let ghost all = pairs_of(table@);
    let mut ordered: Vec<(String, String)> = Vec::new();
    assert(all.take(0) =~= Seq::empty());
    assert(pairs_of(ordered@) =~= Seq::empty());
    for pair in it: table
        invariant
            it.seq() == table@,
            all == pairs_of(table@),
            in_order(pairs_of(ordered@)),
            pairs_of(ordered@).to_multiset() == all.take(it.index()).to_multiset(),
    {
        let ghost i = it.index();
        let ghost before = pairs_of(ordered@);
        let ghost new = (pair.0@, pair.1@);
        assert(all[i] == new);
        let source = chars_of(pair.0.as_str());
        let mut at: usize = 0;
        while at < ordered.len() && comes_before(&chars_of(ordered[at].0.as_str()), &source)
            invariant
                at <= ordered.len(),
                source@ == new.0,
                before == pairs_of(ordered@),
                forall|k: int| 0 <= k < at ==> tried_before(#[trigger] before[k].0, new.0),
            decreases ordered.len() - at,
        {
            assert(before[at as int].0 == ordered[at as int].0@);
            at += 1;
        }
        ordered.insert(at, pair);
        proof {
            let after = pairs_of(ordered@);
            assert(after =~= before.insert(at as int, new));
            lemma_insert_adds_one(before, at as int, new);
            all.take(i).to_multiset_ensures();
            assert(all.take(i + 1) =~= all.take(i).push(new));
            assert forall|x: int, y: int| 0 <= x < y < after.len() implies tried_before(
                after[x].0,
                after[y].0,
            ) by {
                if y == at {
                    assert(after[x] == before[x]);
                } else if x == at {
                    // `new` stands before what it was not behind
                    assert(after[y] == before[y - 1]);
                    lemma_tried_before_total(before[at as int].0, new.0);
                    if y - 1 > at {
                        lemma_tried_before_transitive(new.0, before[at as int].0, before[y - 1].0);
                    }
                } else {
                    let bx = if x < at { x } else { x - 1 };
                    let by = if y < at { y } else { y - 1 };
                    assert(after[x] == before[bx]);
                    assert(after[y] == before[by]);
                }
            }
        }
    }
    assert(all.take(table@.len() as int) =~= all);
    ordered
}

} // verus!
