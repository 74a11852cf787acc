//! The order of siblings: directories first, then files, each group by name
//! without regard to case; and the stable sort that establishes it.

use crate::entry::{tree_view, Entry, FileNode};
use crate::names::{
    lemma_text_le_reflexive, lemma_text_le_total, lemma_text_le_transitive, lowercase_of, text_le,
    text_precedes, to_lowercase,
};
use vstd::prelude::*;

verus! {

/// `a` may stand before `b` among siblings: a directory before a file, and
/// within one group the name that comes no later once both are in lowercase.
pub open spec fn sibling_le(a: Entry, b: Entry) -> bool {
    if a.is_directory != b.is_directory {
        a.is_directory
    } else {
        text_le(lowercase_of(a.name), lowercase_of(b.name))
    }
}

/// Neither of two entries has to stand before the other.
pub open spec fn tied(a: Entry, b: Entry) -> bool {
    sibling_le(a, b) && sibling_le(b, a)
}

/// Every entry of the sequence may stand before all that follow it.
pub open spec fn siblings_ordered(siblings: Seq<Entry>) -> bool {
    forall|i: int, j: int| 0 <= i < j < siblings.len() ==> sibling_le(siblings[i], siblings[j])
}

/// How many leading entries of `siblings` have to stand before `x`.
pub open spec fn rank_of(x: Entry, siblings: Seq<Entry>) -> int
    decreases siblings.len(),
{
    if siblings.len() == 0 || sibling_le(x, siblings[0]) {
        0
    } else {
        1 + rank_of(x, siblings.drop_first())
    }
}

/// `x` put in front of the first sibling that it may stand before.
pub open spec fn insert_sibling(x: Entry, siblings: Seq<Entry>) -> Seq<Entry> {
    siblings.insert(rank_of(x, siblings), x)
}

/// The stable sort of `siblings` by `sibling_le`: the entries in order,
/// with tied entries in the order in which they came.
pub open spec fn sort_siblings(siblings: Seq<Entry>) -> Seq<Entry>
    decreases siblings.len(),
{
    if siblings.len() == 0 {
        siblings
    } else {
        insert_sibling(siblings[0], sort_siblings(siblings.drop_first()))
    }
}

/// The entries of `siblings` that are tied with `e`, in their order.
pub open spec fn peers_of(e: Entry, siblings: Seq<Entry>) -> Seq<Entry>
    decreases siblings.len(),
{
    if siblings.len() == 0 {
        siblings
    } else if tied(siblings[0], e) {
        seq![siblings[0]] + peers_of(e, siblings.drop_first())
    } else {
        peers_of(e, siblings.drop_first())
    }
}

/// Every entry may stand before itself.
pub proof fn lemma_sibling_le_reflexive(a: Entry)
    ensures
        sibling_le(a, a),
{
    lemma_text_le_reflexive(lowercase_of(a.name));
}

/// Of two entries one may stand before the other.
pub proof fn lemma_sibling_le_total(a: Entry, b: Entry)
    ensures
        sibling_le(a, b) || sibling_le(b, a),
{
    lemma_text_le_total(lowercase_of(a.name), lowercase_of(b.name));
}

/// The order of siblings is transitive.
pub proof fn lemma_sibling_le_transitive(a: Entry, b: Entry, c: Entry)
    requires
        sibling_le(a, b),
        sibling_le(b, c),
    ensures
        sibling_le(a, c),
{
    if a.is_directory == b.is_directory && b.is_directory == c.is_directory {
        lemma_text_le_transitive(
            lowercase_of(a.name),
            lowercase_of(b.name),
            lowercase_of(c.name),
        );
    }
}

/// `rank_of` is the first position whose entry `x` may stand before: all
/// entries before it have to precede `x`.
pub proof fn lemma_rank_of(x: Entry, siblings: Seq<Entry>)
    ensures
        0 <= rank_of(x, siblings) <= siblings.len(),
        forall|i: int| 0 <= i < rank_of(x, siblings) ==> !sibling_le(x, #[trigger] siblings[i]),
        rank_of(x, siblings) < siblings.len() ==> sibling_le(x, siblings[rank_of(x, siblings)]),
    decreases siblings.len(),
{
    if siblings.len() > 0 && !sibling_le(x, siblings[0]) {
        let rest = siblings.drop_first();
        lemma_rank_of(x, rest);
        assert forall|i: int| 0 <= i < rank_of(x, siblings) implies !sibling_le(
            x,
            #[trigger] siblings[i],
        ) by {
            if i > 0 {
                assert(siblings[i] == rest[i - 1]);
            }
        }
        assert(rank_of(x, siblings) < siblings.len() ==> siblings[rank_of(x, siblings)]
            == rest[rank_of(x, rest)]);
    }
}

/// The position that `lemma_rank_of` describes is the only one of its kind.
pub proof fn lemma_rank_is(x: Entry, siblings: Seq<Entry>, at: int)
    requires
        0 <= at <= siblings.len(),
        forall|i: int| 0 <= i < at ==> !sibling_le(x, #[trigger] siblings[i]),
        at < siblings.len() ==> sibling_le(x, siblings[at]),
    ensures
        rank_of(x, siblings) == at,
    decreases siblings.len(),
{
    if at > 0 {
        let rest = siblings.drop_first();
        assert(!sibling_le(x, siblings[0]));
        assert forall|i: int| 0 <= i < at - 1 implies !sibling_le(x, #[trigger] rest[i]) by {
            assert(rest[i] == siblings[i + 1]);
        }
        assert(at - 1 < rest.len() ==> rest[at - 1] == siblings[at]);
        lemma_rank_is(x, rest, at - 1);
    }
}

/// Putting `x` into an ordered sequence leaves it ordered.
pub proof fn lemma_insert_keeps_order(x: Entry, siblings: Seq<Entry>)
    requires
        siblings_ordered(siblings),
    ensures
        siblings_ordered(insert_sibling(x, siblings)),
{
    let at = rank_of(x, siblings);
    let out = insert_sibling(x, siblings);
    lemma_rank_of(x, siblings);
    assert forall|i: int, j: int| 0 <= i < j < out.len() implies sibling_le(out[i], out[j]) by {
        if j == at {
            assert(out[i] == siblings[i]);
            lemma_sibling_le_total(x, siblings[i]);
        } else if i == at {
            assert(out[j] == siblings[j - 1]);
            if j - 1 > at {
                lemma_sibling_le_transitive(x, siblings[at], siblings[j - 1]);
            }
        } else {
            let si = if i < at { i } else { i - 1 };
            let sj = if j < at { j } else { j - 1 };
            assert(out[i] == siblings[si] && out[j] == siblings[sj]);
        }
    }
}

/// The sort yields an ordered sequence.
pub proof fn lemma_sort_orders(siblings: Seq<Entry>)
    ensures
        siblings_ordered(sort_siblings(siblings)),
    decreases siblings.len(),
{
    if siblings.len() > 0 {
        lemma_sort_orders(siblings.drop_first());
        lemma_insert_keeps_order(siblings[0], sort_siblings(siblings.drop_first()));
    }
}

/// The sort keeps every entry, as often as it occurred.
pub proof fn lemma_sort_permutes(siblings: Seq<Entry>)
    ensures
        sort_siblings(siblings).to_multiset() == siblings.to_multiset(),
        sort_siblings(siblings).len() == siblings.len(),
    decreases siblings.len(),
{
    broadcast use vstd::seq_lib::group_to_multiset_ensures;

    if siblings.len() > 0 {
        let rest = siblings.drop_first();
        let sorted = sort_siblings(rest);
        lemma_sort_permutes(rest);
        lemma_rank_of(siblings[0], sorted);
        assert(siblings =~= rest.insert(0, siblings[0]));
        assert(sort_siblings(siblings).to_multiset() =~= sorted.to_multiset().insert(siblings[0]));
        assert(siblings.to_multiset() =~= rest.to_multiset().insert(siblings[0]));
    }
}

/// Putting `x` into a sequence puts it in front of the entries tied with
/// it, and leaves the entries tied with any other entry as they were.
pub proof fn lemma_insert_keeps_peers(x: Entry, siblings: Seq<Entry>, e: Entry)
    ensures
        peers_of(e, insert_sibling(x, siblings)) == if tied(x, e) {
            seq![x] + peers_of(e, siblings)
        } else {
            peers_of(e, siblings)
        },
    decreases siblings.len(),
{
    let out = insert_sibling(x, siblings);
    if siblings.len() == 0 || sibling_le(x, siblings[0]) {
        assert(out.drop_first() =~= siblings);
    } else {
        let head = siblings[0];
        let rest = siblings.drop_first();
        lemma_rank_of(x, rest);
        lemma_insert_keeps_peers(x, rest, e);
        assert(out[0] == head);
        assert(out.drop_first() =~= insert_sibling(x, rest));
        if tied(x, e) && tied(head, e) {
            lemma_sibling_le_transitive(x, e, head);
        }
        if tied(x, e) {
            assert(peers_of(e, out) =~= seq![x] + peers_of(e, siblings));
        }
    }
}

/// The sort is stable: the entries tied with any one entry keep the order
/// in which they came.
pub proof fn lemma_sort_is_stable(siblings: Seq<Entry>, e: Entry)
    ensures
        peers_of(e, sort_siblings(siblings)) == peers_of(e, siblings),
    decreases siblings.len(),
{
    if siblings.len() > 0 {
        lemma_sort_is_stable(siblings.drop_first(), e);
        lemma_insert_keeps_peers(siblings[0], sort_siblings(siblings.drop_first()), e);
    }
}

/// Where an entry has peers in a sequence, one of the sequence is tied
/// with it.
pub proof fn lemma_peer_exists(e: Entry, siblings: Seq<Entry>)
    requires
        peers_of(e, siblings).len() > 0,
    ensures
        exists|k: int| 0 <= k < siblings.len() && tied(#[trigger] siblings[k], e),
    decreases siblings.len(),
{
    if !tied(siblings[0], e) {
        let rest = siblings.drop_first();
        lemma_peer_exists(e, rest);
        let k = choose|k: int| 0 <= k < rest.len() && tied(#[trigger] rest[k], e);
        assert(tied(siblings[k + 1], e));
    }
}

/// Order and peers decide a sequence: two ordered sequences in which every
/// entry has the same peers are equal.
pub proof fn lemma_order_and_peers_decide(a: Seq<Entry>, b: Seq<Entry>)
    requires
        siblings_ordered(a),
        siblings_ordered(b),
        forall|e: Entry| peers_of(e, a) == peers_of(e, b),
    ensures
        a == b,
    decreases a.len() + b.len(),
{
    if a.len() == 0 && b.len() == 0 {
        assert(a =~= b);
    } else if a.len() == 0 || b.len() == 0 {
        let (full, none) = if a.len() == 0 {
            (b, a)
        } else {
            (a, b)
        };
        lemma_sibling_le_reflexive(full[0]);
        assert(peers_of(full[0], full).len() > 0);
        assert(peers_of(full[0], none).len() == 0);
    } else {
        let x = a[0];
        let y = b[0];
        let ra = a.drop_first();
        let rb = b.drop_first();
        lemma_sibling_le_reflexive(x);
        lemma_sibling_le_reflexive(y);
        assert(peers_of(x, a).len() > 0);
        assert(peers_of(y, b).len() > 0);
        assert(peers_of(x, b) == peers_of(x, a));
        assert(peers_of(y, a) == peers_of(y, b));
        lemma_peer_exists(x, b);
        lemma_peer_exists(y, a);
        let k = choose|k: int| 0 <= k < b.len() && tied(#[trigger] b[k], x);
        let j = choose|j: int| 0 <= j < a.len() && tied(#[trigger] a[j], y);
        assert(sibling_le(y, x)) by {
            if k > 0 {
                lemma_sibling_le_transitive(y, b[k], x);
            }
        }
        assert(sibling_le(x, y)) by {
            if j > 0 {
                lemma_sibling_le_transitive(x, a[j], y);
            }
        }
        assert(peers_of(x, a)[0] == x);
        assert(peers_of(x, b)[0] == y);
        assert(x == y);
        assert forall|e: Entry| peers_of(e, ra) == peers_of(e, rb) by {
            assert(peers_of(e, a) == peers_of(e, b));
            if tied(x, e) {
                assert(peers_of(e, a).drop_first() =~= peers_of(e, ra));
                assert(peers_of(e, b).drop_first() =~= peers_of(e, rb));
            }
        }
        assert forall|i: int, j: int| 0 <= i < j < ra.len() implies sibling_le(ra[i], ra[j]) by {
            assert(ra[i] == a[i + 1] && ra[j] == a[j + 1]);
        }
        assert forall|i: int, j: int| 0 <= i < j < rb.len() implies sibling_le(rb[i], rb[j]) by {
            assert(rb[i] == b[i + 1] && rb[j] == b[j + 1]);
        }
        lemma_order_and_peers_decide(ra, rb);
        assert(a =~= seq![x] + ra);
        assert(b =~= seq![y] + rb);
    }
}

/// The sort gives the one sequence that is ordered and in which every entry
/// has the peers that it had, in the order in which they came.
pub proof fn lemma_sort_is_the_stable_order(siblings: Seq<Entry>, out: Seq<Entry>)
    requires
        siblings_ordered(out),
        forall|e: Entry| peers_of(e, out) == peers_of(e, siblings),
    ensures
        out == sort_siblings(siblings),
{
    lemma_sort_orders(siblings);
    assert forall|e: Entry| peers_of(e, out) == peers_of(e, sort_siblings(siblings)) by {
        lemma_sort_is_stable(siblings, e);
        assert(peers_of(e, out) == peers_of(e, siblings));
    }
    lemma_order_and_peers_decide(out, sort_siblings(siblings));
}

/// Decides `sibling_le` for two nodes.
pub fn node_le(a: &FileNode, b: &FileNode) -> (le: bool)
    ensures
        le == sibling_le(a@, b@),
{
    if a.is_directory != b.is_directory {
        a.is_directory
    } else {
        let x = to_lowercase(a.name.as_str());
        let y = to_lowercase(b.name.as_str());
        text_precedes(x.as_str(), y.as_str())
    }
}

/// Finds where `x` goes among ordered siblings: the first position whose
/// node `x` may stand before, by halving the range that can hold it.
fn rank_among(x: &FileNode, sorted: &Vec<FileNode>) -> (at: usize)
    requires
        siblings_ordered(tree_view(sorted@)),
    ensures
        at <= sorted.len(),
        at == rank_of(x@, tree_view(sorted@)),
{
    let ghost siblings = tree_view(sorted@);
    let mut low: usize = 0;
    let mut high: usize = sorted.len();
    while low < high
        invariant
            low <= high <= sorted.len(),
            siblings == tree_view(sorted@),
            siblings_ordered(siblings),
            forall|i: int| 0 <= i < low ==> !sibling_le(x@, #[trigger] siblings[i]),
            forall|i: int| high <= i < siblings.len() ==> sibling_le(x@, #[trigger] siblings[i]),
        decreases high - low,
    {
        let mid: usize = low + (high - low) / 2;
        if node_le(x, &sorted[mid]) {
            proof {
                assert forall|i: int| mid <= i < siblings.len() implies sibling_le(
                    x@,
                    #[trigger] siblings[i],
                ) by {
                    if i > mid {
                        lemma_sibling_le_transitive(x@, siblings[mid as int], siblings[i]);
                    }
                }
            }
            high = mid;
        } else {
            proof {
                assert forall|i: int| 0 <= i < mid + 1 implies !sibling_le(
                    x@,
                    #[trigger] siblings[i],
                ) by {
                    if i < mid && sibling_le(x@, siblings[i]) {
                        lemma_sibling_le_transitive(x@, siblings[i], siblings[mid as int]);
                    }
                }
            }
            low = mid + 1;
        }
    }
    proof {
        lemma_rank_is(x@, siblings, low as int);
    }
    low
}

/// Sorts siblings: directories first, then files, each group by name without
/// regard to case, tied nodes in the order in which they came.
pub fn sort_nodes(nodes: Vec<FileNode>) -> (sorted: Vec<FileNode>)
    ensures
        tree_view(sorted@) == sort_siblings(tree_view(nodes@)),
        siblings_ordered(tree_view(sorted@)),
        tree_view(sorted@).to_multiset() == tree_view(nodes@).to_multiset(),
        forall|e: Entry| peers_of(e, tree_view(sorted@)) == peers_of(e, tree_view(nodes@)),
{
    let ghost all = tree_view(nodes@);
    proof {
        lemma_sort_orders(all);
        lemma_sort_permutes(all);
        assert forall|e: Entry| peers_of(e, sort_siblings(all)) == peers_of(e, all) by {
            lemma_sort_is_stable(all, e);
        }
    }
    let mut rest = nodes;
    let mut sorted: Vec<FileNode> = Vec::new();
    assert(all.skip(all.len() as int) =~= Seq::<Entry>::empty());
    assert(tree_view(sorted@) =~= Seq::<Entry>::empty());
    while rest.len() > 0
        invariant
            rest.len() <= all.len(),
            tree_view(rest@) == all.take(rest.len() as int),
            tree_view(sorted@) == sort_siblings(all.skip(rest.len() as int)),
        decreases rest.len(),
    {
        let ghost before = rest@;
        let ghost done = sorted@;
        let x = rest.pop().unwrap();
        proof {
            lemma_sort_orders(all.skip(before.len() as int));
        }
        let at = rank_among(&x, &sorted);
        sorted.insert(at, x);
        proof {
            let k = rest.len() as int;
            assert(tree_view(before)[k] == x@);
            assert(all[k] == x@);
            assert(tree_view(rest@) =~= all.take(k));
            assert(all.skip(k)[0] == x@);
            assert(all.skip(k).drop_first() =~= all.skip(k + 1));
            assert(tree_view(sorted@) =~= tree_view(done).insert(at as int, x@));
        }
    }
    assert(all.skip(0) =~= all);
    sorted
}

} // verus!
