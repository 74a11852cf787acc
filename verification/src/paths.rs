//! The paths of a tree and of the scan that it came from: a tree holds no
//! path more often than the scan did, so a scan of distinct paths gives a
//! tree of distinct paths.

use crate::entry::{Entry, Item, ItemKind};
use crate::order::{lemma_rank_of, rank_of, sort_siblings};
use crate::tree::{entry_of, kept_of, tree_of};
use vstd::multiset::Multiset;
use vstd::prelude::*;

verus! {

/// The paths of an entry and of all below it, each as often as it occurs.
pub open spec fn entry_paths(e: Entry) -> Multiset<Seq<char>>
    decreases e, 0int,
{
    Multiset::singleton(e.path).add(
        match e.children {
            Some(below) => tree_paths(below),
            None => Multiset::empty(),
        },
    )
}

/// The paths of all entries of a tree, at every depth, each as often as it
/// occurs.
pub open spec fn tree_paths(tree: Seq<Entry>) -> Multiset<Seq<char>>
    decreases tree, 1int,
{
    if tree.len() == 0 {
        Multiset::empty()
    } else {
        tree_paths(tree.drop_last()).add(entry_paths(tree.last()))
    }
}

/// The paths of an item and of all below it, each as often as it occurs.
pub open spec fn item_paths(item: Item) -> Multiset<Seq<char>>
    decreases item, 0int,
{
    Multiset::singleton(item.path).add(
        match item.kind {
            ItemKind::Directory(below) => scan_paths(below),
            _ => Multiset::empty(),
        },
    )
}

/// The paths of all items of a scan, at every depth, each as often as it
/// occurs.
pub open spec fn scan_paths(items: Seq<Item>) -> Multiset<Seq<char>>
    decreases items, 1int,
{
    if items.len() == 0 {
        Multiset::empty()
    } else {
        scan_paths(items.drop_last()).add(item_paths(items.last()))
    }
}

/// No path occurs twice.
pub open spec fn distinct(paths: Multiset<Seq<char>>) -> bool {
    forall|p: Seq<char>| paths.count(p) <= 1
}

/// An entry put anywhere into a sequence adds its own paths, no more.
pub proof fn lemma_paths_after_insert(tree: Seq<Entry>, at: int, e: Entry)
    requires
        0 <= at <= tree.len(),
    ensures
        tree_paths(tree.insert(at, e)) == tree_paths(tree).add(entry_paths(e)),
    decreases tree.len(),
{
    let out = tree.insert(at, e);
    if at == tree.len() {
        assert(out.drop_last() =~= tree);
    } else {
        lemma_paths_after_insert(tree.drop_last(), at, e);
        assert(out.drop_last() =~= tree.drop_last().insert(at, e));
        assert(out.last() == tree.last());
        assert(tree_paths(out) =~= tree_paths(tree).add(entry_paths(e)));
    }
}

/// Sorting siblings changes no path.
pub proof fn lemma_paths_after_sort(tree: Seq<Entry>)
    ensures
        tree_paths(sort_siblings(tree)) == tree_paths(tree),
    decreases tree.len(),
{
    if tree.len() > 0 {
        let rest = tree.drop_first();
        lemma_paths_after_sort(rest);
        lemma_rank_of(tree[0], sort_siblings(rest));
        lemma_paths_after_insert(
            sort_siblings(rest),
            rank_of(tree[0], sort_siblings(rest)),
            tree[0],
        );
        lemma_paths_after_insert(rest, 0, tree[0]);
        assert(tree =~= rest.insert(0, tree[0]));
    }
}

/// What an item contributes holds no path more often than the item.
pub proof fn lemma_entry_paths_found(item: Item)
    ensures
        entry_of(item) matches Some(e) ==> entry_paths(e).subset_of(item_paths(item)),
    decreases item, 0int,
{
    if let ItemKind::Directory(below) = item.kind {
        lemma_tree_paths_found(below);
    }
}

/// What the items of a directory contribute holds no path more often than
/// the items.
pub proof fn lemma_kept_paths_found(items: Seq<Item>)
    ensures
        tree_paths(kept_of(items)).subset_of(scan_paths(items)),
    decreases items, 0int,
{
    if items.len() > 0 {
        lemma_kept_paths_found(items.drop_last());
        lemma_entry_paths_found(items.last());
        if let Some(e) = entry_of(items.last()) {
            let before = kept_of(items.drop_last());
            assert(before.push(e).drop_last() =~= before);
        }
    }
}

/// A tree holds no path more often than the scan that it came from.
pub proof fn lemma_tree_paths_found(items: Seq<Item>)
    ensures
        tree_paths(tree_of(items)).subset_of(scan_paths(items)),
    decreases items, 1int,
{
    lemma_kept_paths_found(items);
    lemma_paths_after_sort(kept_of(items));
}

/// Paths are unique within a tree wherever they were unique in the scan.
pub proof fn tree_paths_are_distinct(items: Seq<Item>)
    requires
        distinct(scan_paths(items)),
    ensures
        distinct(tree_paths(tree_of(items))),
{
    lemma_tree_paths_found(items);
}

} // verus!
