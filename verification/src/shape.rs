//! What holds of every document tree: no hidden entry, no empty directory,
//! only markdown files, and ordered siblings, at every depth.

use crate::entry::{Entry, Item, ItemKind};
use crate::names::{is_hidden_name, is_markdown_name, lowercase_of, text_le};
use crate::order::{
    lemma_sort_orders, lemma_sort_permutes, sibling_le, siblings_ordered,
};
use crate::tree::{entry_of, kept_of, tree_of};
use vstd::prelude::*;

verus! {

/// An entry as a document tree may hold it: not hidden; a directory with at
/// least one entry below it and a valid tree there; or a markdown file with
/// nothing below it.
pub open spec fn valid_entry(e: Entry) -> bool
    decreases e, 0int,
{
    &&& !is_hidden_name(e.name)
    &&& if e.is_directory {
        e.children matches Some(below) && below.len() > 0 && valid_tree(below)
    } else {
        e.children is None && is_markdown_name(e.name)
    }
}

/// A sequence of siblings as a document tree may hold it: ordered, and each
/// entry valid.
pub open spec fn valid_tree(siblings: Seq<Entry>) -> bool
    decreases siblings, 1int,
{
    &&& siblings_ordered(siblings)
    &&& forall|i: int| 0 <= i < siblings.len() ==> valid_entry(#[trigger] siblings[i])
}

/// `e` is one of `siblings` or lies below one of them, at any depth.
pub open spec fn occurs_in(e: Entry, siblings: Seq<Entry>) -> bool
    decreases siblings,
{
    exists|i: int|
        0 <= i < siblings.len() && (#[trigger] siblings[i] == e || (
        siblings[i].children matches Some(below) && occurs_in(e, below)))
}

/// What an item contributes is a valid entry.
pub proof fn lemma_entry_of_valid(item: Item)
    ensures
        entry_of(item) matches Some(e) ==> valid_entry(e),
    decreases item, 0int,
{
    if !is_hidden_name(item.name) {
        if let ItemKind::Directory(below) = item.kind {
            lemma_tree_of_valid(below);
        }
    }
}

/// Every entry that the items of a directory contribute is valid.
pub proof fn lemma_kept_of_valid(items: Seq<Item>)
    ensures
        forall|i: int| 0 <= i < kept_of(items).len() ==> valid_entry(#[trigger] kept_of(items)[i]),
    decreases items, 0int,
{
    if items.len() > 0 {
        let before = kept_of(items.drop_last());
        lemma_kept_of_valid(items.drop_last());
        lemma_entry_of_valid(items.last());
        assert forall|i: int| 0 <= i < kept_of(items).len() implies valid_entry(
            #[trigger] kept_of(items)[i],
        ) by {
            if i < before.len() {
                assert(kept_of(items)[i] == before[i]);
            }
        }
    }
}

/// The document tree of any directory is valid.
pub proof fn lemma_tree_of_valid(items: Seq<Item>)
    ensures
        valid_tree(tree_of(items)),
    decreases items, 1int,
{
    broadcast use vstd::seq_lib::group_to_multiset_ensures;

    let kept = kept_of(items);
    let tree = tree_of(items);
    lemma_kept_of_valid(items);
    lemma_sort_orders(kept);
    lemma_sort_permutes(kept);
    assert forall|i: int| 0 <= i < tree.len() implies valid_entry(#[trigger] tree[i]) by {
        assert(tree.contains(tree[i]));
        assert(kept.to_multiset().count(tree[i]) > 0);
        assert(kept.contains(tree[i]));
    }
}

/// In a valid tree every entry, at every depth, is valid.
pub proof fn lemma_occurring_entry_valid(tree: Seq<Entry>, e: Entry)
    requires
        valid_tree(tree),
        occurs_in(e, tree),
    ensures
        valid_entry(e),
    decreases tree,
{
    let i = choose|i: int|
        0 <= i < tree.len() && (#[trigger] tree[i] == e || (tree[i].children matches Some(below)
            && occurs_in(e, below)));
    if tree[i] != e {
        lemma_occurring_entry_valid(tree[i].children->0, e);
    }
}

/// No entry of a document tree is hidden, at any depth.
pub proof fn tree_has_no_hidden_entry(items: Seq<Item>, e: Entry)
    requires
        occurs_in(e, tree_of(items)),
    ensures
        !is_hidden_name(e.name),
{
    lemma_tree_of_valid(items);
    lemma_occurring_entry_valid(tree_of(items), e);
}

/// In a document tree every directory has at least one entry below it, and
/// every file has no sequence of children at all.
pub proof fn tree_has_no_empty_directory(items: Seq<Item>, e: Entry)
    requires
        occurs_in(e, tree_of(items)),
    ensures
        e.is_directory ==> e.children is Some && e.children->0.len() > 0,
        !e.is_directory ==> e.children is None,
{
    lemma_tree_of_valid(items);
    lemma_occurring_entry_valid(tree_of(items), e);
}

/// In a document tree every file has the extension `md` or `mdx`, in any
/// mix of cases.
pub proof fn tree_files_are_markdown(items: Seq<Item>, e: Entry)
    requires
        occurs_in(e, tree_of(items)),
        !e.is_directory,
    ensures
        is_markdown_name(e.name),
{
    lemma_tree_of_valid(items);
    lemma_occurring_entry_valid(tree_of(items), e);
}

/// Two siblings in the order in which a tree holds them: a file never
/// stands before a directory, and within one group the lowercase names
/// ascend.
pub open spec fn in_sibling_order(first: Entry, second: Entry) -> bool {
    &&& first.is_directory || !second.is_directory
    &&& first.is_directory == second.is_directory ==> text_le(
        lowercase_of(first.name),
        lowercase_of(second.name),
    )
}

/// The siblings at the top of a document tree stand directories first, each
/// group by name without regard to case.
pub proof fn tree_top_is_ordered(items: Seq<Item>, i: int, j: int)
    requires
        0 <= i < j < tree_of(items).len(),
    ensures
        in_sibling_order(tree_of(items)[i], tree_of(items)[j]),
{
    lemma_tree_of_valid(items);
    assert(sibling_le(tree_of(items)[i], tree_of(items)[j]));
}

/// The siblings below any directory of a document tree stand directories
/// first, each group by name without regard to case.
pub proof fn tree_children_are_ordered(items: Seq<Item>, e: Entry, i: int, j: int)
    requires
        occurs_in(e, tree_of(items)),
        e.children is Some,
        0 <= i < j < e.children->0.len(),
    ensures
        in_sibling_order(e.children->0[i], e.children->0[j]),
{
    lemma_tree_of_valid(items);
    lemma_occurring_entry_valid(tree_of(items), e);
    let below = e.children->0;
    assert(valid_tree(below));
    assert(sibling_le(below[i], below[j]));
}

} // verus!
