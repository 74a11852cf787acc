//! Building the document tree of a scanned root directory: hidden entries
//! and files that are not markdown are left out, directories without
//! documents are pruned, and siblings are sorted.

use crate::entry::{
    items_view, tree_view, Entry, FileNode, Item, ItemKind, ListFailure, RootScan, Scanned,
    ScannedKind,
};
use crate::error::{ErrorKind, FsError};
use crate::names::{is_hidden, is_hidden_name, is_markdown, is_markdown_name};
use crate::order::{sort_nodes, sort_siblings};
use crate::paths::{distinct, lemma_tree_paths_found, scan_paths, tree_paths};
use crate::shape::{lemma_tree_of_valid, valid_tree};
use vstd::prelude::*;

verus! {

/// The entry that an item contributes to the tree of its directory, if any.
/// A hidden item contributes nothing, whatever it is; a file only if it is a
/// markdown document; a directory only if it could be listed and its own
/// tree is not empty.
pub open spec fn entry_of(item: Item) -> Option<Entry>
    decreases item, 0int,
{
    if is_hidden_name(item.name) {
        None
    } else {
        match item.kind {
            ItemKind::File => if is_markdown_name(item.name) {
                Some(Entry { name: item.name, path: item.path, is_directory: false, children: None })
            } else {
                None
            },
            ItemKind::Directory(below) => if tree_of(below).len() > 0 {
                Some(
                    Entry {
                        name: item.name,
                        path: item.path,
                        is_directory: true,
                        children: Some(tree_of(below)),
                    },
                )
            } else {
                None
            },
            ItemKind::Unreadable => None,
        }
    }
}

/// The entries that the items of one directory contribute, in the order of
/// the items.
pub open spec fn kept_of(items: Seq<Item>) -> Seq<Entry>
    decreases items, 0int,
{
    if items.len() == 0 {
        Seq::empty()
    } else {
        match entry_of(items.last()) {
            Some(entry) => kept_of(items.drop_last()).push(entry),
            None => kept_of(items.drop_last()),
        }
    }
}

/// The document tree of a directory with the given items: what the items
/// contribute, sorted as siblings.
pub open spec fn tree_of(items: Seq<Item>) -> Seq<Entry>
    decreases items, 1int,
{
    sort_siblings(kept_of(items))
}

/// The items of a scan without the hidden ones, at every depth.
pub open spec fn visible_items(items: Seq<Item>) -> Seq<Item>
    decreases items, 0int,
{
    if items.len() == 0 {
        Seq::empty()
    } else if is_hidden_name(items.last().name) {
        visible_items(items.drop_last())
    } else {
        visible_items(items.drop_last()).push(visible_item(items.last()))
    }
}

/// An item without the hidden items below it.
pub open spec fn visible_item(item: Item) -> Item
    decreases item, 0int,
{
    match item.kind {
        ItemKind::Directory(below) => Item {
            name: item.name,
            path: item.path,
            kind: ItemKind::Directory(visible_items(below)),
        },
        _ => item,
    }
}

/// A scan that passes over hidden entries, at any depth, gives the tree
/// that a full scan gives.
pub proof fn lemma_tree_ignores_hidden_items(items: Seq<Item>)
    ensures
        tree_of(visible_items(items)) == tree_of(items),
        kept_of(visible_items(items)) == kept_of(items),
    decreases items, 1int,
{
    if items.len() > 0 {
        let last = items.last();
        lemma_tree_ignores_hidden_items(items.drop_last());
        if !is_hidden_name(last.name) {
            if let ItemKind::Directory(below) = last.kind {
                lemma_tree_ignores_hidden_items(below);
            }
            let seen = visible_items(items);
            assert(seen.last() == visible_item(last));
            assert(seen.drop_last() =~= visible_items(items.drop_last()));
            assert(entry_of(visible_item(last)) == entry_of(last));
        }
    }
}

/// Builds the document tree of a directory from what a scan found in it.
pub fn build_tree(found: &Vec<Scanned>) -> (nodes: Vec<FileNode>)
    ensures
        tree_view(nodes@) == tree_of(items_view(found@)),
        valid_tree(tree_view(nodes@)),
    decreases found,
{
    let ghost items = items_view(found@);
    proof {
        lemma_tree_of_valid(items);
    }
    let mut kept: Vec<FileNode> = Vec::new();
    let mut i: usize = 0;
    assert(items.take(0) =~= Seq::<Item>::empty());
    assert(tree_view(kept@) =~= Seq::<Entry>::empty());
    while i < found.len()
        invariant
            i <= found.len(),
            items == items_view(found@),
            tree_view(kept@) == kept_of(items.take(i as int)),
        decreases found.len() - i,
    {
        let ghost before = kept@;
        let item = &found[i];
        proof {
            assert(items.take(i + 1).drop_last() =~= items.take(i as int));
            assert(items.take(i + 1).last() == item@);
        }
        if !is_hidden(item.name.as_str()) {
            match &item.kind {
                ScannedKind::File => {
                    if is_markdown(item.name.as_str()) {
                        kept.push(
                            FileNode {
                                name: item.name.clone(),
                                path: item.path.clone(),
                                is_directory: false,
                                children: None,
                            },
                        );
                        assert(tree_view(kept@) =~= tree_view(before).push(entry_of(item@)->0));
                    }
                },
                ScannedKind::Directory(below) => {
                    let children = build_tree(below);
                    if children.len() > 0 {
                        kept.push(
                            FileNode {
                                name: item.name.clone(),
                                path: item.path.clone(),
                                is_directory: true,
                                children: Some(children),
                            },
                        );
                        assert(tree_view(kept@) =~= tree_view(before).push(entry_of(item@)->0));
                    }
                },
                ScannedKind::Unreadable => {},
            }
        }
        i = i + 1;
    }
    assert(items.take(found.len() as int) =~= items);
    sort_nodes(kept)
}

/// The document tree under a scanned root. A root that is missing or is not
/// a directory is refused as invalid; so is a root that could not be listed,
/// as a failed listing. Below the root nothing fails: what could not be
/// listed is left out.
pub fn get_file_tree(root: &RootScan) -> (tree: Result<Vec<FileNode>, FsError>)
    ensures
        match *root {
            RootScan::Missing => tree matches Err(e) && e.kind == ErrorKind::InvalidRoot
                && e.message@ == "Path does not exist"@,
            RootScan::NotDirectory => tree matches Err(e) && e.kind == ErrorKind::InvalidRoot
                && e.message@ == "Path is not a directory"@,
            RootScan::Unreadable(ListFailure::Directory(reason)) => tree matches Err(e) && e.kind
                == ErrorKind::ListingFailed && e.message@ == "Failed to read directory: "@
                + reason@,
            RootScan::Unreadable(ListFailure::Entry(reason)) => tree matches Err(e) && e.kind
                == ErrorKind::ListingFailed && e.message@ == "Failed to read entry: "@ + reason@,
            RootScan::Directory(found) => tree matches Ok(nodes) && tree_view(nodes@) == tree_of(
                items_view(found@),
            ),
        },
        tree matches Ok(nodes) ==> valid_tree(tree_view(nodes@)),
        (*root matches RootScan::Directory(found) && distinct(scan_paths(items_view(found@))))
            ==> (tree matches Ok(nodes) && distinct(tree_paths(tree_view(nodes@)))),
{
    match root {
        RootScan::Missing => Err(FsError::new(ErrorKind::InvalidRoot, "Path does not exist")),
        RootScan::NotDirectory => Err(
            FsError::new(ErrorKind::InvalidRoot, "Path is not a directory"),
        ),
        RootScan::Unreadable(ListFailure::Directory(reason)) => Err(
            FsError::with_detail(ErrorKind::ListingFailed, "Failed to read directory: ", reason.as_str()),
        ),
        RootScan::Unreadable(ListFailure::Entry(reason)) => Err(
            FsError::with_detail(ErrorKind::ListingFailed, "Failed to read entry: ", reason.as_str()),
        ),
        RootScan::Directory(found) => {
            proof {
                lemma_tree_of_valid(items_view(found@));
                lemma_tree_paths_found(items_view(found@));
            }
            Ok(build_tree(found))
        },
    }
}

} // verus!
