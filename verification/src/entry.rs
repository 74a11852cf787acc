//! The nodes of a document tree and the raw findings of a directory scan,
//! each with the mathematical value that the contracts speak of.

use vstd::prelude::*;

verus! {

/// A node of a document tree as a mathematical value.
pub struct Entry {
    /// Display name, without path separators.
    pub name: Seq<char>,
    /// Full path of the entry.
    pub path: Seq<char>,
    /// Whether the entry is a directory.
    pub is_directory: bool,
    /// The entries below a directory; absent for a file.
    pub children: Option<Seq<Entry>>,
}

/// A node of a document tree.
#[derive(Debug, PartialEq, Eq)]
pub struct FileNode {
    /// Display name, without path separators.
    pub name: String,
    /// Full path of the entry.
    pub path: String,
    /// Whether the entry is a directory.
    pub is_directory: bool,
    /// The nodes below a directory; absent for a file.
    pub children: Option<Vec<FileNode>>,
}

/// The entries that a sequence of nodes stands for, in the same order.
pub open spec fn tree_view(nodes: Seq<FileNode>) -> Seq<Entry>
    decreases nodes, 0int,
{
    Seq::new(
        nodes.len(),
        |i: int|
            if 0 <= i < nodes.len() {
                node_view(nodes[i])
            } else {
                arbitrary()
            },
    )
}

/// The entry that a node stands for.
pub open spec fn node_view(node: FileNode) -> Entry
    decreases node, 1int,
{
    Entry {
        name: node.name@,
        path: node.path@,
        is_directory: node.is_directory,
        children: match node.children {
            None => None,
            Some(below) => Some(tree_view(below@)),
        },
    }
}

impl View for FileNode {
    type V = Entry;

    open spec fn view(&self) -> Entry {
        node_view(*self)
    }
}

/// Copies a sequence of nodes with all that lies below them.
fn clone_nodes(nodes: &Vec<FileNode>) -> (copies: Vec<FileNode>)
    ensures
        tree_view(copies@) == tree_view(nodes@),
    decreases nodes, 0int,
{
    let mut copies: Vec<FileNode> = Vec::new();
    let mut i: usize = 0;
    while i < nodes.len()
        invariant
            i <= nodes.len(),
            copies.len() == i,
            forall|j: int| 0 <= j < i ==> node_view(#[trigger] copies[j]) == node_view(nodes[j]),
        decreases nodes.len() - i,
    {
        copies.push(clone_node(&nodes[i]));
        i = i + 1;
    }
    assert(tree_view(copies@) =~= tree_view(nodes@));
    copies
}

/// Copies a node with all that lies below it.
fn clone_node(node: &FileNode) -> (copy: FileNode)
    ensures
        node_view(copy) == node_view(*node),
    decreases node, 1int,
{
    FileNode {
        name: node.name.clone(),
        path: node.path.clone(),
        is_directory: node.is_directory,
        children: match &node.children {
            None => None,
            Some(below) => Some(clone_nodes(below)),
        },
    }
}

impl Clone for FileNode {
    fn clone(&self) -> (copy: FileNode)
        ensures
            copy@ == self@,
    {
        clone_node(self)
    }
}

/// What a scan found at one name in a directory, as a mathematical value.
pub struct Item {
    /// Name of the entry in its directory.
    pub name: Seq<char>,
    /// Full path of the entry.
    pub path: Seq<char>,
    /// What the entry is, and for a directory what lies below it.
    pub kind: ItemKind,
}

/// What an item is.
pub enum ItemKind {
    /// Anything that is not a directory.
    File,
    /// A directory with what was found in it, in the order of the listing.
    Directory(Seq<Item>),
    /// A directory that could not be listed.
    Unreadable,
}

/// What a scan found at one name in a directory.
#[derive(Debug, PartialEq, Eq)]
pub struct Scanned {
    /// Name of the entry in its directory.
    pub name: String,
    /// Full path of the entry.
    pub path: String,
    /// What the entry is, and for a directory what lies below it.
    pub kind: ScannedKind,
}

/// What an entry of a scanned directory is.
#[derive(Debug, PartialEq, Eq)]
pub enum ScannedKind {
    /// Anything that is not a directory.
    File,
    /// A directory with what was found in it, in the order of the listing.
    Directory(Vec<Scanned>),
    /// A directory that could not be listed.
    Unreadable,
}

/// The items that a sequence of findings stands for, in the same order.
pub open spec fn items_view(found: Seq<Scanned>) -> Seq<Item>
    decreases found, 0int,
{
    Seq::new(
        found.len(),
        |i: int|
            if 0 <= i < found.len() {
                item_view(found[i])
            } else {
                arbitrary()
            },
    )
}

/// The item that a finding stands for.
pub open spec fn item_view(found: Scanned) -> Item
    decreases found, 1int,
{
    Item {
        name: found.name@,
        path: found.path@,
        kind: match found.kind {
            ScannedKind::File => ItemKind::File,
            ScannedKind::Directory(below) => ItemKind::Directory(items_view(below@)),
            ScannedKind::Unreadable => ItemKind::Unreadable,
        },
    }
}

impl View for Scanned {
    type V = Item;

    open spec fn view(&self) -> Item {
        item_view(*self)
    }
}

/// Why a directory could not be listed, with the system's own words.
#[derive(Debug, PartialEq, Eq)]
pub enum ListFailure {
    /// The directory could not be opened for listing.
    Directory(String),
    /// The listing broke off at one of its entries.
    Entry(String),
}

/// What a scan found at the root of a tree request.
#[derive(Debug, PartialEq, Eq)]
pub enum RootScan {
    /// Nothing exists at the path.
    Missing,
    /// The path names something that is not a directory.
    NotDirectory,
    /// The path names a directory that could not be listed.
    Unreadable(ListFailure),
    /// The path names a directory with these entries, in the order of the
    /// listing.
    Directory(Vec<Scanned>),
}

} // verus!
