//! A directory tree as it was read from the file system, and the part of it
//! that the rules and the format filter leave visible.

use vstd::prelude::*;
use crate::collector::path_handler::{is_ignored, is_included};
use crate::path::PathView;

verus! {

/// What an entry of a directory is.
#[derive(Debug, Clone, Copy, PartialEq, Eq, Structural)]
pub enum EntryKind {
    /// A directory.
    Directory,
    /// A regular file.
    File,
    /// Anything else: a dangling link, a socket, a device.
    Other,
}

/// One entry of a directory, with what lies beneath it.
#[derive(Debug)]
pub struct TreeNode {
    /// The entry's name within its directory.
    pub name: String,
    /// What the entry is.
    pub kind: EntryKind,
    /// For a directory: the text of its marker file, where it has one that
    /// could be read.
    pub ignore_file: Option<String>,
    /// For a directory: its entries, in the order in which they were listed.
    pub children: Vec<TreeNode>,
}

/// The mathematical value of an entry and of what lies beneath it.
pub struct NodeView {
    /// The entry's name within its directory.
    pub name: Seq<char>,
    /// What the entry is.
    pub kind: EntryKind,
    /// The text of a directory's marker file, where it has one.
    pub ignore_file: Option<Seq<char>>,
    /// A directory's entries, in order.
    pub children: Seq<NodeView>,
}

impl View for TreeNode {
    type V = NodeView;

    open spec fn view(&self) -> NodeView
        decreases self,
    {
        NodeView {
            name: self.name@,
            kind: self.kind,
            ignore_file: match self.ignore_file {
                Some(text) => Some(text@),
                None => None,
            },
            children: node_views(self.children@),
        }
    }
}

/// The value of each entry of a list, in order.
pub open spec fn node_views(nodes: Seq<TreeNode>) -> Seq<NodeView>
    decreases nodes,
{
    if nodes.len() == 0 {
        Seq::empty()
    } else {
        node_views(nodes.drop_last()).push(nodes.last()@)
    }
}

impl DeepView for TreeNode {
    type V = NodeView;

    open spec fn deep_view(&self) -> NodeView {
        self@
    }
}

/// `node_views` keeps the length and takes each entry to its value.
pub proof fn lemma_node_views(nodes: Seq<TreeNode>)
    ensures
        node_views(nodes).len() == nodes.len(),
        forall|i: int| 0 <= i < nodes.len() ==> node_views(nodes)[i] == nodes[i]@,
    decreases nodes.len(),
{
    if nodes.len() > 0 {
        lemma_node_views(nodes.drop_last());
        assert(node_views(nodes) == node_views(nodes.drop_last()).push(nodes.last()@));
        assert(node_views(nodes).len() == nodes.len());
    } else {
        assert(node_views(nodes) == Seq::<NodeView>::empty());
    }
}

/// The value of a directory's entries is the value of each of them, in
/// order.
pub proof fn lemma_children_view(node: &TreeNode)
    ensures
        node@.children == node.children.deep_view(),
{
    lemma_node_views(node.children@);
    assert(node@.children =~= node.children.deep_view());
}

/// A visible entry: one that is included, with the visible entries beneath it.
pub struct Shown {
    /// The entry's name.
    pub name: Seq<char>,
    /// What the entry is.
    pub kind: EntryKind,
    /// The entry's path.
    pub path: PathView,
    /// The visible entries beneath a directory; empty for anything else.
    pub children: Seq<Shown>,
}

/// Whether the entry `entries[j]` of the directory `dir` is included.
pub open spec fn included_at(
    dir: PathView,
    entries: Seq<NodeView>,
    j: int,
    formats: Seq<Seq<char>>,
    rules: Seq<PathView>,
) -> bool {
    is_included(dir.join(entries[j].name), entries[j].kind is Directory, formats, rules)
}

/// The entry `node` at `path` as a visible entry, in a sequence of one; the
/// empty sequence where the entry is not included. An entry that is not
/// included is left out with everything beneath it, and nothing beneath it
/// is looked at.
pub open spec fn shown_node(
    path: PathView,
    node: NodeView,
    formats: Seq<Seq<char>>,
    rules: Seq<PathView>,
) -> Seq<Shown>
    decreases node, 0int,
{
    if is_included(path, node.kind is Directory, formats, rules) {
        seq![
            Shown {
                name: node.name,
                kind: node.kind,
                path,
                children: if node.kind is Directory {
                    shown_from(path, node.children, 0, formats, rules)
                } else {
                    Seq::empty()
                },
            },
        ]
    } else {
        Seq::empty()
    }
}

/// The visible entries among `entries[from..]`, which lie in the directory
/// `dir`, in their order.
pub open spec fn shown_from(
    dir: PathView,
    entries: Seq<NodeView>,
    from: int,
    formats: Seq<Seq<char>>,
    rules: Seq<PathView>,
) -> Seq<Shown>
    decreases entries, entries.len() - from,
{
    if 0 <= from < entries.len() {
        shown_node(dir.join(entries[from].name), entries[from], formats, rules) + shown_from(
            dir,
            entries,
            from + 1,
            formats,
            rules,
        )
    } else {
        Seq::empty()
    }
}

/// The visible part of the directory `dir` whose entries are `entries`.
pub open spec fn shown(
    dir: PathView,
    entries: Seq<NodeView>,
    formats: Seq<Seq<char>>,
    rules: Seq<PathView>,
) -> Seq<Shown> {
    shown_from(dir, entries, 0, formats, rules)
}

/// The regular files among the visible entries `forest[from..]` and beneath
/// them, in the order of a walk that takes each directory's entries before
/// the entry that follows the directory.
pub open spec fn files_from(forest: Seq<Shown>, from: int) -> Seq<PathView>
    decreases forest, forest.len() - from,
{
    if 0 <= from < forest.len() {
        entry_files(forest[from]) + files_from(forest, from + 1)
    } else {
        Seq::empty()
    }
}

/// The regular files that the visible entry `entry` stands for: itself where
/// it is one, those beneath it where it is a directory.
pub open spec fn entry_files(entry: Shown) -> Seq<PathView>
    decreases entry, 0int,
{
    match entry.kind {
        EntryKind::File => seq![entry.path],
        EntryKind::Directory => files_from(entry.children, 0),
        EntryKind::Other => Seq::empty(),
    }
}

/// The regular files that a walk from the entry `node` at `path` hands on.
pub open spec fn node_files(
    path: PathView,
    node: NodeView,
    formats: Seq<Seq<char>>,
    rules: Seq<PathView>,
) -> Seq<PathView> {
    files_from(shown_node(path, node, formats, rules), 0)
}

/// The files of a single visible entry are those of the forest that holds
/// it alone.
pub proof fn lemma_files_of_one(entry: Shown)
    ensures
        files_from(seq![entry], 0) == entry_files(entry),
{
    let forest = seq![entry];
    assert(files_from(forest, 1) == Seq::<PathView>::empty());
    assert(files_from(forest, 0) == entry_files(forest[0]) + files_from(forest, 1));
    assert(entry_files(entry) + Seq::<PathView>::empty() == entry_files(entry));
}

/// No entry of the forest, at any depth, is ignored under `rules`, and each
/// one that is not a directory passes the filter `formats`.
pub open spec fn forest_clear(
    forest: Seq<Shown>,
    formats: Seq<Seq<char>>,
    rules: Seq<PathView>,
) -> bool
    decreases forest,
{
    forall|i: int|
        0 <= i < forest.len() ==> {
            &&& is_included(
                (#[trigger] forest[i]).path,
                forest[i].kind is Directory,
                formats,
                rules,
            )
            &&& forest_clear(forest[i].children, formats, rules)
        }
}

/// Whatever is visible is included: no visible entry, at any depth, is
/// ignored, and no visible entry but a directory fails the filter.
pub proof fn lemma_shown_is_clear(
    dir: PathView,
    entries: Seq<NodeView>,
    from: int,
    formats: Seq<Seq<char>>,
    rules: Seq<PathView>,
)
    ensures
        forest_clear(shown_from(dir, entries, from, formats, rules), formats, rules),
    decreases entries, entries.len() - from,
{
    let forest = shown_from(dir, entries, from, formats, rules);
    if 0 <= from < entries.len() {
        let path = dir.join(entries[from].name);
        let one = shown_node(path, entries[from], formats, rules);
        let rest = shown_from(dir, entries, from + 1, formats, rules);
        lemma_shown_is_clear(dir, entries, from + 1, formats, rules);
        if entries[from].kind is Directory {
            lemma_shown_is_clear(path, entries[from].children, 0, formats, rules);
        }
        assert(forest == one + rest);
        assert forall|i: int| 0 <= i < forest.len() implies is_included(
            (#[trigger] forest[i]).path,
            forest[i].kind is Directory,
            formats,
            rules,
        ) && forest_clear(forest[i].children, formats, rules) by {
            if i < one.len() {
                assert(forest[i] == one[0]);
                if !(entries[from].kind is Directory) {
                    assert(forest_clear(Seq::<Shown>::empty(), formats, rules));
                }
            } else {
                assert(forest[i] == rest[i - one.len()]);
            }
        }
    }
}

/// Every path of the list is included as a regular file: none is ignored,
/// and each passes the filter.
pub open spec fn all_included(
    files: Seq<PathView>,
    formats: Seq<Seq<char>>,
    rules: Seq<PathView>,
) -> bool {
    forall|k: int| 0 <= k < files.len() ==> is_included(#[trigger] files[k], false, formats, rules)
}

/// The files of a forest in which every entry is included are included.
pub proof fn lemma_files_of_clear_forest(
    forest: Seq<Shown>,
    from: int,
    formats: Seq<Seq<char>>,
    rules: Seq<PathView>,
)
    requires
        forest_clear(forest, formats, rules),
    ensures
        all_included(files_from(forest, from), formats, rules),
    decreases forest, forest.len() - from,
{
    if 0 <= from < forest.len() {
        let entry = forest[from];
        let here = entry_files(entry);
        let rest = files_from(forest, from + 1);
        lemma_files_of_clear_forest(forest, from + 1, formats, rules);
        assert(forest_clear(entry.children, formats, rules));
        if entry.kind is Directory {
            lemma_files_of_clear_forest(entry.children, 0, formats, rules);
        }
        let files = files_from(forest, from);
        assert(files == here + rest);
        assert forall|k: int| 0 <= k < files.len() implies is_included(
            #[trigger] files[k],
            false,
            formats,
            rules,
        ) by {
            if k < here.len() {
                assert(files[k] == here[k]);
            } else {
                assert(files[k] == rest[k - here.len()]);
            }
        }
    }
}

/// Every file that a walk hands on is included: it is not ignored, it lies
/// beneath no rule, and it passes the filter.
pub proof fn lemma_walked_files_are_included(
    path: PathView,
    node: NodeView,
    formats: Seq<Seq<char>>,
    rules: Seq<PathView>,
)
    ensures
        all_included(node_files(path, node, formats, rules), formats, rules),
{
    let one = shown_node(path, node, formats, rules);
    if one.len() > 0 {
        if node.kind is Directory {
            lemma_shown_is_clear(path, node.children, 0, formats, rules);
        } else {
            assert(forest_clear(Seq::<Shown>::empty(), formats, rules));
        }
        assert(forest_clear(one, formats, rules));
    } else {
        assert(forest_clear(one, formats, rules));
    }
    lemma_files_of_clear_forest(one, 0, formats, rules);
}

/// Some entry of the forest, at some depth, stands at `path`.
pub open spec fn forest_holds(forest: Seq<Shown>, path: PathView) -> bool
    decreases forest,
{
    exists|i: int|
        0 <= i < forest.len() && ((#[trigger] forest[i]).path == path || forest_holds(
            forest[i].children,
            path,
        ))
}

/// A forest in which every entry is included holds no entry at an ignored
/// path.
pub proof fn lemma_clear_forest_holds_nothing_ignored(
    forest: Seq<Shown>,
    formats: Seq<Seq<char>>,
    rules: Seq<PathView>,
    path: PathView,
)
    requires
        forest_clear(forest, formats, rules),
        is_ignored(path, rules),
    ensures
        !forest_holds(forest, path),
    decreases forest,
{
    if forest_holds(forest, path) {
        let i = choose|i: int|
            0 <= i < forest.len() && ((#[trigger] forest[i]).path == path || forest_holds(
                forest[i].children,
                path,
            ));
        assert(forest_clear(forest[i].children, formats, rules));
        lemma_clear_forest_holds_nothing_ignored(forest[i].children, formats, rules, path);
    }
}

/// An ignored path is absent from what a walk shows and from what it hands
/// on: no visible entry stands at it, and it is none of the files.
pub proof fn lemma_ignored_is_absent(
    path: PathView,
    node: NodeView,
    formats: Seq<Seq<char>>,
    rules: Seq<PathView>,
    ignored: PathView,
)
    requires
        is_ignored(ignored, rules),
    ensures
        !forest_holds(shown_node(path, node, formats, rules), ignored),
        !node_files(path, node, formats, rules).contains(ignored),
{
    let one = shown_node(path, node, formats, rules);
    if one.len() > 0 {
        if node.kind is Directory {
            lemma_shown_is_clear(path, node.children, 0, formats, rules);
        } else {
            assert(forest_clear(Seq::<Shown>::empty(), formats, rules));
        }
    }
    assert(forest_clear(one, formats, rules));
    lemma_clear_forest_holds_nothing_ignored(one, formats, rules, ignored);
    lemma_walked_files_are_included(path, node, formats, rules);
    let files = node_files(path, node, formats, rules);
    if files.contains(ignored) {
        let k = choose|k: int| 0 <= k < files.len() && files[k] == ignored;
        assert(is_included(files[k], false, formats, rules));
    }
}

/// An ignored entry is pruned: it is not visible and hands on no file,
/// whatever it is and whatever lies beneath it.
pub proof fn lemma_ignored_is_pruned(
    path: PathView,
    node: NodeView,
    formats: Seq<Seq<char>>,
    rules: Seq<PathView>,
)
    requires
        is_ignored(path, rules),
    ensures
        shown_node(path, node, formats, rules) == Seq::<Shown>::empty(),
        node_files(path, node, formats, rules) == Seq::<PathView>::empty(),
{
}

} // verus!
