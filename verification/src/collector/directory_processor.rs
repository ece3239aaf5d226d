//! Walks a directory and hands on the files that are included.
//!
//! The walk goes through the snapshot in the order in which the entries were
//! listed, and takes what lies in a directory before the entry that follows
//! the directory. An ignored directory is pruned: the walk does not enter it.

use vstd::prelude::*;
use crate::collector::path_handler::{is_ignored, is_included, should_ignore, should_include};
use crate::config::Config;
use crate::path::{FsPath, PathView};
use crate::snapshot::{
    files_from, lemma_children_view, lemma_files_of_one, node_files, shown_from, shown_node,
    EntryKind, TreeNode,
};

verus! {

/// What the walk does with one entry.
#[derive(Debug, Clone, Copy, PartialEq, Eq, Structural)]
pub enum WalkDecision {
    /// An ignored directory: neither it nor anything beneath it is taken.
    Prune,
    /// The entry itself is not handed on. If it is a directory, the walk
    /// goes on beneath it.
    Skip,
    /// A regular file that is included: it is handed on.
    Visit,
}

/// The decision for the entry at `path`: an ignored directory is pruned, an
/// included regular file is visited, everything else is skipped.
pub open spec fn decision(
    path: PathView,
    kind: EntryKind,
    formats: Seq<Seq<char>>,
    rules: Seq<PathView>,
) -> WalkDecision {
    match kind {
        EntryKind::Directory => if is_ignored(path, rules) {
            WalkDecision::Prune
        } else {
            WalkDecision::Skip
        },
        EntryKind::File => if is_included(path, false, formats, rules) {
            WalkDecision::Visit
        } else {
            WalkDecision::Skip
        },
        EntryKind::Other => WalkDecision::Skip,
    }
}

/// Decides what the walk does with the entry at `path`.
pub fn decide(path: &FsPath, kind: EntryKind, formats: &[String], ignore_paths: &[FsPath]) -> (d:
    WalkDecision)
    ensures
        d == decision(path@, kind, formats.deep_view(), ignore_paths.deep_view()),
{
    match kind {
        EntryKind::Directory => if should_ignore(path, ignore_paths) {
            WalkDecision::Prune
        } else {
            WalkDecision::Skip
        },
        EntryKind::File => if should_include(path, false, formats, ignore_paths) {
            WalkDecision::Visit
        } else {
            WalkDecision::Skip
        },
        EntryKind::Other => WalkDecision::Skip,
    }
}

/// Walks the entry `node` at `path` and adds the files that it hands on to
/// `files`.
fn walk(
    path: &FsPath,
    node: &TreeNode,
    formats: &[String],
    ignore_paths: &[FsPath],
    files: &mut Vec<FsPath>,
)
    ensures
        final(files).deep_view() == old(files).deep_view() + node_files(
            path@,
            node@,
            formats.deep_view(),
            ignore_paths.deep_view(),
        ),
    decreases node,
{
    let ghost fm = formats.deep_view();
    let ghost rl = ignore_paths.deep_view();
    let ghost start = files.deep_view();
    let ghost here = shown_node(path@, node@, fm, rl);
    let ghost nodes = node.children.deep_view();
    proof {
        lemma_children_view(node);
    }
    match decide(path, node.kind, formats, ignore_paths) {
        WalkDecision::Prune => {
            assert(here.len() == 0);
            assert(files.deep_view() =~= start + node_files(path@, node@, fm, rl));
        },
        WalkDecision::Visit => {
            files.push(path.clone());
            proof {
                lemma_files_of_one(here[0]);
                assert(here == seq![here[0]]);
                assert(files.deep_view() =~= start + seq![path@]);
            }
        },
        WalkDecision::Skip => {
            if matches!(node.kind, EntryKind::Directory) {
                let ghost forest = shown_from(path@, nodes, 0, fm, rl);
                let ghost mut m: int = 0;
                proof {
                    lemma_files_of_one(here[0]);
                    assert(here == seq![here[0]]);
                    assert(node_files(path@, node@, fm, rl) == files_from(forest, 0));
                    assert(forest.skip(0) == forest);
                    assert(start + files_from(forest, 0) == files.deep_view() + files_from(
                        forest,
                        0,
                    ));
                }
                let mut i: usize = 0;
                while i < node.children.len()
                    invariant
                        i <= node.children.len(),
                        nodes == node.children.deep_view(),
                        fm == formats.deep_view(),
                        rl == ignore_paths.deep_view(),
                        forest == shown_from(path@, nodes, 0, fm, rl),
                        0 <= m <= forest.len(),
                        forest.skip(m) == shown_from(path@, nodes, i as int, fm, rl),
                        files.deep_view() + files_from(forest, m) == start + files_from(
                            forest,
                            0,
                        ),
                    decreases node.children.len() - i,
                {
                    let child = &node.children[i];
                    let child_path = path.join(child.name.as_str());
                    let ghost before = files.deep_view();
                    let ghost one = shown_node(child_path@, child@, fm, rl);
                    assert(nodes[i as int] == child@);
                    let ghost rest = shown_from(path@, nodes, i + 1, fm, rl);
                    walk(&child_path, child, formats, ignore_paths, files);
                    proof {
                        assert(forest.skip(m) == one + rest);
                        if one.len() == 0 {
                            assert(forest.skip(m) =~= rest);
                            assert(files.deep_view() =~= before);
                        } else {
                            assert(one == seq![one[0]]);
                            lemma_files_of_one(one[0]);
                            assert(forest.skip(m).len() == 1 + rest.len());
                            assert(forest[m] == forest.skip(m)[0]);
                            assert(forest.skip(m + 1) =~= forest.skip(m).skip(1));
                            assert(forest.skip(m + 1) =~= rest);
                            assert(before + files_from(forest, m) =~= files.deep_view()
                                + files_from(forest, m + 1));
                            m = m + 1;
                        }
                    }
                    i += 1;
                }
                assert(files.deep_view() + Seq::<PathView>::empty() =~= files.deep_view());
            } else {
                proof {
                    if here.len() > 0 {
                        lemma_files_of_one(here[0]);
                        assert(here == seq![here[0]]);
                    }
                    assert(files.deep_view() =~= start + node_files(path@, node@, fm, rl));
                }
            }
        },
    }
}

/// Walks the directory `dir`, whose snapshot is `tree`, and returns the
/// files to hand on, in the order of the walk: the regular files that are
/// included and lie beneath no ignored directory.
pub fn process_directory(dir: &FsPath, tree: &TreeNode, config: &Config) -> (files: Vec<FsPath>)
    ensures
        files.deep_view() == node_files(
            dir@,
            tree@,
            config.formats.deep_view(),
            config.ignore_paths.deep_view(),
        ),
{
    let mut files: Vec<FsPath> = Vec::new();
    walk(dir, tree, config.formats.as_slice(), config.ignore_paths.as_slice(), &mut files);
    assert(files.deep_view() =~= node_files(
        dir@,
        tree@,
        config.formats.deep_view(),
        config.ignore_paths.deep_view(),
    ));
    files
}

} // verus!
