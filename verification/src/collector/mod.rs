//! The collection engine: which entries are taken, and how they are shown.
//!
//! A run has three steps. The marker files beneath each root add their
//! rules; the listing of each root directory is written; the files to hand
//! on are put in order. All three read the same snapshot of the roots, so
//! the rules are complete before anything is listed, and the order of the
//! files is that of the snapshot. Whoever reads the files then writes one
//! section for each. A file without content is reported and the run goes
//! on with the next file, however the file was found.

pub mod directory_processor;
pub mod file_processor;
pub mod path_handler;

use vstd::prelude::*;
use crate::collector::directory_processor::process_directory;
use crate::collector::path_handler::{
    generate_tree, is_ignored, should_ignore, should_include, tree_text,
};
use crate::config::{rules_after, Config, ConfigView};
use crate::path::{FsPath, PathView};
use crate::snapshot::{
    lemma_children_view, lemma_files_of_one, node_files, shown_node, EntryKind, NodeView,
    TreeNode,
};

verus! {

/// The rules after the marker files beneath the roots `paths[from..]` have
/// been read, root by root, beginning with `rules`. A root without a
/// snapshot adds nothing.
pub open spec fn rules_after_roots(
    paths: Seq<PathView>,
    roots: Seq<NodeView>,
    from: int,
    rules: Seq<PathView>,
) -> Seq<PathView>
    decreases paths.len() - from,
{
    if 0 <= from < paths.len() {
        rules_after_roots(
            paths,
            roots,
            from + 1,
            if from < roots.len() {
                rules_after(paths[from], roots[from], rules)
            } else {
                rules
            },
        )
    } else {
        rules
    }
}

/// The name under which a root is listed: its file name, or nothing where
/// it has none.
pub open spec fn root_name(path: PathView) -> Seq<char> {
    match path.file_name() {
        Some(name) => name,
        None => Seq::empty(),
    }
}

/// The listing of one root: for a directory that is not ignored, its name
/// and the tree beneath it; for anything else, nothing.
pub open spec fn root_listing(
    path: PathView,
    node: NodeView,
    formats: Seq<Seq<char>>,
    rules: Seq<PathView>,
) -> Seq<char> {
    if node.kind is Directory && !is_ignored(path, rules) {
        root_name(path) + "/\n"@ + tree_text(path, node.children, ""@, formats, rules)
    } else {
        Seq::empty()
    }
}

/// The listings of the roots `paths[from..]`, one after the other. A root
/// without a snapshot has none.
pub open spec fn listings_from(
    paths: Seq<PathView>,
    roots: Seq<NodeView>,
    from: int,
    formats: Seq<Seq<char>>,
    rules: Seq<PathView>,
) -> Seq<char>
    decreases paths.len() - from,
{
    if 0 <= from < paths.len() {
        (if from < roots.len() {
            root_listing(paths[from], roots[from], formats, rules)
        } else {
            Seq::empty()
        }) + listings_from(paths, roots, from + 1, formats, rules)
    } else {
        Seq::empty()
    }
}

/// The first part of the collected text: a title, the listings of the
/// roots, and the title of the part that follows.
pub open spec fn structure_text(
    paths: Seq<PathView>,
    roots: Seq<NodeView>,
    formats: Seq<Seq<char>>,
    rules: Seq<PathView>,
) -> Seq<char> {
    "Project Structure:\n"@ + listings_from(paths, roots, 0, formats, rules) + "\nCode Files:\n"@
}

/// The files to hand on for the roots `paths[from..]`, root by root: for
/// each root, those of a walk from it. A root without a snapshot has none.
pub open spec fn files_of_roots_from(
    paths: Seq<PathView>,
    roots: Seq<NodeView>,
    from: int,
    formats: Seq<Seq<char>>,
    rules: Seq<PathView>,
) -> Seq<PathView>
    decreases paths.len() - from,
{
    if 0 <= from < paths.len() {
        (if from < roots.len() {
            node_files(paths[from], roots[from], formats, rules)
        } else {
            Seq::empty()
        }) + files_of_roots_from(paths, roots, from + 1, formats, rules)
    } else {
        Seq::empty()
    }
}

/// What one collection does: from the settings `before` and the snapshots
/// `roots` it leaves the settings `after`, adds `written` to the text, and
/// hands on `files`.
pub open spec fn collected(
    before: ConfigView,
    roots: Seq<NodeView>,
    after: ConfigView,
    written: Seq<char>,
    files: Seq<PathView>,
) -> bool {
    &&& after == before.with_rules(rules_after_roots(before.paths, roots, 0, before.ignore_paths))
    &&& written == structure_text(after.paths, roots, after.formats, after.ignore_paths)
    &&& files == files_of_roots_from(after.paths, roots, 0, after.formats, after.ignore_paths)
}

/// Collecting twice from the same settings over the same snapshots gives
/// the same rules, the same text and the same files in the same order.
pub proof fn lemma_collecting_again_gives_the_same(
    before: ConfigView,
    roots: Seq<NodeView>,
    after: ConfigView,
    written: Seq<char>,
    files: Seq<PathView>,
    after_again: ConfigView,
    written_again: Seq<char>,
    files_again: Seq<PathView>,
)
    requires
        collected(before, roots, after, written, files),
        collected(before, roots, after_again, written_again, files_again),
    ensures
        after == after_again,
        written == written_again,
        files == files_again,
{
}

/// Collects from the roots of its settings.
#[derive(Debug)]
pub struct Collector {
    /// The settings of the run. Collecting adds ignore rules to them.
    pub config: Config,
}

impl Collector {
    /// A collector with a copy of the settings.
    pub fn new(config: &Config) -> (collector: Self)
        ensures
            collector.config@ == config@,
    {
        Self { config: config.clone() }
    }

    /// Runs the collection over `roots`, where `roots[i]` is the snapshot
    /// of the root `paths[i]` of the settings. The marker files add their
    /// rules to the settings; the first part of the collected text is
    /// written to `writer`; the files whose sections follow are returned in
    /// order.
    pub fn collect(&mut self, roots: &Vec<TreeNode>, writer: &mut String) -> (files: Vec<FsPath>)
        ensures
            final(writer)@ == old(writer)@ + structure_text(
                final(self).config@.paths,
                roots.deep_view(),
                final(self).config@.formats,
                final(self).config@.ignore_paths,
            ),
            collected(
                old(self).config@,
                roots.deep_view(),
                final(self).config@,
                structure_text(
                    final(self).config@.paths,
                    roots.deep_view(),
                    final(self).config@.formats,
                    final(self).config@.ignore_paths,
                ),
                files.deep_view(),
            ),
    {
        let ghost begun = self.config@;
        let count = self.config.paths.len();
        let mut i: usize = 0;
        while i < count
            invariant
                i <= count,
                count == self.config.paths.len(),
                self.config@ == begun.with_rules(self.config@.ignore_paths),
                rules_after_roots(begun.paths, roots.deep_view(), i as int, self.config@.ignore_paths)
                    == rules_after_roots(begun.paths, roots.deep_view(), 0, begun.ignore_paths),
            decreases count - i,
        {
            if i < roots.len() {
                let path = self.config.paths[i].clone();
                self.config.get_ignore(&path, &roots[i]);
            }
            i += 1;
        }
        self.write_project_structure(roots, writer);

        let ghost paths = self.config@.paths;
        let ghost fm = self.config@.formats;
        let ghost rl = self.config@.ignore_paths;
        let mut files: Vec<FsPath> = Vec::new();
        let mut i: usize = 0;
        assert(files.deep_view() + files_of_roots_from(paths, roots.deep_view(), 0, fm, rl) =~= files_of_roots_from(
            paths,
            roots.deep_view(),
            0,
            fm,
            rl,
        ));
        while i < count
            invariant
                i <= count,
                count == self.config.paths.len(),
                paths == self.config@.paths,
                fm == self.config@.formats,
                rl == self.config@.ignore_paths,
                files.deep_view() + files_of_roots_from(paths, roots.deep_view(), i as int, fm, rl)
                    == files_of_roots_from(paths, roots.deep_view(), 0, fm, rl),
            decreases count - i,
        {
            let ghost before = files.deep_view();
            let ghost rest = files_of_roots_from(paths, roots.deep_view(), i + 1, fm, rl);
            if i < roots.len() {
                let path = &self.config.paths[i];
                let root = &roots[i];
                let ghost here = node_files(path@, root@, fm, rl);
                match root.kind {
                    EntryKind::File => {
                        if should_include(
                            path,
                            false,
                            self.config.formats.as_slice(),
                            self.config.ignore_paths.as_slice(),
                        ) {
                            files.push(path.clone());
                            proof {
                                let one = shown_node(path@, root@, fm, rl);
                                assert(one == seq![one[0]]);
                                lemma_files_of_one(one[0]);
                                assert(files.deep_view() =~= before + here);
                            }
                        } else {
                            assert(files.deep_view() =~= before + here);
                        }
                    },
                    EntryKind::Directory => {
                        if !should_ignore(path, self.config.ignore_paths.as_slice()) {
                            let mut found = process_directory(path, root, &self.config);
                            files.append(&mut found);
                            assert(files.deep_view() =~= before + here);
                        } else {
                            assert(files.deep_view() =~= before + here);
                        }
                    },
                    EntryKind::Other => {
                        proof {
                            let one = shown_node(path@, root@, fm, rl);
                            if one.len() > 0 {
                                assert(one == seq![one[0]]);
                                lemma_files_of_one(one[0]);
                            }
                            assert(files.deep_view() =~= before + here);
                        }
                    },
                }
                assert(before + (here + rest) =~= before + here + rest);
            } else {
                assert(before + (Seq::<PathView>::empty() + rest) =~= before + rest);
            }
            i += 1;
        }
        assert(files.deep_view() + Seq::<PathView>::empty() =~= files.deep_view());
        files
    }

    /// Writes the first part of the collected text to `writer`: a title,
    /// the listing of each root that is a directory and not ignored, and
    /// the title of the part that follows.
    pub fn write_project_structure(&self, roots: &Vec<TreeNode>, writer: &mut String)
        ensures
            final(writer)@ == old(writer)@ + structure_text(
                self.config@.paths,
                roots.deep_view(),
                self.config@.formats,
                self.config@.ignore_paths,
            ),
    {
        let ghost start = writer@;
        let ghost paths = self.config@.paths;
        let ghost fm = self.config@.formats;
        let ghost rl = self.config@.ignore_paths;
        writer.append("Project Structure:\n");
        let ghost titled = writer@;
        let count = self.config.paths.len();
        let mut i: usize = 0;
        while i < count
            invariant
                i <= count,
                count == self.config.paths.len(),
                paths == self.config@.paths,
                fm == self.config@.formats,
                rl == self.config@.ignore_paths,
                writer@ + listings_from(paths, roots.deep_view(), i as int, fm, rl) == titled + listings_from(
                    paths,
                    roots.deep_view(),
                    0,
                    fm,
                    rl,
                ),
            decreases count - i,
        {
            let ghost before = writer@;
            let ghost rest = listings_from(paths, roots.deep_view(), i + 1, fm, rl);
            if i < roots.len() {
                let path = &self.config.paths[i];
                let root = &roots[i];
                let ghost here = root_listing(path@, root@, fm, rl);
                proof {
                    lemma_children_view(root);
                }
                if matches!(root.kind, EntryKind::Directory) && !should_ignore(
                    path,
                    self.config.ignore_paths.as_slice(),
                ) {
                    match path.file_name() {
                        Some(name) => {
                            writer.append(name);
                        },
                        None => {
                            assert(writer@ =~= before + root_name(path@));
                        },
                    }
                    writer.append("/\n");
                    generate_tree(
                        path,
                        &root.children,
                        "",
                        self.config.ignore_paths.as_slice(),
                        self.config.formats.as_slice(),
                        writer,
                    );
                    assert(writer@ =~= before + here);
                } else {
                    assert(writer@ =~= before + here);
                }
                assert(before + (here + rest) =~= before + here + rest);
            } else {
                assert(before + (Seq::<char>::empty() + rest) =~= before + rest);
            }
            i += 1;
        }
        writer.append("\nCode Files:\n");
        assert(writer@ =~= start + structure_text(paths, roots.deep_view(), fm, rl));
    }
}

} // verus!
