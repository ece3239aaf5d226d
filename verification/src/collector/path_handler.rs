//! Decides, for one path, whether it is ignored and whether it is included,
//! and draws the tree of what is included.
//!
//! An ignore rule is a path. It hides itself and everything beneath it: the
//! match is by prefix, segment by segment. An entry whose name begins with
//! `.` is hidden, and a hidden entry is ignored whatever the rules say.
//!
//! The format filter applies to everything but directories. A directory
//! that is not ignored is always listed, also where nothing beneath it
//! passes the filter.

use vstd::prelude::*;
use crate::path::{FsPath, PathView};
use crate::snapshot::{
    included_at, lemma_children_view, shown, shown_from, shown_node, EntryKind, NodeView, Shown,
    TreeNode,
};

verus! {

/// Some rule is `path` or a path above it.
pub open spec fn matches_rule(path: PathView, rules: Seq<PathView>) -> bool {
    exists|i: int| 0 <= i < rules.len() && path.starts_with(#[trigger] rules[i])
}

/// A path is ignored when a rule covers it or when it is hidden.
pub open spec fn is_ignored(path: PathView, rules: Seq<PathView>) -> bool {
    matches_rule(path, rules) || path.is_hidden()
}

/// A file passes the format filter when the filter is empty or holds the
/// file's extension, letter for letter. A file without an extension passes
/// only the empty filter.
pub open spec fn format_matches(path: PathView, formats: Seq<Seq<char>>) -> bool {
    formats.len() == 0 || match path.extension() {
        Some(ext) => formats.contains(ext),
        None => false,
    }
}

/// An ignored path is never included. A directory that is not ignored is
/// included whatever the filter; any other entry has to pass the filter.
pub open spec fn is_included(
    path: PathView,
    is_dir: bool,
    formats: Seq<Seq<char>>,
    rules: Seq<PathView>,
) -> bool {
    !is_ignored(path, rules) && (is_dir || format_matches(path, formats))
}

/// Whether `path` is ignored under the rules `ignore_paths`.
pub fn should_ignore(path: &FsPath, ignore_paths: &[FsPath]) -> (b: bool)
    ensures
        b == is_ignored(path@, ignore_paths.deep_view()),
{
    let ghost rules = ignore_paths.deep_view();
    let mut i: usize = 0;
    while i < ignore_paths.len()
        invariant
            i <= ignore_paths.len(),
            rules == ignore_paths.deep_view(),
            forall|k: int| 0 <= k < i ==> !path@.starts_with(#[trigger] rules[k]),
        decreases ignore_paths.len() - i,
    {
        if path.starts_with(&ignore_paths[i]) {
            assert(path@.starts_with(rules[i as int]));
            return true;
        }
        i += 1;
    }
    path.is_hidden()
}

/// Whether `formats` holds `ext`.
fn holds_format(formats: &[String], ext: &String) -> (b: bool)
    ensures
        b == formats.deep_view().contains(ext@),
{
    let ghost list = formats.deep_view();
    let mut i: usize = 0;
    while i < formats.len()
        invariant
            i <= formats.len(),
            list == formats.deep_view(),
            forall|k: int| 0 <= k < i ==> list[k] != ext@,
        decreases formats.len() - i,
    {
        if formats[i] == *ext {
            assert(list[i as int] == ext@);
            return true;
        }
        i += 1;
    }
    false
}

/// Whether the entry at `path` is included. `is_dir` says whether the entry
/// is a directory; `formats` is the format filter, without leading dots.
pub fn should_include(
    path: &FsPath,
    is_dir: bool,
    formats: &[String],
    ignore_paths: &[FsPath],
) -> (b: bool)
    ensures
        b == is_included(path@, is_dir, formats.deep_view(), ignore_paths.deep_view()),
{
    if should_ignore(path, ignore_paths) {
        return false;
    } else if is_dir {
        return true;
    }
    if formats.len() == 0 {
        return true;
    }
    match path.extension() {
        Some(ext) => holds_format(formats, &ext),
        None => false,
    }
}

/// A path that is a rule, or lies beneath one, is ignored.
pub proof fn lemma_covered_is_ignored(path: PathView, rules: Seq<PathView>, i: int)
    requires
        0 <= i < rules.len(),
        path.starts_with(rules[i]),
    ensures
        is_ignored(path, rules),
{
}

/// A hidden entry is ignored whatever the rules are.
pub proof fn lemma_hidden_is_ignored(path: PathView, rules: Seq<PathView>)
    requires
        path.is_hidden(),
    ensures
        is_ignored(path, rules),
{
}

/// What lies beneath a path that a rule covers is covered by that rule too:
/// a rule hides a whole subtree.
pub proof fn lemma_beneath_covered_is_covered(path: PathView, above: PathView, rule: PathView)
    requires
        above.starts_with(rule),
        path.starts_with(above),
    ensures
        path.starts_with(rule),
{
    let n = rule.segments.len() as int;
    let m = above.segments.len() as int;
    assert(rule.segments =~= path.segments.subrange(0, n)) by {
        assert(rule.segments == above.segments.subrange(0, n));
        assert(above.segments == path.segments.subrange(0, m));
    }
}

/// Rules that are added hide nothing less: what is ignored under some rules
/// stays ignored when more rules follow them.
pub proof fn lemma_more_rules_ignore_more(
    path: PathView,
    rules: Seq<PathView>,
    more: Seq<PathView>,
)
    requires
        is_ignored(path, rules),
        rules.is_prefix_of(more),
    ensures
        is_ignored(path, more),
{
    if matches_rule(path, rules) {
        let i = choose|i: int| 0 <= i < rules.len() && path.starts_with(#[trigger] rules[i]);
        assert(more[i] == more.subrange(0, rules.len() as int)[i]);
        assert(path.starts_with(more[i]));
    }
}

/// With a filter that is not empty and no rules, an entry that is neither a
/// directory nor hidden is included exactly when it has an extension and the
/// filter holds it.
pub proof fn lemma_file_included_iff_extension_listed(path: PathView, formats: Seq<Seq<char>>)
    requires
        formats.len() > 0,
        !path.is_hidden(),
    ensures
        is_included(path, false, formats, Seq::empty()) <==> (path.extension() is Some
            && formats.contains(path.extension()->0)),
{
}

/// Whether a directory is included depends on the rules alone: it is
/// included exactly when it is not ignored, under every filter.
pub proof fn lemma_directory_ignores_filter(
    path: PathView,
    formats: Seq<Seq<char>>,
    other_formats: Seq<Seq<char>>,
    rules: Seq<PathView>,
)
    ensures
        is_included(path, true, formats, rules) == !is_ignored(path, rules),
        is_included(path, true, formats, rules) == is_included(path, true, other_formats, rules),
{
}

/// An ignored path is not included, whatever it is and whatever the filter.
pub proof fn lemma_ignored_is_never_included(
    path: PathView,
    is_dir: bool,
    formats: Seq<Seq<char>>,
    rules: Seq<PathView>,
)
    requires
        is_ignored(path, rules),
    ensures
        !is_included(path, is_dir, formats, rules),
{
}

/// What stands before the name of an entry: one mark for the last visible
/// entry of its directory, another for each one before it.
pub open spec fn connector(last: bool) -> Seq<char> {
    if last {
        "└── "@
    } else {
        "├── "@
    }
}

/// What a directory adds to the prefix of the lines beneath it: blanks under
/// the last visible entry, a bar under each one before it.
pub open spec fn indent(last: bool) -> Seq<char> {
    if last {
        "    "@
    } else {
        "│   "@
    }
}

/// What ends the line of an entry: a directory's name is followed by `/`.
pub open spec fn line_end(is_dir: bool) -> Seq<char> {
    if is_dir {
        "/\n"@
    } else {
        "\n"@
    }
}

/// The lines for the visible entries `forest[from..]` and all beneath them,
/// each line ended by a newline. An entry is last when it is the last of
/// `forest`.
pub open spec fn drawn_from(forest: Seq<Shown>, from: int, prefix: Seq<char>) -> Seq<char>
    decreases forest, forest.len() - from,
{
    if 0 <= from < forest.len() {
        let entry = forest[from];
        let last = from == forest.len() - 1;
        let is_dir = entry.kind is Directory;
        prefix + connector(last) + entry.name + line_end(is_dir) + drawn_from(
            entry.children,
            0,
            prefix + indent(last),
        ) + drawn_from(forest, from + 1, prefix)
    } else {
        Seq::empty()
    }
}

/// The tree listing of the directory `dir` whose entries are `entries`: the
/// drawing of its visible part.
pub open spec fn tree_text(
    dir: PathView,
    entries: Seq<NodeView>,
    prefix: Seq<char>,
    formats: Seq<Seq<char>>,
    rules: Seq<PathView>,
) -> Seq<char> {
    drawn_from(shown(dir, entries, formats, rules), 0, prefix)
}

/// Nothing among `entries[from..]` is visible exactly when none of them is
/// included.
pub proof fn lemma_none_shown(
    dir: PathView,
    entries: Seq<NodeView>,
    from: int,
    formats: Seq<Seq<char>>,
    rules: Seq<PathView>,
)
    requires
        0 <= from <= entries.len(),
    ensures
        shown_from(dir, entries, from, formats, rules).len() == 0 <==> forall|j: int|
            from <= j < entries.len() ==> !included_at(dir, entries, j, formats, rules),
    decreases entries.len() - from,
{
    if from < entries.len() {
        lemma_none_shown(dir, entries, from + 1, formats, rules);
        let here = shown_node(dir.join(entries[from].name), entries[from], formats, rules);
        assert(here.len() == 0 <==> !included_at(dir, entries, from, formats, rules));
    }
}

/// One more than the index of the last included entry of `dir`, or 0 where
/// none is included.
fn last_included(
    dir: &FsPath,
    entries: &Vec<TreeNode>,
    formats: &[String],
    ignore_paths: &[FsPath],
) -> (r: usize)
    ensures
        r <= entries.len(),
        r > 0 ==> included_at(
            dir@,
            entries.deep_view(),
            r - 1,
            formats.deep_view(),
            ignore_paths.deep_view(),
        ),
        forall|j: int|
            r <= j < entries.len() ==> !included_at(
                dir@,
                entries.deep_view(),
                j,
                formats.deep_view(),
                ignore_paths.deep_view(),
            ),
{
    let mut r: usize = entries.len();
    while r > 0
        invariant
            r <= entries.len(),
            forall|j: int|
                r <= j < entries.len() ==> !included_at(
                    dir@,
                    entries.deep_view(),
                    j,
                    formats.deep_view(),
                    ignore_paths.deep_view(),
                ),
        decreases r,
    {
        let entry = &entries[r - 1];
        let path = dir.join(entry.name.as_str());
        let is_dir = matches!(entry.kind, EntryKind::Directory);
        if should_include(&path, is_dir, formats, ignore_paths) {
            return r;
        }
        r -= 1;
    }
    r
}

/// How the visible entries advance by one entry of the directory: an entry
/// that is included is the next visible one, an entry that is not changes
/// nothing.
pub proof fn lemma_shown_step(
    dir: PathView,
    nodes: Seq<NodeView>,
    i: int,
    formats: Seq<Seq<char>>,
    rules: Seq<PathView>,
    forest: Seq<Shown>,
    m: int,
)
    requires
        0 <= i < nodes.len(),
        0 <= m <= forest.len(),
        forest.skip(m) == shown_from(dir, nodes, i, formats, rules),
    ensures
        included_at(dir, nodes, i, formats, rules) ==> {
            &&& m < forest.len()
            &&& seq![forest[m]] == shown_node(dir.join(nodes[i].name), nodes[i], formats, rules)
            &&& forest.skip(m + 1) == shown_from(dir, nodes, i + 1, formats, rules)
        },
        !included_at(dir, nodes, i, formats, rules) ==> forest.skip(m) == shown_from(
            dir,
            nodes,
            i + 1,
            formats,
            rules,
        ),
{
    let one = shown_node(dir.join(nodes[i].name), nodes[i], formats, rules);
    let rest = shown_from(dir, nodes, i + 1, formats, rules);
    assert(forest.skip(m) == one + rest);
    if included_at(dir, nodes, i, formats, rules) {
        assert(one.len() == 1);
        assert(forest.skip(m).len() == 1 + rest.len());
        assert(forest[m] == forest.skip(m)[0]);
        assert(seq![forest[m]] =~= one);
        assert(forest.skip(m + 1) =~= forest.skip(m).skip(1));
        assert(forest.skip(m + 1) =~= rest);
    } else {
        assert(one.len() == 0);
        assert(one + rest =~= rest);
    }
}

/// The drawing from one visible entry on: its line, what lies beneath it,
/// and the drawing from the next one on.
pub proof fn lemma_drawn_step(forest: Seq<Shown>, m: int, prefix: Seq<char>)
    requires
        0 <= m < forest.len(),
    ensures
        drawn_from(forest, m, prefix) == prefix + connector(m == forest.len() - 1)
            + forest[m].name + line_end(forest[m].kind is Directory) + drawn_from(
            forest[m].children,
            0,
            prefix + indent(m == forest.len() - 1),
        ) + drawn_from(forest, m + 1, prefix),
{
}

/// Appends to `writer` the tree listing of the directory `dir`, whose
/// entries are `entries`. Each line starts with `prefix`; the lines beneath a
/// directory start with a longer one.
pub fn generate_tree(
    dir: &FsPath,
    entries: &Vec<TreeNode>,
    prefix: &str,
    ignore_paths: &[FsPath],
    formats: &[String],
    writer: &mut String,
)
    ensures
        final(writer)@ == old(writer)@ + tree_text(
            dir@,
            entries.deep_view(),
            prefix@,
            formats.deep_view(),
            ignore_paths.deep_view(),
        ),
    decreases entries,
{
    let ghost fm = formats.deep_view();
    let ghost rl = ignore_paths.deep_view();
    let ghost nodes = entries.deep_view();
    let ghost forest = shown(dir@, nodes, fm, rl);
    let ghost mut m: int = 0;
    let count = entries.len();
    let last_unignored = last_included(dir, entries, formats, ignore_paths);
    let mut i: usize = 0;
    assert(forest.skip(0) == forest);
    while i < count
        invariant
            i <= count,
            count == entries.len(),
            count == nodes.len(),
            nodes == entries.deep_view(),
            fm == formats.deep_view(),
            rl == ignore_paths.deep_view(),
            0 <= m <= forest.len(),
            forest.skip(m) == shown_from(dir@, nodes, i as int, fm, rl),
            writer@ + drawn_from(forest, m, prefix@) == old(writer)@ + drawn_from(
                forest,
                0,
                prefix@,
            ),
            last_unignored <= count,
            last_unignored > 0 ==> included_at(dir@, nodes, last_unignored - 1, fm, rl),
            forall|j: int| last_unignored <= j < count ==> !included_at(dir@, nodes, j, fm, rl),
        decreases count - i,
    {
        let entry = &entries[i];
        let path = dir.join(entry.name.as_str());
        let is_dir = matches!(entry.kind, EntryKind::Directory);
        proof {
            assert(nodes[i as int] == entry@);
            lemma_shown_step(dir@, nodes, i as int, fm, rl, forest, m);
        }
        if should_include(&path, is_dir, formats, ignore_paths) {
            let last = i + 1 == last_unignored;
            let ghost before = writer@;
            let ghost here = forest[m];
            proof {
                lemma_children_view(entry);
                lemma_none_shown(dir@, nodes, i + 1, fm, rl);
                assert(seq![here][0] == shown_node(path@, entry@, fm, rl)[0]);
                assert(here.name == entry.name@);
                assert(here.kind == entry.kind);
                assert(is_dir ==> here.children == shown(path@, entry.children.deep_view(), fm, rl));
                assert(!is_dir ==> here.children == Seq::<Shown>::empty());
                assert(forest.skip(m + 1).len() == forest.len() - (m + 1));
                assert(last <==> m == forest.len() - 1);
                lemma_drawn_step(forest, m, prefix@);
            }
            writer.append(prefix);
            if last {
                writer.append("└── ");
            } else {
                writer.append("├── ");
            }
            writer.append(entry.name.as_str());
            if is_dir {
                writer.append("/\n");
                let deeper = if last {
                    String::from_str(prefix).concat("    ")
                } else {
                    String::from_str(prefix).concat("│   ")
                };
                generate_tree(
                    &path,
                    &entry.children,
                    deeper.as_str(),
                    ignore_paths,
                    formats,
                    writer,
                );
            } else {
                writer.append("\n");
            }
            proof {
                let below = drawn_from(here.children, 0, prefix@ + indent(last));
                assert(writer@ =~= before + (prefix@ + connector(last) + here.name + line_end(
                    is_dir,
                ) + below));
                assert(before + drawn_from(forest, m, prefix@) =~= writer@ + drawn_from(
                    forest,
                    m + 1,
                    prefix@,
                ));
                m = m + 1;
            }
        }
        i += 1;
    }
    assert(writer@ + Seq::<char>::empty() =~= writer@);
}

} // verus!
