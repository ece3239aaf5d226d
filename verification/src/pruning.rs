//! What a reader of the file system may leave unread.
//!
//! A walk never enters a directory that is ignored under the rules in force
//! when the walk comes to it, and the rules only grow. So what lies beneath
//! such a directory changes nothing: not the rules that the marker files
//! add, not the listing, not the files that are handed on. A snapshot may
//! leave it out.

use vstd::prelude::*;
use crate::collector::path_handler::{is_ignored, lemma_more_rules_ignore_more};
use crate::collector::{
    collected, files_of_roots_from, listings_from, rules_after_roots,
};
use crate::config::{
    lemma_prefix_of_prefix, lemma_rules_only_grow, lemma_rules_only_grow_from, marker_rules,
    rules_after, rules_after_from, ConfigView,
};
use crate::path::PathView;
use crate::snapshot::{node_files, shown_from, shown_node, NodeView};

verus! {

/// The entries `a` and `b` at `path` are the same wherever a walk that
/// comes to them with `rules` enters: they have one name and one kind, and,
/// where they are a directory that `rules` does not ignore, one marker file
/// and entries that are the same in this sense, each under the rules that
/// the walk has when it comes to it. What lies beneath a directory that the
/// walk does not enter may differ.
pub open spec fn same_where_entered(
    path: PathView,
    a: NodeView,
    b: NodeView,
    rules: Seq<PathView>,
) -> bool
    decreases a, 0int,
{
    &&& a.name == b.name
    &&& a.kind == b.kind
    &&& (is_ignored(path, rules) || !(a.kind is Directory) || {
        &&& a.ignore_file == b.ignore_file
        &&& same_entries_where_entered(
            path,
            a.children,
            b.children,
            0,
            rules + marker_rules(path, a.ignore_file),
        )
    })
}

/// The entries `a[from..]` and `b[from..]` of the directory `dir` are the
/// same, one by one, wherever a walk that comes to `a[from]` with `rules`
/// enters.
pub open spec fn same_entries_where_entered(
    dir: PathView,
    a: Seq<NodeView>,
    b: Seq<NodeView>,
    from: int,
    rules: Seq<PathView>,
) -> bool
    decreases a, a.len() - from,
{
    &&& a.len() == b.len()
    &&& (0 <= from < a.len() ==> {
        &&& same_where_entered(dir.join(a[from].name), a[from], b[from], rules)
        &&& same_entries_where_entered(
            dir,
            a,
            b,
            from + 1,
            rules_after(dir.join(a[from].name), a[from], rules),
        )
    })
}

/// The snapshots `a` and `b` of the roots `paths[from..]` are the same,
/// root by root, wherever a walk that comes to the root `paths[from]` with
/// `rules` enters.
pub open spec fn same_roots_where_entered(
    paths: Seq<PathView>,
    a: Seq<NodeView>,
    b: Seq<NodeView>,
    from: int,
    rules: Seq<PathView>,
) -> bool
    decreases paths.len() - from,
{
    &&& a.len() == b.len()
    &&& (0 <= from < paths.len() ==> {
        &&& from < a.len() ==> same_where_entered(paths[from], a[from], b[from], rules)
        &&& same_roots_where_entered(
            paths,
            a,
            b,
            from + 1,
            if from < a.len() {
                rules_after(paths[from], a[from], rules)
            } else {
                rules
            },
        )
    })
}

/// What the walk does not enter adds no rules: two entries that differ only
/// there leave the same rules.
pub proof fn lemma_unread_parts_add_no_rules(
    path: PathView,
    a: NodeView,
    b: NodeView,
    rules: Seq<PathView>,
)
    requires
        same_where_entered(path, a, b, rules),
    ensures
        rules_after(path, a, rules) == rules_after(path, b, rules),
    decreases a, 0int,
{
    if a.kind is Directory && !is_ignored(path, rules) {
        let begun = rules + marker_rules(path, a.ignore_file);
        lemma_unread_parts_add_no_rules_from(path, a.children, b.children, 0, begun);
    }
}

/// The same for the entries of a directory, from `from` on.
pub proof fn lemma_unread_parts_add_no_rules_from(
    dir: PathView,
    a: Seq<NodeView>,
    b: Seq<NodeView>,
    from: int,
    rules: Seq<PathView>,
)
    requires
        same_entries_where_entered(dir, a, b, from, rules),
    ensures
        rules_after_from(dir, a, from, rules) == rules_after_from(dir, b, from, rules),
    decreases a, a.len() - from,
{
    if 0 <= from < a.len() {
        let path = dir.join(a[from].name);
        let next = rules_after(path, a[from], rules);
        assert(same_where_entered(path, a[from], b[from], rules));
        assert(b[from].name == a[from].name);
        lemma_unread_parts_add_no_rules(path, a[from], b[from], rules);
        lemma_unread_parts_add_no_rules_from(dir, a, b, from + 1, next);
        assert(rules_after_from(dir, a, from, rules) == rules_after_from(dir, a, from + 1, next));
        assert(rules_after_from(dir, b, from, rules) == rules_after_from(dir, b, from + 1, next));
    }
}

/// What the walk does not enter is not shown: two entries that differ only
/// there have the same visible part and hand on the same files, under every
/// filter and under all rules that begin with those that the walk leaves.
pub proof fn lemma_unread_parts_do_not_show(
    path: PathView,
    a: NodeView,
    b: NodeView,
    rules: Seq<PathView>,
    formats: Seq<Seq<char>>,
    last: Seq<PathView>,
)
    requires
        same_where_entered(path, a, b, rules),
        rules_after(path, a, rules).is_prefix_of(last),
    ensures
        shown_node(path, a, formats, last) == shown_node(path, b, formats, last),
        node_files(path, a, formats, last) == node_files(path, b, formats, last),
    decreases a, 0int,
{
    lemma_rules_only_grow(path, a, rules);
    lemma_prefix_of_prefix(rules, rules_after(path, a, rules), last);
    if is_ignored(path, rules) {
        lemma_more_rules_ignore_more(path, rules, last);
    } else if a.kind is Directory {
        let begun = rules + marker_rules(path, a.ignore_file);
        lemma_unread_parts_do_not_show_from(
            path,
            a.children,
            b.children,
            0,
            begun,
            formats,
            last,
        );
    }
}

/// The same for the entries of a directory, from `from` on.
pub proof fn lemma_unread_parts_do_not_show_from(
    dir: PathView,
    a: Seq<NodeView>,
    b: Seq<NodeView>,
    from: int,
    rules: Seq<PathView>,
    formats: Seq<Seq<char>>,
    last: Seq<PathView>,
)
    requires
        same_entries_where_entered(dir, a, b, from, rules),
        rules_after_from(dir, a, from, rules).is_prefix_of(last),
    ensures
        shown_from(dir, a, from, formats, last) == shown_from(dir, b, from, formats, last),
    decreases a, a.len() - from,
{
    if 0 <= from < a.len() {
        let path = dir.join(a[from].name);
        let next = rules_after(path, a[from], rules);
        assert(same_where_entered(path, a[from], b[from], rules));
        assert(b[from].name == a[from].name);
        assert(rules_after_from(dir, a, from, rules) == rules_after_from(dir, a, from + 1, next));
        lemma_rules_only_grow_from(dir, a, from + 1, next);
        lemma_prefix_of_prefix(next, rules_after_from(dir, a, from + 1, next), last);
        lemma_unread_parts_do_not_show(path, a[from], b[from], rules, formats, last);
        lemma_unread_parts_do_not_show_from(dir, a, b, from + 1, next, formats, last);
    }
}

/// The marker files beneath the roots only add rules.
pub proof fn lemma_roots_only_grow(
    paths: Seq<PathView>,
    roots: Seq<NodeView>,
    from: int,
    rules: Seq<PathView>,
)
    ensures
        rules.is_prefix_of(rules_after_roots(paths, roots, from, rules)),
    decreases paths.len() - from,
{
    if 0 <= from < paths.len() {
        if from < roots.len() {
            let next = rules_after(paths[from], roots[from], rules);
            lemma_rules_only_grow(paths[from], roots[from], rules);
            lemma_roots_only_grow(paths, roots, from + 1, next);
            lemma_prefix_of_prefix(rules, next, rules_after_roots(paths, roots, from, rules));
        } else {
            lemma_roots_only_grow(paths, roots, from + 1, rules);
        }
    } else {
        assert(rules =~= rules.subrange(0, rules.len() as int));
    }
}

/// The rules that the roots add do not depend on what the walk does not
/// enter.
pub proof fn lemma_unread_roots_add_no_rules(
    paths: Seq<PathView>,
    a: Seq<NodeView>,
    b: Seq<NodeView>,
    from: int,
    rules: Seq<PathView>,
)
    requires
        same_roots_where_entered(paths, a, b, from, rules),
    ensures
        rules_after_roots(paths, a, from, rules) == rules_after_roots(paths, b, from, rules),
    decreases paths.len() - from,
{
    if 0 <= from < paths.len() {
        if from < a.len() {
            lemma_unread_parts_add_no_rules(paths[from], a[from], b[from], rules);
            lemma_unread_roots_add_no_rules(
                paths,
                a,
                b,
                from + 1,
                rules_after(paths[from], a[from], rules),
            );
        } else {
            lemma_unread_roots_add_no_rules(paths, a, b, from + 1, rules);
        }
    }
}

/// The listings and the files of the roots do not depend on what the walk
/// does not enter.
pub proof fn lemma_unread_roots_do_not_show(
    paths: Seq<PathView>,
    a: Seq<NodeView>,
    b: Seq<NodeView>,
    from: int,
    rules: Seq<PathView>,
    formats: Seq<Seq<char>>,
    last: Seq<PathView>,
)
    requires
        same_roots_where_entered(paths, a, b, from, rules),
        rules_after_roots(paths, a, from, rules).is_prefix_of(last),
    ensures
        listings_from(paths, a, from, formats, last) == listings_from(
            paths,
            b,
            from,
            formats,
            last,
        ),
        files_of_roots_from(paths, a, from, formats, last) == files_of_roots_from(
            paths,
            b,
            from,
            formats,
            last,
        ),
    decreases paths.len() - from,
{
    if 0 <= from < paths.len() {
        if from < a.len() {
            let path = paths[from];
            let next = rules_after(path, a[from], rules);
            lemma_roots_only_grow(paths, a, from + 1, next);
            lemma_prefix_of_prefix(next, rules_after_roots(paths, a, from + 1, next), last);
            lemma_unread_parts_do_not_show(path, a[from], b[from], rules, formats, last);
            lemma_unread_roots_do_not_show(paths, a, b, from + 1, next, formats, last);
            if a[from].kind is Directory && !is_ignored(path, last) {
                lemma_rules_only_grow(path, a[from], rules);
                lemma_prefix_of_prefix(rules, next, last);
                if is_ignored(path, rules) {
                    lemma_more_rules_ignore_more(path, rules, last);
                }
                lemma_unread_parts_do_not_show_from(
                    path,
                    a[from].children,
                    b[from].children,
                    0,
                    rules + marker_rules(path, a[from].ignore_file),
                    formats,
                    last,
                );
            }
        } else {
            lemma_unread_roots_do_not_show(paths, a, b, from + 1, rules, formats, last);
        }
    }
}

/// A collection never looks beneath a directory that it does not enter:
/// over two lists of snapshots that differ only there, it leaves the same
/// rules, writes the same text and hands on the same files.
pub proof fn lemma_collection_reads_only_what_it_enters(
    before: ConfigView,
    a: Seq<NodeView>,
    b: Seq<NodeView>,
    after: ConfigView,
    written: Seq<char>,
    files: Seq<PathView>,
)
    requires
        same_roots_where_entered(before.paths, a, b, 0, before.ignore_paths),
        collected(before, a, after, written, files),
    ensures
        collected(before, b, after, written, files),
{
    let last = after.ignore_paths;
    lemma_unread_roots_add_no_rules(before.paths, a, b, 0, before.ignore_paths);
    assert(last =~= last.subrange(0, last.len() as int));
    lemma_unread_roots_do_not_show(
        before.paths,
        a,
        b,
        0,
        before.ignore_paths,
        after.formats,
        last,
    );
}

} // verus!
