//! The settings of one run, and the ignore rules that marker files add.
//!
//! A directory may hold a marker file. Each of its lines names one path to
//! ignore, read from that directory. What follows the first `#` of a line is
//! a comment; blank characters around the name are dropped; a line that is
//! then empty names nothing.

use vstd::prelude::*;
use crate::cli::Cli;
use crate::collector::path_handler::{is_ignored, is_included, should_ignore};
use crate::path::{clone_strings, FsPath, PathView};
use crate::snapshot::{
    forest_holds, lemma_children_view, lemma_ignored_is_absent, node_files, shown_node,
    EntryKind, NodeView, TreeNode,
};
use crate::text::{
    blanks, blanks_of, chars_of, find_char, first_index, string_of, trim_range, trimmed_with,
};
use crate::utils::{canonical_formats, canonicalize_formats, clone_paths};

verus! {

/// The name of the marker file.
pub const IGNORE_FILE_NAME: &'static str = ".collectignore";

/// What a line of a marker file names: the line up to its first `#`,
/// without the blank characters around it. `blank` says of each character
/// of the line whether it is blank.
pub open spec fn pattern_with(line: Seq<char>, blank: Seq<bool>) -> Seq<char> {
    let k = first_index(line, '#');
    trimmed_with(line.take(k), blank.take(k))
}

/// The pattern as a sequence of one, or of none where it is empty.
pub open spec fn kept_pattern(pattern: Seq<char>) -> Seq<Seq<char>> {
    if pattern.len() > 0 {
        seq![pattern]
    } else {
        Seq::empty()
    }
}

/// The patterns of a marker file, line by line, in order. Lines end at
/// `\n`. `blank` says of each character of the text whether it is blank.
pub open spec fn patterns_with(text: Seq<char>, blank: Seq<bool>) -> Seq<Seq<char>>
    decreases text.len(),
{
    let k = first_index(text, '\n');
    if 0 <= k < text.len() {
        kept_pattern(pattern_with(text.take(k), blank.take(k))) + patterns_with(
            text.skip(k + 1),
            blank.skip(k + 1),
        )
    } else {
        kept_pattern(pattern_with(text, blank))
    }
}

/// The patterns of a marker file, where each character is taken for what it
/// is: blank or not.
pub open spec fn patterns_of(text: Seq<char>) -> Seq<Seq<char>> {
    patterns_with(text, blanks_of(text))
}

/// Each pattern read from the directory `dir`.
pub open spec fn rules_of(dir: PathView, patterns: Seq<Seq<char>>) -> Seq<PathView> {
    Seq::new(patterns.len(), |i: int| dir.join(patterns[i]))
}

/// The rules that the marker file of the directory `dir` adds; none where
/// the directory has no marker file.
pub open spec fn marker_rules(dir: PathView, ignore_file: Option<Seq<char>>) -> Seq<PathView> {
    match ignore_file {
        Some(text) => rules_of(dir, patterns_of(text)),
        None => Seq::empty(),
    }
}

/// The rules after a walk over `entries[from..]`, which lie in the directory
/// `dir`, that began with `rules`. The entries are taken in order, and each
/// is walked under the rules that the ones before it have left.
pub open spec fn rules_after_from(
    dir: PathView,
    entries: Seq<NodeView>,
    from: int,
    rules: Seq<PathView>,
) -> Seq<PathView>
    decreases entries, entries.len() - from,
{
    if 0 <= from < entries.len() {
        rules_after_from(
            dir,
            entries,
            from + 1,
            rules_after(dir.join(entries[from].name), entries[from], rules),
        )
    } else {
        rules
    }
}

/// The rules after a walk over the entry `node` at `path` that began with
/// `rules`. A directory that is not ignored adds the rules of its marker
/// file and is then walked entry by entry. Anything else adds nothing, and
/// what lies beneath an ignored directory is not looked at.
pub open spec fn rules_after(path: PathView, node: NodeView, rules: Seq<PathView>) -> Seq<
    PathView,
>
    decreases node, 0int,
{
    if node.kind is Directory && !is_ignored(path, rules) {
        rules_after_from(path, node.children, 0, rules + marker_rules(path, node.ignore_file))
    } else {
        rules
    }
}

/// A walk only adds rules: those it began with are the first of those it
/// ends with, in their order.
pub proof fn lemma_rules_only_grow(path: PathView, node: NodeView, rules: Seq<PathView>)
    ensures
        rules.is_prefix_of(rules_after(path, node, rules)),
    decreases node, 0int,
{
    if node.kind is Directory && !is_ignored(path, rules) {
        let begun = rules + marker_rules(path, node.ignore_file);
        lemma_rules_only_grow_from(path, node.children, 0, begun);
        assert(rules =~= begun.subrange(0, rules.len() as int));
        lemma_prefix_of_prefix(rules, begun, rules_after(path, node, rules));
    } else {
        assert(rules =~= rules.subrange(0, rules.len() as int));
    }
}

/// A walk over the entries of a directory only adds rules.
pub proof fn lemma_rules_only_grow_from(
    dir: PathView,
    entries: Seq<NodeView>,
    from: int,
    rules: Seq<PathView>,
)
    ensures
        rules.is_prefix_of(rules_after_from(dir, entries, from, rules)),
    decreases entries, entries.len() - from,
{
    if 0 <= from < entries.len() {
        let next = rules_after(dir.join(entries[from].name), entries[from], rules);
        lemma_rules_only_grow(dir.join(entries[from].name), entries[from], rules);
        lemma_rules_only_grow_from(dir, entries, from + 1, next);
        lemma_prefix_of_prefix(rules, next, rules_after_from(dir, entries, from, rules));
    } else {
        assert(rules =~= rules.subrange(0, rules.len() as int));
    }
}

/// The start of a start is a start.
pub proof fn lemma_prefix_of_prefix(a: Seq<PathView>, b: Seq<PathView>, c: Seq<PathView>)
    requires
        a.is_prefix_of(b),
        b.is_prefix_of(c),
    ensures
        a.is_prefix_of(c),
{
    assert(a =~= c.subrange(0, a.len() as int)) by {
        assert(a == b.subrange(0, a.len() as int));
        assert(b == c.subrange(0, b.len() as int));
    }
}

/// The rules of a directory's marker file are in force after a walk from
/// that directory, provided the walk enters it.
pub proof fn lemma_marker_rules_are_kept(
    path: PathView,
    node: NodeView,
    rules: Seq<PathView>,
    k: int,
)
    requires
        node.kind is Directory,
        !is_ignored(path, rules),
        0 <= k < marker_rules(path, node.ignore_file).len(),
    ensures
        rules_after(path, node, rules).contains(marker_rules(path, node.ignore_file)[k]),
{
    let added = marker_rules(path, node.ignore_file);
    let begun = rules + added;
    let after = rules_after(path, node, rules);
    lemma_rules_only_grow_from(path, node.children, 0, begun);
    assert(after.subrange(0, begun.len() as int)[rules.len() + k] == after[rules.len() + k]);
    assert(begun[rules.len() + k] == added[k]);
}

/// A marker file hides what it names: after a walk from a directory that
/// the walk enters, every path at or beneath a path that the directory's
/// marker file names is ignored. It is then never included, no visible
/// entry of the directory stands at it, and it is none of the files that
/// a walk from the directory hands on.
pub proof fn lemma_marker_hides_subtree(
    path: PathView,
    node: NodeView,
    rules: Seq<PathView>,
    k: int,
    below: PathView,
    is_dir: bool,
    formats: Seq<Seq<char>>,
)
    requires
        node.kind is Directory,
        !is_ignored(path, rules),
        0 <= k < marker_rules(path, node.ignore_file).len(),
        below.starts_with(marker_rules(path, node.ignore_file)[k]),
    ensures
        is_ignored(below, rules_after(path, node, rules)),
        !is_included(below, is_dir, formats, rules_after(path, node, rules)),
        !forest_holds(shown_node(path, node, formats, rules_after(path, node, rules)), below),
        !node_files(path, node, formats, rules_after(path, node, rules)).contains(below),
{
    lemma_marker_rules_are_kept(path, node, rules, k);
    let after = rules_after(path, node, rules);
    let rule = marker_rules(path, node.ignore_file)[k];
    let i = choose|i: int| 0 <= i < after.len() && after[i] == rule;
    assert(below.starts_with(after[i]));
    lemma_ignored_is_absent(path, node, formats, after, below);
}

/// What lies beneath an ignored entry adds no rules, whatever it is.
pub proof fn lemma_ignored_adds_no_rules(path: PathView, node: NodeView, rules: Seq<PathView>)
    requires
        is_ignored(path, rules),
    ensures
        rules_after(path, node, rules) == rules,
{
}

/// Reads the patterns of a marker file from its characters, where
/// `blank` says of each character whether it is blank.
pub fn parse_patterns_with(chars: &Vec<char>, blank: &Vec<bool>) -> (patterns: Vec<String>)
    requires
        blank.len() == chars.len(),
    ensures
        patterns.deep_view() == patterns_with(chars@, blank@),
{
    let n = chars.len();
    let mut patterns: Vec<String> = Vec::new();
    let mut i: usize = 0;
    let mut done = false;
    assert(chars@.skip(0) == chars@);
    assert(blank@.skip(0) == blank@);
    while !done
        invariant
            i <= n,
            n == chars.len(),
            n == blank.len(),
            !done ==> patterns.deep_view() + patterns_with(
                chars@.skip(i as int),
                blank@.skip(i as int),
            ) == patterns_with(chars@, blank@),
            done ==> patterns.deep_view() == patterns_with(chars@, blank@),
        decreases n - i + (if done { 0int } else { 1int }),
    {
        let ghost rest = chars@.skip(i as int);
        let ghost flags = blank@.skip(i as int);
        let ghost before = patterns.deep_view();
        let end = find_char(chars, i, n, '\n');
        assert(chars@.subrange(i as int, n as int) == rest);
        let ghost line = rest.take(end - i);
        let ghost line_flags = flags.take(end - i);
        assert(chars@.subrange(i as int, end as int) == line);
        let cut = find_char(chars, i, end, '#');
        assert(chars@.subrange(i as int, cut as int) == line.take(cut - i));
        assert(blank@.subrange(i as int, cut as int) == line_flags.take(cut - i));
        let (a, b) = trim_range(chars, blank, i, cut);
        if b > a {
            patterns.push(string_of(chars, a, b));
        }
        assert(patterns.deep_view() == before + kept_pattern(pattern_with(line, line_flags)));
        if end < n {
            assert(rest.skip(end - i + 1) == chars@.skip(end + 1));
            assert(flags.skip(end - i + 1) == blank@.skip(end + 1));
            i = end + 1;
        } else {
            assert(line == rest);
            assert(line_flags == flags);
            done = true;
        }
    }
    patterns
}

/// Reads the patterns of a marker file.
pub fn parse_patterns(contents: &str) -> (patterns: Vec<String>)
    ensures
        patterns.deep_view() == patterns_of(contents@),
{
    let chars = chars_of(contents);
    let blank = blanks(&chars);
    parse_patterns_with(&chars, &blank)
}

/// The rules that a marker file with the text `contents` adds when it
/// stands in the directory `dir`: each pattern read from `dir`, in order.
pub fn collect_ignores(dir: &FsPath, contents: &str) -> (rules: Vec<FsPath>)
    ensures
        rules.deep_view() == rules_of(dir@, patterns_of(contents@)),
{
    let patterns = parse_patterns(contents);
    let mut rules: Vec<FsPath> = Vec::new();
    let mut i: usize = 0;
    while i < patterns.len()
        invariant
            i <= patterns.len(),
            rules.len() == i,
            forall|k: int| 0 <= k < i ==> rules@[k]@ == dir@.join(patterns@[k]@),
        decreases patterns.len() - i,
    {
        rules.push(dir.join(patterns[i].as_str()));
        i += 1;
    }
    assert(rules.deep_view() =~= rules_of(dir@, patterns.deep_view()));
    rules
}

/// Walks the entry `node` at `path` and adds to `rules` what the marker
/// files on the way say.
fn walk_for_rules(path: &FsPath, node: &TreeNode, rules: &mut Vec<FsPath>)
    ensures
        final(rules).deep_view() == rules_after(path@, node@, old(rules).deep_view()),
    decreases node,
{
    if !matches!(node.kind, EntryKind::Directory) {
        return ;
    }
    if should_ignore(path, rules.as_slice()) {
        return ;
    }
    let ghost start = rules.deep_view();
    let ghost nodes = node.children.deep_view();
    proof {
        lemma_children_view(node);
    }
    match &node.ignore_file {
        Some(contents) => {
            let mut more = collect_ignores(path, contents.as_str());
            let ghost added = more.deep_view();
            rules.append(&mut more);
            assert(rules.deep_view() =~= start + added);
        },
        None => {
            assert(rules.deep_view() =~= start + Seq::<PathView>::empty());
        },
    }
    let ghost begun = rules.deep_view();
    assert(begun == start + marker_rules(path@, node@.ignore_file));
    let mut i: usize = 0;
    while i < node.children.len()
        invariant
            i <= node.children.len(),
            nodes == node.children.deep_view(),
            rules_after_from(path@, nodes, i as int, rules.deep_view()) == rules_after_from(
                path@,
                nodes,
                0,
                begun,
            ),
        decreases node.children.len() - i,
    {
        let child = &node.children[i];
        let child_path = path.join(child.name.as_str());
        assert(nodes[i as int] == child@);
        walk_for_rules(&child_path, child, rules);
        i += 1;
    }
}

/// The settings of one run.
#[derive(Debug)]
pub struct Config {
    /// Files and directories to collect from.
    pub paths: Vec<FsPath>,
    /// The format filter; empty to include every file.
    pub formats: Vec<String>,
    /// The ignore rules.
    pub ignore_paths: Vec<FsPath>,
    /// Kept for settings files that carry it; nothing reads it.
    pub ignore_files: Vec<Vec<FsPath>>,
    /// Where the collected text goes.
    pub output_file: FsPath,
}

/// The mathematical value of the settings.
pub struct ConfigView {
    /// Files and directories to collect from.
    pub paths: Seq<PathView>,
    /// The format filter.
    pub formats: Seq<Seq<char>>,
    /// The ignore rules.
    pub ignore_paths: Seq<PathView>,
    /// Carried along; nothing reads it.
    pub ignore_files: Seq<Seq<PathView>>,
    /// Where the collected text goes.
    pub output_file: PathView,
}

impl View for Config {
    type V = ConfigView;

    open spec fn view(&self) -> ConfigView {
        ConfigView {
            paths: self.paths.deep_view(),
            formats: self.formats.deep_view(),
            ignore_paths: self.ignore_paths.deep_view(),
            ignore_files: self.ignore_files.deep_view(),
            output_file: self.output_file@,
        }
    }
}

impl ConfigView {
    /// The settings with the paths, formats and ignore rules of `other`
    /// added after their own. The rest stays.
    pub open spec fn merged(self, other: ConfigView) -> ConfigView {
        ConfigView {
            paths: self.paths + other.paths,
            formats: self.formats + other.formats,
            ignore_paths: self.ignore_paths + other.ignore_paths,
            ignore_files: self.ignore_files,
            output_file: self.output_file,
        }
    }

    /// The settings merged with `other` where there is one.
    pub open spec fn merged_with(self, other: Option<Config>) -> ConfigView {
        match other {
            Some(config) => self.merged(config@),
            None => self,
        }
    }

    /// The settings with other ignore rules.
    pub open spec fn with_rules(self, rules: Seq<PathView>) -> ConfigView {
        ConfigView {
            paths: self.paths,
            formats: self.formats,
            ignore_paths: rules,
            ignore_files: self.ignore_files,
            output_file: self.output_file,
        }
    }
}

/// The settings that the command line alone gives.
pub open spec fn settings_of(cli: Cli) -> ConfigView {
    ConfigView {
        paths: cli.paths.deep_view(),
        formats: cli.formats.deep_view(),
        ignore_paths: cli.ignore_paths.deep_view(),
        ignore_files: Seq::empty(),
        output_file: cli.output@,
    }
}

/// The settings of a run: those of the command line, then those of the
/// system-wide settings, then those of the preset; the formats of all three
/// without their leading dots.
pub open spec fn initial_settings(
    cli: Cli,
    system_config: Option<Config>,
    preset_config: Option<Config>,
) -> ConfigView {
    let all = settings_of(cli).merged_with(system_config).merged_with(preset_config);
    ConfigView {
        paths: all.paths,
        formats: canonical_formats(all.formats),
        ignore_paths: all.ignore_paths,
        ignore_files: all.ignore_files,
        output_file: all.output_file,
    }
}

/// Copies a list of lists of paths.
fn clone_path_lists(lists: &Vec<Vec<FsPath>>) -> (out: Vec<Vec<FsPath>>)
    ensures
        out.deep_view() == lists.deep_view(),
{
    let mut out: Vec<Vec<FsPath>> = Vec::new();
    let mut i: usize = 0;
    while i < lists.len()
        invariant
            i <= lists.len(),
            out.len() == i,
            forall|k: int| 0 <= k < i ==> out@[k].deep_view() == lists@[k].deep_view(),
        decreases lists.len() - i,
    {
        out.push(clone_paths(&lists[i]));
        i += 1;
    }
    assert(out.deep_view() =~= lists.deep_view());
    out
}

impl Clone for Config {
    fn clone(&self) -> (config: Config)
        ensures
            config@ == self@,
    {
        Config {
            paths: clone_paths(&self.paths),
            formats: clone_strings(&self.formats),
            ignore_paths: clone_paths(&self.ignore_paths),
            ignore_files: clone_path_lists(&self.ignore_files),
            output_file: self.output_file.clone(),
        }
    }
}

impl Config {
    /// The settings of a run, from the command line and from the settings
    /// files that were found. The paths are taken as they were given.
    pub fn initialize(
        cli: &Cli,
        system_config: Option<Config>,
        preset_config: Option<Config>,
    ) -> (config: Config)
        ensures
            config@ == initial_settings(*cli, system_config, preset_config),
    {
        let mut config = Config {
            paths: clone_paths(&cli.paths),
            formats: clone_strings(&cli.formats),
            ignore_paths: clone_paths(&cli.ignore_paths),
            ignore_files: Vec::new(),
            output_file: cli.output.clone(),
        };
        assert(config.ignore_files.deep_view() =~= Seq::<Seq<PathView>>::empty());
        assert(config@ == settings_of(*cli));
        if let Some(system_config) = system_config {
            config.merge(system_config);
        }
        if let Some(preset_config) = preset_config {
            config.merge(preset_config);
        }
        config.formats = canonicalize_formats(config.formats.as_slice());
        config
    }

    /// Adds the paths, formats and ignore rules of `other` after those of
    /// `self`. Nothing else changes.
    pub fn merge(&mut self, other: Config)
        ensures
            final(self)@ == old(self)@.merged(other@),
    {
        let mut other = other;
        let ghost before = self@;
        let ghost added = other@;
        self.paths.append(&mut other.paths);
        self.formats.append(&mut other.formats);
        self.ignore_paths.append(&mut other.ignore_paths);
        assert(self.paths.deep_view() =~= before.paths + added.paths);
        assert(self.formats.deep_view() =~= before.formats + added.formats);
        assert(self.ignore_paths.deep_view() =~= before.ignore_paths + added.ignore_paths);
    }

    /// Walks the entry at `dir`, whose snapshot is `tree`, and adds to the
    /// ignore rules what the marker files on the way say. The rules that
    /// were there stay, in their places; nothing else changes.
    pub fn get_ignore(&mut self, dir: &FsPath, tree: &TreeNode)
        ensures
            final(self)@ == old(self)@.with_rules(
                rules_after(dir@, tree@, old(self)@.ignore_paths),
            ),
    {
        walk_for_rules(dir, tree, &mut self.ignore_paths);
    }
}

} // verus!
