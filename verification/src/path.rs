//! Paths as a root flag and a sequence of named segments.
//!
//! A path is read from text by splitting it at `/`. Empty pieces and `.`
//! pieces name nothing and are dropped, so `a//b/./c/` and `a/b/c` are the
//! same path. A `..` piece is kept as it stands: it is never resolved against
//! the segment before it. Two paths are compared segment by segment, never
//! character by character: `/a/bc` does not start with `/a/b`.

use vstd::prelude::*;
use crate::text::{
    chars_of, find_char, first_index, last_index, lemma_first_index, lemma_first_index_bounds,
    rfind_char, string_of,
};

verus! {

/// The mathematical value of a path.
pub struct PathView {
    /// Whether the path starts at the root.
    pub absolute: bool,
    /// The names on the way, outermost first.
    pub segments: Seq<Seq<char>>,
}

/// A piece between two separators names something unless it is empty or `.`.
pub open spec fn is_segment(piece: Seq<char>) -> bool {
    piece.len() > 0 && !(piece.len() == 1 && piece[0] == '.')
}

/// The piece as a sequence of one segment, or of none where it names nothing.
pub open spec fn kept(piece: Seq<char>) -> Seq<Seq<char>> {
    if is_segment(piece) {
        seq![piece]
    } else {
        Seq::empty()
    }
}

/// The segments that a text names: its pieces between `/`, without those
/// that name nothing.
pub open spec fn segments_of(s: Seq<char>) -> Seq<Seq<char>>
    decreases s.len(),
{
    let k = first_index(s, '/');
    if 0 <= k < s.len() {
        kept(s.take(k)) + segments_of(s.skip(k + 1))
    } else {
        kept(s)
    }
}

/// The path that a text names. It is absolute where the text begins with `/`.
pub open spec fn path_of_text(s: Seq<char>) -> PathView {
    PathView { absolute: s.len() > 0 && s[0] == '/', segments: segments_of(s) }
}

/// The segments written one after the other with `/` between them.
pub open spec fn join_segments(segments: Seq<Seq<char>>) -> Seq<char>
    decreases segments.len(),
{
    if segments.len() == 0 {
        Seq::empty()
    } else if segments.len() == 1 {
        segments[0]
    } else {
        join_segments(segments.drop_last()) + seq!['/'] + segments.last()
    }
}

/// Each segment names something and holds no separator.
pub open spec fn segments_wf(segments: Seq<Seq<char>>) -> bool {
    forall|i: int|
        0 <= i < segments.len() ==> is_segment(#[trigger] segments[i]) && !segments[i].contains(
            '/',
        )
}

impl PathView {
    /// A path is well formed when each segment names something and holds no
    /// separator.
    pub open spec fn wf(self) -> bool {
        segments_wf(self.segments)
    }

    /// `self` is `base` or lies beneath it: both start at the same place and
    /// the segments of `base` are the first segments of `self`.
    pub open spec fn starts_with(self, base: PathView) -> bool {
        self.absolute == base.absolute && base.segments.is_prefix_of(self.segments)
    }

    /// The last segment, unless there is none or it is `..`.
    pub open spec fn file_name(self) -> Option<Seq<char>> {
        if self.segments.len() > 0 && self.segments.last() != seq!['.', '.'] {
            Some(self.segments.last())
        } else {
            None
        }
    }

    /// Whether the file name begins with `.`.
    pub open spec fn is_hidden(self) -> bool {
        match self.file_name() {
            Some(name) => name.len() > 0 && name[0] == '.',
            None => false,
        }
    }

    /// The part of the file name after its last `.`. There is none where
    /// there is no file name, where it holds no `.`, and where its only `.`
    /// is its first character.
    pub open spec fn extension(self) -> Option<Seq<char>> {
        match self.file_name() {
            Some(name) => {
                let k = last_index(name, '.');
                if k > 0 {
                    Some(name.skip(k + 1))
                } else {
                    None
                }
            },
            None => None,
        }
    }

    /// The path that `rel` names when read from `self`: the segments of `rel`
    /// are added to those of `self`, unless `rel` is absolute and stands for
    /// itself.
    pub open spec fn join(self, rel: Seq<char>) -> PathView {
        if path_of_text(rel).absolute {
            path_of_text(rel)
        } else {
            PathView { absolute: self.absolute, segments: self.segments + segments_of(rel) }
        }
    }

    /// The path as text: `/` for the root, `.` for the empty relative path,
    /// else the segments with `/` between them, after a `/` where the path is
    /// absolute.
    pub open spec fn text(self) -> Seq<char> {
        if self.segments.len() == 0 {
            if self.absolute {
                seq!['/']
            } else {
                seq!['.']
            }
        } else if self.absolute {
            seq!['/'] + join_segments(self.segments)
        } else {
            join_segments(self.segments)
        }
    }
}

/// A path of the file system, held as its segments.
#[derive(Debug, PartialEq, Eq)]
pub struct FsPath {
    absolute: bool,
    segments: Vec<String>,
}

impl View for FsPath {
    type V = PathView;

    closed spec fn view(&self) -> PathView {
        PathView { absolute: self.absolute, segments: self.segments.deep_view() }
    }
}

impl DeepView for FsPath {
    type V = PathView;

    open spec fn deep_view(&self) -> PathView {
        self@
    }
}

/// `chars[from..to]` names something.
fn names_something(chars: &Vec<char>, from: usize, to: usize) -> (b: bool)
    requires
        from <= to <= chars.len(),
    ensures
        b == is_segment(chars@.subrange(from as int, to as int)),
{
    to > from && !(to - from == 1 && chars[from] == '.')
}

/// Appends the segments that `chars` names to `out`.
fn push_segments(out: &mut Vec<String>, chars: &Vec<char>)
    ensures
        final(out).deep_view() == old(out).deep_view() + segments_of(chars@),
{
    let n = chars.len();
    let mut i: usize = 0;
    let mut done = false;
    assert(chars@.skip(0) == chars@);
    while !done
        invariant
            i <= n,
            n == chars.len(),
            !done ==> out.deep_view() + segments_of(chars@.skip(i as int)) == old(
                out,
            ).deep_view() + segments_of(chars@),
            done ==> out.deep_view() == old(out).deep_view() + segments_of(chars@),
        decreases n - i + (if done { 0int } else { 1int }),
    {
        let ghost rest = chars@.skip(i as int);
        let ghost before = out.deep_view();
        let j = find_char(chars, i, n, '/');
        assert(chars@.subrange(i as int, n as int) == rest);
        assert(chars@.subrange(i as int, j as int) == rest.take(j - i));
        if names_something(chars, i, j) {
            let s = string_of(chars, i, j);
            out.push(s);
            assert(out.deep_view() == before + kept(rest.take(j - i)));
        } else {
            assert(out.deep_view() == before + kept(rest.take(j - i)));
        }
        if j < n {
            assert(rest.skip(j - i + 1) == chars@.skip(j + 1));
            i = j + 1;
        } else {
            assert(rest.take(j - i) == rest);
            done = true;
        }
    }
}

impl FsPath {
    /// Every path that is held is well formed.
    #[verifier::type_invariant]
    spec fn well_formed(&self) -> bool {
        segments_wf(self.segments.deep_view())
    }

    /// Reads a path from text.
    pub fn parse(s: &str) -> (p: FsPath)
        ensures
            p@ == path_of_text(s@),
            p@.wf(),
    {
        let chars = chars_of(s);
        let mut segments: Vec<String> = Vec::new();
        push_segments(&mut segments, &chars);
        let absolute = chars.len() > 0 && chars[0] == '/';
        proof {
            lemma_segments_wf(s@);
        }
        FsPath { absolute, segments }
    }

    /// The path that `rel` names when read from `self`.
    pub fn join(&self, rel: &str) -> (p: FsPath)
        ensures
            p@ == self@.join(rel@),
            p@.wf(),
    {
        proof {
            use_type_invariant(self);
        }
        let chars = chars_of(rel);
        let absolute = chars.len() > 0 && chars[0] == '/';
        let mut segments: Vec<String> = Vec::new();
        if !absolute {
            segments = clone_strings(&self.segments);
        }
        push_segments(&mut segments, &chars);
        proof {
            lemma_segments_wf(rel@);
            assert(Seq::<Seq<char>>::empty() + segments_of(rel@) == segments_of(rel@));
            lemma_segments_wf_concat(self@.segments, segments_of(rel@));
        }
        FsPath { absolute: absolute || self.absolute, segments }
    }

    /// Whether the path starts at the root.
    pub fn is_absolute(&self) -> (b: bool)
        ensures
            b == self@.absolute,
    {
        self.absolute
    }

    /// Whether `self` is `base` or lies beneath it.
    pub fn starts_with(&self, base: &FsPath) -> (b: bool)
        ensures
            b == self@.starts_with(base@),
    {
        if self.absolute != base.absolute || base.segments.len() > self.segments.len() {
            return false;
        }
        let n = base.segments.len();
        let mut i: usize = 0;
        while i < n
            invariant
                i <= n,
                n == base.segments.len(),
                n <= self.segments.len(),
                forall|k: int| 0 <= k < i ==> self@.segments[k] == base@.segments[k],
            decreases n - i,
        {
            if self.segments[i] != base.segments[i] {
                assert(self@.segments[i as int] != base@.segments[i as int]);
                assert(!base@.segments.is_prefix_of(self@.segments)) by {
                    if base@.segments.is_prefix_of(self@.segments) {
                        assert(self@.segments.subrange(0, n as int)[i as int]
                            == self@.segments[i as int]);
                    }
                }
                return false;
            }
            i += 1;
        }
        assert(base@.segments =~= self@.segments.subrange(0, n as int));
        true
    }

    /// The last segment, unless there is none or it is `..`.
    pub fn file_name(&self) -> (r: Option<&str>)
        ensures
            match r {
                Some(name) => self@.file_name() == Some(name@),
                None => self@.file_name() is None,
            },
    {
        let n = self.segments.len();
        if n == 0 {
            return None;
        }
        let name = self.segments[n - 1].as_str();
        let chars = chars_of(name);
        if chars.len() == 2 && chars[0] == '.' && chars[1] == '.' {
            assert(name@ == seq!['.', '.']);
            None
        } else {
            Some(name)
        }
    }

    /// The part of the file name after its last `.`, if it has one that is
    /// not its first character.
    pub fn extension(&self) -> (r: Option<String>)
        ensures
            match r {
                Some(ext) => self@.extension() == Some(ext@),
                None => self@.extension() is None,
            },
    {
        match self.file_name() {
            None => None,
            Some(name) => {
                let chars = chars_of(name);
                match rfind_char(&chars, '.') {
                    None => None,
                    Some(k) => {
                        if k > 0 {
                            let ext = string_of(&chars, k + 1, chars.len());
                            assert(chars@.subrange(k + 1, chars.len() as int) == name@.skip(k + 1));
                            Some(ext)
                        } else {
                            None
                        }
                    },
                }
            },
        }
    }

    /// Whether the file name begins with `.`.
    pub fn is_hidden(&self) -> (b: bool)
        ensures
            b == self@.is_hidden(),
    {
        match self.file_name() {
            None => false,
            Some(name) => {
                let chars = chars_of(name);
                chars.len() > 0 && chars[0] == '.'
            },
        }
    }

    /// The path as text. Every path that is held is well formed, so its
    /// text names it.
    pub fn to_string(&self) -> (s: String)
        ensures
            s@ == self@.text(),
            self@.wf(),
            path_of_text(s@) == self@,
    {
        proof {
            use_type_invariant(self);
            lemma_text_names_the_path(self@);
        }
        let n = self.segments.len();
        if n == 0 {
            let s = if self.absolute {
                "/"
            } else {
                "."
            };
            proof {
                reveal_strlit("/");
                reveal_strlit(".");
                assert(s@ =~= self@.text());
            }
            return String::from_str(s);
        }
        let mut s = String::new();
        if self.absolute {
            s.append("/");
        }
        s.append(self.segments[0].as_str());
        let ghost lead = if self.absolute {
            seq!['/']
        } else {
            Seq::<char>::empty()
        };
        proof {
            reveal_strlit("/");
            assert(self@.segments.take(1)[0] == self@.segments[0]);
            assert(s@ =~= lead + join_segments(self@.segments.take(1)));
        }
        let mut i: usize = 1;
        while i < n
            invariant
                1 <= i <= n,
                n == self.segments.len(),
                s@ == lead + join_segments(self@.segments.take(i as int)),
            decreases n - i,
        {
            s.append("/");
            s.append(self.segments[i].as_str());
            proof {
                reveal_strlit("/");
                let now = self@.segments.take(i + 1);
                assert(now.drop_last() == self@.segments.take(i as int));
                assert(now.last() == self@.segments[i as int]);
                assert(s@ =~= lead + join_segments(now));
            }
            i += 1;
        }
        assert(self@.segments.take(n as int) == self@.segments);
        s
    }
}

impl Clone for FsPath {
    fn clone(&self) -> (p: FsPath)
        ensures
            p@ == self@,
            p@.wf(),
    {
        proof {
            use_type_invariant(self);
        }
        FsPath { absolute: self.absolute, segments: clone_strings(&self.segments) }
    }
}

/// Copies a list of strings.
pub fn clone_strings(list: &Vec<String>) -> (out: Vec<String>)
    ensures
        out.deep_view() == list.deep_view(),
{
    let mut out: Vec<String> = Vec::new();
    let mut i: usize = 0;
    while i < list.len()
        invariant
            i <= list.len(),
            out.len() == i,
            forall|k: int| 0 <= k < i ==> out@[k]@ == list@[k]@,
        decreases list.len() - i,
    {
        out.push(list[i].clone());
        i += 1;
    }
    assert(out.deep_view() =~= list.deep_view());
    out
}

/// Well-formed segments followed by well-formed segments are well formed.
pub proof fn lemma_segments_wf_concat(a: Seq<Seq<char>>, b: Seq<Seq<char>>)
    requires
        segments_wf(a),
        segments_wf(b),
    ensures
        segments_wf(a + b),
{
    assert forall|i: int| 0 <= i < (a + b).len() implies is_segment(#[trigger] (a + b)[i]) && !(a
        + b)[i].contains('/') by {
        if i < a.len() {
            assert((a + b)[i] == a[i]);
        } else {
            assert((a + b)[i] == b[i - a.len()]);
        }
    }
}

/// Every segment read from a text names something and holds no separator.
pub proof fn lemma_segments_wf(s: Seq<char>)
    ensures
        segments_wf(segments_of(s)),
    decreases s.len(),
{
    let k = first_index(s, '/');
    lemma_first_index_bounds(s, '/');
    if 0 <= k < s.len() {
        let head = kept(s.take(k));
        let tail = segments_of(s.skip(k + 1));
        lemma_segments_wf(s.skip(k + 1));
        assert forall|i: int| 0 <= i < (head + tail).len() implies is_segment(
            #[trigger] (head + tail)[i],
        ) && !(head + tail)[i].contains('/') by {
            if i < head.len() {
                assert((head + tail)[i] == s.take(k));
            } else {
                assert((head + tail)[i] == tail[i - head.len()]);
            }
        }
    }
}

/// The segments of two texts with a separator between them are those of
/// the first followed by those of the second.
pub proof fn lemma_segments_of_joined(x: Seq<char>, y: Seq<char>)
    ensures
        segments_of(x + seq!['/'] + y) == segments_of(x) + segments_of(y),
    decreases x.len(),
{
    let whole = x + seq!['/'] + y;
    let k = first_index(x, '/');
    lemma_first_index_bounds(x, '/');
    assert forall|j: int| 0 <= j < k implies whole[j] != '/' by {
        assert(whole[j] == x[j]);
    }
    assert(whole[k] == '/') by {
        if k < x.len() {
            assert(whole[k] == x[k]);
        }
    }
    lemma_first_index(whole, '/', k);
    assert(whole.take(k) =~= x.take(k));
    if k < x.len() {
        assert(whole.skip(k + 1) =~= x.skip(k + 1) + seq!['/'] + y);
        lemma_segments_of_joined(x.skip(k + 1), y);
        assert(kept(x.take(k)) + (segments_of(x.skip(k + 1)) + segments_of(y)) =~= kept(
            x.take(k),
        ) + segments_of(x.skip(k + 1)) + segments_of(y));
    } else {
        assert(whole.skip(k + 1) =~= y);
        assert(x.take(k) =~= x);
    }
}

/// A text that is one well-formed segment names that segment alone.
pub proof fn lemma_segments_of_segment(name: Seq<char>)
    requires
        is_segment(name),
        !name.contains('/'),
    ensures
        segments_of(name) == seq![name],
{
    lemma_first_index(name, '/', name.len() as int);
}

/// The text of well-formed segments names those segments.
pub proof fn lemma_segments_of_join_segments(segments: Seq<Seq<char>>)
    requires
        segments_wf(segments),
    ensures
        segments_of(join_segments(segments)) == segments,
        segments.len() > 0 ==> join_segments(segments).len() > 0 && join_segments(segments)[0]
            != '/',
    decreases segments.len(),
{
    if segments.len() == 0 {
        lemma_first_index(Seq::<char>::empty(), '/', 0);
    } else if segments.len() == 1 {
        lemma_segments_of_segment(segments[0]);
        assert(segments =~= seq![segments[0]]);
        assert(segments[0].contains(segments[0][0]));
    } else {
        let front = segments.drop_last();
        let last = segments.last();
        assert(segments_wf(front)) by {
            assert forall|i: int| 0 <= i < front.len() implies is_segment(#[trigger] front[i])
                && !front[i].contains('/') by {
                assert(front[i] == segments[i]);
            }
        }
        lemma_segments_of_join_segments(front);
        lemma_segments_of_joined(join_segments(front), last);
        lemma_segments_of_segment(last);
        assert(front + seq![last] =~= segments);
        assert(join_segments(segments)[0] == join_segments(front)[0]);
    }
}

/// The text of a well-formed path names that path: reading what was
/// written gives the path back.
pub proof fn lemma_text_names_the_path(path: PathView)
    requires
        path.wf(),
    ensures
        path_of_text(path.text()) == path,
{
    let text = path.text();
    lemma_segments_of_join_segments(path.segments);
    if path.segments.len() == 0 {
        if path.absolute {
            lemma_first_index(text, '/', 0);
            assert(text.take(0) =~= Seq::<char>::empty());
            assert(text.skip(1) =~= Seq::<char>::empty());
            lemma_first_index(Seq::<char>::empty(), '/', 0);
        } else {
            lemma_first_index(text, '/', 1);
        }
        assert(path_of_text(text).segments =~= path.segments);
    } else if path.absolute {
        let joined = join_segments(path.segments);
        lemma_segments_of_joined(Seq::<char>::empty(), joined);
        assert(Seq::<char>::empty() + seq!['/'] + joined =~= text);
        lemma_first_index(Seq::<char>::empty(), '/', 0);
        assert(Seq::<Seq<char>>::empty() + segments_of(joined) =~= segments_of(joined));
    }
}

/// A name that is one well-formed segment, read from a directory, gives the
/// path of the directory with that name as its last segment.
pub proof fn lemma_join_name(dir: PathView, name: Seq<char>)
    requires
        is_segment(name),
        !name.contains('/'),
    ensures
        dir.join(name) == (PathView { absolute: dir.absolute, segments: dir.segments.push(name) }),
{
    lemma_segments_of_segment(name);
    assert(name.contains(name[0]));
    assert(dir.segments + seq![name] =~= dir.segments.push(name));
}

} // verus!
