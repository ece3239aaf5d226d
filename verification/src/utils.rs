//! Small helpers for lists of paths and formats.

use vstd::prelude::*;
use crate::path::FsPath;
use crate::text::{chars_of, string_of};

verus! {

/// `s` without the dots at its start.
pub open spec fn without_leading_dots(s: Seq<char>) -> Seq<char>
    decreases s.len(),
{
    if s.len() > 0 && s[0] == '.' {
        without_leading_dots(s.drop_first())
    } else {
        s
    }
}

/// Where the first `n` characters are dots and the next one is not, just
/// those `n` are removed.
proof fn lemma_without_leading_dots(s: Seq<char>, n: int)
    requires
        0 <= n <= s.len(),
        forall|k: int| 0 <= k < n ==> s[k] == '.',
        n == s.len() || s[n] != '.',
    ensures
        without_leading_dots(s) == s.skip(n),
    decreases s.len(),
{
    if n > 0 {
        let t = s.drop_first();
        assert forall|k: int| 0 <= k < n - 1 implies t[k] == '.' by {
            assert(t[k] == s[k + 1]);
        }
        lemma_without_leading_dots(t, n - 1);
        assert(t.skip(n - 1) == s.skip(n));
    } else {
        assert(s.skip(0) == s);
    }
}

/// One format as the filter holds it: without leading dots.
fn canonicalize_format(extension: &str) -> (s: String)
    ensures
        s@ == without_leading_dots(extension@),
{
    let chars = chars_of(extension);
    let mut n: usize = 0;
    while n < chars.len() && chars[n] == '.'
        invariant
            n <= chars.len(),
            forall|k: int| 0 <= k < n ==> chars@[k] == '.',
        decreases chars.len() - n,
    {
        n += 1;
    }
    proof {
        lemma_without_leading_dots(chars@, n as int);
        assert(chars@.subrange(n as int, chars.len() as int) == chars@.skip(n as int));
    }
    string_of(&chars, n, chars.len())
}

/// The formats as the filter holds them: each without its leading dots, in
/// the same order.
pub open spec fn canonical_formats(extensions: Seq<Seq<char>>) -> Seq<Seq<char>> {
    Seq::new(extensions.len(), |i: int| without_leading_dots(extensions[i]))
}

/// Takes the leading dots off each format.
pub fn canonicalize_formats(extensions: &[String]) -> (formats: Vec<String>)
    ensures
        formats.deep_view() == canonical_formats(extensions.deep_view()),
{
    let mut formats: Vec<String> = Vec::new();
    let mut i: usize = 0;
    while i < extensions.len()
        invariant
            i <= extensions.len(),
            formats.len() == i,
            forall|k: int|
                0 <= k < i ==> (#[trigger] formats@[k])@ == without_leading_dots(extensions@[k]@),
        decreases extensions.len() - i,
    {
        formats.push(canonicalize_format(extensions[i].as_str()));
        i += 1;
    }
    assert(formats.deep_view() =~= canonical_formats(extensions.deep_view()));
    formats
}

/// Copies a list of paths.
pub fn clone_paths(list: &Vec<FsPath>) -> (out: Vec<FsPath>)
    ensures
        out.deep_view() == list.deep_view(),
{
    let mut out: Vec<FsPath> = Vec::new();
    let mut i: usize = 0;
    while i < list.len()
        invariant
            i <= list.len(),
            out.len() == i,
            forall|k: int| 0 <= k < i ==> out@[k]@ == list@[k]@,
        decreases list.len() - i,
    {
        out.push(list[i].clone());
        i += 1;
    }
    assert(out.deep_view() =~= list.deep_view());
    out
}

} // verus!
