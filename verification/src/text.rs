//! Character-level helpers shared by the path and marker-file parsers.

use vstd::prelude::*;

verus! {

/// Position of the first `c` in `s`, or `s.len()` where `s` holds none.
pub open spec fn first_index(s: Seq<char>, c: char) -> int
    decreases s.len(),
{
    if s.len() == 0 || s[0] == c {
        0
    } else {
        1 + first_index(s.drop_first(), c)
    }
}

/// Position of the last `c` in `s`, or `-1` where `s` holds none.
pub open spec fn last_index(s: Seq<char>, c: char) -> int
    decreases s.len(),
{
    if s.len() == 0 {
        -1
    } else if s.last() == c {
        s.len() - 1
    } else {
        last_index(s.drop_last(), c)
    }
}

/// `first_index` is the one position before which no `c` stands and at
/// which `s` ends or holds `c`.
pub proof fn lemma_first_index(s: Seq<char>, c: char, n: int)
    requires
        0 <= n <= s.len(),
        forall|k: int| 0 <= k < n ==> s[k] != c,
        n == s.len() || s[n] == c,
    ensures
        first_index(s, c) == n,
    decreases s.len(),
{
    if n > 0 {
        let t = s.drop_first();
        assert forall|k: int| 0 <= k < n - 1 implies t[k] != c by {
            assert(t[k] == s[k + 1]);
        }
        lemma_first_index(t, c, n - 1);
    }
}

/// `first_index` lies within the sequence or at its end, and no `c` stands
/// before it.
pub proof fn lemma_first_index_bounds(s: Seq<char>, c: char)
    ensures
        0 <= first_index(s, c) <= s.len(),
        forall|k: int| 0 <= k < first_index(s, c) ==> s[k] != c,
        first_index(s, c) < s.len() ==> s[first_index(s, c)] == c,
    decreases s.len(),
{
    if s.len() == 0 || s[0] == c {
    } else {
        let t = s.drop_first();
        lemma_first_index_bounds(t, c);
        assert forall|k: int| 0 <= k < first_index(s, c) implies s[k] != c by {
            if k > 0 {
                assert(s[k] == t[k - 1]);
            }
        }
    }
}

/// `last_index` is the one position after which no `c` stands and which
/// is `-1` or holds `c`.
pub proof fn lemma_last_index(s: Seq<char>, c: char, n: int)
    requires
        -1 <= n < s.len(),
        forall|k: int| n < k < s.len() ==> s[k] != c,
        n == -1 || s[n] == c,
    ensures
        last_index(s, c) == n,
    decreases s.len(),
{
    if s.len() > 0 && n < s.len() - 1 {
        let t = s.drop_last();
        assert forall|k: int| n < k < t.len() implies t[k] != c by {
            assert(t[k] == s[k]);
        }
        lemma_last_index(t, c, n);
    }
}

/// Copies the characters of `s` into a vector, in order.
pub fn chars_of(s: &str) -> (v: Vec<char>)
    ensures
        v@ == s@,
{
    let mut v: Vec<char> = Vec::new();
    for c in iter: s.chars()
        invariant
            v@ == iter.seq().take(iter.index()),
            iter.seq() == s@,
    {
        v.push(c);
    }
    v
}

/// `String::push`: the character is appended at the end of the string and
/// nothing else changes.
#[verifier::external_body]
fn push_char(s: &mut String, c: char)
    ensures
        final(s)@ == old(s)@.push(c),
{
    s.push(c)
}

/// Builds the string that holds `chars[from..to]`.
pub fn string_of(chars: &Vec<char>, from: usize, to: usize) -> (s: String)
    requires
        from <= to <= chars.len(),
    ensures
        s@ == chars@.subrange(from as int, to as int),
{
    let mut s = String::new();
    let mut i: usize = from;
    while i < to
        invariant
            from <= i <= to <= chars.len(),
            s@ == chars@.subrange(from as int, i as int),
        decreases to - i,
    {
        push_char(&mut s, chars[i]);
        i += 1;
        assert(s@ =~= chars@.subrange(from as int, i as int));
    }
    s
}

/// Finds the first `c` in `chars[from..to]`; the result is `to` where that
/// range holds none.
pub fn find_char(chars: &Vec<char>, from: usize, to: usize, c: char) -> (j: usize)
    requires
        from <= to <= chars.len(),
    ensures
        from <= j <= to,
        j - from == first_index(chars@.subrange(from as int, to as int), c),
{
    let mut j: usize = from;
    while j < to && chars[j] != c
        invariant
            from <= j <= to <= chars.len(),
            forall|k: int| from <= k < j ==> chars@[k] != c,
        decreases to - j,
    {
        j += 1;
    }
    proof {
        lemma_first_index(chars@.subrange(from as int, to as int), c, j - from);
    }
    j
}

/// Finds the last `c` in `chars`; `None` where it holds none.
pub fn rfind_char(chars: &Vec<char>, c: char) -> (r: Option<usize>)
    ensures
        match r {
            Some(j) => j < chars.len() && j == last_index(chars@, c),
            None => last_index(chars@, c) == -1,
        },
{
    let mut j: usize = chars.len();
    while j > 0 && chars[j - 1] != c
        invariant
            j <= chars.len(),
            forall|k: int| j <= k < chars.len() ==> chars@[k] != c,
        decreases j,
    {
        j -= 1;
    }
    proof {
        lemma_last_index(chars@, c, j - 1);
    }
    if j == 0 {
        None
    } else {
        Some(j - 1)
    }
}

/// Whether `c` is white space to `char::is_whitespace`, which goes by
/// Unicode's `White_Space`. Which characters that holds is not stated here.
pub uninterp spec fn is_whitespace(c: char) -> bool;

/// `char::is_whitespace`: the answer depends on the character alone.
#[verifier::external_body]
fn char_is_whitespace(c: char) -> (b: bool)
    ensures
        b == is_whitespace(c),
{
    c.is_whitespace()
}

/// Whether `c` is blank. Among the ASCII characters the blank ones are the
/// space and the five from tab to carriage return. Beyond ASCII a
/// character is blank when it is white space.
pub open spec fn is_blank(c: char) -> bool {
    if c as u32 <= 0x7f {
        c == ' ' || c == '\t' || c == '\n' || c == '\x0b' || c == '\x0c' || c == '\r'
    } else {
        is_whitespace(c)
    }
}

/// Whether `c` is blank.
pub fn char_is_blank(c: char) -> (b: bool)
    ensures
        b == is_blank(c),
{
    if c as u32 <= 0x7f {
        c == ' ' || c == '\t' || c == '\n' || c == '\x0b' || c == '\x0c' || c == '\r'
    } else {
        char_is_whitespace(c)
    }
}

/// For each character of `s`, whether it is blank.
pub open spec fn blanks_of(s: Seq<char>) -> Seq<bool> {
    Seq::new(s.len(), |i: int| is_blank(s[i]))
}

/// Says of each character whether it is blank.
pub fn blanks(chars: &Vec<char>) -> (blank: Vec<bool>)
    ensures
        blank@ == blanks_of(chars@),
{
    let mut blank: Vec<bool> = Vec::new();
    let mut i: usize = 0;
    while i < chars.len()
        invariant
            i <= chars.len(),
            blank.len() == i,
            forall|k: int| 0 <= k < i ==> blank@[k] == is_blank(chars@[k]),
        decreases chars.len() - i,
    {
        blank.push(char_is_blank(chars[i]));
        i += 1;
    }
    assert(blank@ =~= blanks_of(chars@));
    blank
}

/// How many flags are set at the start of `blank`, up to the first that is
/// not.
pub open spec fn leading(blank: Seq<bool>) -> int
    decreases blank.len(),
{
    if blank.len() > 0 && blank[0] {
        1 + leading(blank.drop_first())
    } else {
        0
    }
}

/// How many flags are set at the end of `blank`, back to the last that is
/// not.
pub open spec fn trailing(blank: Seq<bool>) -> int
    decreases blank.len(),
{
    if blank.len() > 0 && blank.last() {
        1 + trailing(blank.drop_last())
    } else {
        0
    }
}

/// `s` without the blank characters at its start and at its end, where
/// `blank` says of each character of `s` whether it is blank.
pub open spec fn trimmed_with(s: Seq<char>, blank: Seq<bool>) -> Seq<char> {
    let a = leading(blank);
    let b = blank.len() - trailing(blank.skip(a));
    s.subrange(a, b)
}

/// Where the first `n` flags are set and the next one is not, `leading` is
/// `n`.
pub proof fn lemma_leading(blank: Seq<bool>, n: int)
    requires
        0 <= n <= blank.len(),
        forall|k: int| 0 <= k < n ==> blank[k],
        n == blank.len() || !blank[n],
    ensures
        leading(blank) == n,
    decreases blank.len(),
{
    if n > 0 {
        let t = blank.drop_first();
        assert forall|k: int| 0 <= k < n - 1 implies t[k] by {
            assert(t[k] == blank[k + 1]);
        }
        lemma_leading(t, n - 1);
    }
}

/// Where the last `n` flags are set and the one before them is not,
/// `trailing` is `n`.
pub proof fn lemma_trailing(blank: Seq<bool>, n: int)
    requires
        0 <= n <= blank.len(),
        forall|k: int| blank.len() - n <= k < blank.len() ==> blank[k],
        n == blank.len() || !blank[blank.len() - n - 1],
    ensures
        trailing(blank) == n,
    decreases blank.len(),
{
    if n > 0 {
        let t = blank.drop_last();
        assert forall|k: int| t.len() - (n - 1) <= k < t.len() implies t[k] by {
            assert(t[k] == blank[k]);
        }
        lemma_trailing(t, n - 1);
    }
}

/// Finds the part of `chars[from..to]` that is left when the blank
/// characters at both ends are taken away. `blank` says of each character
/// whether it is blank.
pub fn trim_range(chars: &Vec<char>, blank: &Vec<bool>, from: usize, to: usize) -> (r: (
    usize,
    usize,
))
    requires
        from <= to <= chars.len(),
        blank.len() == chars.len(),
    ensures
        from <= r.0 <= r.1 <= to,
        chars@.subrange(r.0 as int, r.1 as int) == trimmed_with(
            chars@.subrange(from as int, to as int),
            blank@.subrange(from as int, to as int),
        ),
{
    let mut a: usize = from;
    while a < to && blank[a]
        invariant
            from <= a <= to <= blank.len(),
            forall|k: int| from <= k < a ==> blank@[k],
        decreases to - a,
    {
        a += 1;
    }
    let mut b: usize = to;
    while b > a && blank[b - 1]
        invariant
            a <= b <= to <= blank.len(),
            forall|k: int| b <= k < to ==> blank@[k],
        decreases b,
    {
        b -= 1;
    }
    proof {
        let line = chars@.subrange(from as int, to as int);
        let flags = blank@.subrange(from as int, to as int);
        lemma_leading(flags, a - from);
        let tail = flags.skip(a - from);
        assert(tail =~= blank@.subrange(a as int, to as int));
        lemma_trailing(tail, to - b);
        assert(line.subrange(a - from, flags.len() - (to - b)) =~= chars@.subrange(
            a as int,
            b as int,
        ));
    }
    (a, b)
}

} // verus!
