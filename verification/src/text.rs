//! Character-level text helpers shared by the Markdown analyses:
//! whitespace classification, trimming, line splitting.

use vstd::prelude::*;
use vstd::string::StrSliceExecFns;

verus! {

/// A character with the Unicode `White_Space` property, the set that
/// `str::trim` and friends strip.
pub open spec fn is_ws_char(c: char) -> bool {
    c == '\u{0009}' || c == '\u{000A}' || c == '\u{000B}' || c == '\u{000C}'
        || c == '\u{000D}' || c == '\u{0020}' || c == '\u{0085}' || c == '\u{00A0}'
        || c == '\u{1680}' || ('\u{2000}' <= c && c <= '\u{200A}') || c == '\u{2028}'
        || c == '\u{2029}' || c == '\u{202F}' || c == '\u{205F}' || c == '\u{3000}'
}

/// Executable test for `is_ws_char`.
pub fn ws_char(c: char) -> (r: bool)
    ensures
        r == is_ws_char(c),
{
    c == '\u{0009}' || c == '\u{000A}' || c == '\u{000B}' || c == '\u{000C}'
        || c == '\u{000D}' || c == '\u{0020}' || c == '\u{0085}' || c == '\u{00A0}'
        || c == '\u{1680}' || ('\u{2000}' <= c && c <= '\u{200A}') || c == '\u{2028}'
        || c == '\u{2029}' || c == '\u{202F}' || c == '\u{205F}' || c == '\u{3000}'
}

/// The suffix of `s` that remains after removing leading whitespace.
pub open spec fn trim_start_spec(s: Seq<char>) -> Seq<char>
    decreases s.len(),
{
    if s.len() > 0 && is_ws_char(s[0]) {
        trim_start_spec(s.drop_first())
    } else {
        s
    }
}

/// The prefix of `s` that remains after removing trailing whitespace.
pub open spec fn trim_end_spec(s: Seq<char>) -> Seq<char>
    decreases s.len(),
{
    if s.len() > 0 && is_ws_char(s[s.len() - 1]) {
        trim_end_spec(s.drop_last())
    } else {
        s
    }
}

/// `s` with whitespace removed from both ends, as `str::trim` leaves it.
pub open spec fn trim_spec(s: Seq<char>) -> Seq<char> {
    trim_end_spec(trim_start_spec(s))
}

proof fn lemma_trim_start_skips(s: Seq<char>, k: int)
    requires
        0 <= k <= s.len(),
        forall|i: int| 0 <= i < k ==> is_ws_char(s[i]),
        k < s.len() ==> !is_ws_char(s[k]),
    ensures
        trim_start_spec(s) == s.subrange(k, s.len() as int),
    decreases k,
{
    if k == 0 {
        if s.len() > 0 && is_ws_char(s[0]) {
            assert(false);
        }
        assert(s.subrange(0, s.len() as int) =~= s);
    } else {
        let t = s.drop_first();
        lemma_trim_start_skips(t, k - 1);
        assert(t.subrange(k - 1, t.len() as int) =~= s.subrange(k, s.len() as int));
    }
}

proof fn lemma_trim_end_skips(s: Seq<char>, k: int)
    requires
        0 <= k <= s.len(),
        forall|i: int| k <= i < s.len() ==> is_ws_char(s[i]),
        k > 0 ==> !is_ws_char(s[k - 1]),
    ensures
        trim_end_spec(s) == s.subrange(0, k),
    decreases s.len() - k,
{
    if k == s.len() {
        if s.len() > 0 && is_ws_char(s[s.len() - 1]) {
            assert(false);
        }
        assert(s.subrange(0, s.len() as int) =~= s);
    } else {
        let t = s.drop_last();
        lemma_trim_end_skips(t, k);
        assert(t.subrange(0, k) =~= s.subrange(0, k));
    }
}

/// `s.trim_start()`: drop leading whitespace.
pub fn trim_start_str(s: &str) -> (r: &str)
    ensures
        r@ == trim_start_spec(s@),
{
    let n = s.unicode_len();
    let mut k: usize = 0;
    while k < n && ws_char(s.get_char(k))
        invariant
            0 <= k <= n,
            n == s@.len(),
            forall|i: int| 0 <= i < k ==> is_ws_char(s@[i]),
        decreases n - k,
    {
        k = k + 1;
    }
    proof {
        lemma_trim_start_skips(s@, k as int);
    }
    s.substring_char(k, n)
}

/// `s.trim_end()`: drop trailing whitespace.
pub fn trim_end_str(s: &str) -> (r: &str)
    ensures
        r@ == trim_end_spec(s@),
{
    let n = s.unicode_len();
    let mut k: usize = n;
    while k > 0 && ws_char(s.get_char(k - 1))
        invariant
            0 <= k <= n,
            n == s@.len(),
            forall|i: int| k <= i < n ==> is_ws_char(s@[i]),
        decreases k,
    {
        k = k - 1;
    }
    proof {
        lemma_trim_end_skips(s@, k as int);
    }
    s.substring_char(0, k)
}

/// `s.trim()`: drop whitespace at both ends.
pub fn trim_str(s: &str) -> (r: &str)
    ensures
        r@ == trim_spec(s@),
{
    trim_end_str(trim_start_str(s))
}

/// The least index of `c` in `s` at or after `from`; `s.len()` when `c`
/// does not occur there.
pub open spec fn find_char_from(s: Seq<char>, c: char, from: int) -> int
    decreases s.len() - from,
{
    if from < 0 || from >= s.len() {
        s.len() as int
    } else if s[from] == c {
        from
    } else {
        find_char_from(s, c, from + 1)
    }
}

pub proof fn lemma_find_char_from(s: Seq<char>, c: char, from: int)
    requires
        0 <= from <= s.len(),
    ensures
        from <= find_char_from(s, c, from) <= s.len(),
        forall|i: int| from <= i < find_char_from(s, c, from) ==> s[i] != c,
        find_char_from(s, c, from) < s.len() ==> s[find_char_from(s, c, from)] == c,
    decreases s.len() - from,
{
    if from < s.len() && s[from] != c {
        lemma_find_char_from(s, c, from + 1);
    }
}

/// The least index `j >= from` where the two characters `a`, `b` stand
/// adjacent; `s.len()` when they do not occur there.
pub open spec fn find_pair_from(s: Seq<char>, a: char, b: char, from: int) -> int
    decreases s.len() - from,
{
    if from < 0 || from + 1 >= s.len() {
        s.len() as int
    } else if s[from] == a && s[from + 1] == b {
        from
    } else {
        find_pair_from(s, a, b, from + 1)
    }
}

pub proof fn lemma_find_pair_from(s: Seq<char>, a: char, b: char, from: int)
    requires
        0 <= from,
    ensures
        find_pair_from(s, a, b, from) <= s.len(),
        from <= s.len() ==> from <= find_pair_from(s, a, b, from),
        find_pair_from(s, a, b, from) < s.len() ==> find_pair_from(s, a, b, from) + 1 < s.len()
            && s[find_pair_from(s, a, b, from)] == a && s[find_pair_from(s, a, b, from) + 1] == b,
        forall|i: int|
            from <= i < find_pair_from(s, a, b, from) && i + 1 < s.len() ==> !(#[trigger] s[i] == a
                && s[i + 1] == b),
    decreases s.len() - from,
{
    if !(from + 1 >= s.len()) && !(s[from] == a && s[from + 1] == b) {
        lemma_find_pair_from(s, a, b, from + 1);
        assert forall|i: int|
            from <= i < find_pair_from(s, a, b, from) && i + 1 < s.len() implies !(#[trigger] s[i]
            == a && s[i + 1] == b) by {
            if i > from {
                assert(!(s[i] == a && s[i + 1] == b));
            }
        }
    }
}

/// The lines of `s`, split as `str::lines` splits them: at each `'\n'`,
/// with one `'\r'` dropped before the break, and with no empty final
/// line when `s` ends in `'\n'`.  `pos` is where the current line starts.
pub open spec fn lines_from(s: Seq<char>, pos: int) -> Seq<Seq<char>>
    decreases s.len() - pos,
        via lines_from_decreases
{
    if pos < 0 || pos >= s.len() {
        Seq::empty()
    } else {
        let j = find_char_from(s, '\n', pos);
        if j == s.len() {
            seq![s.subrange(pos, s.len() as int)]
        } else {
            let raw = s.subrange(pos, j);
            let line = if raw.len() > 0 && raw.last() == '\r' {
                raw.drop_last()
            } else {
                raw
            };
            seq![line] + lines_from(s, j + 1)
        }
    }
}

#[via_fn]
proof fn lines_from_decreases(s: Seq<char>, pos: int) {
    if 0 <= pos < s.len() {
        lemma_find_char_from(s, '\n', pos);
    }
}

/// The lines of `s`, as `str::lines` yields them.
pub open spec fn lines_of(s: Seq<char>) -> Seq<Seq<char>> {
    lines_from(s, 0)
}

/// The views of a sequence of string slices.
pub open spec fn str_views(v: Seq<&str>) -> Seq<Seq<char>> {
    Seq::new(v.len(), |i: int| v[i]@)
}

/// Split `s` into lines as `str::lines` does.
pub fn split_lines(s: &str) -> (r: Vec<&str>)
    ensures
        str_views(r@) == lines_of(s@),
{
    let n = s.unicode_len();
    let mut out: Vec<&str> = Vec::new();
    let mut pos: usize = 0;
    while pos < n
        invariant
            0 <= pos <= n,
            n == s@.len(),
            str_views(out@) + lines_from(s@, pos as int) == lines_of(s@),
        decreases n - pos,
    {
        let ghost start = pos as int;
        let mut j: usize = pos;
        while j < n && s.get_char(j) != '\n'
            invariant
                pos <= j <= n,
                n == s@.len(),
                find_char_from(s@, '\n', pos as int) == find_char_from(s@, '\n', j as int),
                forall|i: int| pos <= i < j ==> s@[i] != '\n',
            decreases n - j,
        {
            j = j + 1;
        }
        proof {
            lemma_find_char_from(s@, '\n', j as int);
            assert(find_char_from(s@, '\n', pos as int) == j as int);
        }
        let line: &str = if j < n {
            if j > pos && s.get_char(j - 1) == '\r' {
                s.substring_char(pos, j - 1)
            } else {
                s.substring_char(pos, j)
            }
        } else {
            s.substring_char(pos, n)
        };
        proof {
            let raw = s@.subrange(start, j as int);
            if j < n && j > pos && s@[j - 1] == '\r' {
                assert(raw.last() == '\r');
                assert(raw.drop_last() =~= s@.subrange(start, j - 1));
            } else if j < n {
                assert(raw.len() > 0 ==> raw.last() == s@[j - 1]);
            }
        }
        out.push(line);
        let old_pos = pos;
        if j < n {
            pos = j + 1;
        } else {
            pos = n;
        }
        proof {
            assert(str_views(out@) =~= str_views(out@.drop_last()) + seq![line@]);
            if find_char_from(s@, '\n', old_pos as int) == n as int {
                assert(lines_from(s@, old_pos as int) =~= seq![line@]);
                assert(lines_from(s@, pos as int) =~= Seq::<Seq<char>>::empty());
            } else {
                assert(lines_from(s@, old_pos as int) =~= seq![line@] + lines_from(
                    s@,
                    pos as int,
                ));
            }
            assert(str_views(out@) + lines_from(s@, pos as int) =~= lines_of(s@));
        }
    }
    out
}

} // verus!
