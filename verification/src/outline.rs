//! Outline extraction: scan a Markdown document for ATX headings and
//! nest the flat `(level, title)` list into a tree by level.

use vstd::prelude::*;
use vstd::string::StrSliceExecFns;
use crate::text::{lines_of, split_lines, str_views, trim_spec, trim_str};

verus! {

/// One heading of the document outline: its level (1 through 6), its
/// trimmed title, and the headings nested under it.
pub struct OutlineEntry {
    pub level: u8,
    pub title: String,
    pub children: Vec<OutlineEntry>,
}

/// The mathematical shape of an `OutlineEntry`.
pub ghost struct SpecOutline {
    pub level: int,
    pub title: Seq<char>,
    pub children: Seq<SpecOutline>,
}

impl OutlineEntry {
    /// The mathematical value of this entry.
    pub open spec fn view(self) -> SpecOutline
        decreases self,
    {
        SpecOutline {
            level: self.level as int,
            title: self.title@,
            children: Seq::new(
                self.children@.len(),
                |i: int|
                    if 0 <= i < self.children@.len() {
                        self.children@[i].view()
                    } else {
                        SpecOutline { level: 0, title: Seq::empty(), children: Seq::empty() }
                    },
            ),
        }
    }
}

/// The mathematical values of a sequence of entries.
pub open spec fn entries_view(s: Seq<OutlineEntry>) -> Seq<SpecOutline> {
    Seq::new(s.len(), |i: int| s[i].view())
}

/// The length of the run of `'#'` characters that opens `line`.
pub open spec fn hash_run(line: Seq<char>) -> int
    decreases line.len(),
{
    if line.len() > 0 && line[0] == '#' {
        1 + hash_run(line.drop_first())
    } else {
        0
    }
}

proof fn lemma_hash_run(line: Seq<char>)
    ensures
        0 <= hash_run(line) <= line.len(),
        forall|i: int| 0 <= i < hash_run(line) ==> line[i] == '#',
        hash_run(line) < line.len() ==> line[hash_run(line)] != '#',
    decreases line.len(),
{
    if line.len() > 0 && line[0] == '#' {
        lemma_hash_run(line.drop_first());
        assert forall|i: int| 0 <= i < hash_run(line) implies line[i] == '#' by {
            if i > 0 {
                assert(line.drop_first()[i - 1] == '#');
            }
        }
    }
}

/// The heading that the outline scan reads from `line`, if any.
///
/// A run of two to six `'#'` characters opens a heading outright; a run
/// of seven or more is read as level six with the extra characters left
/// in the title; a single `'#'` opens a heading only when followed by a
/// space or the end of the line.  The title is the rest of the line,
/// trimmed at both ends.
pub open spec fn outline_heading(line: Seq<char>) -> Option<(u8, Seq<char>)> {
    let m = hash_run(line);
    if m == 0 {
        None
    } else if m >= 6 {
        Some((6u8, trim_spec(line.subrange(6, line.len() as int))))
    } else if m >= 2 {
        Some((m as u8, trim_spec(line.subrange(m, line.len() as int))))
    } else if line.len() == 1 || line[1] == ' ' {
        Some((1u8, trim_spec(line.subrange(1, line.len() as int))))
    } else {
        None
    }
}

/// The flat `(level, title)` list of headings among `lines[i..]`.
pub open spec fn headings_from(lines: Seq<Seq<char>>, i: int) -> Seq<(u8, Seq<char>)>
    decreases lines.len() - i,
{
    if i < 0 || i >= lines.len() {
        Seq::empty()
    } else {
        match outline_heading(lines[i]) {
            Some(h) => seq![h] + headings_from(lines, i + 1),
            None => headings_from(lines, i + 1),
        }
    }
}

/// The views of a flat heading list.
pub open spec fn flat_views(v: Seq<(u8, String)>) -> Seq<(u8, Seq<char>)> {
    Seq::new(v.len(), |i: int| (v[i].0, v[i].1@))
}

/// The least index in `[from, hi)` whose entry is at level `depth` or
/// shallower; `hi` when there is none.
pub open spec fn skip_deeper(flat: Seq<(u8, Seq<char>)>, depth: int, from: int, hi: int) -> int
    decreases hi - from,
{
    if from < 0 || from >= hi || hi > flat.len() {
        hi
    } else if flat[from].0 as int <= depth {
        from
    } else {
        skip_deeper(flat, depth, from + 1, hi)
    }
}

proof fn lemma_skip_deeper(flat: Seq<(u8, Seq<char>)>, depth: int, from: int, hi: int)
    requires
        0 <= from <= hi <= flat.len(),
    ensures
        from <= skip_deeper(flat, depth, from, hi) <= hi,
        forall|i: int| from <= i < skip_deeper(flat, depth, from, hi) ==> flat[i].0 as int > depth,
        skip_deeper(flat, depth, from, hi) < hi ==> flat[skip_deeper(flat, depth, from, hi)].0
            as int <= depth,
    decreases hi - from,
{
    if from < hi && flat[from].0 as int > depth {
        lemma_skip_deeper(flat, depth, from + 1, hi);
    }
}

/// The nesting of the flat list `flat[lo..hi]` at `depth`: each entry at
/// exactly `depth` becomes a node owning the contiguous run of deeper
/// entries after it; deeper entries with no opener are skipped; the scan
/// stops at the first entry shallower than `depth`.
pub open spec fn nest_spec(flat: Seq<(u8, Seq<char>)>, depth: int, lo: int, hi: int) -> Seq<
    SpecOutline,
>
    decreases hi - lo,
        via nest_spec_decreases
{
    if lo < 0 || lo >= hi || hi > flat.len() {
        Seq::empty()
    } else if flat[lo].0 as int == depth {
        let j = skip_deeper(flat, depth, lo + 1, hi);
        seq![
            SpecOutline {
                level: depth,
                title: flat[lo].1,
                children: nest_spec(flat, depth + 1, lo + 1, j),
            },
        ] + nest_spec(flat, depth, j, hi)
    } else if flat[lo].0 as int > depth {
        nest_spec(flat, depth, lo + 1, hi)
    } else {
        Seq::empty()
    }
}

#[via_fn]
proof fn nest_spec_decreases(flat: Seq<(u8, Seq<char>)>, depth: int, lo: int, hi: int) {
    if 0 <= lo < hi <= flat.len() {
        lemma_skip_deeper(flat, depth, lo + 1, hi);
    }
}

/// The outline of a whole document: its headings, nested starting at
/// level one.
pub open spec fn outline_spec(text: Seq<char>) -> Seq<SpecOutline> {
    let flat = headings_from(lines_of(text), 0);
    nest_spec(flat, 1, 0, flat.len() as int)
}

/// Nest `flat[lo..hi]` at `depth`.  The depth is a `usize` so that the
/// descent below a level-255 entry stays in range; past level 255 every
/// entry is shallower than `depth` and the scan yields nothing more.
fn nest_in(flat: &[(u8, String)], depth: usize, lo: usize, hi: usize) -> (r: Vec<OutlineEntry>)
    requires
        lo <= hi <= flat@.len(),
        depth <= 256,
    ensures
        entries_view(r@) == nest_spec(flat_views(flat@), depth as int, lo as int, hi as int),
    decreases hi - lo,
{
    let ghost fv = flat_views(flat@);
    let mut result: Vec<OutlineEntry> = Vec::new();
    if lo >= hi {
        assert(entries_view(result@) =~= nest_spec(fv, depth as int, lo as int, hi as int));
        return result;
    }
    let lvl = flat[lo].0 as usize;
    if lvl == depth {
        // collect the children: the run of deeper entries after this one
        let mut j: usize = lo + 1;
        while j < hi && flat[j].0 as usize > depth
            invariant
                lo + 1 <= j <= hi <= flat@.len(),
                fv == flat_views(flat@),
                skip_deeper(fv, depth as int, lo + 1, hi as int) == skip_deeper(
                    fv,
                    depth as int,
                    j as int,
                    hi as int,
                ),
            decreases hi - j,
        {
            j = j + 1;
        }
        proof {
            lemma_skip_deeper(fv, depth as int, j as int, hi as int);
            assert(skip_deeper(fv, depth as int, lo + 1, hi as int) == j as int);
        }
        let children = nest_in(flat, depth + 1, lo + 1, j);
        let level_u8 = flat[lo].0;
        let node = OutlineEntry { level: level_u8, title: flat[lo].1.clone(), children };
        proof {
            assert(node.view().children =~= entries_view(node.children@));
        }
        result.push(node);
        let mut rest = nest_in(flat, depth, j, hi);
        let ghost rest0 = rest@;
        result.append(&mut rest);
        proof {
            assert(result@ =~= seq![node] + rest0);
            assert forall|i: int| 0 <= i < result@.len() implies entries_view(result@)[i] == (
            seq![node.view()] + entries_view(rest0))[i] by {
                if i == 0 {
                    assert(result@[0] == node);
                } else {
                    assert(result@[i] == rest0[i - 1]);
                }
            }
            assert(entries_view(result@) =~= seq![node.view()] + entries_view(rest0));
        }
        result
    } else if lvl > depth {
        let r = nest_in(flat, depth, lo + 1, hi);
        r
    } else {
        assert(entries_view(result@) =~= nest_spec(fv, depth as int, lo as int, hi as int));
        result
    }
}

/// Nest a flat `(level, title)` list into a tree, starting at `depth`.
///
/// Each entry at exactly `depth` becomes a node; the contiguous run of
/// deeper entries after it becomes its children, nested at `depth + 1`;
/// deeper entries with no opener at `depth` are skipped; the scan stops
/// at the first entry shallower than `depth`.
pub fn nest_entries(flat: &[(u8, String)], depth: u8) -> (r: Vec<OutlineEntry>)
    ensures
        entries_view(r@) == nest_spec(flat_views(flat@), depth as int, 0, flat@.len() as int),
{
    nest_in(flat, depth as usize, 0, flat.len())
}

/// Read the `(level, title)` pair of one line, if the outline scan
/// counts it as a heading.
fn heading_of_line(line: &str) -> (r: Option<(u8, String)>)
    ensures
        match r {
            Some(h) => outline_heading(line@) == Some((h.0, h.1@)),
            None => outline_heading(line@) is None,
        },
{
    let n = line.unicode_len();
    let mut m: usize = 0;
    while m < n && line.get_char(m) == '#'
        invariant
            0 <= m <= n,
            n == line@.len(),
            forall|i: int| 0 <= i < m ==> line@[i] == '#',
        decreases n - m,
    {
        m = m + 1;
    }
    proof {
        lemma_hash_run(line@);
        if hash_run(line@) < m as int {
            assert(line@[hash_run(line@)] == '#');
        }
        if hash_run(line@) > m as int {
            assert(line@[m as int] == '#');
        }
        assert(hash_run(line@) == m as int);
    }
    if m == 0 {
        None
    } else if m >= 6 {
        let title = trim_str(line.substring_char(6, n));
        Some((6, title.to_owned()))
    } else if m >= 2 {
        let title = trim_str(line.substring_char(m, n));
        Some((m as u8, title.to_owned()))
    } else if n == 1 || line.get_char(1) == ' ' {
        let title = trim_str(line.substring_char(1, n));
        Some((1, title.to_owned()))
    } else {
        None
    }
}

/// Parse the Markdown headings of `text` into a flat list, then nest
/// them into an outline tree.  Total: any text, including one with no
/// headings at all, yields a (possibly empty) outline.
pub fn parse_outline(text: &str) -> (r: Vec<OutlineEntry>)
    ensures
        entries_view(r@) == outline_spec(text@),
{
    let lines = split_lines(text);
    let ghost lv = str_views(lines@);
    let mut entries: Vec<(u8, String)> = Vec::new();
    let mut i: usize = 0;
    while i < lines.len()
        invariant
            0 <= i <= lines@.len(),
            lv == str_views(lines@),
            flat_views(entries@) + headings_from(lv, i as int) == headings_from(lv, 0),
        decreases lines@.len() - i,
    {
        let line = lines[i];
        assert(line@ == lv[i as int]);
        match heading_of_line(line) {
            Some(h) => {
                entries.push(h);
                proof {
                    assert(flat_views(entries@) =~= flat_views(entries@.drop_last()) + seq![
                        (entries@.last().0, entries@.last().1@),
                    ]);
                }
            },
            None => {},
        }
        i = i + 1;
        proof {
            assert(flat_views(entries@) + headings_from(lv, i as int) =~= headings_from(lv, 0));
        }
    }
    assert(headings_from(lv, lines@.len() as int) =~= Seq::<(u8, Seq<char>)>::empty());
    assert(flat_views(entries@) =~= headings_from(lv, 0));
    nest_entries(entries.as_slice(), 1)
}

/// Well-formedness of an outline node nested at `depth`: the node
/// carries exactly that level, and its children are well-formed one
/// level deeper.
pub open spec fn outline_wf(e: SpecOutline, depth: int) -> bool
    decreases e,
{
    &&& e.level == depth
    &&& forall|i: int| 0 <= i < e.children.len() ==> outline_wf(#[trigger] e.children[i], depth + 1)
}

proof fn lemma_nest_wf(flat: Seq<(u8, Seq<char>)>, depth: int, lo: int, hi: int)
    ensures
        forall|k: int|
            0 <= k < nest_spec(flat, depth, lo, hi).len() ==> outline_wf(
                #[trigger] nest_spec(flat, depth, lo, hi)[k],
                depth,
            ),
    decreases hi - lo,
{
    if lo < 0 || lo >= hi || hi > flat.len() {
    } else if flat[lo].0 as int == depth {
        let j = skip_deeper(flat, depth, lo + 1, hi);
        lemma_skip_deeper(flat, depth, lo + 1, hi);
        lemma_nest_wf(flat, depth + 1, lo + 1, j);
        lemma_nest_wf(flat, depth, j, hi);
        let node = SpecOutline {
            level: depth,
            title: flat[lo].1,
            children: nest_spec(flat, depth + 1, lo + 1, j),
        };
        assert(outline_wf(node, depth));
        assert forall|k: int|
            0 <= k < nest_spec(flat, depth, lo, hi).len() implies outline_wf(
            #[trigger] nest_spec(flat, depth, lo, hi)[k],
            depth,
        ) by {
            if k == 0 {
                assert(nest_spec(flat, depth, lo, hi)[0] == node);
            } else {
                assert(nest_spec(flat, depth, lo, hi)[k] == nest_spec(flat, depth, j, hi)[k - 1]);
            }
        }
    } else if flat[lo].0 as int > depth {
        lemma_nest_wf(flat, depth, lo + 1, hi);
        assert(nest_spec(flat, depth, lo, hi) == nest_spec(flat, depth, lo + 1, hi));
    }
}

/// The levels of a parsed outline follow its shape: every root is at
/// level one, and every node's children sit exactly one level below it.
pub proof fn lemma_outline_levels(text: Seq<char>)
    ensures
        forall|k: int|
            0 <= k < outline_spec(text).len() ==> outline_wf(#[trigger] outline_spec(text)[k], 1),
{
    let flat = headings_from(lines_of(text), 0);
    lemma_nest_wf(flat, 1, 0, flat.len() as int);
}

} // verus!
