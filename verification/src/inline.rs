//! Inline-span tokenizing: one line of text becomes an ordered sequence
//! of styled runs (plain, bold, italic, inline code).
//!
//! The scan walks the line left to right.  `**...**` becomes a bold run;
//! an unmatched `**` stays in the output as the two literal characters.
//! `` `...` `` becomes a code run and, unterminated, consumes the rest of
//! the line; a single `*...*` becomes an italic run with the same
//! end-of-line behaviour.  Everything else accumulates into plain runs.
//! Markers never appear in the output, except the unmatched `**`.

use vstd::prelude::*;
use vstd::string::StrSliceExecFns;
use vstd::string::StringExecFns;
use crate::text::{find_char_from, find_pair_from, lemma_find_char_from, lemma_find_pair_from};

verus! {

/// The presentation style of one run of text.
#[derive(Clone, Copy, Debug, PartialEq, Eq, Structural)]
pub enum RunStyle {
    Plain,
    Bold,
    Italic,
    Code,
}

/// A contiguous span of text under a single style.
pub struct StyledRun {
    pub style: RunStyle,
    pub text: String,
}

/// The mathematical value of a `StyledRun`.
pub ghost struct SpecRun {
    pub style: RunStyle,
    pub text: Seq<char>,
}

/// The mathematical values of a sequence of runs.
pub open spec fn run_views(s: Seq<StyledRun>) -> Seq<SpecRun> {
    Seq::new(s.len(), |i: int| SpecRun { style: s[i].style, text: s[i].text@ })
}

/// One run of `style` over `t`, or nothing when `t` is empty: the scan
/// never emits an empty run.
pub open spec fn maybe_run(style: RunStyle, t: Seq<char>) -> Seq<SpecRun> {
    if t.len() > 0 {
        seq![SpecRun { style, text: t }]
    } else {
        Seq::empty()
    }
}

/// The runs that the scan emits from position `i` on, with `plain` the
/// text accumulated since the last marker.
pub open spec fn scan(s: Seq<char>, i: int, plain: Seq<char>) -> Seq<SpecRun>
    decreases s.len() - i,
        via scan_decreases
{
    if i < 0 || i >= s.len() {
        maybe_run(RunStyle::Plain, plain)
    } else if s[i] == '*' && i + 1 < s.len() && s[i + 1] == '*' {
        let j = find_pair_from(s, '*', '*', i + 2);
        if j < s.len() {
            maybe_run(RunStyle::Plain, plain) + maybe_run(RunStyle::Bold, s.subrange(i + 2, j))
                + scan(s, j + 2, Seq::empty())
        } else {
            maybe_run(RunStyle::Plain, plain) + seq![
                SpecRun { style: RunStyle::Plain, text: seq!['*', '*'] },
            ] + scan(s, i + 2, Seq::empty())
        }
    } else if s[i] == '`' {
        let j = find_char_from(s, '`', i + 1);
        maybe_run(RunStyle::Plain, plain) + maybe_run(RunStyle::Code, s.subrange(i + 1, j)) + scan(
            s,
            if j < s.len() {
                j + 1
            } else {
                j
            },
            Seq::empty(),
        )
    } else if s[i] == '*' {
        let j = find_char_from(s, '*', i + 1);
        maybe_run(RunStyle::Plain, plain) + maybe_run(RunStyle::Italic, s.subrange(i + 1, j))
            + scan(
            s,
            if j < s.len() {
                j + 1
            } else {
                j
            },
            Seq::empty(),
        )
    } else {
        scan(s, i + 1, plain.push(s[i]))
    }
}

#[via_fn]
proof fn scan_decreases(s: Seq<char>, i: int, plain: Seq<char>) {
    if 0 <= i < s.len() {
        lemma_find_pair_from(s, '*', '*', i + 2);
        lemma_find_char_from(s, '`', i + 1);
        lemma_find_char_from(s, '*', i + 1);
    }
}

/// The styled runs of one line of text.
pub open spec fn tokenize_spec(s: Seq<char>) -> Seq<SpecRun> {
    scan(s, 0, Seq::empty())
}

proof fn lemma_scan_no_markers(s: Seq<char>, i: int, plain: Seq<char>)
    requires
        0 <= i <= s.len(),
        forall|k: int| i <= k < s.len() ==> s[k] != '*' && s[k] != '`',
    ensures
        scan(s, i, plain) == maybe_run(RunStyle::Plain, plain + s.subrange(i, s.len() as int)),
    decreases s.len() - i,
{
    if i >= s.len() {
        assert(plain + s.subrange(i, s.len() as int) =~= plain);
    } else {
        lemma_scan_no_markers(s, i + 1, plain.push(s[i]));
        assert(plain.push(s[i]) + s.subrange(i + 1, s.len() as int) =~= plain + s.subrange(
            i,
            s.len() as int,
        ));
    }
}

/// Tokenizing a line with no markup round-trips it unchanged: text that
/// holds neither `'*'` nor a backtick, and is not empty, yields exactly
/// one plain run whose text is the whole line.  (The empty line yields
/// no run at all.)
pub proof fn lemma_tokenize_plain_round_trip(s: Seq<char>)
    requires
        s.len() > 0,
        forall|k: int| 0 <= k < s.len() ==> s[k] != '*' && s[k] != '`',
    ensures
        tokenize_spec(s) == seq![SpecRun { style: RunStyle::Plain, text: s }],
{
    lemma_scan_no_markers(s, 0, Seq::empty());
    assert(Seq::<char>::empty() + s.subrange(0, s.len() as int) =~= s);
}

proof fn lemma_scan_runs_nonempty(s: Seq<char>, i: int, plain: Seq<char>)
    ensures
        forall|k: int|
            0 <= k < scan(s, i, plain).len() ==> #[trigger] scan(s, i, plain)[k].text.len() > 0,
    decreases s.len() - i,
{
    if i < 0 || i >= s.len() {
    } else if s[i] == '*' && i + 1 < s.len() && s[i + 1] == '*' {
        let j = find_pair_from(s, '*', '*', i + 2);
        lemma_find_pair_from(s, '*', '*', i + 2);
        if j < s.len() {
            lemma_scan_runs_nonempty(s, j + 2, Seq::empty());
        } else {
            lemma_scan_runs_nonempty(s, i + 2, Seq::empty());
        }
    } else if s[i] == '`' {
        let j = find_char_from(s, '`', i + 1);
        lemma_find_char_from(s, '`', i + 1);
        lemma_scan_runs_nonempty(
            s,
            if j < s.len() {
                j + 1
            } else {
                j
            },
            Seq::empty(),
        );
    } else if s[i] == '*' {
        let j = find_char_from(s, '*', i + 1);
        lemma_find_char_from(s, '*', i + 1);
        lemma_scan_runs_nonempty(
            s,
            if j < s.len() {
                j + 1
            } else {
                j
            },
            Seq::empty(),
        );
    } else {
        lemma_scan_runs_nonempty(s, i + 1, plain.push(s[i]));
    }
}

/// The tokenizer never emits an empty run: every styled run of any
/// line holds at least one character.
pub proof fn lemma_runs_nonempty(s: Seq<char>)
    ensures
        forall|k: int|
            0 <= k < tokenize_spec(s).len() ==> #[trigger] tokenize_spec(s)[k].text.len() > 0,
{
    lemma_scan_runs_nonempty(s, 0, Seq::empty());
}

/// Push one run of `style` over `text[from..to]`, unless that span is
/// empty.
fn push_run(runs: &mut Vec<StyledRun>, style: RunStyle, text: &str, from: usize, to: usize)
    requires
        from <= to <= text@.len(),
    ensures
        run_views(final(runs)@) == run_views(old(runs)@) + maybe_run(
            style,
            text@.subrange(from as int, to as int),
        ),
{
    if from < to {
        let t = text.substring_char(from, to).to_owned();
        runs.push(StyledRun { style, text: t });
        proof {
            assert(run_views(runs@) =~= run_views(runs@.drop_last()) + maybe_run(
                style,
                text@.subrange(from as int, to as int),
            ));
        }
    } else {
        proof {
            assert(text@.subrange(from as int, to as int) =~= Seq::<char>::empty());
            assert(run_views(runs@) =~= run_views(runs@) + maybe_run(
                style,
                text@.subrange(from as int, to as int),
            ));
        }
    }
}

/// Tokenize one line of text into styled runs.  Total: any line,
/// including one with unbalanced markers or multi-byte characters,
/// yields a well-defined run sequence.
pub fn tokenize_inline(text: &str) -> (runs: Vec<StyledRun>)
    ensures
        run_views(runs@) == tokenize_spec(text@),
{
    let n = text.unicode_len();
    let mut runs: Vec<StyledRun> = Vec::new();

    // fast path: text with no marker is one plain run, by the
    // round-trip law
    let mut has_marker = false;
    let mut k: usize = 0;
    while k < n
        invariant
            0 <= k <= n,
            n == text@.len(),
            has_marker == exists|j: int| 0 <= j < k && (#[trigger] text@[j] == '*' || text@[j] == '`'),
        decreases n - k,
    {
        let c = text.get_char(k);
        if c == '*' || c == '`' {
            has_marker = true;
            proof {
                assert(text@[k as int] == '*' || text@[k as int] == '`');
            }
        }
        k = k + 1;
    }
    if !has_marker {
        if n > 0 {
            proof {
                lemma_tokenize_plain_round_trip(text@);
                assert(text@.subrange(0, n as int) =~= text@);
            }
            let whole = text.substring_char(0, n).to_owned();
            runs.push(StyledRun { style: RunStyle::Plain, text: whole });
            proof {
                assert(run_views(runs@) =~= tokenize_spec(text@));
            }
        } else {
            proof {
                assert(run_views(runs@) =~= tokenize_spec(text@));
            }
        }
        return runs;
    }

    let mut i: usize = 0;
    let mut plain_start: usize = 0;
    proof {
        assert(text@.subrange(0, 0) =~= Seq::<char>::empty());
        assert(run_views(runs@) =~= Seq::<SpecRun>::empty());
        assert(run_views(runs@) + scan(text@, 0, text@.subrange(0, 0)) =~= tokenize_spec(text@));
    }
    while i < n
        invariant
            plain_start <= i <= n,
            n == text@.len(),
            run_views(runs@) + scan(
                text@,
                i as int,
                text@.subrange(plain_start as int, i as int),
            ) == tokenize_spec(text@),
        decreases n - i,
    {
        let ghost s = text@;
        let ghost i0 = i as int;
        let ghost plain = s.subrange(plain_start as int, i0);
        let c = text.get_char(i);
        if c == '*' && i + 1 < n && text.get_char(i + 1) == '*' {
            // bold: search for the closing marker pair
            let mut j: usize = i + 2;
            while n - j > 1 && !(text.get_char(j) == '*' && text.get_char(j + 1) == '*')
                invariant
                    i + 2 <= j <= n,
                    n == s.len(),
                    s == text@,
                    find_pair_from(s, '*', '*', i0 + 2) == find_pair_from(s, '*', '*', j as int),
                decreases n - j,
            {
                j = j + 1;
            }
            let found = n - j > 1;
            proof {
                if found {
                    assert(find_pair_from(s, '*', '*', j as int) == j as int);
                } else {
                    assert(find_pair_from(s, '*', '*', j as int) == s.len() as int);
                }
                assert(find_pair_from(s, '*', '*', i0 + 2) == if found {
                    j as int
                } else {
                    s.len() as int
                });
            }
            push_run(&mut runs, RunStyle::Plain, text, plain_start, i);
            if found {
                push_run(&mut runs, RunStyle::Bold, text, i + 2, j);
                i = j + 2;
                plain_start = i;
                proof {
                    assert(scan(s, i0, plain) == maybe_run(RunStyle::Plain, plain) + maybe_run(
                        RunStyle::Bold,
                        s.subrange(i0 + 2, j as int),
                    ) + scan(s, j as int + 2, Seq::empty()));
                    assert(s.subrange(i as int, i as int) =~= Seq::<char>::empty());
                    assert(run_views(runs@) + scan(s, i as int, s.subrange(i as int, i as int))
                        =~= tokenize_spec(s));
                }
            } else {
                let ghost runs1 = runs@;
                let mut lit = String::new();
                lit.append("**");
                runs.push(StyledRun { style: RunStyle::Plain, text: lit });
                i = i + 2;
                plain_start = i;
                proof {
                    reveal_strlit("**");
                    assert(runs@.last().text@ =~= seq!['*', '*']);
                    assert(run_views(runs@) =~= run_views(runs1) + seq![
                        SpecRun { style: RunStyle::Plain, text: seq!['*', '*'] },
                    ]);
                    assert(scan(s, i0, plain) == maybe_run(RunStyle::Plain, plain) + seq![
                        SpecRun { style: RunStyle::Plain, text: seq!['*', '*'] },
                    ] + scan(s, i0 + 2, Seq::empty()));
                    assert(s.subrange(i as int, i as int) =~= Seq::<char>::empty());
                    assert(run_views(runs@) + scan(s, i as int, s.subrange(i as int, i as int))
                        =~= tokenize_spec(s));
                }
            }
        } else if c == '`' {
            // inline code: search for the closing backtick
            let mut j: usize = i + 1;
            while j < n && text.get_char(j) != '`'
                invariant
                    i + 1 <= j <= n,
                    n == s.len(),
                    s == text@,
                    find_char_from(s, '`', i0 + 1) == find_char_from(s, '`', j as int),
                decreases n - j,
            {
                j = j + 1;
            }
            proof {
                assert(find_char_from(s, '`', i0 + 1) == j as int);
            }
            push_run(&mut runs, RunStyle::Plain, text, plain_start, i);
            push_run(&mut runs, RunStyle::Code, text, i + 1, j);
            let next = if j < n {
                j + 1
            } else {
                j
            };
            i = next;
            plain_start = i;
            proof {
                assert(scan(s, i0, plain) == maybe_run(RunStyle::Plain, plain) + maybe_run(
                    RunStyle::Code,
                    s.subrange(i0 + 1, j as int),
                ) + scan(s, next as int, Seq::empty()));
                assert(s.subrange(i as int, i as int) =~= Seq::<char>::empty());
                assert(run_views(runs@) + scan(s, i as int, s.subrange(i as int, i as int))
                    =~= tokenize_spec(s));
            }
        } else if c == '*' {
            // italic: search for the closing asterisk
            let mut j: usize = i + 1;
            while j < n && text.get_char(j) != '*'
                invariant
                    i + 1 <= j <= n,
                    n == s.len(),
                    s == text@,
                    find_char_from(s, '*', i0 + 1) == find_char_from(s, '*', j as int),
                decreases n - j,
            {
                j = j + 1;
            }
            proof {
                assert(find_char_from(s, '*', i0 + 1) == j as int);
            }
            push_run(&mut runs, RunStyle::Plain, text, plain_start, i);
            push_run(&mut runs, RunStyle::Italic, text, i + 1, j);
            let next = if j < n {
                j + 1
            } else {
                j
            };
            i = next;
            plain_start = i;
            proof {
                assert(scan(s, i0, plain) == maybe_run(RunStyle::Plain, plain) + maybe_run(
                    RunStyle::Italic,
                    s.subrange(i0 + 1, j as int),
                ) + scan(s, next as int, Seq::empty()));
                assert(s.subrange(i as int, i as int) =~= Seq::<char>::empty());
                assert(run_views(runs@) + scan(s, i as int, s.subrange(i as int, i as int))
                    =~= tokenize_spec(s));
            }
        } else {
            i = i + 1;
            proof {
                assert(s.subrange(plain_start as int, i as int) =~= plain.push(s[i0]));
            }
        }
    }
    push_run(&mut runs, RunStyle::Plain, text, plain_start, n);
    proof {
        assert(run_views(runs@) =~= tokenize_spec(text@));
    }
    runs
}

} // verus!
