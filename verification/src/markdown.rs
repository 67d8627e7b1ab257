//! Block-level Markdown rendering: classify each line of a document and
//! emit one styled visual block per line, with fenced code bodies
//! collapsed into a single block.
//!
//! Classification order outside a fence: blank line, ATX heading,
//! horizontal rule, block quote, unordered list item, ordered list item,
//! paragraph.  A line opening with three backticks toggles the fence
//! state; the body of an unterminated fence at the end of the document
//! is discarded.

use vstd::prelude::*;
use vstd::string::StrSliceExecFns;
use vstd::string::StringExecFns;
use crate::inline::{run_views, tokenize_inline, tokenize_spec, SpecRun, StyledRun};
use crate::text::{
    find_pair_from, lines_of, split_lines, str_views, trim_spec, trim_start_spec, trim_start_str,
    trim_end_spec, trim_end_str, trim_str,
};

verus! {

/// One visual block of the rendered document.
pub enum Block {
    /// An ATX heading, level 1 through 6, with its raw title text.
    Heading { level: u8, text: String },
    /// The verbatim body of a fenced code block.
    CodeBlock { text: String },
    /// A thematic break.
    HorizontalRule,
    /// A quoted line, inline-tokenized.
    BlockQuote { runs: Vec<StyledRun> },
    /// One list item; `marker` is the number of an ordered item or the
    /// bullet character of an unordered one.
    ListItem { ordered: bool, marker: String, runs: Vec<StyledRun> },
    /// Any other non-blank line, inline-tokenized.
    Paragraph { runs: Vec<StyledRun> },
    /// A blank line.
    Spacer,
}

/// The mathematical value of a `Block`.
pub ghost enum SpecBlock {
    Heading { level: int, text: Seq<char> },
    Code { text: Seq<char> },
    Rule,
    Quote { runs: Seq<SpecRun> },
    Item { ordered: bool, marker: Seq<char>, runs: Seq<SpecRun> },
    Para { runs: Seq<SpecRun> },
    Spacer,
}

/// The mathematical value of one block.
pub open spec fn block_view(b: Block) -> SpecBlock {
    match b {
        Block::Heading { level, text } => SpecBlock::Heading { level: level as int, text: text@ },
        Block::CodeBlock { text } => SpecBlock::Code { text: text@ },
        Block::HorizontalRule => SpecBlock::Rule,
        Block::BlockQuote { runs } => SpecBlock::Quote { runs: run_views(runs@) },
        Block::ListItem { ordered, marker, runs } => SpecBlock::Item {
            ordered,
            marker: marker@,
            runs: run_views(runs@),
        },
        Block::Paragraph { runs } => SpecBlock::Para { runs: run_views(runs@) },
        Block::Spacer => SpecBlock::Spacer,
    }
}

/// The mathematical values of a block sequence.
pub open spec fn blocks_view(s: Seq<Block>) -> Seq<SpecBlock> {
    Seq::new(s.len(), |i: int| block_view(s[i]))
}

/// What `strip_heading` returns: the title of `line` read as a heading
/// of exactly level `n`.  The line must open with `n` `'#'` characters
/// followed by a space (the title is the rest, right-trimmed) or by the
/// end of the line (the title is empty).
pub open spec fn strip_heading_spec(line: Seq<char>, n: int) -> Option<Seq<char>> {
    if 0 <= n <= line.len() && (forall|i: int| 0 <= i < n ==> line[i] == '#') {
        if line.len() == n {
            Some(Seq::empty())
        } else if line[n] == ' ' {
            Some(trim_end_spec(line.subrange(n + 1, line.len() as int)))
        } else {
            None
        }
    } else {
        None
    }
}

/// Strip `n` leading `'#'` characters followed by a space (or the end of
/// the line); the returned title is right-trimmed.
pub fn strip_heading(line: &str, n: usize) -> (r: Option<&str>)
    ensures
        match r {
            Some(t) => strip_heading_spec(line@, n as int) == Some(t@),
            None => strip_heading_spec(line@, n as int) is None,
        },
{
    let len = line.unicode_len();
    if n > len {
        return None;
    }
    let mut k: usize = 0;
    while k < n && line.get_char(k) == '#'
        invariant
            0 <= k <= n <= len,
            len == line@.len(),
            forall|i: int| 0 <= i < k ==> line@[i] == '#',
        decreases n - k,
    {
        k = k + 1;
    }
    if k < n {
        // a non-'#' character inside the would-be prefix
        return None;
    }
    if len == n {
        proof {
            reveal_strlit("");
            assert(""@ =~= Seq::<char>::empty());
        }
        Some("")
    } else if line.get_char(n) == ' ' {
        Some(trim_end_str(line.substring_char(n + 1, len)))
    } else {
        None
    }
}

/// The number of occurrences of `c` in `s[from..]`.
pub open spec fn count_char_from(s: Seq<char>, c: char, from: int) -> int
    decreases s.len() - from,
{
    if from < 0 || from >= s.len() {
        0
    } else if s[from] == c {
        1 + count_char_from(s, c, from + 1)
    } else {
        count_char_from(s, c, from + 1)
    }
}

/// A thematic break: after trimming, the line is at least three
/// characters, opens with `'-'`, `'*'` or `'_'`, holds nothing but that
/// character and spaces, and holds that character at least three times.
pub open spec fn is_hr_spec(line: Seq<char>) -> bool {
    let t = trim_spec(line);
    &&& t.len() >= 3
    &&& (t[0] == '-' || t[0] == '*' || t[0] == '_')
    &&& (forall|i: int| 0 <= i < t.len() ==> #[trigger] t[i] == t[0] || t[i] == ' ')
    &&& count_char_from(t, t[0], 0) >= 3
}

/// Return `true` when the line is a Markdown thematic break such as
/// `---`, `***`, `___` or `- - -`.
pub fn is_horizontal_rule(line: &str) -> (r: bool)
    ensures
        r == is_hr_spec(line@),
{
    let t = trim_str(line);
    let n = t.unicode_len();
    if n < 3 {
        return false;
    }
    let first = t.get_char(0);
    if !(first == '-' || first == '*' || first == '_') {
        return false;
    }
    let mut i: usize = 0;
    let mut count: usize = 0;
    let mut uniform = true;
    while i < n
        invariant
            0 <= i <= n,
            n == t@.len(),
            count <= i,
            first == t@[0],
            uniform == (forall|k: int| 0 <= k < i ==> #[trigger] t@[k] == first || t@[k] == ' '),
            count + count_char_from(t@, first, i as int) == count_char_from(t@, first, 0),
        decreases n - i,
    {
        let c = t.get_char(i);
        if c == first {
            count = count + 1;
        } else if c != ' ' {
            uniform = false;
        }
        i = i + 1;
    }
    uniform && count >= 3
}

/// What `parse_ordered_item` returns: the line split at its first
/// `". "`, provided everything before the dot is one or more ASCII
/// digits.
pub open spec fn ordered_item_spec(line: Seq<char>) -> Option<(Seq<char>, Seq<char>)> {
    let d = find_pair_from(line, '.', ' ', 0);
    if d < line.len() {
        let num = line.subrange(0, d);
        if num.len() > 0 && (forall|i: int| 0 <= i < num.len() ==> '0' <= #[trigger] num[i] <= '9') {
            Some((num, line.subrange(d + 2, line.len() as int)))
        } else {
            None
        }
    } else {
        None
    }
}

/// If `line` is an ordered-list item such as `1. text`, return its
/// number and the text after the marker.
pub fn parse_ordered_item(line: &str) -> (r: Option<(&str, &str)>)
    ensures
        match r {
            Some(p) => ordered_item_spec(line@) == Some((p.0@, p.1@)),
            None => ordered_item_spec(line@) is None,
        },
{
    let ghost s = line@;
    let n = line.unicode_len();
    let mut d: usize = 0;
    while n - d > 1 && !(line.get_char(d) == '.' && line.get_char(d + 1) == ' ')
        invariant
            0 <= d <= n,
            n == s.len(),
            s == line@,
            find_pair_from(s, '.', ' ', 0) == find_pair_from(s, '.', ' ', d as int),
        decreases n - d,
    {
        d = d + 1;
    }
    let found = n - d > 1;
    proof {
        if found {
            assert(find_pair_from(s, '.', ' ', d as int) == d as int);
        } else {
            assert(find_pair_from(s, '.', ' ', d as int) == s.len() as int);
        }
    }
    if !found {
        return None;
    }
    if d == 0 {
        return None;
    }
    let mut i: usize = 0;
    let mut all_digits = true;
    while i < d
        invariant
            0 <= i <= d <= n,
            n == s.len(),
            s == line@,
            all_digits == (forall|k: int| 0 <= k < i ==> '0' <= #[trigger] s[k] <= '9'),
        decreases d - i,
    {
        let c = line.get_char(i);
        if !('0' <= c && c <= '9') {
            all_digits = false;
        }
        i = i + 1;
    }
    proof {
        let numv = s.subrange(0, d as int);
        if all_digits {
            assert forall|i: int| 0 <= i < numv.len() implies '0' <= #[trigger] numv[i] <= '9' by {
                assert(numv[i] == s[i]);
            }
        } else {
            if forall|i: int| 0 <= i < numv.len() ==> '0' <= #[trigger] numv[i] <= '9' {
                assert forall|k: int| 0 <= k < d implies '0' <= #[trigger] s[k] <= '9' by {
                    assert(numv[k] == s[k]);
                }
            }
        }
    }
    if !all_digits {
        return None;
    }
    let num = line.substring_char(0, d);
    let rest = line.substring_char(d + 2, n);
    proof {
        assert(num@ =~= s.subrange(0, d as int));
        assert(rest@ =~= s.subrange(d as int + 2, s.len() as int));
    }
    Some((num, rest))
}

/// A fence line: after left-trimming it opens with three backticks.
pub open spec fn is_fence_spec(line: Seq<char>) -> bool {
    let t = trim_start_spec(line);
    t.len() >= 3 && t[0] == '`' && t[1] == '`' && t[2] == '`'
}

fn is_fence_line(line: &str) -> (r: bool)
    ensures
        r == is_fence_spec(line@),
{
    let t = trim_start_str(line);
    let n = t.unicode_len();
    n >= 3 && t.get_char(0) == '`' && t.get_char(1) == '`' && t.get_char(2) == '`'
}

/// A blank line: nothing but whitespace.
pub open spec fn is_blank_spec(line: Seq<char>) -> bool {
    trim_spec(line).len() == 0
}

fn is_blank_line(line: &str) -> (r: bool)
    ensures
        r == is_blank_spec(line@),
{
    let t = trim_str(line);
    t.is_empty()
}

/// The quoted text of a block-quote line: what follows `"> "`, or what
/// follows a bare `">"`.
pub open spec fn quote_text_spec(line: Seq<char>) -> Option<Seq<char>> {
    if line.len() >= 2 && line[0] == '>' && line[1] == ' ' {
        Some(line.subrange(2, line.len() as int))
    } else if line.len() >= 1 && line[0] == '>' {
        Some(line.subrange(1, line.len() as int))
    } else {
        None
    }
}

fn quote_text(line: &str) -> (r: Option<&str>)
    ensures
        match r {
            Some(t) => quote_text_spec(line@) == Some(t@),
            None => quote_text_spec(line@) is None,
        },
{
    let n = line.unicode_len();
    if n >= 2 && line.get_char(0) == '>' && line.get_char(1) == ' ' {
        Some(line.substring_char(2, n))
    } else if n >= 1 && line.get_char(0) == '>' {
        Some(line.substring_char(1, n))
    } else {
        None
    }
}

/// The text of an unordered list item: what follows a `"- "`, `"* "` or
/// `"+ "` prefix.
pub open spec fn bullet_text_spec(line: Seq<char>) -> Option<Seq<char>> {
    if line.len() >= 2 && (line[0] == '-' || line[0] == '*' || line[0] == '+') && line[1] == ' ' {
        Some(line.subrange(2, line.len() as int))
    } else {
        None
    }
}

fn bullet_text(line: &str) -> (r: Option<(&str, &str)>)
    ensures
        match r {
            Some(p) => bullet_text_spec(line@) == Some(p.1@) && p.0@ == line@.subrange(0, 1),
            None => bullet_text_spec(line@) is None,
        },
{
    let n = line.unicode_len();
    if n >= 2 && line.get_char(1) == ' ' {
        let c = line.get_char(0);
        if c == '-' || c == '*' || c == '+' {
            Some((line.substring_char(0, 1), line.substring_char(2, n)))
        } else {
            None
        }
    } else {
        None
    }
}

/// The heading that the renderer reads from `line`: the first of the
/// levels 1 through 6 whose exact prefix rule matches.
pub open spec fn heading_rule(line: Seq<char>) -> Option<(int, Seq<char>)> {
    if strip_heading_spec(line, 1) is Some {
        Some((1int, strip_heading_spec(line, 1).unwrap()))
    } else if strip_heading_spec(line, 2) is Some {
        Some((2int, strip_heading_spec(line, 2).unwrap()))
    } else if strip_heading_spec(line, 3) is Some {
        Some((3int, strip_heading_spec(line, 3).unwrap()))
    } else if strip_heading_spec(line, 4) is Some {
        Some((4int, strip_heading_spec(line, 4).unwrap()))
    } else if strip_heading_spec(line, 5) is Some {
        Some((5int, strip_heading_spec(line, 5).unwrap()))
    } else if strip_heading_spec(line, 6) is Some {
        Some((6int, strip_heading_spec(line, 6).unwrap()))
    } else {
        None
    }
}

fn heading_of(line: &str) -> (r: Option<(u8, &str)>)
    ensures
        match r {
            Some(p) => heading_rule(line@) == Some((p.0 as int, p.1@)),
            None => heading_rule(line@) is None,
        },
{
    if let Some(t) = strip_heading(line, 1) {
        Some((1, t))
    } else if let Some(t) = strip_heading(line, 2) {
        Some((2, t))
    } else if let Some(t) = strip_heading(line, 3) {
        Some((3, t))
    } else if let Some(t) = strip_heading(line, 4) {
        Some((4, t))
    } else if let Some(t) = strip_heading(line, 5) {
        Some((5, t))
    } else if let Some(t) = strip_heading(line, 6) {
        Some((6, t))
    } else {
        None
    }
}

/// The body of a fenced code block: its lines joined by `'\n'`.
pub open spec fn join_lines(buf: Seq<Seq<char>>) -> Seq<char>
    decreases buf.len(),
{
    if buf.len() == 0 {
        Seq::empty()
    } else if buf.len() == 1 {
        buf[0]
    } else {
        buf[0] + seq!['\n'] + join_lines(buf.drop_first())
    }
}

proof fn lemma_join_lines_push(buf: Seq<Seq<char>>, x: Seq<char>)
    ensures
        join_lines(buf.push(x)) == if buf.len() == 0 {
            x
        } else {
            join_lines(buf) + seq!['\n'] + x
        },
    decreases buf.len(),
{
    if buf.len() == 0 {
        assert(buf.push(x).len() == 1);
        assert(buf.push(x)[0] == x);
    } else if buf.len() == 1 {
        assert(buf.push(x).drop_first() =~= seq![x]);
        assert(join_lines(seq![x]) == x);
    } else {
        assert(buf.push(x).drop_first() =~= buf.drop_first().push(x));
        lemma_join_lines_push(buf.drop_first(), x);
    }
}

/// Join buffered code lines with `'\n'`.
fn join_buffer(buf: &Vec<&str>) -> (r: String)
    ensures
        r@ == join_lines(str_views(buf@)),
{
    let mut out = String::new();
    let mut k: usize = 0;
    proof {
        assert(out@ =~= join_lines(str_views(buf@.subrange(0, 0))));
    }
    while k < buf.len()
        invariant
            0 <= k <= buf@.len(),
            out@ == join_lines(str_views(buf@.subrange(0, k as int))),
        decreases buf@.len() - k,
    {
        if k > 0 {
            out.append("\n");
        }
        out.append(buf[k]);
        k = k + 1;
        proof {
            reveal_strlit("\n");
            let prev = str_views(buf@.subrange(0, k - 1));
            assert(str_views(buf@.subrange(0, k as int)) =~= prev.push(buf@[k - 1]@));
            lemma_join_lines_push(prev, buf@[k - 1]@);
            if k == 1 {
                assert(out@ =~= join_lines(str_views(buf@.subrange(0, k as int))));
            } else {
                assert("\n"@ =~= seq!['\n']);
                assert(out@ =~= join_lines(prev) + seq!['\n'] + buf@[k - 1]@);
                assert(out@ =~= join_lines(str_views(buf@.subrange(0, k as int))));
            }
        }
    }
    proof {
        assert(buf@.subrange(0, buf@.len() as int) =~= buf@);
    }
    out
}

/// The blocks rendered from `lines[i..]`, given the fence state and the
/// buffered body of the open fence.  A fence still open at the end of
/// the document discards its buffer.
pub open spec fn render_from(
    lines: Seq<Seq<char>>,
    i: int,
    in_code: bool,
    buf: Seq<Seq<char>>,
) -> Seq<SpecBlock>
    decreases lines.len() - i,
{
    if i < 0 || i >= lines.len() {
        Seq::empty()
    } else {
        let line = lines[i];
        if is_fence_spec(line) {
            if in_code {
                seq![SpecBlock::Code { text: join_lines(buf) }] + render_from(
                    lines,
                    i + 1,
                    false,
                    Seq::empty(),
                )
            } else {
                render_from(lines, i + 1, true, Seq::empty())
            }
        } else if in_code {
            render_from(lines, i + 1, true, buf.push(line))
        } else if is_blank_spec(line) {
            seq![SpecBlock::Spacer] + render_from(lines, i + 1, false, buf)
        } else if heading_rule(line) is Some {
            seq![
                SpecBlock::Heading {
                    level: heading_rule(line).unwrap().0,
                    text: heading_rule(line).unwrap().1,
                },
            ] + render_from(lines, i + 1, false, buf)
        } else if is_hr_spec(line) {
            seq![SpecBlock::Rule] + render_from(lines, i + 1, false, buf)
        } else if quote_text_spec(line) is Some {
            seq![SpecBlock::Quote { runs: tokenize_spec(quote_text_spec(line).unwrap()) }]
                + render_from(lines, i + 1, false, buf)
        } else if bullet_text_spec(line) is Some {
            seq![
                SpecBlock::Item {
                    ordered: false,
                    marker: line.subrange(0, 1),
                    runs: tokenize_spec(bullet_text_spec(line).unwrap()),
                },
            ] + render_from(lines, i + 1, false, buf)
        } else if ordered_item_spec(line) is Some {
            seq![
                SpecBlock::Item {
                    ordered: true,
                    marker: ordered_item_spec(line).unwrap().0,
                    runs: tokenize_spec(ordered_item_spec(line).unwrap().1),
                },
            ] + render_from(lines, i + 1, false, buf)
        } else {
            seq![SpecBlock::Para { runs: tokenize_spec(line) }] + render_from(
                lines,
                i + 1,
                false,
                buf,
            )
        }
    }
}

/// The blocks rendered from a whole document.
pub open spec fn render_spec(text: Seq<char>) -> Seq<SpecBlock> {
    render_from(lines_of(text), 0, false, Seq::empty())
}

/// Push one block, tracking the view sequence.
fn push_block(blocks: &mut Vec<Block>, b: Block)
    ensures
        blocks_view(final(blocks)@) == blocks_view(old(blocks)@) + seq![block_view(b)],
{
    let ghost bv = block_view(b);
    blocks.push(b);
    proof {
        assert(blocks_view(blocks@) =~= blocks_view(blocks@.drop_last()) + seq![bv]);
    }
}

/// Render a Markdown document into an ordered sequence of visual
/// blocks.  Total: any text, including the empty one, yields a
/// (possibly empty) block sequence.
pub fn render_blocks(text: &str) -> (blocks: Vec<Block>)
    ensures
        blocks_view(blocks@) == render_spec(text@),
{
    let lines = split_lines(text);
    let ghost lv = str_views(lines@);
    let mut blocks: Vec<Block> = Vec::new();
    let mut in_code = false;
    let mut code_buf: Vec<&str> = Vec::new();
    let mut i: usize = 0;
    proof {
        assert(blocks_view(blocks@) =~= Seq::<SpecBlock>::empty());
        assert(str_views(code_buf@) =~= Seq::<Seq<char>>::empty());
        assert(blocks_view(blocks@) + render_from(lv, 0, false, str_views(code_buf@))
            =~= render_spec(text@));
    }
    while i < lines.len()
        invariant
            0 <= i <= lines@.len(),
            lv == str_views(lines@),
            blocks_view(blocks@) + render_from(lv, i as int, in_code, str_views(code_buf@))
                == render_spec(text@),
        decreases lines@.len() - i,
    {
        let ghost i0 = i as int;
        let ghost bufv = str_views(code_buf@);
        let line = lines[i];
        assert(line@ == lv[i0]);
        if is_fence_line(line) {
            if in_code {
                let text_body = join_buffer(&code_buf);
                code_buf.clear();
                in_code = false;
                push_block(&mut blocks, Block::CodeBlock { text: text_body });
                proof {
                    assert(str_views(code_buf@) =~= Seq::<Seq<char>>::empty());
                }
            } else {
                in_code = true;
                code_buf.clear();
                proof {
                    assert(str_views(code_buf@) =~= Seq::<Seq<char>>::empty());
                }
            }
        } else if in_code {
            code_buf.push(line);
            proof {
                assert(str_views(code_buf@) =~= bufv.push(line@));
            }
        } else if is_blank_line(line) {
            push_block(&mut blocks, Block::Spacer);
        } else if let Some((lvl, t)) = heading_of(line) {
            push_block(&mut blocks, Block::Heading { level: lvl, text: t.to_owned() });
        } else if is_horizontal_rule(line) {
            push_block(&mut blocks, Block::HorizontalRule);
        } else if let Some(q) = quote_text(line) {
            let runs = tokenize_inline(q);
            push_block(&mut blocks, Block::BlockQuote { runs });
        } else if let Some((marker, rest)) = bullet_text(line) {
            let runs = tokenize_inline(rest);
            push_block(
                &mut blocks,
                Block::ListItem { ordered: false, marker: marker.to_owned(), runs },
            );
        } else if let Some((num, rest)) = parse_ordered_item(line) {
            let runs = tokenize_inline(rest);
            push_block(
                &mut blocks,
                Block::ListItem { ordered: true, marker: num.to_owned(), runs },
            );
        } else {
            let runs = tokenize_inline(line);
            push_block(&mut blocks, Block::Paragraph { runs });
        }
        i = i + 1;
        proof {
            assert(blocks_view(blocks@) + render_from(lv, i as int, in_code, str_views(code_buf@))
                =~= render_spec(text@));
        }
    }
    proof {
        assert(render_from(lv, lines@.len() as int, in_code, str_views(code_buf@))
            =~= Seq::<SpecBlock>::empty());
        assert(blocks_view(blocks@) =~= render_spec(text@));
    }
    blocks
}

} // verus!
