//! Text read off a pane's buffer: the text of a (linewise or block) selection
//! between two absolute-grid endpoints, and a plain substring search over every
//! readable line.

use vstd::prelude::*;
use crate::text::{
    chars_of, extend_chars, lower, string_of_chars, to_lower, trim_end, trimmed_len,
};

verus! {

/// One buffer cell as text: its character, whether it is the spacer half of a
/// wide character, and whether the line soft-wraps after it (the wrap flag on
/// a line's last cell).
#[derive(Clone, Copy, Debug, PartialEq, Eq, Structural)]
pub struct TextCell {
    pub c: char,
    pub spacer: bool,
    pub wrapline: bool,
}

/// Consecutive absolute lines of a pane's buffer, the first being line `top`
/// (scrollback lines are negative), each `cols` cells wide.
pub struct LineGrid {
    pub cols: usize,
    pub top: i32,
    pub lines: Vec<Vec<TextCell>>,
}

impl LineGrid {
    /// A non-empty width, every line that wide, and absolute line numbers that
    /// fit in `i32`.
    pub open spec fn wf(&self) -> bool {
        &&& self.cols >= 1
        &&& self.top + self.lines@.len() <= i32::MAX + 1
        &&& forall|i: int| 0 <= i < self.lines@.len() ==> #[trigger] self.lines@[i]@.len() == self.cols
    }

    /// Absolute lines `lo..=hi` are all held.
    pub open spec fn covers(&self, lo: int, hi: int) -> bool {
        self.top <= lo && hi < self.top + self.lines@.len()
    }

    pub open spec fn cell(&self, line: int, col: int) -> TextCell {
        self.lines@[line - self.top]@[col]
    }
}

/// The endpoints ordered top-to-bottom, then left-to-right on the same line.
pub open spec fn ordered(anchor: (usize, i32), head: (usize, i32)) -> ((usize, i32), (usize, i32)) {
    if head.1 < anchor.1 || (head.1 == anchor.1 && head.0 < anchor.0) {
        (head, anchor)
    } else {
        (anchor, head)
    }
}

/// The column range `(lo, hi)` taken from `line` for ordered endpoints `a`, `h`.
pub open spec fn col_range(a: (usize, i32), h: (usize, i32), block: bool, line: int, cols: int) -> (int, int) {
    if block {
        (if a.0 <= h.0 { a.0 as int } else { h.0 as int }, if a.0 <= h.0 { h.0 as int } else { a.0 as int })
    } else if a.1 == h.1 {
        (a.0 as int, h.0 as int)
    } else if line == a.1 {
        (a.0 as int, cols - 1)
    } else if line == h.1 {
        (0, h.0 as int)
    } else {
        (0, cols - 1)
    }
}

/// The characters of cells `lo..end` of `line`, wide-character spacers skipped.
pub open spec fn chars_between(g: LineGrid, line: int, lo: int, end: int) -> Seq<char>
    decreases end - lo,
{
    if end <= lo {
        seq![]
    } else {
        chars_between(g, line, lo, end - 1) + if g.cell(line, end - 1).spacer {
            seq![]
        } else {
            seq![g.cell(line, end - 1).c]
        }
    }
}

/// What line `line` contributes: its selected characters, kept whole and joined
/// to the next line when it soft-wraps into it (linewise only), otherwise with
/// trailing whitespace trimmed and, unless it is the last line, a newline.
pub open spec fn line_piece(g: LineGrid, a: (usize, i32), h: (usize, i32), block: bool, line: int) -> Seq<char> {
    let r = col_range(a, h, block, line, g.cols as int);
    let end = if r.1 <= g.cols - 1 { r.1 + 1 } else { g.cols as int };
    let s = chars_between(g, line, r.0, end);
    let wrapped = !block && line != h.1 && g.cell(line, g.cols - 1).wrapline;
    if wrapped {
        s
    } else {
        trim_end(s) + if line != h.1 { seq!['\n'] } else { seq![] }
    }
}

/// The pieces of lines `a.1 .. n`.
pub open spec fn pieces_upto(g: LineGrid, a: (usize, i32), h: (usize, i32), block: bool, n: int) -> Seq<char>
    decreases n - a.1,
{
    if n <= a.1 {
        seq![]
    } else {
        pieces_upto(g, a, h, block, n - 1) + line_piece(g, a, h, block, n - 1)
    }
}

/// The text selected between `anchor` and `head`.
pub open spec fn selection_spec(g: LineGrid, anchor: (usize, i32), head: (usize, i32), block: bool) -> Seq<char> {
    let (a, h) = ordered(anchor, head);
    pieces_upto(g, a, h, block, h.1 + 1)
}

/// Appends the characters of cells `lo..end` of line `line` (spacers skipped).
fn push_between(out: &mut Vec<char>, g: &LineGrid, line: i32, lo: usize, end: usize)
    requires
        g.wf(),
        g.covers(line as int, line as int),
        end <= g.cols,
    ensures
        final(out)@ == old(out)@ + chars_between(*g, line as int, lo as int, end as int),
{
    let ghost o0 = out@;
    let row = &g.lines[(line as i64 - g.top as i64) as usize];
    let mut c: usize = lo;
    if c > end {
        c = end;
    }
    assert(chars_between(*g, line as int, lo as int, c as int) == Seq::<char>::empty());
    while c < end
        invariant
            g.wf(),
            g.covers(line as int, line as int),
            end <= g.cols,
            row@ == g.lines@[line - g.top]@,
            c <= end,
            lo <= c || c == end,
            out@ == o0 + chars_between(*g, line as int, lo as int, c as int),
        decreases end - c,
    {
        let cell = row[c];
        if !cell.spacer {
            out.push(cell.c);
        }
        c = c + 1;
        assert(out@ =~= o0 + chars_between(*g, line as int, lo as int, c as int));
    }
}

/// Extract the selected text between two absolute-grid endpoints, trimming
/// trailing blanks per line (linewise) or per rectangle row (block). A
/// soft-wrapped line continues into the next, so it is joined without trimming
/// or a newline; wide-character spacers are skipped.
pub fn selection_text(g: &LineGrid, anchor: (usize, i32), head: (usize, i32), block: bool) -> (s:
    String)
    requires
        g.wf(),
        g.covers(
            if anchor.1 <= head.1 { anchor.1 as int } else { head.1 as int },
            if anchor.1 <= head.1 { head.1 as int } else { anchor.1 as int },
        ),
    ensures
        s@ == selection_spec(*g, anchor, head, block),
{
    let (a, h) = if head.1 < anchor.1 || (head.1 == anchor.1 && head.0 < anchor.0) {
        (head, anchor)
    } else {
        (anchor, head)
    };
    let cols = g.cols;
    let mut out: Vec<char> = Vec::new();
    let mut line: i64 = a.1 as i64;
    while line <= h.1 as i64
        invariant
            g.wf(),
            g.covers(a.1 as int, h.1 as int),
            cols == g.cols,
            a.1 <= h.1,
            a.1 <= line <= h.1 + 1,
            (a, h) == ordered(anchor, head),
            out@ == pieces_upto(*g, a, h, block, line as int),
        decreases h.1 + 1 - line,
    {
        let l = line as i32;
        let (lo, hi): (usize, usize) = if block {
            (if a.0 <= h.0 { a.0 } else { h.0 }, if a.0 <= h.0 { h.0 } else { a.0 })
        } else if a.1 == h.1 {
            (a.0, h.0)
        } else if l == a.1 {
            (a.0, cols - 1)
        } else if l == h.1 {
            (0, h.0)
        } else {
            (0, cols - 1)
        };
        let end: usize = if hi <= cols - 1 { hi + 1 } else { cols };
        let mut piece: Vec<char> = Vec::new();
        push_between(&mut piece, g, l, lo, end);
        let last_row = &g.lines[(line - g.top as i64) as usize];
        let wrapped = !block && l != h.1 && last_row[cols - 1].wrapline;
        let ghost before = out@;
        if wrapped {
            extend_chars(&mut out, &piece, 0, piece.len());
        } else {
            let n = trimmed_len(&piece);
            extend_chars(&mut out, &piece, 0, n);
            if l != h.1 {
                out.push('\n');
            }
        }
        assert(piece@.subrange(0, piece@.len() as int) =~= piece@);
        assert(out@ =~= before + line_piece(*g, a, h, block, line as int));
        line = line + 1;
    }
    string_of_chars(&out)
}

/// Selecting from `anchor` to `head` gives the same text as selecting from
/// `head` to `anchor`: only the range matters, not which end was set first.
pub proof fn lemma_selection_symmetric(g: LineGrid, anchor: (usize, i32), head: (usize, i32), block: bool)
    ensures
        selection_spec(g, anchor, head, block) == selection_spec(g, head, anchor, block),
{
    if anchor != head {
        assert(ordered(anchor, head) == ordered(head, anchor));
    }
}


proof fn lemma_block_pieces_agree(
    g: LineGrid,
    a: (usize, i32),
    h: (usize, i32),
    a2: (usize, i32),
    h2: (usize, i32),
    n: int,
)
    requires
        a.1 == a2.1,
        h.1 == h2.1,
        (if a.0 <= h.0 { a.0 } else { h.0 }) == (if a2.0 <= h2.0 { a2.0 } else { h2.0 }),
        (if a.0 <= h.0 { h.0 } else { a.0 }) == (if a2.0 <= h2.0 { h2.0 } else { a2.0 }),
    ensures
        pieces_upto(g, a, h, true, n) == pieces_upto(g, a2, h2, true, n),
    decreases n - a.1,
{
    if n > a.1 {
        lemma_block_pieces_agree(g, a, h, a2, h2, n - 1);
        assert(line_piece(g, a, h, true, n - 1) == line_piece(g, a2, h2, true, n - 1));
    }
}

/// A block selection takes the same columns from every line whichever endpoint
/// is on the left: swapping the two endpoint columns while keeping their lines
/// leaves the text unchanged.
pub proof fn lemma_block_columns_either_way(g: LineGrid, c1: usize, l1: i32, c2: usize, l2: i32)
    ensures
        selection_spec(g, (c1, l1), (c2, l2), true) == selection_spec(g, (c2, l1), (c1, l2), true),
{
    if l1 == l2 {
        lemma_selection_symmetric(g, (c1, l1), (c2, l2), true);
        assert((c2, l1) == (c2, l2) && (c1, l2) == (c1, l1));
    } else if l1 < l2 {
        lemma_block_pieces_agree(g, (c1, l1), (c2, l2), (c2, l1), (c1, l2), l2 + 1);
    } else {
        lemma_block_pieces_agree(g, (c2, l2), (c1, l1), (c1, l2), (c2, l1), l1 + 1);
    }
}

/// A block selection on one line is that line's cells from the smaller to the
/// larger endpoint column (cut at the grid's edge), spacers skipped and
/// trailing whitespace trimmed.
pub proof fn lemma_block_on_one_line(g: LineGrid, c1: usize, c2: usize, line: i32)
    ensures
        ({
            let lo: int = if c1 <= c2 { c1 as int } else { c2 as int };
            let hi: int = if c1 <= c2 { c2 as int } else { c1 as int };
            let end: int = if hi < g.cols { hi + 1 } else { g.cols as int };
            selection_spec(g, (c1, line), (c2, line), true) == trim_end(chars_between(g, line as int, lo, end))
        }),
{
    let (a, h) = ordered((c1, line), (c2, line));
    assert(pieces_upto(g, a, h, true, line as int) =~= Seq::<char>::empty());
    assert(pieces_upto(g, a, h, true, line + 1) == pieces_upto(g, a, h, true, line as int) + line_piece(g, a, h, true, line as int));
    assert(trim_end(chars_between(g, line as int, if a.0 <= h.0 { a.0 as int } else { h.0 as int }, if (if a.0 <= h.0 { h.0 as int } else { a.0 as int }) <= g.cols - 1 { (if a.0 <= h.0 { h.0 as int } else { a.0 as int }) + 1 } else { g.cols as int })) + seq![] =~= trim_end(chars_between(g, line as int, if a.0 <= h.0 { a.0 as int } else { h.0 as int }, if (if a.0 <= h.0 { h.0 as int } else { a.0 as int }) <= g.cols - 1 { (if a.0 <= h.0 { h.0 as int } else { a.0 as int }) + 1 } else { g.cols as int })));
}

proof fn lemma_pieces_split(
    g: LineGrid,
    a: (usize, i32),
    h: (usize, i32),
    a2: (usize, i32),
    h2: (usize, i32),
    block: bool,
    n: int,
)
    requires
        a2.1 == a.1 + 1,
        h2.1 == h.1,
        a.1 < n,
        forall|line: int| a2.1 <= line < n ==> #[trigger] line_piece(g, a, h, block, line) == line_piece(
            g,
            a2,
            h2,
            block,
            line,
        ),
    ensures
        pieces_upto(g, a, h, block, n) == line_piece(g, a, h, block, a.1 as int) + pieces_upto(
            g,
            a2,
            h2,
            block,
            n,
        ),
    decreases n - a.1,
{
    if n == a.1 + 1 {
        assert(pieces_upto(g, a, h, block, a.1 as int) =~= Seq::<char>::empty());
        assert(pieces_upto(g, a2, h2, block, n) =~= Seq::<char>::empty());
        assert(pieces_upto(g, a, h, block, n) =~= line_piece(g, a, h, block, a.1 as int));
    } else {
        lemma_pieces_split(g, a, h, a2, h2, block, n - 1);
        assert(line_piece(g, a, h, block, n - 1) == line_piece(g, a2, h2, block, n - 1));
        assert(pieces_upto(g, a, h, block, n) =~= line_piece(g, a, h, block, a.1 as int) + pieces_upto(
            g,
            a2,
            h2,
            block,
            n,
        ));
    }
}

/// A linewise selection over several lines is its first line from the anchor
/// column to the line's end (kept whole and joined on when the line soft-wraps,
/// otherwise trimmed and ended with a newline), followed by the selection from
/// the start of the next line to the head.
pub proof fn lemma_linewise_first_line(g: LineGrid, c1: usize, l1: i32, c2: usize, l2: i32)
    requires
        l1 < l2,
        g.cols >= 1,
    ensures
        ({
            let s = chars_between(g, l1 as int, c1 as int, g.cols as int);
            let first = if g.cell(l1 as int, g.cols - 1).wrapline { s } else { trim_end(s) + seq!['\n'] };
            selection_spec(g, (c1, l1), (c2, l2), false) == first + selection_spec(g, (0, (l1 + 1) as i32), (c2, l2), false)
        }),
{
    let a = (c1, l1);
    let h = (c2, l2);
    let a2 = (0usize, (l1 + 1) as i32);
    assert(ordered(a2, h) == (a2, h));
    assert forall|line: int| a2.1 <= line < l2 + 1 implies #[trigger] line_piece(g, a, h, false, line)
        == line_piece(g, a2, h, false, line) by {}
    lemma_pieces_split(g, a, h, a2, h, false, l2 + 1);
}

/// A block selection over several lines is the first line's cells from the
/// smaller to the larger endpoint column, trimmed and ended with a newline
/// (soft wraps are not followed), followed by the block from the next line down
/// to the head.
pub proof fn lemma_block_first_line(g: LineGrid, c1: usize, l1: i32, c2: usize, l2: i32)
    requires
        l1 < l2,
    ensures
        ({
            let lo: int = if c1 <= c2 { c1 as int } else { c2 as int };
            let hi: int = if c1 <= c2 { c2 as int } else { c1 as int };
            let end: int = if hi < g.cols { hi + 1 } else { g.cols as int };
            selection_spec(g, (c1, l1), (c2, l2), true) == trim_end(chars_between(g, l1 as int, lo, end))
                + seq!['\n'] + selection_spec(g, (c1, (l1 + 1) as i32), (c2, l2), true)
        }),
{
    let a = (c1, l1);
    let h = (c2, l2);
    let a2 = (c1, (l1 + 1) as i32);
    let (oa, oh) = ordered(a2, h);
    assert(oa.1 == a2.1 && oh.1 == h.1);
    assert forall|line: int| a2.1 <= line < l2 + 1 implies #[trigger] line_piece(g, a, h, true, line)
        == line_piece(g, oa, oh, true, line) by {}
    lemma_pieces_split(g, a, h, oa, oh, true, l2 + 1);
}

/// A selection within one line, linewise or block, is that line's cells from
/// the smaller to the larger endpoint column (cut at the grid's edge), spacers
/// skipped and trailing whitespace trimmed.
pub proof fn lemma_linewise_on_one_line(g: LineGrid, c1: usize, c2: usize, line: i32)
    ensures
        selection_spec(g, (c1, line), (c2, line), false) == selection_spec(g, (c1, line), (c2, line), true),
{
    let (a, h) = ordered((c1, line), (c2, line));
    assert(line_piece(g, a, h, false, line as int) == line_piece(g, a, h, true, line as int));
    assert(pieces_upto(g, a, h, false, line + 1) == pieces_upto(g, a, h, false, line as int) + line_piece(g, a, h, false, line as int));
    assert(pieces_upto(g, a, h, true, line + 1) == pieces_upto(g, a, h, true, line as int) + line_piece(g, a, h, true, line as int));
}

/// One search hit: `len` characters from column `col` of absolute line `line`.
#[derive(Clone, Copy, Debug, PartialEq, Eq, Structural)]
pub struct SearchMatch {
    pub line: i32,
    pub col: usize,
    pub len: usize,
}

/// The first position `>= from` at which `want` occurs in `hay`.
pub open spec fn find_from(hay: Seq<char>, want: Seq<char>, from: int) -> Option<int>
    decreases hay.len() + 1 - from,
{
    if from < 0 || from + want.len() > hay.len() {
        None
    } else if hay.subrange(from, from + want.len()) == want {
        Some(from)
    } else {
        find_from(hay, want, from + 1)
    }
}

/// The step from one hit to where the search resumes.
pub open spec fn step_len(want: Seq<char>) -> int {
    if want.len() == 0 { 1 } else { want.len() as int }
}

/// The positions of the successive non-overlapping occurrences of `want` in
/// `hay`, searching from `from`.
pub open spec fn occurrences(hay: Seq<char>, want: Seq<char>, from: int) -> Seq<int>
    decreases hay.len() + 1 - from,
{
    if from < 0 || from > hay.len() {
        seq![]
    } else {
        match find_from(hay, want, from) {
            None => seq![],
            Some(p) => if from <= p && p + step_len(want) <= hay.len() + 1 {
                seq![p] + occurrences(hay, want, p + step_len(want))
            } else {
                seq![]
            },
        }
    }
}

/// A line as searched: its characters, with wide-character spacers as NUL.
pub open spec fn line_text(cells: Seq<TextCell>) -> Seq<char> {
    cells.map_values(|c: TextCell| if c.spacer { '\0' } else { c.c })
}

/// What the search compares on a line: its text, lowercased unless the search
/// is case-sensitive.
pub open spec fn haystack(cells: Seq<TextCell>, case_sensitive: bool) -> Seq<char> {
    if case_sensitive { line_text(cells) } else { lower(line_text(cells)) }
}

/// What the search looks for: the needle, lowercased unless case-sensitive.
pub open spec fn wanted(needle: Seq<char>, case_sensitive: bool) -> Seq<char> {
    if case_sensitive { needle } else { lower(needle) }
}

/// The hits of lines `0..n` of `g`, line by line, left to right.
pub open spec fn hits_upto(g: LineGrid, want: Seq<char>, case_sensitive: bool, n: int) -> Seq<(int, int, int)>
    decreases n,
{
    if n <= 0 {
        seq![]
    } else {
        hits_upto(g, want, case_sensitive, n - 1) + occurrences(
            haystack(g.lines@[n - 1]@, case_sensitive),
            want,
            0,
        ).map_values(|p: int| (g.top + n - 1, p, want.len() as int))
    }
}

/// Every hit of `needle` on the lines of `g` (none for an empty needle).
pub open spec fn search_spec(g: LineGrid, needle: Seq<char>, case_sensitive: bool) -> Seq<(int, int, int)> {
    if needle.len() == 0 {
        seq![]
    } else {
        hits_upto(g, wanted(needle, case_sensitive), case_sensitive, g.lines@.len() as int)
    }
}

pub open spec fn hit_view(m: SearchMatch) -> (int, int, int) {
    (m.line as int, m.col as int, m.len as int)
}

/// Whether `want` occurs in `hay` at `p`.
fn occurs_at(hay: &Vec<char>, want: &Vec<char>, p: usize) -> (r: bool)
    requires
        p + want@.len() <= hay@.len(),
    ensures
        r == (hay@.subrange(p as int, p + want@.len()) == want@),
{
    let mut k: usize = 0;
    while k < want.len()
        invariant
            p + want@.len() <= hay@.len(),
            k <= want@.len(),
            forall|j: int| 0 <= j < k ==> hay@[p + j] == want@[j],
        decreases want@.len() - k,
    {
        assert(p + k < hay.len());
        if hay[p + k] != want[k] {
            assert(hay@.subrange(p as int, p + want@.len())[k as int] != want@[k as int]);
            return false;
        }
        k = k + 1;
    }
    assert(hay@.subrange(p as int, p + want@.len()) =~= want@);
    true
}

/// The first occurrence of `want` in `hay` at or after `from`.
fn find_in(hay: &Vec<char>, want: &Vec<char>, from: usize) -> (r: Option<usize>)
    requires
        from <= hay@.len(),
    ensures
        match r {
            Some(p) => find_from(hay@, want@, from as int) == Some(p as int),
            None => find_from(hay@, want@, from as int) is None,
        },
{
    if want.len() > hay.len() {
        proof { lemma_find_none(hay@, want@, from as int); }
        return None;
    }
    let mut p: usize = from;
    while p <= hay.len() && hay.len() - p >= want.len()
        invariant
            from <= p,
            want@.len() <= hay@.len(),
            find_from(hay@, want@, from as int) == find_from(hay@, want@, p as int),
        decreases hay@.len() + 1 - p,
    {
        if occurs_at(hay, want, p) {
            return Some(p);
        }
        assert(want@.len() > 0) by {
            if want@.len() == 0 {
                assert(hay@.subrange(p as int, p as int) =~= want@);
            }
        }
        p = p + 1;
    }
    None
}

proof fn lemma_find_none(hay: Seq<char>, want: Seq<char>, from: int)
    requires
        want.len() > hay.len(),
    ensures
        find_from(hay, want, from) is None,
{
}

proof fn lemma_find_at_least(hay: Seq<char>, want: Seq<char>, from: int)
    ensures
        find_from(hay, want, from) matches Some(p) ==> from <= p && p + want.len() <= hay.len(),
    decreases hay.len() + 1 - from,
{
    if from >= 0 && from + want.len() <= hay.len() && hay.subrange(from, from + want.len()) != want {
        lemma_find_at_least(hay, want, from + 1);
    }
}

/// Appends the hits of `want` on one line (`hay`, absolute line `line`).
fn push_line_hits(hits: &mut Vec<SearchMatch>, hay: &Vec<char>, want: &Vec<char>, line: i32)
    requires
        want@.len() > 0,
    ensures
        final(hits)@.map_values(|m: SearchMatch| hit_view(m)) == old(hits)@.map_values(
            |m: SearchMatch| hit_view(m),
        ) + occurrences(hay@, want@, 0).map_values(
            |p: int| (line as int, p, want@.len() as int),
        ),
{
    let ghost h0 = old(hits)@.map_values(|m: SearchMatch| hit_view(m));
    let ghost f = |p: int| (line as int, p, want@.len() as int);
    let mut from: usize = 0;
    let mut done = false;
    while !done
        invariant
            want@.len() > 0,
            from <= hay@.len() + 1,
            done ==> hits@.map_values(|m: SearchMatch| hit_view(m)) == h0 + occurrences(
                hay@,
                want@,
                0,
            ).map_values(f),
            !done ==> from <= hay@.len() && occurrences(hay@, want@, 0).map_values(f)
                == hits@.map_values(|m: SearchMatch| hit_view(m)).subrange(h0.len() as int, hits@.len() as int)
                + occurrences(hay@, want@, from as int).map_values(f),
            !done ==> hits@.map_values(|m: SearchMatch| hit_view(m)).subrange(0, h0.len() as int) == h0,
            !done ==> h0.len() <= hits@.len(),
            f == (|p: int| (line as int, p, want@.len() as int)),
        decreases hay@.len() + 1 - from, if done { 0int } else { 1int },
    {
        let ghost hv = hits@.map_values(|m: SearchMatch| hit_view(m));
        let ghost occ = occurrences(hay@, want@, from as int);
        proof { lemma_find_at_least(hay@, want@, from as int); }
        match find_in(hay, want, from) {
            Some(p) => {
                assert(p + want.len() <= hay.len());
                hits.push(SearchMatch { line, col: p, len: want.len() });
                let ghost hv2 = hits@.map_values(|m: SearchMatch| hit_view(m));
                assert(hv2 =~= hv.push((line as int, p as int, want@.len() as int)));
                assert(occ == seq![p as int] + occurrences(hay@, want@, p + want@.len()));
                assert(occ.map_values(f) =~= seq![f(p as int)] + occurrences(hay@, want@, p + want@.len()).map_values(f));
                from = p + want.len();
                assert(hv2.subrange(h0.len() as int, hv2.len() as int) =~= hv.subrange(h0.len() as int, hv.len() as int).push(f(p as int)));
                assert(hv2.subrange(0, h0.len() as int) =~= hv.subrange(0, h0.len() as int));
            },
            None => {
                assert(occ =~= Seq::<int>::empty());
                assert(hv =~= hv.subrange(0, h0.len() as int) + hv.subrange(h0.len() as int, hv.len() as int));
                done = true;
            },
        }
    }
}

/// Scans every line of `g` for `needle`, returning one hit per non-overlapping
/// occurrence, line by line and left to right; the column is the character
/// position on the line and the length the searched text's character count.
/// A case-insensitive search compares the lowercased line with the lowercased
/// needle. Wide-character spacers read as NUL.
pub fn search(g: &LineGrid, needle: &str, case_sensitive: bool) -> (hits: Vec<SearchMatch>)
    requires
        g.top + g.lines@.len() <= i32::MAX + 1,
    ensures
        hits@.map_values(|m: SearchMatch| hit_view(m)) == search_spec(*g, needle@, case_sensitive),
{
    let mut hits: Vec<SearchMatch> = Vec::new();
    let needle_chars = chars_of(needle);
    if needle_chars.len() == 0 {
        assert(hits@.map_values(|m: SearchMatch| hit_view(m)) =~= Seq::<(int, int, int)>::empty());
        return hits;
    }
    let want: Vec<char> = if case_sensitive {
        needle_chars
    } else {
        let w = to_lower(needle);
        chars_of(w.as_str())
    };
    let mut i: usize = 0;
    assert(hits@.map_values(|m: SearchMatch| hit_view(m)) =~= hits_upto(*g, want@, case_sensitive, 0));
    while i < g.lines.len()
        invariant
            g.top + g.lines@.len() <= i32::MAX + 1,
            want@ == wanted(needle@, case_sensitive),
            want@.len() > 0,
            i <= g.lines@.len(),
            hits@.map_values(|m: SearchMatch| hit_view(m)) == hits_upto(*g, want@, case_sensitive, i as int),
        decreases g.lines@.len() - i,
    {
        let row = &g.lines[i];
        let mut text: Vec<char> = Vec::new();
        let mut c: usize = 0;
        while c < row.len()
            invariant
                c <= row@.len(),
                text@ == line_text(row@.subrange(0, c as int)),
            decreases row@.len() - c,
        {
            let cell = row[c];
            text.push(if cell.spacer { '\0' } else { cell.c });
            c = c + 1;
            assert(text@ =~= line_text(row@.subrange(0, c as int)));
        }
        assert(row@.subrange(0, row@.len() as int) =~= row@);
        let hay: Vec<char> = if case_sensitive {
            text
        } else {
            let t = string_of_chars(&text);
            let l = to_lower(t.as_str());
            chars_of(l.as_str())
        };
        let line: i32 = (g.top as i64 + i as i64) as i32;
        push_line_hits(&mut hits, &hay, &want, line);
        i = i + 1;
    }
    hits
}


proof fn lemma_find_sound(hay: Seq<char>, want: Seq<char>, from: int)
    ensures
        find_from(hay, want, from) matches Some(p) ==> hay.subrange(p, p + want.len()) == want,
    decreases hay.len() + 1 - from,
{
    if from >= 0 && from + want.len() <= hay.len() && hay.subrange(from, from + want.len()) != want {
        lemma_find_sound(hay, want, from + 1);
    }
}

/// Each position `occurrences` reports is an occurrence of `want` at or after
/// `from`, and successive ones do not overlap.
pub proof fn lemma_occurrences_sound(hay: Seq<char>, want: Seq<char>, from: int)
    ensures
        forall|k: int|
            0 <= k < occurrences(hay, want, from).len() ==> {
                let p = #[trigger] occurrences(hay, want, from)[k];
                &&& from <= p
                &&& p + want.len() <= hay.len()
                &&& hay.subrange(p, p + want.len()) == want
            },
        forall|k: int|
            0 <= k < occurrences(hay, want, from).len() - 1 ==> #[trigger] occurrences(hay, want, from)[k]
                + want.len() <= occurrences(hay, want, from)[k + 1],
    decreases hay.len() + 1 - from,
{
    if from >= 0 && from <= hay.len() {
        lemma_find_at_least(hay, want, from);
        lemma_find_sound(hay, want, from);
        match find_from(hay, want, from) {
            None => {},
            Some(p) => {
                if from <= p && p + step_len(want) <= hay.len() + 1 {
                    let rest = occurrences(hay, want, p + step_len(want));
                    lemma_occurrences_sound(hay, want, p + step_len(want));
                    let all = occurrences(hay, want, from);
                    assert(all == seq![p] + rest);
                    assert forall|k: int| 0 <= k < all.len() implies {
                        let q = #[trigger] all[k];
                        &&& from <= q
                        &&& q + want.len() <= hay.len()
                        &&& hay.subrange(q, q + want.len()) == want
                    } by {
                        if k > 0 {
                            assert(all[k] == rest[k - 1]);
                        }
                    }
                    assert forall|k: int| 0 <= k < all.len() - 1 implies #[trigger] all[k]
                        + want.len() <= all[k + 1] by {
                        assert(all[k + 1] == rest[k]);
                        if k > 0 {
                            assert(all[k] == rest[k - 1]);
                        }
                    }
                }
            },
        }
    }
}

/// Every search hit is a real occurrence: the `len` characters from `col` on
/// its line (lowercased for a case-insensitive search) are exactly the searched
/// text, and the hit's line is one of the grid's lines.
pub proof fn lemma_hits_are_occurrences(g: LineGrid, needle: Seq<char>, case_sensitive: bool, n: int)
    requires
        0 <= n <= g.lines@.len(),
        needle.len() > 0,
    ensures
        forall|k: int|
            0 <= k < hits_upto(g, wanted(needle, case_sensitive), case_sensitive, n).len() ==> {
                let h = #[trigger] hits_upto(g, wanted(needle, case_sensitive), case_sensitive, n)[k];
                let hay = haystack(g.lines@[h.0 - g.top]@, case_sensitive);
                &&& g.top <= h.0 < g.top + n
                &&& 0 <= h.1
                &&& h.1 + h.2 <= hay.len()
                &&& hay.subrange(h.1, h.1 + h.2) == wanted(needle, case_sensitive)
            },
    decreases n,
{
    if n > 0 {
        let want = wanted(needle, case_sensitive);
        lemma_hits_are_occurrences(g, needle, case_sensitive, n - 1);
        let prev = hits_upto(g, want, case_sensitive, n - 1);
        let hay = haystack(g.lines@[n - 1]@, case_sensitive);
        let occ = occurrences(hay, want, 0);
        lemma_occurrences_sound(hay, want, 0);
        let f = |p: int| (g.top + n - 1, p, want.len() as int);
        let cur = hits_upto(g, want, case_sensitive, n);
        assert(cur == prev + occ.map_values(f));
        assert forall|k: int| 0 <= k < cur.len() implies {
            let h = #[trigger] cur[k];
            let hay2 = haystack(g.lines@[h.0 - g.top]@, case_sensitive);
            &&& g.top <= h.0 < g.top + n
            &&& 0 <= h.1
            &&& h.1 + h.2 <= hay2.len()
            &&& hay2.subrange(h.1, h.1 + h.2) == want
        } by {
            if k < prev.len() {
                assert(cur[k] == prev[k]);
            } else {
                let j = k - prev.len();
                assert(cur[k] == f(occ[j]));
                assert(0 <= occ[j]);
            }
        }
    }
}


/// The search never skips an occurrence: whenever `want` occurs at some `p` at
/// or after `from` (ending anywhere up to the end of `hay`, the end included),
/// the search from `from` finds one, no later than `p`, and no occurrence lies
/// between `from` and the one it finds.
pub proof fn lemma_find_complete(hay: Seq<char>, want: Seq<char>, from: int, p: int)
    requires
        0 <= from <= p,
        p + want.len() <= hay.len(),
        hay.subrange(p, p + want.len()) == want,
    ensures
        find_from(hay, want, from) matches Some(q) && from <= q <= p && hay.subrange(q, q + want.len())
            == want,
        forall|j: int|
            from <= j < find_from(hay, want, from)->0 ==> #[trigger] hay.subrange(j, j + want.len())
                != want,
    decreases p - from,
{
    if hay.subrange(from, from + want.len()) != want {
        lemma_find_complete(hay, want, from + 1, p);
    }
}

/// Every occurrence of a non-empty `want` at or after `from` is reported or
/// lies inside a reported one: the reported occurrences are exactly the
/// greedy left-to-right non-overlapping ones.
pub proof fn lemma_occurrences_complete(hay: Seq<char>, want: Seq<char>, from: int, p: int)
    requires
        want.len() > 0,
        0 <= from <= p,
        p + want.len() <= hay.len(),
        hay.subrange(p, p + want.len()) == want,
    ensures
        exists|k: int|
            0 <= k < occurrences(hay, want, from).len() && #[trigger] occurrences(hay, want, from)[k] <= p
                < occurrences(hay, want, from)[k] + want.len(),
    decreases hay.len() + 1 - from,
{
    lemma_find_complete(hay, want, from, p);
    let q = find_from(hay, want, from)->0;
    let all = occurrences(hay, want, from);
    let rest = occurrences(hay, want, q + want.len());
    assert(all == seq![q] + rest);
    if p < q + want.len() {
        assert(all[0] == q);
    } else {
        lemma_occurrences_complete(hay, want, q + want.len(), p);
        let k = choose|k: int| 0 <= k < rest.len() && #[trigger] rest[k] <= p < rest[k] + want.len();
        assert(all[k + 1] == rest[k]);
    }
}

proof fn lemma_hits_complete(g: LineGrid, want: Seq<char>, case_sensitive: bool, n: int, i: int, p: int)
    requires
        want.len() > 0,
        0 <= i < n <= g.lines@.len(),
        0 <= p,
        p + want.len() <= haystack(g.lines@[i]@, case_sensitive).len(),
        haystack(g.lines@[i]@, case_sensitive).subrange(p, p + want.len()) == want,
    ensures
        exists|k: int|
            0 <= k < hits_upto(g, want, case_sensitive, n).len() && (#[trigger] hits_upto(
                g,
                want,
                case_sensitive,
                n,
            )[k]).0 == g.top + i && hits_upto(g, want, case_sensitive, n)[k].1 <= p < hits_upto(
                g,
                want,
                case_sensitive,
                n,
            )[k].1 + hits_upto(g, want, case_sensitive, n)[k].2,
    decreases n,
{
    let prev = hits_upto(g, want, case_sensitive, n - 1);
    let hay = haystack(g.lines@[n - 1]@, case_sensitive);
    let occ = occurrences(hay, want, 0);
    let f = |q: int| (g.top + n - 1, q, want.len() as int);
    let cur = hits_upto(g, want, case_sensitive, n);
    assert(cur == prev + occ.map_values(f));
    if i < n - 1 {
        lemma_hits_complete(g, want, case_sensitive, n - 1, i, p);
        let k = choose|k: int|
            0 <= k < prev.len() && (#[trigger] prev[k]).0 == g.top + i && prev[k].1 <= p < prev[k].1
                + prev[k].2;
        assert(cur[k] == prev[k]);
    } else {
        lemma_occurrences_complete(hay, want, 0, p);
        let j = choose|j: int| 0 <= j < occ.len() && #[trigger] occ[j] <= p < occ[j] + want.len();
        assert(cur[prev.len() + j] == f(occ[j]));
    }
}

/// Search misses nothing: every occurrence of the (non-empty) searched text on
/// any line of the grid, including one that ends on the line's last column,
/// is a reported hit on that line or lies inside one.
pub proof fn lemma_search_finds_every_occurrence(
    g: LineGrid,
    needle: Seq<char>,
    case_sensitive: bool,
    i: int,
    p: int,
)
    requires
        needle.len() > 0,
        wanted(needle, case_sensitive).len() > 0,
        0 <= i < g.lines@.len(),
        0 <= p,
        p + wanted(needle, case_sensitive).len() <= haystack(g.lines@[i]@, case_sensitive).len(),
        haystack(g.lines@[i]@, case_sensitive).subrange(p, p + wanted(needle, case_sensitive).len())
            == wanted(needle, case_sensitive),
    ensures
        exists|k: int|
            0 <= k < search_spec(g, needle, case_sensitive).len() && (#[trigger] search_spec(
                g,
                needle,
                case_sensitive,
            )[k]).0 == g.top + i && search_spec(g, needle, case_sensitive)[k].1 <= p < search_spec(
                g,
                needle,
                case_sensitive,
            )[k].1 + search_spec(g, needle, case_sensitive)[k].2,
{
    let want = wanted(needle, case_sensitive);
    lemma_hits_complete(g, want, case_sensitive, g.lines@.len() as int, i, p);
    assert(search_spec(g, needle, case_sensitive) == hits_upto(g, want, case_sensitive, g.lines@.len() as int));
}

} // verus!
