//! Per-line damage of a rendered pane, computed by diffing the grid just
//! rendered against the previous one (a diff of the actual output cannot miss a
//! change), widened by the old and new cursor cells when only the cursor moved.

use vstd::prelude::*;
use crate::pane::CursorPos;

verus! {

/// An RGB colour.
#[derive(Clone, Copy, Debug, PartialEq, Eq, Structural)]
pub struct Rgb {
    pub r: u8,
    pub g: u8,
    pub b: u8,
}

/// The text attributes a rendered cell keeps.
#[derive(Clone, Copy, Debug, PartialEq, Eq, Structural)]
pub struct CellAttrs {
    pub bold: bool,
    pub underline: bool,
    pub italic: bool,
    pub strikeout: bool,
}

/// One rendered cell: its character and resolved colours.
#[derive(Clone, Copy, Debug, PartialEq, Eq, Structural)]
pub struct SnapCell {
    pub c: char,
    pub fg: Rgb,
    pub bg: Rgb,
    pub attrs: CellAttrs,
}

/// The changed span `left..=right` of one line.
#[derive(Clone, Copy, Debug, PartialEq, Eq, Structural)]
pub struct CellDamage {
    pub line: usize,
    pub left: usize,
    pub right: usize,
}

/// What must be redrawn.
#[derive(Clone, Debug)]
pub enum Damage {
    /// Everything.
    Full,
    /// Only these spans (empty when nothing changed).
    Lines(Vec<CellDamage>),
}

/// The first column `>= c` where `new` and `old` differ, if any (columns of `new`).
pub open spec fn first_diff_from(new: Seq<SnapCell>, old: Seq<SnapCell>, c: int) -> Option<int>
    decreases new.len() - c,
{
    if c < 0 || c >= new.len() {
        None
    } else if new[c] != old[c] {
        Some(c)
    } else {
        first_diff_from(new, old, c + 1)
    }
}

/// The last column `< c` where `new` and `old` differ, if any.
pub open spec fn last_diff_below(new: Seq<SnapCell>, old: Seq<SnapCell>, c: int) -> Option<int>
    decreases c,
{
    if c <= 0 {
        None
    } else if new[c - 1] != old[c - 1] {
        Some(c - 1)
    } else {
        last_diff_below(new, old, c - 1)
    }
}

pub open spec fn or_zero(o: Option<int>) -> int {
    match o {
        Some(x) => x,
        None => 0,
    }
}

/// The first and last changed columns of a line, when it changed at all.
pub open spec fn diff_span(new: Seq<SnapCell>, old: Seq<SnapCell>) -> Option<(int, int)> {
    if new != old {
        Some((or_zero(first_diff_from(new, old, 0)), or_zero(last_diff_below(new, old, new.len() as int))))
    } else {
        None
    }
}

/// The `(line, column)` cell of a drawn cursor, when it lies on a `rows` x `cols` grid.
pub open spec fn on_grid(c: Option<CursorPos>, rows: nat, cols: nat) -> Option<(usize, usize)> {
    match c {
        Some(p) => if p.line < rows && p.col < cols {
            Some((p.line, p.col))
        } else {
            None
        },
        None => None,
    }
}

/// The cells the cursor adds to the damage: none when its cell is unchanged,
/// otherwise the previous cell and the new one (either may be absent).
pub open spec fn moved_marks(prev: Option<CursorPos>, cur: Option<CursorPos>, rows: nat, cols: nat) -> (
    Option<(usize, usize)>,
    Option<(usize, usize)>,
) {
    if on_grid(prev, rows, cols) == on_grid(cur, rows, cols) {
        (None, None)
    } else {
        (on_grid(prev, rows, cols), on_grid(cur, rows, cols))
    }
}

/// The marked cell lies on line `i`.
pub open spec fn mark_on(m: Option<(usize, usize)>, i: int) -> bool {
    m matches Some(p) && p.0 == i
}

/// The marked cell is `(i, j)`.
pub open spec fn mark_at(m: Option<(usize, usize)>, i: int, j: int) -> bool {
    m matches Some(p) && p.0 == i && p.1 == j
}

/// Span `sp` of line `i`, stretched to take in the marked cell when it lies on that line.
pub open spec fn widen(sp: Option<(int, int)>, m: Option<(usize, usize)>, i: int) -> Option<(int, int)> {
    match m {
        Some(p) => if p.0 == i {
            match sp {
                Some(s) => Some(
                    (if (p.1 as int) < s.0 { p.1 as int } else { s.0 }, if (p.1 as int) > s.1 { p.1 as int } else { s.1 }),
                ),
                None => Some((p.1 as int, p.1 as int)),
            }
        } else {
            sp
        },
        None => sp,
    }
}

/// The span reported for line `i`: its changed columns and the cursor cells on it.
pub open spec fn line_damage(
    i: int,
    new: Seq<SnapCell>,
    old: Seq<SnapCell>,
    ma: Option<(usize, usize)>,
    mb: Option<(usize, usize)>,
) -> Option<(int, int)> {
    widen(widen(diff_span(new, old), ma, i), mb, i)
}

/// The spans of the first `n` line pairs, one per damaged line, in order.
pub open spec fn spans_upto(
    new: Seq<Seq<SnapCell>>,
    old: Seq<Seq<SnapCell>>,
    ma: Option<(usize, usize)>,
    mb: Option<(usize, usize)>,
    n: int,
) -> Seq<(int, int, int)>
    decreases n,
{
    if n <= 0 {
        seq![]
    } else {
        spans_upto(new, old, ma, mb, n - 1) + match line_damage(n - 1, new[n - 1], old[n - 1], ma, mb) {
            Some(s) => seq![(n - 1, s.0, s.1)],
            None => seq![],
        }
    }
}

/// The views of a grid.
pub open spec fn grid_view(g: Seq<Vec<SnapCell>>) -> Seq<Seq<SnapCell>> {
    g.map_values(|r: Vec<SnapCell>| r@)
}

pub open spec fn span_view(d: CellDamage) -> (int, int, int) {
    (d.line as int, d.left as int, d.right as int)
}

/// The previous frame has the size of the new one: as many lines, a first line
/// `cols` wide, and at least one line.
pub open spec fn same_dims(last: Seq<Seq<SnapCell>>, new_len: nat, cols: nat) -> bool {
    last.len() == new_len && last.len() > 0 && last[0].len() == cols
}

/// The damage between the previous frame `last` (drawn with cursor `prev`) and
/// the new rows (drawn with cursor `cur`): `Full` when the size changed (or on
/// the first frame), otherwise one span per line that changed or holds a cell
/// the cursor left or entered.
pub open spec fn damage_spec(
    last: Seq<Seq<SnapCell>>,
    new: Seq<Seq<SnapCell>>,
    cols: nat,
    prev: Option<CursorPos>,
    cur: Option<CursorPos>,
) -> Option<Seq<(int, int, int)>> {
    if !same_dims(last, new.len(), cols) {
        None
    } else {
        let marks = moved_marks(prev, cur, new.len(), cols);
        Some(spans_upto(new, last, marks.0, marks.1, new.len() as int))
    }
}

pub open spec fn damage_view(d: Damage) -> Option<Seq<(int, int, int)>> {
    match d {
        Damage::Full => None,
        Damage::Lines(v) => Some(v@.map_values(|s: CellDamage| span_view(s))),
    }
}

/// Rows that differ are no longer in the new frame than in the previous one.
pub open spec fn diffable(last: Seq<Seq<SnapCell>>, new: Seq<Seq<SnapCell>>) -> bool {
    forall|i: int|
        0 <= i < new.len() && i < last.len() && new[i] != last[i] ==> new[i].len() <= last[i].len()
}

fn rows_equal(a: &Vec<SnapCell>, b: &Vec<SnapCell>) -> (r: bool)
    ensures
        r == (a@ == b@),
{
    if a.len() != b.len() {
        return false;
    }
    let mut c: usize = 0;
    while c < a.len()
        invariant
            c <= a@.len() == b@.len(),
            forall|j: int| 0 <= j < c ==> a@[j] == b@[j],
        decreases a@.len() - c,
    {
        if a[c] != b[c] {
            return false;
        }
        c = c + 1;
    }
    assert(a@ =~= b@);
    true
}

fn first_diff(new: &Vec<SnapCell>, old: &Vec<SnapCell>) -> (r: usize)
    requires
        new@.len() <= old@.len(),
    ensures
        r as int == or_zero(first_diff_from(new@, old@, 0)),
{
    let mut c: usize = 0;
    while c < new.len()
        invariant
            c <= new@.len() <= old@.len(),
            first_diff_from(new@, old@, 0) == first_diff_from(new@, old@, c as int),
        decreases new@.len() - c,
    {
        if new[c] != old[c] {
            return c;
        }
        c = c + 1;
    }
    0
}

fn last_diff(new: &Vec<SnapCell>, old: &Vec<SnapCell>) -> (r: usize)
    requires
        new@.len() <= old@.len(),
    ensures
        r as int == or_zero(last_diff_below(new@, old@, new@.len() as int)),
{
    let mut c: usize = new.len();
    while c > 0
        invariant
            c <= new@.len() <= old@.len(),
            last_diff_below(new@, old@, new@.len() as int) == last_diff_below(new@, old@, c as int),
        decreases c,
    {
        if new[c - 1] != old[c - 1] {
            return c - 1;
        }
        c = c - 1;
    }
    0
}

pub open spec fn span_int(sp: Option<(usize, usize)>) -> Option<(int, int)> {
    match sp {
        Some(s) => Some((s.0 as int, s.1 as int)),
        None => None,
    }
}

fn cursor_cell(c: Option<CursorPos>, rows: usize, cols: usize) -> (r: Option<(usize, usize)>)
    ensures
        r == on_grid(c, rows as nat, cols as nat),
{
    match c {
        Some(p) => if p.line < rows && p.col < cols {
            Some((p.line, p.col))
        } else {
            None
        },
        None => None,
    }
}

fn same_cell(a: Option<(usize, usize)>, b: Option<(usize, usize)>) -> (r: bool)
    ensures
        r == (a == b),
{
    match (a, b) {
        (Some(x), Some(y)) => x.0 == y.0 && x.1 == y.1,
        (None, None) => true,
        _ => false,
    }
}

fn widen_span(sp: Option<(usize, usize)>, m: Option<(usize, usize)>, i: usize) -> (r: Option<(usize, usize)>)
    ensures
        span_int(r) == widen(span_int(sp), m, i as int),
{
    match m {
        Some(p) => if p.0 == i {
            match sp {
                Some(s) => Some((if p.1 < s.0 { p.1 } else { s.0 }, if p.1 > s.1 { p.1 } else { s.1 })),
                None => Some((p.1, p.1)),
            }
        } else {
            sp
        },
        None => sp,
    }
}

/// Per-line damage of the new frame `rows` (`cols` wide, drawn with cursor
/// `cursor`) against the previously rendered grid `last` (drawn with cursor
/// `prev_cursor`): `Full` on the first frame or a size change; otherwise
/// `Lines` with each damaged row's `left..=right` span, where a row is damaged
/// when one of its cells changed or the cursor left or entered one of its
/// cells (empty when nothing changed, so an idle pane reports no damage).
pub fn frame_damage(
    last: &Vec<Vec<SnapCell>>,
    rows: &Vec<Vec<SnapCell>>,
    cols: usize,
    prev_cursor: Option<CursorPos>,
    cursor: Option<CursorPos>,
) -> (d: Damage)
    requires
        same_dims(grid_view(last@), rows@.len(), cols as nat) ==> diffable(grid_view(last@), grid_view(rows@)),
    ensures
        damage_view(d) == damage_spec(grid_view(last@), grid_view(rows@), cols as nat, prev_cursor, cursor),
{
    let ghost lv = grid_view(last@);
    let ghost nv = grid_view(rows@);
    let same = last.len() == rows.len() && last.len() > 0 && last[0].len() == cols;
    if !same {
        return Damage::Full;
    }
    let was = cursor_cell(prev_cursor, rows.len(), cols);
    let now = cursor_cell(cursor, rows.len(), cols);
    let (ma, mb) = if same_cell(was, now) { (None, None) } else { (was, now) };
    assert((ma, mb) == moved_marks(prev_cursor, cursor, nv.len(), cols as nat));
    let mut lines: Vec<CellDamage> = Vec::new();
    let mut i: usize = 0;
    while i < rows.len()
        invariant
            i <= rows@.len() == last@.len(),
            lv == grid_view(last@),
            nv == grid_view(rows@),
            diffable(lv, nv),
            lines@.map_values(|s: CellDamage| span_view(s)) == spans_upto(nv, lv, ma, mb, i as int),
        decreases rows@.len() - i,
    {
        let new = &rows[i];
        let old = &last[i];
        assert(new@ == nv[i as int] && old@ == lv[i as int]);
        let ghost before = lines@;
        let diff = if !rows_equal(new, old) {
            Some((first_diff(new, old), last_diff(new, old)))
        } else {
            None
        };
        assert(span_int(diff) == diff_span(new@, old@));
        let span = widen_span(widen_span(diff, ma, i), mb, i);
        if let Some((left, right)) = span {
            lines.push(CellDamage { line: i, left, right });
            assert(lines@ == before.push(CellDamage { line: i, left, right }));
        }
        i = i + 1;
        assert(lines@.map_values(|s: CellDamage| span_view(s)) =~= spans_upto(nv, lv, ma, mb, i as int));
    }
    Damage::Lines(lines)
}

proof fn lemma_first_diff(new: Seq<SnapCell>, old: Seq<SnapCell>, c: int, j: int)
    requires
        0 <= c <= j < new.len(),
        j < old.len(),
        new[j] != old[j],
    ensures
        first_diff_from(new, old, c) matches Some(f) && c <= f <= j && new[f] != old[f],
    decreases j - c,
{
    if new[c] == old[c] {
        lemma_first_diff(new, old, c + 1, j);
    }
}

proof fn lemma_last_diff(new: Seq<SnapCell>, old: Seq<SnapCell>, c: int, j: int)
    requires
        0 <= j < c <= new.len(),
        c <= old.len(),
        new[j] != old[j],
    ensures
        last_diff_below(new, old, c) matches Some(l) && j <= l < c && new[l] != old[l],
    decreases c - j,
{
    if new[c - 1] == old[c - 1] {
        lemma_last_diff(new, old, c - 1, j);
    }
}

proof fn lemma_diff_span(new: Seq<SnapCell>, old: Seq<SnapCell>)
    requires
        new.len() == old.len(),
        new != old,
    ensures
        diff_span(new, old) matches Some(s) && {
            &&& 0 <= s.0 < new.len() && new[s.0] != old[s.0]
            &&& 0 <= s.1 < new.len() && new[s.1] != old[s.1]
            &&& forall|j: int| 0 <= j < new.len() && new[j] != old[j] ==> s.0 <= j <= s.1
        },
{
    if forall|j: int| 0 <= j < new.len() ==> new[j] == old[j] {
        assert(new =~= old);
    }
    let w = choose|j: int| 0 <= j < new.len() && new[j] != old[j];
    lemma_first_diff(new, old, 0, w);
    lemma_last_diff(new, old, new.len() as int, w);
    let s = diff_span(new, old)->0;
    assert forall|j: int| 0 <= j < new.len() && new[j] != old[j] implies s.0 <= j <= s.1 by {
        lemma_first_diff(new, old, 0, j);
        lemma_last_diff(new, old, new.len() as int, j);
    }
}

/// The cell at `(i, j)` changed between the frames.
pub open spec fn cell_changed(new: Seq<Seq<SnapCell>>, last: Seq<Seq<SnapCell>>, i: int, j: int) -> bool {
    0 <= i < new.len() && 0 <= j < new[i].len() && new[i][j] != last[i][j]
}

/// Both frames have the same number of lines, each as wide as its counterpart.
pub open spec fn same_shape(last: Seq<Seq<SnapCell>>, new: Seq<Seq<SnapCell>>) -> bool {
    &&& new.len() == last.len()
    &&& forall|i: int| 0 <= i < new.len() ==> #[trigger] new[i].len() == last[i].len()
}

/// A column `j` that a span of line `i` may end on: a changed cell or a cursor cell.
pub open spec fn endpoint_ok(
    new: Seq<Seq<SnapCell>>,
    last: Seq<Seq<SnapCell>>,
    ma: Option<(usize, usize)>,
    mb: Option<(usize, usize)>,
    i: int,
    j: int,
) -> bool {
    cell_changed(new, last, i, j) || mark_at(ma, i, j) || mark_at(mb, i, j)
}

proof fn lemma_line_damage(
    new: Seq<Seq<SnapCell>>,
    last: Seq<Seq<SnapCell>>,
    ma: Option<(usize, usize)>,
    mb: Option<(usize, usize)>,
    i: int,
)
    requires
        0 <= i < new.len(),
        same_shape(last, new),
    ensures
        line_damage(i, new[i], last[i], ma, mb) is Some <==> (new[i] != last[i] || mark_on(ma, i)
            || mark_on(mb, i)),
        line_damage(i, new[i], last[i], ma, mb) matches Some(s) ==> {
            &&& forall|j: int| #[trigger] cell_changed(new, last, i, j) ==> s.0 <= j <= s.1
            &&& match ma {
                Some(p) => p.0 == i ==> s.0 <= p.1 <= s.1,
                None => true,
            }
            &&& match mb {
                Some(p) => p.0 == i ==> s.0 <= p.1 <= s.1,
                None => true,
            }
            &&& endpoint_ok(new, last, ma, mb, i, s.0)
            &&& endpoint_ok(new, last, ma, mb, i, s.1)
        },
{
    assert(new[i].len() == last[i].len());
    if new[i] != last[i] {
        lemma_diff_span(new[i], last[i]);
    }
}

/// Spans of damaged lines: each on a line below `n`, starting and ending on a
/// changed cell or a cell the cursor left or entered.
pub open spec fn spans_sound(
    spans: Seq<(int, int, int)>,
    new: Seq<Seq<SnapCell>>,
    last: Seq<Seq<SnapCell>>,
    ma: Option<(usize, usize)>,
    mb: Option<(usize, usize)>,
    n: int,
) -> bool {
    forall|k: int|
        0 <= k < spans.len() ==> {
            let s = #[trigger] spans[k];
            &&& 0 <= s.0 < n
            &&& endpoint_ok(new, last, ma, mb, s.0, s.1)
            &&& endpoint_ok(new, last, ma, mb, s.0, s.2)
        }
}

/// Every changed cell on a line below `n` lies inside a span of its line.
pub open spec fn spans_cover(spans: Seq<(int, int, int)>, new: Seq<Seq<SnapCell>>, last: Seq<Seq<SnapCell>>, n: int) -> bool {
    forall|i: int, j: int|
        i < n && #[trigger] cell_changed(new, last, i, j) ==> exists|k: int|
            0 <= k < spans.len() && (#[trigger] spans[k]).0 == i && spans[k].1 <= j <= spans[k].2
}

/// The cell `m`, when there is one on a line below `n`, lies inside a span of its line.
pub open spec fn cell_covered(spans: Seq<(int, int, int)>, m: Option<(usize, usize)>, n: int) -> bool {
    match m {
        Some(p) => (p.0 as int) < n ==> exists|k: int|
            0 <= k < spans.len() && (#[trigger] spans[k]).0 == p.0 && spans[k].1 <= p.1 <= spans[k].2,
        None => true,
    }
}

proof fn lemma_spans(
    new: Seq<Seq<SnapCell>>,
    last: Seq<Seq<SnapCell>>,
    ma: Option<(usize, usize)>,
    mb: Option<(usize, usize)>,
    n: int,
)
    requires
        0 <= n <= new.len(),
        same_shape(last, new),
    ensures
        ({
            let spans = spans_upto(new, last, ma, mb, n);
            &&& spans_sound(spans, new, last, ma, mb, n)
            &&& spans_cover(spans, new, last, n)
            &&& cell_covered(spans, ma, n)
            &&& cell_covered(spans, mb, n)
            &&& (forall|i: int| 0 <= i < n ==> new[i] == last[i]) && !(ma matches Some(p) && (p.0 as int) < n)
                && !(mb matches Some(p) && (p.0 as int) < n) ==> spans.len() == 0
        }),
    decreases n,
{
    if n > 0 {
        let i0 = n - 1;
        lemma_spans(new, last, ma, mb, i0);
        lemma_line_damage(new, last, ma, mb, i0);
        let prev = spans_upto(new, last, ma, mb, i0);
        let cur = spans_upto(new, last, ma, mb, n);
        match line_damage(i0, new[i0], last[i0], ma, mb) {
            Some(s) => {
                let sp = (i0, s.0, s.1);
                assert(cur == prev.push(sp));
                assert(cur[prev.len() as int] == sp);
                assert forall|k: int| 0 <= k < cur.len() implies {
                    let t = #[trigger] cur[k];
                    &&& 0 <= t.0 < n
                    &&& endpoint_ok(new, last, ma, mb, t.0, t.1)
                    &&& endpoint_ok(new, last, ma, mb, t.0, t.2)
                } by {
                    if k < prev.len() {
                        assert(cur[k] == prev[k]);
                    }
                }
                assert forall|i: int, j: int|
                    i < n && #[trigger] cell_changed(new, last, i, j) implies exists|k: int|
                        0 <= k < cur.len() && (#[trigger] cur[k]).0 == i && cur[k].1 <= j
                            <= cur[k].2 by {
                    if i != i0 {
                        let k = choose|k: int|
                            0 <= k < prev.len() && (#[trigger] prev[k]).0 == i && prev[k].1 <= j
                                <= prev[k].2;
                        assert(cur[k] == prev[k]);
                    }
                }
                if let Some(p) = ma {
                    if (p.0 as int) < n && p.0 as int != i0 {
                        let k = choose|k: int|
                            0 <= k < prev.len() && (#[trigger] prev[k]).0 == p.0 && prev[k].1 <= p.1
                                <= prev[k].2;
                        assert(cur[k] == prev[k]);
                    }
                }
                if let Some(p) = mb {
                    if (p.0 as int) < n && p.0 as int != i0 {
                        let k = choose|k: int|
                            0 <= k < prev.len() && (#[trigger] prev[k]).0 == p.0 && prev[k].1 <= p.1
                                <= prev[k].2;
                        assert(cur[k] == prev[k]);
                    }
                }
            },
            None => {
                assert(cur =~= prev);
                assert forall|i: int, j: int|
                    i < n && #[trigger] cell_changed(new, last, i, j) implies exists|k: int|
                        0 <= k < cur.len() && (#[trigger] cur[k]).0 == i && cur[k].1 <= j
                            <= cur[k].2 by {
                    if i == i0 {
                        assert(new[i0][j] == last[i0][j]);
                    }
                }
            },
        }
    }
}

/// Damage never misses a change. When the new frame has the previous frame's
/// shape, every cell that differs from the previous frame lies inside a span
/// reported for its line; when the cursor moved, the cell it left and the cell
/// it entered each lie inside a span of their line; every reported span starts
/// and ends on a changed cell or one of those cursor cells; and a frame
/// identical to the previous one, with the cursor on the same cell, reports no
/// spans at all.
pub proof fn lemma_damage_covers_every_change(
    last: Seq<Seq<SnapCell>>,
    new: Seq<Seq<SnapCell>>,
    cols: nat,
    prev: Option<CursorPos>,
    cur: Option<CursorPos>,
)
    requires
        same_dims(last, new.len(), cols),
        same_shape(last, new),
    ensures
        damage_spec(last, new, cols, prev, cur) matches Some(spans) && {
            let was = on_grid(prev, new.len(), cols);
            let now = on_grid(cur, new.len(), cols);
            let marks = moved_marks(prev, cur, new.len(), cols);
            &&& spans_cover(spans, new, last, new.len() as int)
            &&& spans_sound(spans, new, last, marks.0, marks.1, new.len() as int)
            &&& was != now ==> cell_covered(spans, was, new.len() as int) && cell_covered(
                spans,
                now,
                new.len() as int,
            )
            &&& new == last && was == now ==> spans.len() == 0
        },
{
    let marks = moved_marks(prev, cur, new.len(), cols);
    lemma_spans(new, last, marks.0, marks.1, new.len() as int);
}

/// A resized frame (or the first one) is redrawn in full.
pub proof fn lemma_resize_is_full(
    last: Seq<Seq<SnapCell>>,
    new: Seq<Seq<SnapCell>>,
    cols: nat,
    prev: Option<CursorPos>,
    cur: Option<CursorPos>,
)
    requires
        !same_dims(last, new.len(), cols),
    ensures
        damage_spec(last, new, cols, prev, cur) is None,
{
}

} // verus!
