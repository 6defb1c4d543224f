//! Pure logic for the anchored selection mode: how the selection head moves
//! while a selection is being composed from the keyboard.

use vstd::prelude::*;

verus! {

/// A keyboard navigation applied to the selection head while composing.
#[derive(Clone, Copy, Debug, PartialEq, Eq, Structural)]
pub enum Nav {
    Left,
    Right,
    Up,
    Down,
    LineStart,
    LineEnd,
    PageUp,
    PageDown,
    BufTop,
    BufBottom,
}

/// The range the head may move within, in the pane's coordinates. `cols` is the
/// grid width; `min_line`/`max_line` are the inclusive absolute-line bounds the
/// buffer offers (oldest scrollback line .. newest live line; scrollback lines
/// are negative); `page` is the visible row count (for Page moves).
#[derive(Clone, Copy, Debug)]
pub struct Bounds {
    pub cols: usize,
    pub min_line: i32,
    pub max_line: i32,
    pub page: usize,
}

impl Bounds {
    /// The rightmost column the head may occupy (`cols - 1`, or 0 for an empty grid).
    pub open spec fn last_col(self) -> int {
        if self.cols == 0 { 0 } else { self.cols - 1 }
    }

    /// The page size as the signed step that Page moves apply.
    pub open spec fn page_step(self) -> int {
        (#[verifier::truncate] (self.page as i32)) as int
    }
}

/// `l` clamped into `[lo, hi]`.
pub open spec fn clamp_int(l: int, lo: int, hi: int) -> int {
    if l < lo { lo } else if l > hi { hi } else { l }
}

pub open spec fn min_int(a: int, b: int) -> int {
    if a <= b { a } else { b }
}

/// The head position after one step, before the final column clamp.
pub open spec fn step_spec(col: int, line: int, nav: Nav, b: Bounds) -> (int, int) {
    let lo = b.min_line as int;
    let hi = b.max_line as int;
    match nav {
        Nav::Left => (if col >= 1 { col - 1 } else { 0 }, line),
        Nav::Right => (min_int(col + 1, b.last_col()), line),
        Nav::Up => (col, clamp_int(line - 1, lo, hi)),
        Nav::Down => (col, clamp_int(line + 1, lo, hi)),
        Nav::LineStart => (0, line),
        Nav::LineEnd => (b.last_col(), line),
        Nav::PageUp => (col, clamp_int(line - b.page_step(), lo, hi)),
        Nav::PageDown => (col, clamp_int(line + b.page_step(), lo, hi)),
        Nav::BufTop => (0, lo),
        Nav::BufBottom => (b.last_col(), hi),
    }
}

/// Where `move_head` puts the head: one step for `nav`, then the column clamped
/// to the last column.
pub open spec fn move_head_spec(head: (usize, i32), nav: Nav, b: Bounds) -> (int, int) {
    let s = step_spec(head.0 as int, head.1 as int, nav, b);
    (min_int(s.0, b.last_col()), s.1)
}

/// The inputs on which `move_head` runs without overflow and without an
/// inverted clamp range.
pub open spec fn move_head_defined(head: (usize, i32), nav: Nav, b: Bounds) -> bool {
    let line = head.1 as int;
    match nav {
        Nav::Right => head.0 < usize::MAX,
        Nav::Up => b.min_line <= b.max_line && i32::MIN <= line - 1,
        Nav::Down => b.min_line <= b.max_line && line + 1 <= i32::MAX,
        Nav::PageUp => b.min_line <= b.max_line && i32::MIN <= line - b.page_step() <= i32::MAX,
        Nav::PageDown => b.min_line <= b.max_line && i32::MIN <= line + b.page_step() <= i32::MAX,
        _ => true,
    }
}

fn clamp_line(l: i32, lo: i32, hi: i32) -> (r: i32)
    requires
        lo <= hi,
    ensures
        r == clamp_int(l as int, lo as int, hi as int),
{
    if l < lo {
        lo
    } else if l > hi {
        hi
    } else {
        l
    }
}

/// Move `head` one step for `nav`, clamped to `b`. Column clamps to
/// `[0, cols-1]`; line clamps to `[min_line, max_line]`. Left/Right stay on the
/// current line (use Up/Down to change line); jumps (Home/End/Page/Buf*) are
/// absolute.
pub fn move_head(head: (usize, i32), nav: Nav, b: Bounds) -> (r: (usize, i32))
    requires
        move_head_defined(head, nav, b),
    ensures
        (r.0 as int, r.1 as int) == move_head_spec(head, nav, b),
        r.0 as int <= b.last_col(),
        match nav {
            Nav::Up | Nav::Down | Nav::PageUp | Nav::PageDown => b.min_line <= r.1 <= b.max_line,
            Nav::BufTop => r == (0usize, b.min_line),
            Nav::BufBottom => r.1 == b.max_line && r.0 as int == b.last_col(),
            _ => r.1 == head.1,
        },
{
    let col = head.0;
    let line = head.1;
    let max_col: usize = if b.cols >= 1 { b.cols - 1 } else { 0 };
    let step: i32 = #[verifier::truncate] (b.page as i32);
    let (c, l): (usize, i32) = match nav {
        Nav::Left => (if col >= 1 { col - 1 } else { 0 }, line),
        Nav::Right => (if col + 1 <= max_col { col + 1 } else { max_col }, line),
        Nav::Up => (col, clamp_line(line - 1, b.min_line, b.max_line)),
        Nav::Down => (col, clamp_line(line + 1, b.min_line, b.max_line)),
        Nav::LineStart => (0, line),
        Nav::LineEnd => (max_col, line),
        Nav::PageUp => (col, clamp_line(line - step, b.min_line, b.max_line)),
        Nav::PageDown => (col, clamp_line(line + step, b.min_line, b.max_line)),
        Nav::BufTop => (0, b.min_line),
        Nav::BufBottom => (max_col, b.max_line),
    };
    (if c <= max_col { c } else { max_col }, l)
}


/// The head is inside the bounds: a column of the grid, a line the buffer offers.
pub open spec fn head_in_bounds(head: (usize, i32), b: Bounds) -> bool {
    head.0 as int <= b.last_col() && b.min_line <= head.1 <= b.max_line
}

/// Navigation keeps the head inside the bounds: from a head inside them, every
/// move lands inside them again.
pub proof fn lemma_move_keeps_head_in_bounds(head: (usize, i32), nav: Nav, b: Bounds)
    requires
        head_in_bounds(head, b),
    ensures
        ({
            let r = move_head_spec(head, nav, b);
            r.0 <= b.last_col() && b.min_line <= r.1 <= b.max_line
        }),
{
}

/// A jump to either end of the buffer lands in the same place however often it
/// is repeated.
pub proof fn lemma_buffer_jumps_settle(head: (usize, i32), b: Bounds)
    requires
        b.min_line <= b.max_line,
    ensures
        ({
            let top = move_head_spec(head, Nav::BufTop, b);
            let bottom = move_head_spec(head, Nav::BufBottom, b);
            &&& top == (0int, b.min_line as int)
            &&& bottom == (b.last_col(), b.max_line as int)
            &&& move_head_spec((top.0 as usize, top.1 as i32), Nav::BufTop, b) == top
            &&& move_head_spec((bottom.0 as usize, bottom.1 as i32), Nav::BufBottom, b) == bottom
        }),
{
}


/// Up then Down (and Down then Up) come back to the same cell when the head is
/// strictly inside the buffer's lines and on a column of the grid: a one-row
/// step is undone by the opposite step.
pub proof fn lemma_up_down_round_trip(head: (usize, i32), b: Bounds)
    requires
        head.0 as int <= b.last_col(),
        b.min_line < head.1 < b.max_line,
    ensures
        ({
            let up = move_head_spec(head, Nav::Up, b);
            let down = move_head_spec(head, Nav::Down, b);
            &&& move_head_spec((up.0 as usize, up.1 as i32), Nav::Down, b) == (head.0 as int, head.1 as int)
            &&& move_head_spec((down.0 as usize, down.1 as i32), Nav::Up, b) == (head.0 as int, head.1 as int)
        }),
{
}


/// What each key does to a head inside the bounds: Left and Right step one
/// column and stop at the grid's edges, Up and Down step one line and stop at
/// the buffer's ends, Page moves step a page of lines and stop there too,
/// Home and End go to the line's first and last column, and only the line
/// moves change the line (the column moves keep it).
pub proof fn lemma_each_key_moves_one_step(head: (usize, i32), b: Bounds)
    requires
        head_in_bounds(head, b),
        b.page <= i32::MAX,
    ensures
        move_head_spec(head, Nav::Left, b) == (if head.0 >= 1 { head.0 - 1 } else { 0 }, head.1 as int),
        move_head_spec(head, Nav::Right, b) == (if (head.0 as int) < b.last_col() { head.0 + 1 } else { head.0 as int }, head.1 as int),
        move_head_spec(head, Nav::Up, b) == (head.0 as int, if head.1 > b.min_line { head.1 - 1 } else { head.1 as int }),
        move_head_spec(head, Nav::Down, b) == (head.0 as int, if head.1 < b.max_line { head.1 + 1 } else { head.1 as int }),
        move_head_spec(head, Nav::LineStart, b) == (0int, head.1 as int),
        move_head_spec(head, Nav::LineEnd, b) == (b.last_col(), head.1 as int),
        move_head_spec(head, Nav::PageUp, b) == (head.0 as int, if head.1 - b.page >= b.min_line { head.1 - b.page } else { b.min_line as int }),
        move_head_spec(head, Nav::PageDown, b) == (head.0 as int, if head.1 + b.page <= b.max_line { head.1 + b.page } else { b.max_line as int }),
{
    let pg: usize = b.page;
    assert((#[verifier::truncate] (pg as i32)) == pg) by (bit_vector)
        requires
            pg <= 0x7fff_ffffusize;
    assert(b.page_step() == b.page);
}

/// Left and Right undo each other away from the grid's edges: from a head
/// inside the bounds and not in the first column, Left then Right comes back;
/// from one not in the last column, Right then Left comes back.
pub proof fn lemma_left_right_round_trip(head: (usize, i32), b: Bounds)
    requires
        head_in_bounds(head, b),
    ensures
        head.0 >= 1 ==> ({
            let l = move_head_spec(head, Nav::Left, b);
            move_head_spec((l.0 as usize, l.1 as i32), Nav::Right, b) == (head.0 as int, head.1 as int)
        }),
        (head.0 as int) < b.last_col() ==> ({
            let r = move_head_spec(head, Nav::Right, b);
            move_head_spec((r.0 as usize, r.1 as i32), Nav::Left, b) == (head.0 as int, head.1 as int)
        }),
{
}

} // verus!
