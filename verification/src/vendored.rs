//! The vendored engine: `alacritty_terminal`'s `Term` driven by its `vte`
//! processor, read back as a `ScreenState`. It is the oracle the conformance
//! cases are authored against.

use vstd::prelude::*;
use alacritty_terminal::Term;
use alacritty_terminal::event::VoidListener;
use alacritty_terminal::index::{Column, Line};
use alacritty_terminal::term::Config;
use alacritty_terminal::term::test::TermSize;
use alacritty_terminal::vte::ansi::{Color, Processor, StdSyncHandler};
use crate::screen::{CursorState, NColor, ScreenCell, ScreenModel, ScreenState, VtEngine};

verus! {

#[verifier::external_type_specification]
#[verifier::external_body]
#[verifier::reject_recursive_types(T)]
pub struct ExTerm<T>(Term<T>);

#[verifier::external_type_specification]
#[verifier::external_body]
pub struct ExVoidListener(VoidListener);

/// The escape-sequence parser (`vte`'s `Processor`) held opaque: Verus cannot
/// declare `Processor` itself, whose type parameter is bounded by `vte`'s
/// `Timeout` trait.
#[verifier::external_body]
pub struct AnsiParser {
    inner: Processor<StdSyncHandler>,
}

/// The cells of a terminal's visible screen, line by line from the top, each
/// as its character, attribute bits and colours.
pub uninterp spec fn term_screen(t: Term<VoidListener>) -> Seq<Seq<ScreenCell>>;

/// Where a terminal's cursor is: its `(column, line)` on the visible screen.
pub uninterp spec fn term_cursor_point(t: Term<VoidListener>) -> (usize, usize);

/// A terminal's mode bits.
pub uninterp spec fn term_mode(t: Term<VoidListener>) -> u32;

/// How far a terminal's view is scrolled back into history.
pub uninterp spec fn term_offset(t: Term<VoidListener>) -> usize;

/// What a terminal shows: its screen cells, cursor point, mode bits and view offset.
pub open spec fn shown_of(t: Term<VoidListener>) -> (Seq<Seq<ScreenCell>>, (usize, usize), u32, usize) {
    (term_screen(t), term_cursor_point(t), term_mode(t), term_offset(t))
}

/// What the terminal `t` shows once a parser in state `p` has parsed each of
/// `chunks` into it, in order (`Processor::advance` once per chunk). It depends
/// on these alone: the parser's synchronized-update timer records a time, but
/// only whether it is set changes what is applied.
pub uninterp spec fn shown_after_chunks(p: AnsiParser, t: Term<VoidListener>, chunks: Seq<Seq<u8>>) -> (
    Seq<Seq<ScreenCell>>,
    (usize, usize),
    u32,
    usize,
);

/// What a fresh `cols x rows` terminal with a fresh parser shows once each of
/// `chunks` has been parsed into it, in order.
pub uninterp spec fn fresh_shown(cols: usize, rows: usize, chunks: Seq<Seq<u8>>) -> (
    Seq<Seq<ScreenCell>>,
    (usize, usize),
    u32,
    usize,
);

/// `Processor::new` and `Term::new` (default configuration, a `cols x rows`
/// size, at least two columns as alacritty requires): a parser in its ground state and a blank terminal whose screen has
/// `rows` lines of `cols` cells. What the pair shows after any chunks is what
/// any fresh pair of that size shows after them (`fresh_shown`); fed nothing,
/// it shows what the terminal shows now.
#[verifier::external_body]
fn engine_new(cols: usize, rows: usize) -> (e: (AnsiParser, Term<VoidListener>))
    requires
        cols >= 2,
        rows >= 1,
    ensures
        term_screen(e.1).len() == rows,
        forall|r: int| 0 <= r < rows ==> #[trigger] term_screen(e.1)[r].len() == cols,
        forall|c: Seq<Seq<u8>>| #[trigger] shown_after_chunks(e.0, e.1, c) == fresh_shown(cols, rows, c),
        shown_of(e.1) == shown_after_chunks(e.0, e.1, Seq::<Seq<u8>>::empty()),
{
    (AnsiParser { inner: Processor::new() }, Term::new(Config::default(), &TermSize::new(cols, rows), VoidListener))
}

/// `Processor::advance`: parses `bytes` with the parser `p` and applies them to
/// `t`. What the pair shows after any further chunks is what it showed, before
/// the call, after `bytes` and then those chunks; fed nothing more, it shows
/// what the terminal shows now. Escape sequences never resize the screen (only
/// `Term::resize` does), so its dimensions stay as they were. The terminal must
/// be at least two columns wide (alacritty's own minimum): a full-width
/// character on a one-column screen writes its spacer past the line's end.
#[verifier::external_body]
fn processor_advance(p: &mut AnsiParser, t: &mut Term<VoidListener>, bytes: &[u8])
    requires
        term_screen(*old(t)).len() >= 1,
        term_screen(*old(t))[0].len() >= 2,
    ensures
        forall|c: Seq<Seq<u8>>| #[trigger] shown_after_chunks(*final(p), *final(t), c) == shown_after_chunks(
            *old(p),
            *old(t),
            seq![bytes@] + c,
        ),
        shown_of(*final(t)) == shown_after_chunks(*final(p), *final(t), Seq::<Seq<u8>>::empty()),
        term_screen(*final(t)).len() == term_screen(*old(t)).len(),
        forall|r: int|
            0 <= r < term_screen(*old(t)).len() ==> #[trigger] term_screen(*final(t))[r].len()
                == term_screen(*old(t))[r].len(),
{
    p.inner.advance(t, bytes)
}

/// The cell at `(line, col)` of the visible screen (`Term::grid` indexed by
/// `Line`, `Column`), with its colours as the engine tags them.
#[verifier::external_body]
fn term_cell(t: &Term<VoidListener>, line: usize, col: usize) -> (c: ScreenCell)
    requires
        line < term_screen(*t).len(),
        line <= i32::MAX,
        col < term_screen(*t)[line as int].len(),
    ensures
        c == term_screen(*t)[line as int][col as int],
{
    let cell = &t.grid()[Line(line as i32)][Column(col)];
    let fg = match cell.fg {
        Color::Named(n) => NColor::Named(n as u16),
        Color::Spec(rgb) => NColor::Rgb(rgb.r, rgb.g, rgb.b),
        Color::Indexed(i) => NColor::Indexed(i),
    };
    let bg = match cell.bg {
        Color::Named(n) => NColor::Named(n as u16),
        Color::Spec(rgb) => NColor::Rgb(rgb.r, rgb.g, rgb.b),
        Color::Indexed(i) => NColor::Indexed(i),
    };
    ScreenCell { ch: cell.c, attrs: cell.flags.bits(), fg, bg }
}

/// The cursor's `(column, line)` on the visible screen (`grid().cursor.point`).
#[verifier::external_body]
fn term_cursor(t: &Term<VoidListener>) -> (p: (usize, usize))
    ensures
        p == term_cursor_point(*t),
{
    let point = t.grid().cursor.point;
    (point.column.0, point.line.0 as usize)
}

/// The terminal's mode bits (`Term::mode`).
#[verifier::external_body]
fn term_mode_bits(t: &Term<VoidListener>) -> (m: u32)
    ensures
        m == term_mode(*t),
{
    t.mode().bits()
}

/// How far the view is scrolled back into history (`Grid::display_offset`).
#[verifier::external_body]
fn term_display_offset(t: &Term<VoidListener>) -> (o: usize)
    ensures
        o == term_offset(*t),
{
    t.grid().display_offset()
}

/// Mode bit: the cursor is shown.
pub const MODE_SHOW_CURSOR: u32 = 1;

/// Mode bit: application cursor keys (DECCKM).
pub const MODE_APP_CURSOR: u32 = 2;

/// Mode bit: the alternate screen is active.
pub const MODE_ALT_SCREEN: u32 = 4096;

/// The vendored engine.
pub struct Vendored {
    term: Term<VoidListener>,
    parser: AnsiParser,
    cols: usize,
    rows: usize,
    fed: Ghost<Seq<Seq<u8>>>,
}

/// The cursor a shown state reports: at the cursor point, as visible, only
/// while the cursor is shown and the view is not scrolled back.
pub open spec fn shown_cursor(point: (usize, usize), mode: u32, offset: usize) -> Option<CursorState> {
    if mode & MODE_SHOW_CURSOR != 0 && offset == 0 {
        Some(CursorState { col: point.0, line: point.1, visible: true })
    } else {
        None
    }
}

/// A shown state read back as a screen of `cols x rows`: the grid is the
/// screen's cells, the alternate-screen and application-cursor flags are modes.
pub open spec fn shown_model(
    shown: (Seq<Seq<ScreenCell>>, (usize, usize), u32, usize),
    cols: nat,
    rows: nat,
) -> ScreenModel {
    ScreenModel {
        cols,
        rows,
        grid: shown.0,
        cursor: shown_cursor(shown.1, shown.2, shown.3),
        alt_screen: shown.2 & MODE_ALT_SCREEN != 0,
        app_cursor: shown.2 & MODE_APP_CURSOR != 0,
    }
}

impl VtEngine for Vendored {
    closed spec fn inv(&self) -> bool {
        &&& self.cols >= 2
        &&& self.rows >= 1
        &&& self.rows <= i32::MAX
        &&& term_screen(self.term).len() == self.rows
        &&& forall|r: int| 0 <= r < self.rows ==> #[trigger] term_screen(self.term)[r].len() == self.cols
        &&& forall|c: Seq<Seq<u8>>| #[trigger] shown_after_chunks(self.parser, self.term, c) == fresh_shown(
            self.cols,
            self.rows,
            self.fed@ + c,
        )
        &&& shown_of(self.term) == shown_after_chunks(self.parser, self.term, Seq::<Seq<u8>>::empty())
    }

    closed spec fn cols(&self) -> nat {
        self.cols as nat
    }

    closed spec fn rows(&self) -> nat {
        self.rows as nat
    }

    closed spec fn fed(&self) -> Seq<Seq<u8>> {
        self.fed@
    }

    /// What a fresh terminal of the size shows after the chunks, read back.
    open spec fn shows_after_feeds(cols: nat, rows: nat, feeds: Seq<Seq<u8>>) -> ScreenModel {
        shown_model(fresh_shown(cols as usize, rows as usize, feeds), cols, rows)
    }

    fn new(cols: usize, rows: usize) -> (e: Self) {
        let (parser, term) = engine_new(cols, rows);
        let e = Vendored { term, parser, cols, rows, fed: Ghost(Seq::empty()) };
        assert forall|c: Seq<Seq<u8>>| #[trigger] shown_after_chunks(e.parser, e.term, c) == fresh_shown(
            e.cols,
            e.rows,
            e.fed@ + c,
        ) by {
            assert(e.fed@ + c =~= c);
        }
        e
    }

    fn feed(&mut self, bytes: &[u8]) {
        let ghost before = self.fed@;
        processor_advance(&mut self.parser, &mut self.term, bytes);
        self.fed = Ghost(before.push(bytes@));
        assert forall|c: Seq<Seq<u8>>| #[trigger] shown_after_chunks(self.parser, self.term, c) == fresh_shown(
            self.cols,
            self.rows,
            self.fed@ + c,
        ) by {
            assert(before + (seq![bytes@] + c) =~= self.fed@ + c);
        }
    }

    fn observe(&self) -> (s: ScreenState) {
        let mut grid: Vec<Vec<ScreenCell>> = Vec::new();
        let mut r: usize = 0;
        while r < self.rows
            invariant
                self.inv(),
                r <= self.rows,
                grid@.len() == r,
                forall|i: int| 0 <= i < r ==> #[trigger] grid@[i]@ == term_screen(self.term)[i],
            decreases self.rows - r,
        {
            let mut line: Vec<ScreenCell> = Vec::new();
            let mut c: usize = 0;
            assert(term_screen(self.term)[r as int].len() == self.cols);
            while c < self.cols
                invariant
                    self.inv(),
                    r < self.rows,
                    c <= self.cols,
                    line@ == term_screen(self.term)[r as int].subrange(0, c as int),
                decreases self.cols - c,
            {
                assert(term_screen(self.term)[r as int].len() == self.cols);
                let cell = term_cell(&self.term, r, c);
                line.push(cell);
                c = c + 1;
                assert(line@ =~= term_screen(self.term)[r as int].subrange(0, c as int));
            }
            assert(line@ =~= term_screen(self.term)[r as int]);
            grid.push(line);
            r = r + 1;
        }
        let mode = term_mode_bits(&self.term);
        let (col, line) = term_cursor(&self.term);
        let cursor = if mode & MODE_SHOW_CURSOR != 0 && term_display_offset(&self.term) == 0 {
            Some(CursorState { col, line, visible: true })
        } else {
            None
        };
        let s = ScreenState {
            cols: self.cols,
            rows: self.rows,
            grid,
            cursor,
            alt_screen: mode & MODE_ALT_SCREEN != 0,
            app_cursor: mode & MODE_APP_CURSOR != 0,
        };
        proof {
            assert(self.fed@ + Seq::<Seq<u8>>::empty() =~= self.fed@);
            assert(s.model().grid =~= term_screen(self.term));
        }
        s
    }
}

} // verus!
