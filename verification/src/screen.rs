//! The engine-neutral observed state of a terminal screen, and the interface
//! every VT engine offers to have bytes fed into it and its state read back.

use vstd::prelude::*;

verus! {

/// A cell colour as an engine reports it.
#[derive(Clone, Copy, Debug, PartialEq, Eq, Structural)]
pub enum NColor {
    /// One of the engine's named colours (its numeric tag: 0..=15 are the ANSI
    /// colours, higher tags the default foreground/background and their variants).
    Named(u16),
    /// A 256-colour palette index (`SGR 38;5;n`).
    Indexed(u8),
    /// A direct colour (`SGR 38;2;r;g;b`).
    Rgb(u8, u8, u8),
}

/// One observed grid cell.
#[derive(Clone, Copy, Debug, PartialEq, Eq, Structural)]
pub struct ScreenCell {
    pub ch: char,
    /// Attribute bits (see `attr`).
    pub attrs: u16,
    pub fg: NColor,
    pub bg: NColor,
}

/// The shown cursor: `(col, line)` on the visible screen.
#[derive(Clone, Copy, Debug, PartialEq, Eq, Structural)]
pub struct CursorState {
    pub col: usize,
    pub line: usize,
    pub visible: bool,
}

/// What an engine shows after being fed: the visible grid, the cursor (`None`
/// when it is not shown: hidden, or scrolled back into history) and the modes
/// the conformance checks read.
#[derive(Clone, Debug)]
pub struct ScreenState {
    pub cols: usize,
    pub rows: usize,
    pub grid: Vec<Vec<ScreenCell>>,
    pub cursor: Option<CursorState>,
    pub alt_screen: bool,
    pub app_cursor: bool,
}

/// What a screen shows, as a mathematical value: the same parts as a
/// `ScreenState`, with the grid as a sequence of lines.
pub ghost struct ScreenModel {
    pub cols: nat,
    pub rows: nat,
    pub grid: Seq<Seq<ScreenCell>>,
    pub cursor: Option<CursorState>,
    pub alt_screen: bool,
    pub app_cursor: bool,
}

impl ScreenModel {
    /// The grid has `rows` lines of `cols` cells each.
    pub open spec fn wf(&self) -> bool {
        &&& self.grid.len() == self.rows
        &&& forall|r: int| 0 <= r < self.rows ==> #[trigger] self.grid[r].len() == self.cols
    }

    pub open spec fn cell(&self, row: int, col: int) -> ScreenCell {
        self.grid[row][col]
    }

    /// The characters of line `row`, left to right.
    pub open spec fn row_chars(&self, row: int) -> Seq<char> {
        self.grid[row].map_values(|c: ScreenCell| c.ch)
    }
}

impl ScreenState {
    /// The grid has `rows` lines of `cols` cells each.
    pub open spec fn wf(&self) -> bool {
        &&& self.grid@.len() == self.rows
        &&& forall|r: int| 0 <= r < self.rows ==> #[trigger] self.grid@[r]@.len() == self.cols
    }

    /// The state as a mathematical value.
    pub open spec fn model(&self) -> ScreenModel {
        ScreenModel {
            cols: self.cols as nat,
            rows: self.rows as nat,
            grid: self.grid@.map_values(|r: Vec<ScreenCell>| r@),
            cursor: self.cursor,
            alt_screen: self.alt_screen,
            app_cursor: self.app_cursor,
        }
    }

    pub open spec fn cell(&self, row: int, col: int) -> ScreenCell {
        self.grid@[row]@[col]
    }

    /// The characters of line `row`, left to right.
    pub open spec fn row_chars(&self, row: int) -> Seq<char> {
        self.grid@[row]@.map_values(|c: ScreenCell| c.ch)
    }
}

/// A VT engine: bytes go in, observable screen state comes out. What an engine
/// shows depends only on its size and on the bytes fed to it, chunk by chunk.
pub trait VtEngine: Sized {
    /// The engine holds a screen of `cols() x rows()` cells.
    spec fn inv(&self) -> bool;

    spec fn cols(&self) -> nat;

    spec fn rows(&self) -> nat;

    /// The chunks fed so far, in order.
    spec fn fed(&self) -> Seq<Seq<u8>>;

    /// What a fresh `cols x rows` engine shows once it has been fed `feeds`, in order.
    spec fn shows_after_feeds(cols: nat, rows: nat, feeds: Seq<Seq<u8>>) -> ScreenModel;

    /// A fresh engine with a blank `cols x rows` screen, fed nothing yet. A
    /// screen holds at least two columns, room for one full-width character.
    fn new(cols: usize, rows: usize) -> (e: Self)
        requires
            cols >= 2,
            1 <= rows <= i32::MAX,
        ensures
            e.inv(),
            e.cols() == cols,
            e.rows() == rows,
            e.fed() == Seq::<Seq<u8>>::empty(),
    ;

    /// Feeds bytes; the parser state carries over between calls.
    fn feed(&mut self, bytes: &[u8])
        requires
            old(self).inv(),
        ensures
            final(self).inv(),
            final(self).cols() == old(self).cols(),
            final(self).rows() == old(self).rows(),
            final(self).fed() == old(self).fed().push(bytes@),
    ;

    /// Reads back the observable state: what the engine shows after what it was fed.
    fn observe(&self) -> (s: ScreenState)
        requires
            self.inv(),
        ensures
            s.wf(),
            s.cols == self.cols(),
            s.rows == self.rows(),
            s.model() == Self::shows_after_feeds(self.cols(), self.rows(), self.fed()),
    ;
}

/// Feeds `input` in one piece into a fresh `cols x rows` engine `E` and
/// returns what it shows.
pub fn feed_whole<E: VtEngine>(cols: usize, rows: usize, input: &[u8]) -> (s: ScreenState)
    requires
        cols >= 2,
        1 <= rows <= i32::MAX,
    ensures
        s.wf(),
        s.cols == cols,
        s.rows == rows,
        s.model() == E::shows_after_feeds(cols as nat, rows as nat, seq![input@]),
{
    let mut e = E::new(cols, rows);
    e.feed(input);
    assert(e.fed() =~= seq![input@]);
    e.observe()
}

} // verus!
