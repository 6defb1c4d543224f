//! The decisions a terminal pane makes around its engine and its PTY: which
//! absolute lines a viewport or a history snapshot shows, where the cursor is
//! drawn, how a cell's colours fold together, how scrolling centres a line,
//! how a PTY write loop proceeds, how a child's exit is reported once, and what
//! a resize tells the PTY.

use vstd::prelude::*;
use crate::damage::{CellAttrs, Rgb, SnapCell};

verus! {

broadcast use vstd::string::to_string_from_display_ensures_for_str;

// ── Viewport ─────────────────────────────────────────────────────────────────

/// The absolute line that viewport row `r` shows when the view is scrolled
/// `offset` lines up into history.
pub open spec fn viewport_line_spec(r: int, offset: int) -> int {
    r - offset
}

/// The absolute lines shown by viewport rows `0..rows`, top to bottom.
pub fn viewport_lines(rows: usize, offset: i32) -> (v: Vec<i32>)
    requires
        rows <= i32::MAX + 1,
        forall|r: int| 0 <= r < rows ==> i32::MIN <= #[trigger] viewport_line_spec(r, offset as int) <= i32::MAX,
    ensures
        v@.len() == rows,
        forall|r: int| 0 <= r < rows ==> #[trigger] v@[r] == viewport_line_spec(r, offset as int),
{
    let mut v: Vec<i32> = Vec::new();
    let mut r: usize = 0;
    while r < rows
        invariant
            r <= rows <= i32::MAX + 1,
            forall|k: int| 0 <= k < rows ==> i32::MIN <= #[trigger] viewport_line_spec(k, offset as int) <= i32::MAX,
            v@.len() == r,
            forall|k: int| 0 <= k < r ==> #[trigger] v@[k] == viewport_line_spec(k, offset as int),
        decreases rows - r,
    {
        assert(i32::MIN <= viewport_line_spec(r as int, offset as int) <= i32::MAX);
        v.push(r as i32 - offset);
        r = r + 1;
    }
    v
}

/// The viewport shows consecutive lines: its top row shows the line `offset`
/// lines above the live screen's top (line 0), and each row the line after the
/// row above it.
pub proof fn lemma_viewport_rows_consecutive(offset: int, r: int)
    ensures
        viewport_line_spec(0, offset) == -offset,
        viewport_line_spec(r + 1, offset) == viewport_line_spec(r, offset) + 1,
{
}

/// The cursor's drawn shape.
#[derive(Clone, Copy, Debug, PartialEq, Eq, Structural)]
pub enum CursorShape {
    Block,
    Underline,
    Beam,
}

/// Where the cursor is drawn on the viewport.
#[derive(Clone, Copy, Debug, PartialEq, Eq, Structural)]
pub struct CursorPos {
    pub col: usize,
    pub line: usize,
    pub shape: CursorShape,
}

/// The cursor to draw: only while it is visible and the view is live (not
/// scrolled back into history), and only when it lies on the viewport.
pub fn viewport_cursor(
    visible: bool,
    offset: i32,
    col: usize,
    line: usize,
    rows: usize,
    cols: usize,
    shape: CursorShape,
) -> (c: Option<CursorPos>)
    ensures
        c == (if visible && offset == 0 && line < rows && col < cols {
            Some(CursorPos { col, line, shape })
        } else {
            None
        }),
{
    if visible && offset == 0 && line < rows && col < cols {
        Some(CursorPos { col, line, shape })
    } else {
        None
    }
}

/// For each of `rows` history rows from absolute line `top`, the line it shows,
/// or `None` (a blank row) when that line is outside the readable range
/// `topmost..=bottommost`.
pub fn history_rows(top: i32, rows: usize, topmost: i32, bottommost: i32) -> (v: Vec<Option<i32>>)
    requires
        rows <= i32::MAX + 1,
        top + rows <= i32::MAX + 1,
    ensures
        v@.len() == rows,
        forall|r: int|
            0 <= r < rows ==> #[trigger] v@[r] == (if topmost <= top + r <= bottommost {
                Some((top + r) as i32)
            } else {
                None
            }),
{
    let mut v: Vec<Option<i32>> = Vec::new();
    let mut r: usize = 0;
    while r < rows
        invariant
            rows <= i32::MAX + 1,
            top + rows <= i32::MAX + 1,
            r <= rows,
            v@.len() == r,
            forall|k: int|
                0 <= k < r ==> #[trigger] v@[k] == (if topmost <= top + k <= bottommost {
                    Some((top + k) as i32)
                } else {
                    None
                }),
        decreases rows - r,
    {
        let abs: i32 = top + r as i32;
        v.push(if abs >= topmost && abs <= bottommost { Some(abs) } else { None });
        r = r + 1;
    }
    v
}

// ── Cell colours ─────────────────────────────────────────────────────────────

/// An engine cell colour.
#[derive(Clone, Copy, Debug, PartialEq, Eq, Structural)]
pub enum TermColor {
    /// The default foreground (or background).
    Default,
    /// A palette index.
    Indexed(u8),
    /// A direct colour.
    Rgb(u8, u8, u8),
}

pub open spec fn resolve_color_spec(c: TermColor, is_fg: bool, fg: Rgb, bg: Rgb, indexed: Rgb) -> Rgb {
    match c {
        TermColor::Default => if is_fg { fg } else { bg },
        TermColor::Indexed(_) => indexed,
        TermColor::Rgb(r, g, b) => Rgb { r, g, b },
    }
}

/// Resolves an engine colour through the palette: the default colour is the
/// palette's foreground or background, an indexed colour is `indexed` (the
/// palette's entry for that index), a direct colour is itself.
pub fn resolve_color(c: TermColor, is_fg: bool, fg: Rgb, bg: Rgb, indexed: Rgb) -> (r: Rgb)
    ensures
        r == resolve_color_spec(c, is_fg, fg, bg, indexed),
{
    match c {
        TermColor::Default => if is_fg { fg } else { bg },
        TermColor::Indexed(_) => indexed,
        TermColor::Rgb(r, g, b) => Rgb { r, g, b },
    }
}

/// The style flags of an engine cell.
#[derive(Clone, Copy, Debug, PartialEq, Eq, Structural)]
pub struct CellStyle {
    pub bold: bool,
    pub dim: bool,
    pub italic: bool,
    pub underline: bool,
    pub inverse: bool,
    pub hidden: bool,
    pub strikeout: bool,
}

pub open spec fn fold_cell_spec(c: char, fg: Rgb, bg: Rgb, dimmed: Rgb, st: CellStyle) -> SnapCell {
    let fg1 = if st.dim { dimmed } else { fg };
    let fg2 = if st.inverse { bg } else { fg1 };
    let bg2 = if st.inverse { fg1 } else { bg };
    let fg3 = if st.hidden { bg2 } else { fg2 };
    SnapCell {
        c,
        fg: fg3,
        bg: bg2,
        attrs: CellAttrs {
            bold: st.bold,
            underline: st.underline,
            italic: st.italic,
            strikeout: st.strikeout,
        },
    }
}

/// One rendered cell from its resolved colours, folding dim, inverse and hidden
/// into them: dim replaces the foreground by `dimmed` (the palette's dimmed
/// foreground), inverse then swaps foreground and background, hidden then paints
/// the foreground in the background colour.
pub fn fold_cell(c: char, fg: Rgb, bg: Rgb, dimmed: Rgb, st: CellStyle) -> (s: SnapCell)
    ensures
        s == fold_cell_spec(c, fg, bg, dimmed, st),
{
    let mut f = fg;
    let mut b = bg;
    if st.dim {
        f = dimmed;
    }
    if st.inverse {
        let t = f;
        f = b;
        b = t;
    }
    if st.hidden {
        f = b;
    }
    SnapCell {
        c,
        fg: f,
        bg: b,
        attrs: CellAttrs {
            bold: st.bold,
            underline: st.underline,
            italic: st.italic,
            strikeout: st.strikeout,
        },
    }
}

/// A rendered cell keeps its character and each style flag under its own name.
/// Its colours: a plain cell shows its foreground on its background, dim swaps
/// in the dimmed foreground, inverse exchanges foreground and background
/// (after dimming), and hidden paints the foreground in the background colour.
pub proof fn lemma_fold_cell_meaning(c: char, fg: Rgb, bg: Rgb, dimmed: Rgb, st: CellStyle)
    ensures
        ({
            let s = fold_cell_spec(c, fg, bg, dimmed, st);
            let front = if st.dim { dimmed } else { fg };
            &&& s.c == c
            &&& s.attrs.bold == st.bold
            &&& s.attrs.underline == st.underline
            &&& s.attrs.italic == st.italic
            &&& s.attrs.strikeout == st.strikeout
            &&& !st.inverse ==> s.bg == bg
            &&& st.inverse ==> s.bg == front
            &&& st.hidden ==> s.fg == s.bg
            &&& !st.hidden && !st.inverse ==> s.fg == front
            &&& !st.hidden && st.inverse ==> s.fg == bg
        }),
{
}

/// Inverse exchanges the colours a visible cell would otherwise show, and
/// changes nothing else.
pub proof fn lemma_inverse_swaps_colours(c: char, fg: Rgb, bg: Rgb, dimmed: Rgb, st: CellStyle)
    requires
        !st.hidden,
    ensures
        ({
            let plain = fold_cell_spec(c, fg, bg, dimmed, CellStyle { inverse: false, ..st });
            let inv = fold_cell_spec(c, fg, bg, dimmed, CellStyle { inverse: true, ..st });
            inv.fg == plain.bg && inv.bg == plain.fg && inv.c == plain.c && inv.attrs == plain.attrs
        }),
{
}

/// Colour resolution: the default colour is the palette's foreground (or
/// background, for a background), an indexed colour is the palette entry
/// given, a direct colour is its own red, green and blue.
pub proof fn lemma_resolve_color_meaning(c: TermColor, is_fg: bool, fg: Rgb, bg: Rgb, indexed: Rgb)
    ensures
        c == TermColor::Default && is_fg ==> resolve_color_spec(c, is_fg, fg, bg, indexed) == fg,
        c == TermColor::Default && !is_fg ==> resolve_color_spec(c, is_fg, fg, bg, indexed) == bg,
        c is Indexed ==> resolve_color_spec(c, is_fg, fg, bg, indexed) == indexed,
        forall|r: u8, g: u8, b: u8| c == TermColor::Rgb(r, g, b) ==> resolve_color_spec(c, is_fg, fg, bg, indexed)
            == (Rgb { r: r, g: g, b: b }),
{
}

// ── Scrolling ────────────────────────────────────────────────────────────────

pub open spec fn clamp_spec(v: int, lo: int, hi: int) -> int {
    if v < lo { lo } else if v > hi { hi } else { v }
}

/// The display-offset change that centres absolute line `line` in a `screen`
/// lines tall viewport, with `history` lines of scrollback and the view now
/// `current` lines up: the wanted offset `screen/2 - line`, clamped to
/// `0..=history`, less the current one.
pub fn scroll_to_line_delta(screen: i32, history: i32, current: i32, line: i32) -> (d: i32)
    requires
        screen >= 0,
        history >= 0,
        i32::MIN <= screen / 2 - line <= i32::MAX,
        i32::MIN <= clamp_spec(screen / 2 - line, 0, history as int) - current <= i32::MAX,
    ensures
        d == clamp_spec(screen / 2 - line, 0, history as int) - current,
{
    let want = screen / 2 - line;
    let desired = if want < 0 { 0 } else if want > history { history } else { want };
    desired - current
}

/// Centring scrolls to an offset within the history: after the change the view
/// is `screen / 2 - line` lines up (which puts `line` in the middle row) when
/// the history allows, otherwise at the live screen (no history above `line`'s
/// centre) or at the top of the history.
pub proof fn lemma_scroll_centres_line(screen: i32, history: i32, current: i32, line: i32)
    requires
        history >= 0,
    ensures
        ({
            let now = current + (clamp_spec(screen / 2 - line, 0, history as int) - current);
            let want = screen / 2 - line;
            &&& 0 <= now <= history
            &&& 0 <= want <= history ==> now == want
            &&& want < 0 ==> now == 0
            &&& want > history ==> now == history
        }),
{
}

// ── PTY writes ───────────────────────────────────────────────────────────────

/// Why a PTY write returned no bytes.
#[derive(Clone, Copy, Debug, PartialEq, Eq, Structural)]
pub enum WriteError {
    /// Interrupted by a signal (`EINTR`).
    Interrupted,
    /// Not writable right now (`EAGAIN`).
    WouldBlock,
    /// The peer is gone, or another error.
    Other,
}

/// What the write loop does next.
#[derive(Clone, Copy, Debug, PartialEq, Eq, Structural)]
pub enum WriteAction {
    /// Bytes were written: continue from this offset.
    Advance(usize),
    /// Write again at once.
    Retry,
    /// Wait until the PTY is writable, then write again.
    WaitWritable,
    /// Give up: nothing more can be written.
    Stop,
}

/// Whether bytes from offset `off` of a `len`-byte buffer remain to be written.
pub fn write_pending(off: usize, len: usize) -> (p: bool)
    ensures
        p == (off < len),
{
    off < len
}

/// The next action of the write loop after a write at offset `off` returned
/// `ret`, with `err` describing a failure.
pub open spec fn write_step_spec(off: usize, ret: isize, err: WriteError) -> WriteAction {
    if ret > 0 {
        WriteAction::Advance((off + ret) as usize)
    } else {
        match err {
            WriteError::Interrupted => WriteAction::Retry,
            WriteError::WouldBlock => WriteAction::WaitWritable,
            WriteError::Other => WriteAction::Stop,
        }
    }
}

/// One step of the PTY write loop, which never drops input: after a write at
/// offset `off` returned `ret` (with `err` describing a failure), continue past
/// the bytes written; on an interrupt write again; when the PTY is not writable
/// wait for it; on any other failure stop.
pub fn write_step(off: usize, ret: isize, err: WriteError) -> (a: WriteAction)
    requires
        ret > 0 ==> off + ret <= usize::MAX,
    ensures
        a == write_step_spec(off, ret, err),
{
    if ret > 0 {
        WriteAction::Advance(off + ret as usize)
    } else {
        match err {
            WriteError::Interrupted => WriteAction::Retry,
            WriteError::WouldBlock => WriteAction::WaitWritable,
            WriteError::Other => WriteAction::Stop,
        }
    }
}

/// The write loop only moves forward: a step never goes back to bytes already
/// written, a successful write advances by exactly the count it reported, and a
/// failed one leaves the offset where it was.
pub proof fn lemma_write_progress(off: usize, ret: isize, err: WriteError)
    requires
        ret > 0 ==> off + ret <= usize::MAX,
    ensures
        write_step_spec(off, ret, err) matches WriteAction::Advance(n) ==> n > off && n - off == ret,
        ret <= 0 ==> !(write_step_spec(off, ret, err) is Advance),
{
}

/// A failed write never advances: an interrupted one is retried, one that would
/// block waits for the PTY, and any other failure stops the loop.
pub proof fn lemma_write_failures(off: usize, ret: isize, err: WriteError)
    requires
        ret <= 0,
    ensures
        err == WriteError::Interrupted ==> write_step_spec(off, ret, err) == WriteAction::Retry,
        err == WriteError::WouldBlock ==> write_step_spec(off, ret, err) == WriteAction::WaitWritable,
        err == WriteError::Other ==> write_step_spec(off, ret, err) == WriteAction::Stop,
{
}

// ── Child exit ───────────────────────────────────────────────────────────────

/// An event a pane reports to the GUI.
#[derive(Clone, Debug, PartialEq, Eq)]
pub enum PaneEvent {
    /// New output arrived.
    Wakeup,
    /// The window title changed.
    Title(String),
    /// The child exited, with its `$?`-style status when known.
    Exited(Option<i32>),
}

/// The exit event to queue when the child's exit is noticed (by master EOF or by
/// reaping it): one `Exited(code)` unless an exit was already reported.
pub fn exit_report(already_reported: bool, code: Option<i32>) -> (e: Option<PaneEvent>)
    ensures
        e == (if already_reported { None } else { Some(PaneEvent::Exited(code)) }),
{
    if already_reported {
        None
    } else {
        Some(PaneEvent::Exited(code))
    }
}

/// The exit status to remember after a reap: the newly reaped one when known,
/// otherwise the one already known.
pub fn remember_exit_code(known: Option<i32>, reaped: Option<i32>) -> (c: Option<i32>)
    ensures
        c == (if reaped is Some { reaped } else { known }),
{
    if reaped.is_some() {
        reaped
    } else {
        known
    }
}

pub open spec fn upgrade_event(e: PaneEvent, code: Option<i32>) -> PaneEvent {
    match (e, code) {
        (PaneEvent::Exited(None), Some(k)) => PaneEvent::Exited(Some(k)),
        _ => e,
    }
}

/// Upgrading only fills in an unknown exit status: an exit with unknown status
/// takes the known code, and every other event (a known status included) is
/// left as it is.
pub proof fn lemma_upgrade_only_fills_unknown(e: PaneEvent, code: Option<i32>)
    ensures
        e == PaneEvent::Exited(None) && code is Some ==> upgrade_event(e, code) == PaneEvent::Exited(code),
        !(e == PaneEvent::Exited(None) && code is Some) ==> upgrade_event(e, code) == e,
{
}

/// Drained events with any unknown-status exit filled in with `code` once the
/// status is known, so a pane that died on master EOF still surfaces it; the
/// other events are left as they are, in order.
pub fn upgrade_exits(events: Vec<PaneEvent>, code: Option<i32>) -> (out: Vec<PaneEvent>)
    ensures
        out@ == events@.map_values(|e: PaneEvent| upgrade_event(e, code)),
{
    let ghost orig = events@;
    let n = events.len();
    let mut events = events;
    // Move the events out back to front...
    let mut rev: Vec<PaneEvent> = Vec::new();
    while events.len() > 0
        invariant
            n == orig.len(),
            events@.len() <= n,
            events@ == orig.subrange(0, events@.len() as int),
            rev@.len() == n - events@.len(),
            forall|k: int| 0 <= k < rev@.len() ==> #[trigger] rev@[k] == orig[n - 1 - k],
        decreases events@.len(),
    {
        let e = events.pop().unwrap();
        assert(e == orig[events@.len() as int]);
        rev.push(e);
        assert(events@ =~= orig.subrange(0, events@.len() as int));
    }
    // ...then front to back, upgraded.
    let mut out: Vec<PaneEvent> = Vec::new();
    let ghost rv = rev@;
    while rev.len() > 0
        invariant
            n == orig.len() == rv.len(),
            forall|k: int| 0 <= k < n ==> #[trigger] rv[k] == orig[n - 1 - k],
            rev@.len() <= n,
            rev@ == rv.subrange(0, rev@.len() as int),
            out@.len() == n - rev@.len(),
            forall|k: int| 0 <= k < out@.len() ==> #[trigger] out@[k] == upgrade_event(orig[k], code),
        decreases rev@.len(),
    {
        let e = rev.pop().unwrap();
        assert(e == orig[out@.len() as int]);
        let u = match e {
            PaneEvent::Exited(None) => match code {
                Some(k) => PaneEvent::Exited(Some(k)),
                None => PaneEvent::Exited(None),
            },
            other => other,
        };
        out.push(u);
        assert(rev@ =~= rv.subrange(0, rev@.len() as int));
    }
    assert(out@ =~= orig.map_values(|e: PaneEvent| upgrade_event(e, code)));
    out
}


/// The exit events queued for a run of exit notices (by master EOF or by
/// reaping the child, each with the status it knew), given whether an exit was
/// already reported: each notice reports only if none was reported before it.
pub open spec fn exit_trace(codes: Seq<Option<i32>>, reported: bool) -> Seq<PaneEvent>
    decreases codes.len(),
{
    if codes.len() == 0 {
        seq![]
    } else {
        (if reported { seq![] } else { seq![PaneEvent::Exited(codes[0])] }) + exit_trace(
            codes.drop_first(),
            true,
        )
    }
}

/// A child's exit is reported exactly once however many times it is noticed:
/// the first notice reports it with the status that notice knew, later ones
/// report nothing.
pub proof fn lemma_exit_reported_once(codes: Seq<Option<i32>>)
    requires
        codes.len() > 0,
    ensures
        exit_trace(codes, false) == seq![PaneEvent::Exited(codes[0])],
{
    lemma_no_report_after(codes.drop_first());
    assert(exit_trace(codes, false) =~= seq![PaneEvent::Exited(codes[0])] + exit_trace(
        codes.drop_first(),
        true,
    ));
}

proof fn lemma_no_report_after(codes: Seq<Option<i32>>)
    ensures
        exit_trace(codes, true).len() == 0,
    decreases codes.len(),
{
    if codes.len() > 0 {
        lemma_no_report_after(codes.drop_first());
    }
}

/// How many `Exited` events `s` holds.
pub open spec fn exit_count(s: Seq<PaneEvent>) -> nat
    decreases s.len(),
{
    if s.len() == 0 {
        0
    } else {
        exit_count(s.drop_last()) + if s.last() is Exited { 1nat } else { 0nat }
    }
}

proof fn lemma_exit_count_concat(a: Seq<PaneEvent>, b: Seq<PaneEvent>)
    ensures
        exit_count(a + b) == exit_count(a) + exit_count(b),
    decreases b.len(),
{
    if b.len() > 0 {
        lemma_exit_count_concat(a, b.drop_last());
        assert((a + b).drop_last() =~= a + b.drop_last());
    } else {
        assert(a + b =~= a);
    }
}

proof fn lemma_exit_count_upgrade(s: Seq<PaneEvent>, code: Option<i32>)
    ensures
        exit_count(s.map_values(|e: PaneEvent| upgrade_event(e, code))) == exit_count(s),
    decreases s.len(),
{
    if s.len() > 0 {
        lemma_exit_count_upgrade(s.drop_last(), code);
        assert(s.map_values(|e: PaneEvent| upgrade_event(e, code)).drop_last() =~= s.drop_last().map_values(
            |e: PaneEvent| upgrade_event(e, code),
        ));
    }
}

/// The events that new output queues: its new title, if it set one, then a wakeup.
pub open spec fn output_events(title: Option<String>) -> Seq<PaneEvent> {
    match title {
        Some(t) => seq![PaneEvent::Title(t), PaneEvent::Wakeup],
        None => seq![PaneEvent::Wakeup],
    }
}

/// A pane's event queue, shared by the PTY reader and the GUI: the events not
/// yet drained, whether the child's exit was reported, and the exit status once
/// a reap has told it.
pub struct PaneEvents {
    queue: Vec<PaneEvent>,
    exited: bool,
    exit_code: Option<i32>,
    drained: Ghost<Seq<PaneEvent>>,
}

impl PaneEvents {
    /// The events queued and not yet drained, oldest first.
    pub closed spec fn queued(&self) -> Seq<PaneEvent> {
        self.queue@
    }

    /// Whether the child's exit has been reported.
    pub closed spec fn exit_reported(&self) -> bool {
        self.exited
    }

    /// The exit status, once a reap has told it.
    pub closed spec fn known_code(&self) -> Option<i32> {
        self.exit_code
    }

    /// Everything drained so far, one drain after another.
    pub closed spec fn drained(&self) -> Seq<PaneEvent> {
        self.drained@
    }

    /// One exit event has been queued over the pane's life once the exit was
    /// reported, none before.
    pub closed spec fn inv(&self) -> bool {
        exit_count(self.drained@) + exit_count(self.queue@) == if self.exited { 1nat } else { 0nat }
    }

    /// An empty queue: nothing reported, no status known, nothing drained.
    pub fn new() -> (p: PaneEvents)
        ensures
            p.inv(),
            p.queued() == Seq::<PaneEvent>::empty(),
            !p.exit_reported(),
            p.known_code() is None,
            p.drained() == Seq::<PaneEvent>::empty(),
    {
        PaneEvents { queue: Vec::new(), exited: false, exit_code: None, drained: Ghost(Seq::empty()) }
    }

    /// New output was applied: queue the new title, if the output set one, then
    /// a wakeup.
    pub fn post_output(&mut self, title: Option<String>)
        requires
            old(self).inv(),
        ensures
            final(self).inv(),
            final(self).queued() == old(self).queued() + output_events(title),
            final(self).exit_reported() == old(self).exit_reported(),
            final(self).known_code() == old(self).known_code(),
            final(self).drained() == old(self).drained(),
    {
        let ghost q0 = self.queue@;
        let ghost added = output_events(title);
        match title {
            Some(t) => self.queue.push(PaneEvent::Title(t)),
            None => {},
        }
        self.queue.push(PaneEvent::Wakeup);
        proof {
            assert(self.queue@ =~= q0 + added);
            lemma_exit_count_concat(q0, added);
            reveal_with_fuel(exit_count, 3);
            assert(exit_count(added) == 0);
        }
    }

    /// The child's exit was noticed, with the status the notice knew (none for
    /// master EOF): queue `Exited(code)` unless an exit was already reported.
    pub fn post_exit(&mut self, code: Option<i32>)
        requires
            old(self).inv(),
        ensures
            final(self).inv(),
            final(self).queued() == if old(self).exit_reported() {
                old(self).queued()
            } else {
                old(self).queued().push(PaneEvent::Exited(code))
            },
            final(self).exit_reported(),
            final(self).known_code() == old(self).known_code(),
            final(self).drained() == old(self).drained(),
    {
        let ghost q0 = self.queue@;
        let already = self.exited;
        self.exited = true;
        match exit_report(already, code) {
            Some(e) => {
                self.queue.push(e);
                proof {
                    assert(self.queue@.drop_last() =~= q0);
                }
            },
            None => {},
        }
    }

    /// What the GUI gets at each frame. `reaped` is what polling the child told:
    /// `Some(code)` when it was just reaped, with its status when known. A reap
    /// remembers a known status and reports the exit unless it was already
    /// reported; then every queued event is handed out in order, an
    /// unknown-status exit filled in with the status once one is known, and the
    /// queue is left empty.
    pub fn drain(&mut self, reaped: Option<Option<i32>>) -> (out: Vec<PaneEvent>)
        requires
            old(self).inv(),
        ensures
            final(self).inv(),
            final(self).known_code() == match reaped {
                Some(c) => if c is Some { c } else { old(self).known_code() },
                None => old(self).known_code(),
            },
            final(self).exit_reported() == (old(self).exit_reported() || reaped is Some),
            out@ == (match reaped {
                Some(c) => if old(self).exit_reported() {
                    old(self).queued()
                } else {
                    old(self).queued().push(PaneEvent::Exited(c))
                },
                None => old(self).queued(),
            }).map_values(|e: PaneEvent| upgrade_event(e, final(self).known_code())),
            final(self).queued() == Seq::<PaneEvent>::empty(),
            final(self).drained() == old(self).drained() + out@,
    {
        match reaped {
            Some(c) => {
                self.exit_code = remember_exit_code(self.exit_code, c);
                self.post_exit(c);
            },
            None => {},
        }
        let mut q: Vec<PaneEvent> = Vec::new();
        std::mem::swap(&mut q, &mut self.queue);
        let ghost q0 = q@;
        let out = upgrade_exits(q, self.exit_code);
        proof {
            lemma_exit_count_upgrade(q0, self.exit_code);
            lemma_exit_count_concat(self.drained@, out@);
            assert(exit_count(Seq::<PaneEvent>::empty()) == 0);
        }
        self.drained = Ghost(self.drained@ + out@);
        out
    }
}

/// Over a pane's whole life, however its output, exit notices and drains
/// interleave, everything drained holds at most one `Exited` event.
pub proof fn lemma_at_most_one_exit(p: &PaneEvents)
    requires
        p.inv(),
    ensures
        exit_count(p.drained()) <= 1,
{
}

// ── Window size ──────────────────────────────────────────────────────────────

/// The terminal size as the PTY is told it (`struct winsize`), with the fixed
/// 8x16 pixel cell.
#[derive(Clone, Copy, Debug, PartialEq, Eq, Structural)]
pub struct Winsize {
    pub ws_row: u16,
    pub ws_col: u16,
    pub ws_xpixel: u16,
    pub ws_ypixel: u16,
}

pub open spec fn winsize_spec(cols: usize, rows: usize) -> Winsize {
    Winsize {
        ws_row: rows as u16,
        ws_col: cols as u16,
        ws_xpixel: (cols * 8) as u16,
        ws_ypixel: (rows * 16) as u16,
    }
}

/// The size a `cols x rows` pane reports to its PTY (each field truncated to
/// 16 bits).
pub fn winsize_for(cols: usize, rows: usize) -> (w: Winsize)
    requires
        cols * 8 <= usize::MAX,
        rows * 16 <= usize::MAX,
    ensures
        w == winsize_spec(cols, rows),
{
    Winsize {
        ws_row: #[verifier::truncate] (rows as u16),
        ws_col: #[verifier::truncate] (cols as u16),
        ws_xpixel: #[verifier::truncate] ((cols * 8) as u16),
        ws_ypixel: #[verifier::truncate] ((rows * 16) as u16),
    }
}

/// The PTY is told the columns and rows as they are (to 16 bits) and a pixel
/// size of 8 by 16 pixels per cell.
pub proof fn lemma_winsize_meaning(cols: usize, rows: usize)
    requires
        cols < 0x2000,
        rows < 0x1000,
    ensures
        winsize_spec(cols, rows).ws_col == cols,
        winsize_spec(cols, rows).ws_row == rows,
        winsize_spec(cols, rows).ws_xpixel == 8 * cols,
        winsize_spec(cols, rows).ws_ypixel == 16 * rows,
{
}

/// What resizing a `cur_cols x cur_rows` pane to `cols x rows` tells the PTY:
/// nothing when the size is unchanged, otherwise the new size.
pub fn resize_winsize(cur_cols: usize, cur_rows: usize, cols: usize, rows: usize) -> (w: Option<
    Winsize,
>)
    requires
        (cols != cur_cols || rows != cur_rows) ==> cols * 8 <= usize::MAX && rows * 16
            <= usize::MAX,
    ensures
        w == (if cols == cur_cols && rows == cur_rows {
            None
        } else {
            Some(winsize_spec(cols, rows))
        }),
{
    if cols == cur_cols && rows == cur_rows {
        None
    } else {
        Some(winsize_for(cols, rows))
    }
}


// ── Child environment ────────────────────────────────────────────────────────

pub open spec fn pair_view(p: (String, String)) -> (Seq<char>, Seq<char>) {
    (p.0@, p.1@)
}

/// The environment assignments for a new shell, in the order they are applied
/// (a later assignment to the same name wins): the terminal type and colour
/// support first, then the caller's own variables, which may override them.
pub fn shell_env(env: &Vec<(String, String)>) -> (v: Vec<(String, String)>)
    ensures
        v@.map_values(|p: (String, String)| pair_view(p)) == seq![
            ("TERM"@, "xterm-256color"@),
            ("COLORTERM"@, "truecolor"@),
        ] + env@.map_values(|p: (String, String)| pair_view(p)),
{
    let mut v: Vec<(String, String)> = Vec::new();
    v.push(("TERM".to_string(), "xterm-256color".to_string()));
    v.push(("COLORTERM".to_string(), "truecolor".to_string()));
    let ghost head = v@.map_values(|p: (String, String)| pair_view(p));
    assert(head =~= seq![("TERM"@, "xterm-256color"@), ("COLORTERM"@, "truecolor"@)]);
    let mut i: usize = 0;
    while i < env.len()
        invariant
            i <= env@.len(),
            v@.map_values(|p: (String, String)| pair_view(p)) == head + env@.subrange(0, i as int).map_values(
                |p: (String, String)| pair_view(p),
            ),
        decreases env@.len() - i,
    {
        let k = env[i].0.clone();
        let val = env[i].1.clone();
        assert(pair_view((k, val)) == pair_view(env@[i as int]));
        let ghost before = v@;
        v.push((k, val));
        assert(v@ == before.push((k, val)));
        assert(v@.map_values(|p: (String, String)| pair_view(p)) =~= before.map_values(
            |p: (String, String)| pair_view(p),
        ).push(pair_view((k, val))));
        assert(env@.subrange(0, i + 1).map_values(|p: (String, String)| pair_view(p)) =~= env@.subrange(
            0,
            i as int,
        ).map_values(|p: (String, String)| pair_view(p)).push(pair_view(env@[i as int])));
        i = i + 1;
        assert(v@.map_values(|p: (String, String)| pair_view(p)) =~= head + env@.subrange(0, i as int).map_values(
            |p: (String, String)| pair_view(p),
        ));
    }
    assert(env@.subrange(0, env@.len() as int) =~= env@);
    v
}

} // verus!
