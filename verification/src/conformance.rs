//! Spec-case conformance: a declarative table of `(input, expected observable
//! state)` cases encoding xterm/ECMA-48 behaviour, run against any `VtEngine`.
//! The checks read the engine's state directly rather than through the
//! terminal's own report sequences.

use vstd::prelude::*;
use vstd::string::StringSliceAdditionalSpecFns;
use crate::attr::{BOLD, INVERSE, ITALIC, UNDERLINE};
use crate::screen::{CursorState, NColor, ScreenCell, ScreenModel, ScreenState, VtEngine, feed_whole};
use crate::text::{
    bin6, bool_text, char_debug, debug_char, debug_str, dec, push_bin6, push_bool, push_dec, push_str,
    str_debug, trim_end, trimmed_string,
};

verus! {

broadcast use vstd::string::to_string_from_display_ensures_for_str;

/// One assertion about the observed state after feeding a case's input.
#[derive(Clone, Copy, Debug)]
pub enum Check {
    /// Cursor is shown at `(col, line)`.
    Cursor(usize, usize),
    /// No cursor is shown (hidden or scrolled back).
    NoCursor,
    /// The character at `(row, col)`.
    Char(usize, usize, char),
    /// The trailing-trimmed text of `row`.
    Row(usize, &'static str),
    /// The cell at `(row, col)` has all of these attribute bits set.
    Attr(usize, usize, u16),
    /// The cell at `(row, col)` has none of these attribute bits set.
    NoAttr(usize, usize, u16),
    /// The foreground colour at `(row, col)`.
    Fg(usize, usize, NColor),
    /// The background colour at `(row, col)`.
    Bg(usize, usize, NColor),
    /// The alternate-screen flag.
    AltScreen(bool),
    /// The application-cursor-keys flag.
    AppCursor(bool),
}

/// A named conformance case: feed `input` into a fresh `cols x rows` terminal,
/// then every check in `checks` must hold.
pub struct SpecCase {
    pub name: &'static str,
    pub cols: usize,
    pub rows: usize,
    pub input: Vec<u8>,
    pub checks: Vec<Check>,
}

/// The check only reads cells inside a `cols x rows` grid.
pub open spec fn check_in_bounds(chk: Check, cols: nat, rows: nat) -> bool {
    match chk {
        Check::Char(row, col, _) => row < rows && col < cols,
        Check::Row(row, _) => row < rows,
        Check::Attr(row, col, _) => row < rows && col < cols,
        Check::NoAttr(row, col, _) => row < rows && col < cols,
        Check::Fg(row, col, _) => row < rows && col < cols,
        Check::Bg(row, col, _) => row < rows && col < cols,
        _ => true,
    }
}

impl SpecCase {
    /// A runnable case: a grid at least two columns wide (the narrowest that holds
/// a full-width character) and one line high, and checks that stay inside it.
    pub open spec fn wf(&self) -> bool {
        &&& self.cols >= 2
        &&& 1 <= self.rows <= i32::MAX
        &&& forall|i: int|
            0 <= i < self.checks@.len() ==> check_in_bounds(
                #[trigger] self.checks@[i],
                self.cols as nat,
                self.rows as nat,
            )
    }
}

/// `{:?}` of an optional cursor.
pub open spec fn cursor_debug(c: Option<CursorState>) -> Seq<char> {
    match c {
        None => "None"@,
        Some(c) => "Some(CursorState { col: "@ + dec(c.col as nat) + ", line: "@ + dec(
            c.line as nat,
        ) + ", visible: "@ + bool_text(c.visible) + " })"@,
    }
}

/// `{:?}` of a colour.
pub open spec fn color_debug(c: NColor) -> Seq<char> {
    match c {
        NColor::Named(n) => "Named("@ + dec(n as nat) + ")"@,
        NColor::Indexed(i) => "Indexed("@ + dec(i as nat) + ")"@,
        NColor::Rgb(r, g, b) => "Rgb("@ + dec(r as nat) + ", "@ + dec(g as nat) + ", "@ + dec(
            b as nat,
        ) + ")"@,
    }
}

/// `(row,col)` as the messages print a position.
pub open spec fn pos_text(row: nat, col: nat) -> Seq<char> {
    "("@ + dec(row) + ","@ + dec(col) + ")"@
}

/// The failure message of `chk` against `s`, or `None` when the check holds.
pub open spec fn check_failure(s: ScreenModel, chk: Check) -> Option<Seq<char>> {
    match chk {
        Check::Cursor(col, line) => match s.cursor {
            Some(c) if c.col == col && c.line == line && c.visible => None,
            _ => Some(
                "expected cursor at "@ + pos_text(col as nat, line as nat) + ", got "@
                    + cursor_debug(s.cursor),
            ),
        },
        Check::NoCursor => match s.cursor {
            None => None,
            _ => Some("expected no cursor, got "@ + cursor_debug(s.cursor)),
        },
        Check::Char(row, col, ch) => {
            let got = s.cell(row as int, col as int).ch;
            if got != ch {
                Some(
                    "char "@ + pos_text(row as nat, col as nat) + " = "@ + char_debug(got)
                        + ", expected "@ + char_debug(ch),
                )
            } else {
                None
            }
        },
        Check::Row(row, text) => {
            let got = trim_end(s.row_chars(row as int));
            if got != text@ {
                Some(
                    "row "@ + dec(row as nat) + " = "@ + str_debug(got) + ", expected "@
                        + str_debug(text@),
                )
            } else {
                None
            }
        },
        Check::Attr(row, col, mask) => {
            let a = s.cell(row as int, col as int).attrs;
            if a & mask != mask {
                Some(
                    "attrs "@ + pos_text(row as nat, col as nat) + " = "@ + bin6(a as nat)
                        + ", missing "@ + bin6(mask as nat),
                )
            } else {
                None
            }
        },
        Check::NoAttr(row, col, mask) => {
            let a = s.cell(row as int, col as int).attrs;
            if a & mask != 0 {
                Some(
                    "attrs "@ + pos_text(row as nat, col as nat) + " = "@ + bin6(a as nat)
                        + ", should lack "@ + bin6(mask as nat),
                )
            } else {
                None
            }
        },
        Check::Fg(row, col, want) => {
            let got = s.cell(row as int, col as int).fg;
            if got != want {
                Some(
                    "fg "@ + pos_text(row as nat, col as nat) + " = "@ + color_debug(got)
                        + ", expected "@ + color_debug(want),
                )
            } else {
                None
            }
        },
        Check::Bg(row, col, want) => {
            let got = s.cell(row as int, col as int).bg;
            if got != want {
                Some(
                    "bg "@ + pos_text(row as nat, col as nat) + " = "@ + color_debug(got)
                        + ", expected "@ + color_debug(want),
                )
            } else {
                None
            }
        },
        Check::AltScreen(want) => if s.alt_screen != want {
            Some("alt_screen = "@ + bool_text(s.alt_screen) + ", expected "@ + bool_text(want))
        } else {
            None
        },
        Check::AppCursor(want) => if s.app_cursor != want {
            Some("app_cursor = "@ + bool_text(s.app_cursor) + ", expected "@ + bool_text(want))
        } else {
            None
        },
    }
}

/// The views of an optional message.
pub open spec fn opt_view(m: Option<String>) -> Option<Seq<char>> {
    match m {
        Some(s) => Some(s@),
        None => None,
    }
}

/// The views of a list of messages.
pub open spec fn views(v: Seq<String>) -> Seq<Seq<char>> {
    v.map_values(|s: String| s@)
}

/// A failure message labelled with its case name and check index.
pub open spec fn labelled(name: Seq<char>, i: nat, msg: Seq<char>) -> Seq<char> {
    "["@ + name + "] check #"@ + dec(i) + ": "@ + msg
}

/// The labelled failures of the first `n` checks of case `c` against `s`, in order.
pub open spec fn case_failures_upto(c: SpecCase, s: ScreenModel, n: nat) -> Seq<Seq<char>>
    decreases n,
{
    if n == 0 {
        seq![]
    } else {
        let i = (n - 1) as nat;
        case_failures_upto(c, s, i) + match check_failure(s, c.checks@[i as int]) {
            Some(m) => seq![labelled(c.name@, i, m)],
            None => seq![],
        }
    }
}

/// The labelled failures of every check of case `c` against `s`, in order.
pub open spec fn case_failures(c: SpecCase, s: ScreenModel) -> Seq<Seq<char>> {
    case_failures_upto(c, s, c.checks@.len())
}

/// The failures of the first `n` cases, each against its observed state.
pub open spec fn all_failures(cases: Seq<SpecCase>, states: Seq<ScreenModel>, n: nat) -> Seq<
    Seq<char>,
>
    decreases n,
{
    if n == 0 {
        seq![]
    } else {
        all_failures(cases, states, (n - 1) as nat) + case_failures(
            cases[n - 1],
            states[n - 1],
        )
    }
}

/// The state has the case's grid size.
pub open spec fn state_fits(c: SpecCase, s: ScreenState) -> bool {
    s.wf() && s.cols == c.cols && s.rows == c.rows
}

/// Builds a case from its parts (the input is copied).
pub fn case(name: &'static str, cols: usize, rows: usize, input: &[u8], checks: Vec<Check>) -> (c:
    SpecCase)
    ensures
        c.name == name,
        c.cols == cols,
        c.rows == rows,
        c.input@ == input@,
        c.checks@ == checks@,
{
    SpecCase { name, cols, rows, input: vstd::slice::slice_to_vec(input), checks }
}

/// The characters of line `row` of `s`.
fn row_chars(s: &ScreenState, row: usize) -> (v: Vec<char>)
    requires
        s.wf(),
        row < s.rows,
    ensures
        v@ == s.row_chars(row as int),
{
    let line = &s.grid[row];
    let mut v: Vec<char> = Vec::new();
    let mut c: usize = 0;
    while c < line.len()
        invariant
            c <= line@.len(),
            line@ == s.grid@[row as int]@,
            v@ == line@.subrange(0, c as int).map_values(|x: crate::screen::ScreenCell| x.ch),
        decreases line@.len() - c,
    {
        v.push(line[c].ch);
        c = c + 1;
        assert(v@ =~= line@.subrange(0, c as int).map_values(
            |x: crate::screen::ScreenCell| x.ch,
        ));
    }
    assert(line@.subrange(0, line@.len() as int) =~= line@);
    v
}

/// The trailing-trimmed text of line `row`.
pub fn row_text(s: &ScreenState, row: usize) -> (t: String)
    requires
        s.wf(),
        row < s.rows,
    ensures
        t@ == trim_end(s.row_chars(row as int)),
{
    let v = row_chars(s, row);
    trimmed_string(&v)
}

fn push_pos(m: &mut String, row: usize, col: usize)
    ensures
        final(m)@ == old(m)@ + pos_text(row as nat, col as nat),
{
    push_str(m, "(");
    push_dec(m, row);
    push_str(m, ",");
    push_dec(m, col);
    push_str(m, ")");
}

fn push_cursor(m: &mut String, c: Option<CursorState>)
    ensures
        final(m)@ == old(m)@ + cursor_debug(c),
{
    let ghost m0 = m@;
    match c {
        None => push_str(m, "None"),
        Some(c) => {
            push_str(m, "Some(CursorState { col: ");
            push_dec(m, c.col);
            push_str(m, ", line: ");
            push_dec(m, c.line);
            push_str(m, ", visible: ");
            push_bool(m, c.visible);
            push_str(m, " })");
        },
    }
    assert(m@ =~= m0 + cursor_debug(c));
}

fn push_color(m: &mut String, c: NColor)
    ensures
        final(m)@ == old(m)@ + color_debug(c),
{
    let ghost m0 = m@;
    match c {
        NColor::Named(n) => {
            push_str(m, "Named(");
            push_dec(m, n as usize);
            push_str(m, ")");
        },
        NColor::Indexed(i) => {
            push_str(m, "Indexed(");
            push_dec(m, i as usize);
            push_str(m, ")");
        },
        NColor::Rgb(r, g, b) => {
            push_str(m, "Rgb(");
            push_dec(m, r as usize);
            push_str(m, ", ");
            push_dec(m, g as usize);
            push_str(m, ", ");
            push_dec(m, b as usize);
            push_str(m, ")");
        },
    }
    assert(m@ =~= m0 + color_debug(c));
}

/// Evaluates one check against a state: `Some(message)` on failure.
pub fn eval(s: &ScreenState, chk: &Check) -> (r: Option<String>)
    requires
        s.wf(),
        check_in_bounds(*chk, s.cols as nat, s.rows as nat),
    ensures
        opt_view(r) == check_failure(s.model(), *chk),
{
    let mut m = String::new();
    match *chk {
        Check::Cursor(col, line) => {
            match s.cursor {
                Some(c) => {
                    if c.col == col && c.line == line && c.visible {
                        return None;
                    }
                },
                None => {},
            }
            push_str(&mut m, "expected cursor at ");
            push_pos(&mut m, col, line);
            push_str(&mut m, ", got ");
            push_cursor(&mut m, s.cursor);
        },
        Check::NoCursor => {
            if s.cursor.is_none() {
                return None;
            }
            push_str(&mut m, "expected no cursor, got ");
            push_cursor(&mut m, s.cursor);
        },
        Check::Char(row, col, ch) => {
            let got = s.grid[row][col].ch;
            if got == ch {
                return None;
            }
            push_str(&mut m, "char ");
            push_pos(&mut m, row, col);
            push_str(&mut m, " = ");
            let g = debug_char(got);
            push_str(&mut m, g.as_str());
            push_str(&mut m, ", expected ");
            let w = debug_char(ch);
            push_str(&mut m, w.as_str());
        },
        Check::Row(row, text) => {
            let got = row_text(s, row);
            let want = text.to_string();
            if got == want {
                return None;
            }
            push_str(&mut m, "row ");
            push_dec(&mut m, row);
            push_str(&mut m, " = ");
            let g = debug_str(got.as_str());
            push_str(&mut m, g.as_str());
            push_str(&mut m, ", expected ");
            let w = debug_str(text);
            push_str(&mut m, w.as_str());
        },
        Check::Attr(row, col, mask) => {
            let a = s.grid[row][col].attrs;
            if a & mask == mask {
                return None;
            }
            push_str(&mut m, "attrs ");
            push_pos(&mut m, row, col);
            push_str(&mut m, " = ");
            push_bin6(&mut m, a);
            push_str(&mut m, ", missing ");
            push_bin6(&mut m, mask);
        },
        Check::NoAttr(row, col, mask) => {
            let a = s.grid[row][col].attrs;
            if a & mask == 0 {
                return None;
            }
            push_str(&mut m, "attrs ");
            push_pos(&mut m, row, col);
            push_str(&mut m, " = ");
            push_bin6(&mut m, a);
            push_str(&mut m, ", should lack ");
            push_bin6(&mut m, mask);
        },
        Check::Fg(row, col, want) => {
            let got = s.grid[row][col].fg;
            if got == want {
                return None;
            }
            push_str(&mut m, "fg ");
            push_pos(&mut m, row, col);
            push_str(&mut m, " = ");
            push_color(&mut m, got);
            push_str(&mut m, ", expected ");
            push_color(&mut m, want);
        },
        Check::Bg(row, col, want) => {
            let got = s.grid[row][col].bg;
            if got == want {
                return None;
            }
            push_str(&mut m, "bg ");
            push_pos(&mut m, row, col);
            push_str(&mut m, " = ");
            push_color(&mut m, got);
            push_str(&mut m, ", expected ");
            push_color(&mut m, want);
        },
        Check::AltScreen(want) => {
            if s.alt_screen == want {
                return None;
            }
            push_str(&mut m, "alt_screen = ");
            push_bool(&mut m, s.alt_screen);
            push_str(&mut m, ", expected ");
            push_bool(&mut m, want);
        },
        Check::AppCursor(want) => {
            if s.app_cursor == want {
                return None;
            }
            push_str(&mut m, "app_cursor = ");
            push_bool(&mut m, s.app_cursor);
            push_str(&mut m, ", expected ");
            push_bool(&mut m, want);
        },
    }
    assert(Some(m@) == check_failure(s.model(), *chk));
    Some(m)
}


/// Appends to `fails` the labelled failure messages of case `c` against `s`.
pub fn case_failures_into(c: &SpecCase, s: &ScreenState, fails: &mut Vec<String>)
    requires
        c.wf(),
        state_fits(*c, *s),
    ensures
        views(final(fails)@) == views(old(fails)@) + case_failures(*c, s.model()),
{
    let ghost f0 = views(fails@);
    let mut i: usize = 0;
    while i < c.checks.len()
        invariant
            c.wf(),
            state_fits(*c, *s),
            i <= c.checks@.len(),
            views(fails@) == f0 + case_failures_upto(*c, s.model(), i as nat),
        decreases c.checks@.len() - i,
    {
        let chk = c.checks[i];
        assert(check_in_bounds(c.checks@[i as int], c.cols as nat, c.rows as nat));
        let r = eval(s, &chk);
        let ghost before = views(fails@);
        match r {
            Some(msg) => {
                let mut line = String::new();
                push_str(&mut line, "[");
                push_str(&mut line, c.name);
                push_str(&mut line, "] check #");
                push_dec(&mut line, i);
                push_str(&mut line, ": ");
                push_str(&mut line, msg.as_str());
                assert(line@ =~= labelled(c.name@, i as nat, msg@));
                fails.push(line);
                assert(views(fails@) =~= before.push(labelled(c.name@, i as nat, msg@)));
            },
            None => {},
        }
        i = i + 1;
        assert(views(fails@) =~= f0 + case_failures_upto(*c, s.model(), i as nat));
    }
}

/// The labelled failure messages of case `c` against the observed state `s`,
/// in check order (empty when every check holds).
pub fn case_failures_of(c: &SpecCase, s: &ScreenState) -> (fails: Vec<String>)
    requires
        c.wf(),
        state_fits(*c, *s),
    ensures
        views(fails@) == case_failures(*c, s.model()),
{
    let mut fails: Vec<String> = Vec::new();
    case_failures_into(c, s, &mut fails);
    assert(views(fails@) =~= case_failures(*c, s.model()));
    fails
}

/// What engine `E` shows for each case: a fresh engine of the case's size fed
/// the case's input in one piece.
pub open spec fn engine_states<E: VtEngine>(cases: Seq<SpecCase>) -> Seq<ScreenModel> {
    cases.map_values(
        |c: SpecCase| E::shows_after_feeds(c.cols as nat, c.rows as nat, seq![c.input@]),
    )
}

/// Runs every case against engine `E`, returning the readable failure messages
/// (empty = all pass): for each case in order, the labelled failures of its
/// checks against what a fresh engine of the case's size shows after the
/// case's input.
pub fn run_spec_cases<E: VtEngine>(cases: &[SpecCase]) -> (fails: Vec<String>)
    requires
        forall|i: int| 0 <= i < cases@.len() ==> (#[trigger] cases@[i]).wf(),
    ensures
        views(fails@) == all_failures(cases@, engine_states::<E>(cases@), cases@.len()),
{
    let ghost want = engine_states::<E>(cases@);
    let mut fails: Vec<String> = Vec::new();
    let ghost mut states: Seq<ScreenModel> = seq![];
    let mut k: usize = 0;
    while k < cases.len()
        invariant
            forall|i: int| 0 <= i < cases@.len() ==> (#[trigger] cases@[i]).wf(),
            want == engine_states::<E>(cases@),
            k <= cases@.len(),
            states.len() == k,
            forall|i: int| 0 <= i < k ==> #[trigger] states[i] == want[i],
            views(fails@) == all_failures(cases@, states, k as nat),
        decreases cases@.len() - k,
    {
        let c = &cases[k];
        assert(c.wf());
        let st = feed_whole::<E>(c.cols, c.rows, c.input.as_slice());
        case_failures_into(c, &st, &mut fails);
        proof {
            let old_states = states;
            states = states.push(st.model());
            lemma_all_failures_agree(cases@, states, cases@, old_states, k as nat);
        }
        k = k + 1;
    }
    proof {
        lemma_all_failures_agree(cases@, states, cases@, want, cases@.len());
    }
    fails
}

/// `all_failures` of the first `n` cases reads only those cases and their states.
proof fn lemma_all_failures_agree(
    c1: Seq<SpecCase>,
    s1: Seq<ScreenModel>,
    c2: Seq<SpecCase>,
    s2: Seq<ScreenModel>,
    n: nat,
)
    requires
        n <= c1.len(),
        n <= c2.len(),
        n <= s1.len(),
        n <= s2.len(),
        forall|i: int| 0 <= i < n ==> c1[i] == c2[i] && s1[i] == s2[i],
    ensures
        all_failures(c1, s1, n) == all_failures(c2, s2, n),
    decreases n,
{
    if n > 0 {
        lemma_all_failures_agree(c1, s1, c2, s2, (n - 1) as nat);
    }
}

/// What each check asserts: it passes (no failure message) exactly when the
/// observed state has the expected cursor, character, trimmed row text,
/// colours or modes; an `Attr` check needs every bit of its mask set in the
/// cell's attributes, a `NoAttr` check needs none of them set.
pub proof fn lemma_check_meaning(s: ScreenModel, chk: Check)
    ensures
        (check_failure(s, chk) is None) == match chk {
            Check::Cursor(col, line) => s.cursor == Some(CursorState { col, line, visible: true }),
            Check::NoCursor => s.cursor is None,
            Check::Char(row, col, ch) => s.grid[row as int][col as int].ch == ch,
            Check::Row(row, text) => trim_end(s.grid[row as int].map_values(|c: ScreenCell| c.ch)) == text@,
            Check::Attr(row, col, mask) => s.grid[row as int][col as int].attrs & mask == mask,
            Check::NoAttr(row, col, mask) => s.grid[row as int][col as int].attrs & mask == 0,
            Check::Fg(row, col, want) => s.grid[row as int][col as int].fg == want,
            Check::Bg(row, col, want) => s.grid[row as int][col as int].bg == want,
            Check::AltScreen(want) => s.alt_screen == want,
            Check::AppCursor(want) => s.app_cursor == want,
        },
{
}

/// A case has no failures exactly when each of its checks holds.
pub proof fn lemma_case_failures_empty_iff(c: SpecCase, s: ScreenModel, n: nat)
    requires
        n <= c.checks@.len(),
    ensures
        case_failures_upto(c, s, n).len() == 0 <==> forall|i: int|
            0 <= i < n ==> check_failure(s, #[trigger] c.checks@[i]) is None,
    decreases n,
{
    if n > 0 {
        lemma_case_failures_empty_iff(c, s, (n - 1) as nat);
    }
}

/// A conformance run reports nothing exactly when every check of every case holds
/// against that case's observed state: an empty failure list means all pass.
pub proof fn lemma_no_failures_iff_all_pass(
    cases: Seq<SpecCase>,
    states: Seq<ScreenModel>,
    n: nat,
)
    requires
        n <= cases.len(),
        n <= states.len(),
    ensures
        all_failures(cases, states, n).len() == 0 <==> forall|k: int, i: int|
            0 <= k < n && 0 <= i < cases[k].checks@.len() ==> check_failure(
                states[k],
                #[trigger] cases[k].checks@[i],
            ) is None,
    decreases n,
{
    if n > 0 {
        let k = (n - 1) as int;
        lemma_no_failures_iff_all_pass(cases, states, (n - 1) as nat);
        lemma_case_failures_empty_iff(cases[k], states[k], cases[k].checks@.len());
    }
}


/// Engine `E` passes a list of cases, with an empty failure list, exactly when
/// every check of every case holds against what `E` shows for that case.
pub proof fn lemma_run_empty_iff_all_pass<E: VtEngine>(cases: Seq<SpecCase>)
    ensures
        all_failures(cases, engine_states::<E>(cases), cases.len()).len() == 0 <==> forall|k: int, i: int|
            0 <= k < cases.len() && 0 <= i < cases[k].checks@.len() ==> check_failure(
                E::shows_after_feeds(cases[k].cols as nat, cases[k].rows as nat, seq![cases[k].input@]),
                #[trigger] cases[k].checks@[i],
            ) is None,
{
    let st = engine_states::<E>(cases);
    lemma_no_failures_iff_all_pass(cases, st, cases.len());
    assert forall|k: int| 0 <= k < cases.len() implies #[trigger] st[k] == E::shows_after_feeds(
        cases[k].cols as nat,
        cases[k].rows as nat,
        seq![cases[k].input@],
    ) by {}
}

proof fn lemma_all_failures_concat(
    xs: Seq<SpecCase>,
    xst: Seq<ScreenModel>,
    ys: Seq<SpecCase>,
    yst: Seq<ScreenModel>,
    n: nat,
)
    requires
        xst.len() == xs.len(),
        yst.len() == ys.len(),
        n <= ys.len(),
    ensures
        all_failures(xs + ys, xst + yst, xs.len() + n) == all_failures(xs, xst, xs.len())
            + all_failures(ys, yst, n),
    decreases n,
{
    if n == 0 {
        lemma_all_failures_agree(xs + ys, xst + yst, xs, xst, xs.len());
        assert(all_failures(xs, xst, xs.len()) + all_failures(ys, yst, 0) =~= all_failures(xs, xst, xs.len()));
    } else {
        lemma_all_failures_concat(xs, xst, ys, yst, (n - 1) as nat);
        let m = (xs.len() + n) as nat;
        assert((xs + ys)[m - 1] == ys[n - 1]);
        assert((xst + yst)[m - 1] == yst[n - 1]);
        assert(all_failures(xs + ys, xst + yst, m) =~= all_failures(xs, xst, xs.len()) + all_failures(ys, yst, n));
    }
}

/// Running two lists of cases one after the other reports the failures of the
/// first followed by those of the second: each case runs on a fresh engine.
pub proof fn lemma_run_concat<E: VtEngine>(xs: Seq<SpecCase>, ys: Seq<SpecCase>)
    ensures
        all_failures(xs + ys, engine_states::<E>(xs + ys), (xs + ys).len()) == all_failures(
            xs,
            engine_states::<E>(xs),
            xs.len(),
        ) + all_failures(ys, engine_states::<E>(ys), ys.len()),
        all_failures(Seq::<SpecCase>::empty(), engine_states::<E>(Seq::<SpecCase>::empty()), 0).len() == 0,
{
    assert(engine_states::<E>(xs + ys) =~= engine_states::<E>(xs) + engine_states::<E>(ys));
    lemma_all_failures_concat(xs, engine_states::<E>(xs), ys, engine_states::<E>(ys), ys.len());
}

/// The number of checks of the first `n` cases.
pub open spec fn total_checks(cases: Seq<SpecCase>, n: nat) -> nat
    decreases n,
{
    if n == 0 {
        0
    } else {
        total_checks(cases, (n - 1) as nat) + cases[n - 1].checks@.len()
    }
}

proof fn lemma_case_failures_len(c: SpecCase, s: ScreenModel, n: nat)
    ensures
        case_failures_upto(c, s, n).len() <= n,
    decreases n,
{
    if n > 0 {
        lemma_case_failures_len(c, s, (n - 1) as nat);
    }
}

/// A run reports at most one failure per check.
pub proof fn lemma_failures_at_most_checks(cases: Seq<SpecCase>, states: Seq<ScreenModel>, n: nat)
    ensures
        all_failures(cases, states, n).len() <= total_checks(cases, n),
    decreases n,
{
    if n > 0 {
        lemma_failures_at_most_checks(cases, states, (n - 1) as nat);
        lemma_case_failures_len(cases[n - 1], states[n - 1], cases[n - 1].checks@.len());
    }
}


/// Cases 0 to 7 of the seeded table: name, grid width and height, input
/// bytes, checks.
pub open spec fn case_table_part0() -> Seq<(Seq<char>, usize, usize, Seq<u8>, Seq<Check>)> {
    seq![
        ("CUP absolute"@, 80usize, 24usize, "\x1b[3;5H".spec_bytes(), seq![Check::Cursor(4, 2)]),
        ("CUU up"@, 80usize, 24usize, "\x1b[5;5H\x1b[2A".spec_bytes(), seq![Check::Cursor(4, 2)]),
        ("CUD down"@, 80usize, 24usize, "\x1b[1;5H\x1b[3B".spec_bytes(), seq![Check::Cursor(4, 3)]),
        ("CUF forward"@, 80usize, 24usize, "\x1b[1;1H\x1b[4C".spec_bytes(), seq![Check::Cursor(4, 0)]),
        ("CUB back"@, 80usize, 24usize, "\x1b[1;9H\x1b[3D".spec_bytes(), seq![Check::Cursor(5, 0)]),
        ("CHA column"@, 80usize, 24usize, "\x1b[2;2H\x1b[10G".spec_bytes(), seq![Check::Cursor(9, 1)]),
        ("VPA row"@, 80usize, 24usize, "\x1b[1;3H\x1b[7d".spec_bytes(), seq![Check::Cursor(2, 6)]),
        ("ED 2 blanks screen"@, 80usize, 24usize, "hi\r\nthere\x1b[2J".spec_bytes(), seq![Check::Row(0, ""), Check::Row(1, "")]),
    ]
}

/// Cases 8 to 15 of the seeded table: name, grid width and height, input
/// bytes, checks.
pub open spec fn case_table_part1() -> Seq<(Seq<char>, usize, usize, Seq<u8>, Seq<Check>)> {
    seq![
        ("EL 0 to end of line"@, 80usize, 24usize, "ABCDE\x1b[1;3H\x1b[0K".spec_bytes(), seq![Check::Row(0, "AB")]),
        ("EL 1 to start of line"@, 80usize, 24usize, "ABCDE\x1b[1;3H\x1b[1K".spec_bytes(), seq![Check::Row(0, "   DE")]),
        ("EL 2 whole line"@, 80usize, 24usize, "ABCDE\x1b[2K".spec_bytes(), seq![Check::Row(0, "")]),
        ("SGR bold then reset"@, 80usize, 24usize, "\x1b[1mA\x1b[0mB".spec_bytes(), seq![Check::Attr(0, 0, BOLD), Check::Char(0, 0, 'A'), Check::NoAttr(0, 1, BOLD), Check::Char(0, 1, 'B')]),
        ("SGR underline+italic"@, 80usize, 24usize, "\x1b[3;4mZ".spec_bytes(), seq![Check::Attr(0, 0, ITALIC | UNDERLINE)]),
        ("SGR inverse"@, 80usize, 24usize, "\x1b[7mI".spec_bytes(), seq![Check::Attr(0, 0, INVERSE)]),
        ("SGR truecolor fg"@, 80usize, 24usize, "\x1b[38;2;10;20;30mA".spec_bytes(), seq![Check::Fg(0, 0, NColor::Rgb(10, 20, 30))]),
        ("SGR indexed fg"@, 80usize, 24usize, "\x1b[38;5;42mA".spec_bytes(), seq![Check::Fg(0, 0, NColor::Indexed(42))]),
    ]
}

/// Cases 16 to 23 of the seeded table: name, grid width and height, input
/// bytes, checks.
pub open spec fn case_table_part2() -> Seq<(Seq<char>, usize, usize, Seq<u8>, Seq<Check>)> {
    seq![
        ("SGR truecolor bg"@, 80usize, 24usize, "\x1b[48;2;1;2;3mA".spec_bytes(), seq![Check::Bg(0, 0, NColor::Rgb(1, 2, 3))]),
        ("autowrap on"@, 5usize, 24usize, "ABCDEFG".spec_bytes(), seq![Check::Row(0, "ABCDE"), Check::Row(1, "FG")]),
        ("autowrap off (DECAWM)"@, 5usize, 24usize, "\x1b[?7lABCDEFG".spec_bytes(), seq![Check::Row(0, "ABCDG"), Check::Row(1, "")]),
        ("alt screen enter"@, 80usize, 24usize, "\x1b[?1049h".spec_bytes(), seq![Check::AltScreen(true)]),
        ("alt screen leave"@, 80usize, 24usize, "\x1b[?1049h\x1b[?1049l".spec_bytes(), seq![Check::AltScreen(false)]),
        ("DECCKM app cursor"@, 80usize, 24usize, "\x1b[?1h".spec_bytes(), seq![Check::AppCursor(true)]),
        ("DECSC/DECRC save+restore cursor"@, 80usize, 24usize, "\x1b[5;5H\x1b7\x1b[10;10H\x1b8".spec_bytes(), seq![Check::Cursor(4, 4)]),
        ("IND index down"@, 80usize, 24usize, "\x1b[1;1H\x1bD".spec_bytes(), seq![Check::Cursor(0, 1)]),
    ]
}

/// Cases 24 to 31 of the seeded table: name, grid width and height, input
/// bytes, checks.
pub open spec fn case_table_part3() -> Seq<(Seq<char>, usize, usize, Seq<u8>, Seq<Check>)> {
    seq![
        ("RI reverse index up"@, 80usize, 24usize, "\x1b[3;1H\x1bM".spec_bytes(), seq![Check::Cursor(0, 1)]),
        ("NEL next line"@, 80usize, 24usize, "\x1b[3;5H\x1bE".spec_bytes(), seq![Check::Cursor(0, 3)]),
        ("HT default tab stop"@, 80usize, 24usize, "A\tB".spec_bytes(), seq![Check::Char(0, 0, 'A'), Check::Char(0, 8, 'B')]),
        ("ICH insert chars"@, 80usize, 24usize, "ABCDE\x1b[1;2H\x1b[3@".spec_bytes(), seq![Check::Row(0, "A   BCDE")]),
        ("DCH delete chars"@, 80usize, 24usize, "ABCDE\x1b[1;2H\x1b[2P".spec_bytes(), seq![Check::Row(0, "ADE")]),
        ("IL insert line"@, 80usize, 24usize, "A\r\nB\r\nC\x1b[1;1H\x1b[L".spec_bytes(), seq![Check::Row(0, ""), Check::Row(1, "A"), Check::Row(2, "B")]),
        ("DL delete line"@, 80usize, 24usize, "A\r\nB\r\nC\x1b[1;1H\x1b[M".spec_bytes(), seq![Check::Row(0, "B"), Check::Row(1, "C")]),
        ("DECSTBM confines scroll"@, 80usize, 24usize, "\x1b[2;4r\x1b[1;1Ha\r\nb\r\nc\r\nd\x1b[4;1H\n".spec_bytes(), seq![Check::Row(0, "a"), Check::Row(1, "c"), Check::Row(2, "d")]),
    ]
}

/// The seeded conformance table, case by case.
pub open spec fn case_table() -> Seq<(Seq<char>, usize, usize, Seq<u8>, Seq<Check>)> {
    case_table_part0() + case_table_part1() + case_table_part2() + case_table_part3()
}

impl SpecCase {
    /// The case's parts as plain values.
    pub open spec fn model(&self) -> (Seq<char>, usize, usize, Seq<u8>, Seq<Check>) {
        (self.name@, self.cols, self.rows, self.input@, self.checks@)
    }
}

/// Cases 0 to 7 of the table.
fn cases_part0() -> (v: Vec<SpecCase>)
    ensures
        v@.len() == 8,
        forall|i: int| 0 <= i < 8 ==> (#[trigger] v@[i]).model() == case_table_part0()[i],
        forall|i: int| 0 <= i < 8 ==> (#[trigger] v@[i]).wf(),
{
    let mut v: Vec<SpecCase> = Vec::new();
    // Cursor motion
    v.push(case("CUP absolute", 80, 24, "\x1b[3;5H".as_bytes(), vec![Check::Cursor(4, 2)]));
    assert(v@[0].model() == case_table_part0()[0]);
    v.push(case("CUU up", 80, 24, "\x1b[5;5H\x1b[2A".as_bytes(), vec![Check::Cursor(4, 2)]));
    assert(v@[1].model() == case_table_part0()[1]);
    v.push(case("CUD down", 80, 24, "\x1b[1;5H\x1b[3B".as_bytes(), vec![Check::Cursor(4, 3)]));
    assert(v@[2].model() == case_table_part0()[2]);
    v.push(case("CUF forward", 80, 24, "\x1b[1;1H\x1b[4C".as_bytes(), vec![Check::Cursor(4, 0)]));
    assert(v@[3].model() == case_table_part0()[3]);
    v.push(case("CUB back", 80, 24, "\x1b[1;9H\x1b[3D".as_bytes(), vec![Check::Cursor(5, 0)]));
    assert(v@[4].model() == case_table_part0()[4]);
    v.push(case("CHA column", 80, 24, "\x1b[2;2H\x1b[10G".as_bytes(), vec![Check::Cursor(9, 1)]));
    assert(v@[5].model() == case_table_part0()[5]);
    v.push(case("VPA row", 80, 24, "\x1b[1;3H\x1b[7d".as_bytes(), vec![Check::Cursor(2, 6)]));
    assert(v@[6].model() == case_table_part0()[6]);
    // Erase
    v.push(case("ED 2 blanks screen", 80, 24, "hi\r\nthere\x1b[2J".as_bytes(),
        vec![Check::Row(0, ""), Check::Row(1, "")]));
    assert(v@[7].model() == case_table_part0()[7]);
    v
}

/// Cases 8 to 15 of the table.
fn cases_part1() -> (v: Vec<SpecCase>)
    ensures
        v@.len() == 8,
        forall|i: int| 0 <= i < 8 ==> (#[trigger] v@[i]).model() == case_table_part1()[i],
        forall|i: int| 0 <= i < 8 ==> (#[trigger] v@[i]).wf(),
{
    let mut v: Vec<SpecCase> = Vec::new();
    v.push(case("EL 0 to end of line", 80, 24, "ABCDE\x1b[1;3H\x1b[0K".as_bytes(),
        vec![Check::Row(0, "AB")]));
    assert(v@[0].model() == case_table_part1()[0]);
    v.push(case("EL 1 to start of line", 80, 24, "ABCDE\x1b[1;3H\x1b[1K".as_bytes(),
        vec![Check::Row(0, "   DE")]));
    assert(v@[1].model() == case_table_part1()[1]);
    v.push(case("EL 2 whole line", 80, 24, "ABCDE\x1b[2K".as_bytes(), vec![Check::Row(0, "")]));
    assert(v@[2].model() == case_table_part1()[2]);
    // SGR
    v.push(case("SGR bold then reset", 80, 24, "\x1b[1mA\x1b[0mB".as_bytes(),
        vec![
            Check::Attr(0, 0, BOLD),
            Check::Char(0, 0, 'A'),
            Check::NoAttr(0, 1, BOLD),
            Check::Char(0, 1, 'B'),
        ]));
    assert(v@[3].model() == case_table_part1()[3]);
    v.push(case("SGR underline+italic", 80, 24, "\x1b[3;4mZ".as_bytes(),
        vec![Check::Attr(0, 0, ITALIC | UNDERLINE)]));
    assert(v@[4].model() == case_table_part1()[4]);
    v.push(case("SGR inverse", 80, 24, "\x1b[7mI".as_bytes(), vec![Check::Attr(0, 0, INVERSE)]));
    assert(v@[5].model() == case_table_part1()[5]);
    v.push(case("SGR truecolor fg", 80, 24, "\x1b[38;2;10;20;30mA".as_bytes(),
        vec![Check::Fg(0, 0, NColor::Rgb(10, 20, 30))]));
    assert(v@[6].model() == case_table_part1()[6]);
    v.push(case("SGR indexed fg", 80, 24, "\x1b[38;5;42mA".as_bytes(),
        vec![Check::Fg(0, 0, NColor::Indexed(42))]));
    assert(v@[7].model() == case_table_part1()[7]);
    v
}

/// Cases 16 to 23 of the table.
fn cases_part2() -> (v: Vec<SpecCase>)
    ensures
        v@.len() == 8,
        forall|i: int| 0 <= i < 8 ==> (#[trigger] v@[i]).model() == case_table_part2()[i],
        forall|i: int| 0 <= i < 8 ==> (#[trigger] v@[i]).wf(),
{
    let mut v: Vec<SpecCase> = Vec::new();
    v.push(case("SGR truecolor bg", 80, 24, "\x1b[48;2;1;2;3mA".as_bytes(),
        vec![Check::Bg(0, 0, NColor::Rgb(1, 2, 3))]));
    assert(v@[0].model() == case_table_part2()[0]);
    // Autowrap
    v.push(case("autowrap on", 5, 24, "ABCDEFG".as_bytes(),
        vec![Check::Row(0, "ABCDE"), Check::Row(1, "FG")]));
    assert(v@[1].model() == case_table_part2()[1]);
    v.push(case("autowrap off (DECAWM)", 5, 24, "\x1b[?7lABCDEFG".as_bytes(),
        vec![Check::Row(0, "ABCDG"), Check::Row(1, "")]));
    assert(v@[2].model() == case_table_part2()[2]);
    // Screens / save-restore
    v.push(case("alt screen enter", 80, 24, "\x1b[?1049h".as_bytes(),
        vec![Check::AltScreen(true)]));
    assert(v@[3].model() == case_table_part2()[3]);
    v.push(case("alt screen leave", 80, 24, "\x1b[?1049h\x1b[?1049l".as_bytes(),
        vec![Check::AltScreen(false)]));
    assert(v@[4].model() == case_table_part2()[4]);
    v.push(case("DECCKM app cursor", 80, 24, "\x1b[?1h".as_bytes(), vec![Check::AppCursor(true)]));
    assert(v@[5].model() == case_table_part2()[5]);
    v.push(case("DECSC/DECRC save+restore cursor", 80, 24,
        "\x1b[5;5H\x1b7\x1b[10;10H\x1b8".as_bytes(), vec![Check::Cursor(4, 4)]));
    assert(v@[6].model() == case_table_part2()[6]);
    // Index / newline
    v.push(case("IND index down", 80, 24, "\x1b[1;1H\x1bD".as_bytes(), vec![Check::Cursor(0, 1)]));
    assert(v@[7].model() == case_table_part2()[7]);
    v
}

/// Cases 24 to 31 of the table.
fn cases_part3() -> (v: Vec<SpecCase>)
    ensures
        v@.len() == 8,
        forall|i: int| 0 <= i < 8 ==> (#[trigger] v@[i]).model() == case_table_part3()[i],
        forall|i: int| 0 <= i < 8 ==> (#[trigger] v@[i]).wf(),
{
    let mut v: Vec<SpecCase> = Vec::new();
    v.push(case("RI reverse index up", 80, 24, "\x1b[3;1H\x1bM".as_bytes(),
        vec![Check::Cursor(0, 1)]));
    assert(v@[0].model() == case_table_part3()[0]);
    v.push(case("NEL next line", 80, 24, "\x1b[3;5H\x1bE".as_bytes(), vec![Check::Cursor(0, 3)]));
    assert(v@[1].model() == case_table_part3()[1]);
    // Tabs
    v.push(case("HT default tab stop", 80, 24, "A\tB".as_bytes(),
        vec![Check::Char(0, 0, 'A'), Check::Char(0, 8, 'B')]));
    assert(v@[2].model() == case_table_part3()[2]);
    // Insert / delete
    v.push(case("ICH insert chars", 80, 24, "ABCDE\x1b[1;2H\x1b[3@".as_bytes(),
        vec![Check::Row(0, "A   BCDE")]));
    assert(v@[3].model() == case_table_part3()[3]);
    v.push(case("DCH delete chars", 80, 24, "ABCDE\x1b[1;2H\x1b[2P".as_bytes(),
        vec![Check::Row(0, "ADE")]));
    assert(v@[4].model() == case_table_part3()[4]);
    v.push(case("IL insert line", 80, 24, "A\r\nB\r\nC\x1b[1;1H\x1b[L".as_bytes(),
        vec![Check::Row(0, ""), Check::Row(1, "A"), Check::Row(2, "B")]));
    assert(v@[5].model() == case_table_part3()[5]);
    v.push(case("DL delete line", 80, 24, "A\r\nB\r\nC\x1b[1;1H\x1b[M".as_bytes(),
        vec![Check::Row(0, "B"), Check::Row(1, "C")]));
    assert(v@[6].model() == case_table_part3()[6]);
    // Scroll region (DECSTBM): region = lines 1..=3 (1-based 2;4). Fill 4 rows, home
    // into the region, feed a line feed at the region bottom: only the region scrolls.
    v.push(case("DECSTBM confines scroll", 80, 24,
        "\x1b[2;4r\x1b[1;1Ha\r\nb\r\nc\r\nd\x1b[4;1H\n".as_bytes(),
        vec![Check::Row(0, "a"), Check::Row(1, "c"), Check::Row(2, "d")]));
    assert(v@[7].model() == case_table_part3()[7]);
    v
}

proof fn lemma_case_table_parts()
    ensures
        case_table().len() == 32,
        forall|i: int| 0 <= i < 8 ==> #[trigger] case_table()[i] == case_table_part0()[i],
        forall|i: int| 8 <= i < 16 ==> #[trigger] case_table()[i] == case_table_part1()[i - 8],
        forall|i: int| 16 <= i < 24 ==> #[trigger] case_table()[i] == case_table_part2()[i - 16],
        forall|i: int| 24 <= i < 32 ==> #[trigger] case_table()[i] == case_table_part3()[i - 24],
{
    let a = case_table_part0();
    let b = case_table_part1();
    let c = case_table_part2();
    let d = case_table_part3();
    assert(a.len() == 8 && b.len() == 8 && c.len() == 8 && d.len() == 8);
    let ab = a + b;
    let abc = ab + c;
    assert(forall|i: int| 0 <= i < 8 ==> #[trigger] ab[i] == a[i]);
    assert(forall|i: int| 8 <= i < 16 ==> #[trigger] ab[i] == b[i - 8]);
    assert(forall|i: int| 0 <= i < 16 ==> #[trigger] abc[i] == ab[i]);
    assert(forall|i: int| 16 <= i < 24 ==> #[trigger] abc[i] == c[i - 16]);
    assert(forall|i: int| 0 <= i < 24 ==> #[trigger] case_table()[i] == abc[i]);
    assert(forall|i: int| 24 <= i < 32 ==> #[trigger] case_table()[i] == d[i - 24]);
}

/// The seeded conformance set: a first batch across the important sequence
/// families (cursor motion, erase, SGR, wrap, screens, save/restore, index, tabs,
/// insert/delete, scroll region). Every case is runnable: its checks stay inside
/// its grid.
pub fn cases() -> (v: Vec<SpecCase>)
    ensures
        v@.len() == case_table().len(),
        forall|i: int| 0 <= i < v@.len() ==> (#[trigger] v@[i]).model() == case_table()[i],
        forall|i: int| 0 <= i < v@.len() ==> (#[trigger] v@[i]).wf(),
{
    let mut v = cases_part0();
    let ghost av = v@;
    let mut b = cases_part1();
    let ghost bv = b@;
    v.append(&mut b);
    let mut c = cases_part2();
    let ghost cv = c@;
    v.append(&mut c);
    let mut d = cases_part3();
    let ghost dv = d@;
    v.append(&mut d);
    proof {
        lemma_case_table_parts();
        assert(v@ == av + bv + cv + dv);
        assert forall|i: int| 0 <= i < 8 implies #[trigger] v@[i] == av[i] by {}
        assert forall|i: int| 8 <= i < 16 implies #[trigger] v@[i] == bv[i - 8] by {}
        assert forall|i: int| 16 <= i < 24 implies #[trigger] v@[i] == cv[i - 16] by {}
        assert forall|i: int| 24 <= i < 32 implies #[trigger] v@[i] == dv[i - 24] by {}
    }
    v
}
} // verus!
