//! The preferences dialog's memory guardrail: what a full scrollback buffer
//! costs per pane at the current width.

use vstd::prelude::*;

verus! {

/// Bytes a full buffer of `scrollback` lines takes at `cols` columns, with
/// `cell_bytes` per cell and 32 bytes of per-line overhead, saturating at
/// `u64::MAX`.
pub open spec fn full_scrollback_spec(scrollback: nat, cols: nat, cell_bytes: nat) -> nat {
    let per_line = (if cols >= 1 { cols } else { 1 }) * cell_bytes + 32;
    let full = scrollback * per_line;
    if full > u64::MAX { u64::MAX as nat } else { full }
}

/// The memory a full scrollback costs per pane: each line holds `max(cols, 1)`
/// cells of `cell_bytes` plus 32 bytes of row overhead, and the product with
/// the line count saturates rather than overflowing.
pub fn full_scrollback_bytes(scrollback: u64, cols: u64, cell_bytes: u64) -> (b: u64)
    requires
        (if cols >= 1 { cols as int } else { 1int }) * cell_bytes + 32 <= u64::MAX,
    ensures
        b == full_scrollback_spec(scrollback as nat, cols as nat, cell_bytes as nat),
{
    let width: u64 = if cols >= 1 { cols } else { 1 };
    assert(width * cell_bytes + 32 <= u64::MAX);
    let per_line: u64 = width * cell_bytes + 32;
    let full = scrollback.checked_mul(per_line);
    match full {
        Some(f) => f,
        None => u64::MAX,
    }
}

/// Whether the estimate reads in gigabytes (1e9 bytes or more) rather than in
/// megabytes.
pub fn estimate_in_gigabytes(bytes: u64) -> (g: bool)
    ensures
        g == (bytes >= 1_000_000_000),
{
    bytes >= 1_000_000_000
}


/// The estimate is the line count times the per-line cost (at least one cell
/// per line, each of `cell_bytes`, plus 32 bytes), capped at `u64::MAX`: an
/// empty scrollback costs nothing, and a zero-width grid costs as much as a
/// one-column grid.
pub proof fn lemma_scrollback_cost(scrollback: nat, cols: nat, cell_bytes: nat)
    ensures
        scrollback * (if cols == 0 { 1 } else { cols } * cell_bytes + 32) <= u64::MAX ==> full_scrollback_spec(
            scrollback,
            cols,
            cell_bytes,
        ) == scrollback * (if cols == 0 { 1 } else { cols } * cell_bytes + 32),
        scrollback * (if cols == 0 { 1 } else { cols } * cell_bytes + 32) > u64::MAX ==> full_scrollback_spec(
            scrollback,
            cols,
            cell_bytes,
        ) == u64::MAX,
        full_scrollback_spec(0, cols, cell_bytes) == 0,
        full_scrollback_spec(scrollback, 0, cell_bytes) == full_scrollback_spec(scrollback, 1, cell_bytes),
{
}

} // verus!
