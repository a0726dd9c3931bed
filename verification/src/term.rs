//! The terminal-introspection boundary: the width query, and grid packing
//! against whatever width the terminal reports.

use vstd::prelude::*;

use crate::grid::grid_lines;
use crate::grid::pack_grid;

verus! {

/// The terminal's column count, or `None` when it cannot be determined.
///
/// Relies on `term_size::dimensions`, which reports the terminal's
/// (columns, rows) or `None`; the result depends on the environment, so
/// nothing more is assumed of it.
#[verifier::external_body]
fn terminal_width() -> (r: Option<usize>) {
    match term_size::dimensions() {
        Some((w, _)) => Some(w),
        None => None,
    }
}

/// Packs cells against the width the terminal reports at the time of the
/// call: the result is the packing for some width value, unknown in
/// advance; one cell per line whenever the terminal reports no width.
pub fn pack_grid_to_terminal(cells: &Vec<String>, margin: usize, across: bool) -> (r: Vec<String>)
    ensures
        exists|w: Option<usize>|
            r.deep_view() == grid_lines(cells.deep_view(), w, margin as nat, across),
{
    let w = terminal_width();
    let r = pack_grid(cells, w, margin, across);
    proof {
        assert(r.deep_view() == grid_lines(cells.deep_view(), w, margin as nat, across));
    }
    r
}

} // verus!
