//! The grid packer: arranges fixed-width cells into a row-major or
//! column-major grid that fits a terminal width, preferring the largest
//! column count that fits and falling back to one cell per line when no
//! grid of at least two columns fits or the width is unknown.

use vstd::prelude::*;

use crate::text::push_spaces;
use crate::text::push_str_chars;
use crate::text::spaces;

verus! {

/// The number of grid rows for `n` cells in `c` columns: the ceiling of
/// their quotient.
pub open spec fn n_rows(n: nat, c: nat) -> nat
    recommends
        1 <= c,
{
    ((n + c - 1) / (c as int)) as nat
}

/// The column that cell `i` lands in: row-major layouts cycle through the
/// columns, column-major layouts fill one column per `rows` cells.
pub open spec fn col_of(i: int, c: nat, rows: nat, across: bool) -> int
    recommends
        1 <= c,
        1 <= rows,
{
    if across {
        i % (c as int)
    } else {
        i / (rows as int)
    }
}

/// The cell index shown at row `r`, column `k`, or an index at or past the
/// cell count when that grid position is empty.
pub open spec fn cell_at(c: nat, rows: nat, across: bool, r: int, k: int) -> int {
    if across {
        r * (c as int) + k
    } else {
        k * (rows as int) + r
    }
}

/// The width of column `k`: the maximum width of the cells among the first
/// `n` that land in it.
pub open spec fn col_width_up_to(
    cells: Seq<Seq<char>>,
    c: nat,
    rows: nat,
    across: bool,
    k: int,
    n: int,
) -> nat
    decreases n,
{
    if n <= 0 {
        0
    } else {
        let w = col_width_up_to(cells, c, rows, across, k, n - 1);
        if col_of(n - 1, c, rows, across) == k && cells[n - 1].len() > w {
            cells[n - 1].len()
        } else {
            w
        }
    }
}

/// The width of column `k` over all cells.
pub open spec fn col_width(cells: Seq<Seq<char>>, c: nat, rows: nat, across: bool, k: int) -> nat {
    col_width_up_to(cells, c, rows, across, k, cells.len() as int)
}

/// The number of columns that actually hold a cell.
pub open spec fn used_cols(n: nat, c: nat, rows: nat, across: bool) -> nat
    recommends
        1 <= c,
        1 <= rows,
{
    if across {
        if c <= n {
            c
        } else {
            n
        }
    } else {
        n_rows(n, rows)
    }
}

/// The sum of the widths of the first `k` columns.
pub open spec fn sum_col_widths(
    cells: Seq<Seq<char>>,
    c: nat,
    rows: nat,
    across: bool,
    k: int,
) -> nat
    decreases k,
{
    if k <= 0 {
        0
    } else {
        sum_col_widths(cells, c, rows, across, k - 1) + col_width(cells, c, rows, across, k - 1)
    }
}

/// Whether a layout with `c` columns fits in `wmax`: the occupied columns'
/// widths plus one inter-column margin between each adjacent pair.
pub open spec fn grid_fits(
    cells: Seq<Seq<char>>,
    margin: nat,
    wmax: nat,
    across: bool,
    c: nat,
) -> bool
    recommends
        1 <= c,
        1 <= cells.len(),
{
    let n = cells.len();
    let rows = n_rows(n, c);
    let u = used_cols(n, c, rows, across);
    sum_col_widths(cells, c, rows, across, u as int) + margin * ((u - 1) as nat) <= wmax
}

/// The largest column count in `2 ..= c` whose layout fits, if any.
pub open spec fn best_cols_from(
    cells: Seq<Seq<char>>,
    margin: nat,
    wmax: nat,
    across: bool,
    c: nat,
) -> Option<nat>
    decreases c,
{
    if c < 2 {
        None
    } else if grid_fits(cells, margin, wmax, across, c) {
        Some(c)
    } else {
        best_cols_from(cells, margin, wmax, across, (c - 1) as nat)
    }
}

/// The chosen column count for a batch of cells: the largest count, up to
/// the cell count, whose layout fits.
pub open spec fn best_cols(cells: Seq<Seq<char>>, margin: nat, wmax: nat, across: bool) -> Option<
    nat,
> {
    best_cols_from(cells, margin, wmax, across, cells.len())
}

/// `s` left-aligned in a field of width `w`.
pub open spec fn pad_to(s: Seq<char>, w: nat) -> Seq<char> {
    s + spaces(if s.len() <= w {
        (w - s.len()) as nat
    } else {
        0
    })
}

/// The text row `r` contributes for column `k`: nothing when the position
/// is empty; the cell alone when no later cell follows in the row; else the
/// cell padded to the column width plus the margin.
pub open spec fn grid_piece(
    cells: Seq<Seq<char>>,
    c: nat,
    rows: nat,
    across: bool,
    margin: nat,
    r: int,
    k: int,
) -> Seq<char> {
    let n = cells.len() as int;
    let i = cell_at(c, rows, across, r, k);
    if 0 <= i < n {
        if k + 1 < c && cell_at(c, rows, across, r, k + 1) < n {
            pad_to(cells[i], col_width(cells, c, rows, across, k)) + spaces(margin)
        } else {
            cells[i]
        }
    } else {
        Seq::empty()
    }
}

/// The concatenation of the pieces of row `r` for the first `k` columns.
pub open spec fn row_prefix(
    cells: Seq<Seq<char>>,
    c: nat,
    rows: nat,
    across: bool,
    margin: nat,
    r: int,
    k: int,
) -> Seq<char>
    decreases k,
{
    if k <= 0 {
        Seq::empty()
    } else {
        row_prefix(cells, c, rows, across, margin, r, k - 1) + grid_piece(
            cells,
            c,
            rows,
            across,
            margin,
            r,
            k - 1,
        )
    }
}

/// One rendered grid row.
pub open spec fn grid_row(
    cells: Seq<Seq<char>>,
    c: nat,
    rows: nat,
    across: bool,
    margin: nat,
    r: int,
) -> Seq<char> {
    row_prefix(cells, c, rows, across, margin, r, c as int)
}

/// The rendered grid with `c` columns.
pub open spec fn grid_text(cells: Seq<Seq<char>>, c: nat, across: bool, margin: nat) -> Seq<
    Seq<char>,
> {
    let rows = n_rows(cells.len(), c);
    Seq::new(rows, |r: int| grid_row(cells, c, rows, across, margin, r))
}

/// The fallback: every cell on a line of its own, in input order.
pub open spec fn one_per_line(cells: Seq<Seq<char>>) -> Seq<Seq<char>> {
    cells
}

/// The packed output for a batch of cells: the best-fitting grid when the
/// terminal width is known and some layout of at least two columns fits,
/// else one cell per line.
pub open spec fn grid_lines(
    cells: Seq<Seq<char>>,
    width: Option<usize>,
    margin: nat,
    across: bool,
) -> Seq<Seq<char>> {
    match width {
        None => one_per_line(cells),
        Some(w) => match best_cols(cells, margin, w as nat, across) {
            Some(c) => grid_text(cells, c, across, margin),
            None => one_per_line(cells),
        },
    }
}

/// Grid packing is a pure function of the cells, the width, the margin
/// and the direction: packing the same cells twice under the same terminal
/// width gives identical lines.
pub proof fn lemma_grid_lines_deterministic(
    c1: Seq<Seq<char>>,
    w1: Option<usize>,
    m1: nat,
    a1: bool,
    c2: Seq<Seq<char>>,
    w2: Option<usize>,
    m2: nat,
    a2: bool,
)
    requires
        c1 == c2,
        w1 == w2,
        m1 == m2,
        a1 == a2,
    ensures
        grid_lines(c1, w1, m1, a1) == grid_lines(c2, w2, m2, a2),
{
}

/// The ceiling quotient covers the cells, never exceeds their count, and
/// is positive when they are.
proof fn lemma_nrows(n: nat, c: nat)
    requires
        1 <= c,
    ensures
        n <= n_rows(n, c) * c,
        n_rows(n, c) <= n,
        1 <= n ==> 1 <= n_rows(n, c),
{
    let x = (n + c - 1) as int;
    let ci = c as int;
    vstd::arithmetic::div_mod::lemma_fundamental_div_mod(x, ci);
    let q = x / ci;
    let rem = x % ci;
    assert(n_rows(n, c) == q);
    assert(ci * q == x - rem);
    if n == 0 {
        vstd::arithmetic::div_mod::lemma_basic_div(x, ci);
    } else {
        vstd::arithmetic::div_mod::lemma_div_pos_is_pos(x, ci);
        if q == 0 {
            assert(ci * q == 0) by (nonlinear_arith)
                requires
                    q == 0,
            ;
            assert(x == rem);
            assert(false);
        }
        if q > n {
            assert(ci * q >= ci * (n + 1)) by (nonlinear_arith)
                requires
                    ci >= 1 && q >= n + 1,
            ;
            assert(ci * (n + 1) == ci * n + ci) by (nonlinear_arith);
            assert(n <= ci * n) by (nonlinear_arith)
                requires
                    ci >= 1 && n >= 0,
            ;
            assert(false);
        }
    }
}

/// With `n` cells covered by `rows * c` positions, the occupied column
/// count is at most `c`.
proof fn lemma_used_le(n: nat, c: nat, rows: nat)
    requires
        1 <= rows,
        n <= rows * c,
    ensures
        n_rows(n, rows) <= c,
{
    let x = (n + rows - 1) as int;
    let ri = rows as int;
    assert(ri * ((c + 1) as int) == ri * (c as int) + ri) by (nonlinear_arith);
    assert(x < ri * ((c + 1) as int));
    vstd::arithmetic::div_mod::lemma_multiply_divide_lt(x, ri, (c + 1) as int);
}

/// Every cell's column index is in range.
proof fn lemma_col_in_range(i: int, c: nat, rows: nat, across: bool, n: int)
    requires
        0 <= i < n,
        1 <= c,
        1 <= rows,
        n <= rows * c,
    ensures
        0 <= col_of(i, c, rows, across) < c,
{
    if across {
        vstd::arithmetic::div_mod::lemma_mod_division_less_than_divisor(i, c as int);
    } else {
        vstd::arithmetic::div_mod::lemma_multiply_divide_lt(i, rows as int, c as int);
        vstd::arithmetic::div_mod::lemma_div_pos_is_pos(i, rows as int);
    }
}

/// The cell shown at row `r`, column `k` lands in column `k`.
proof fn lemma_cell_col(r: int, k: int, c: nat, rows: nat, across: bool)
    requires
        0 <= k < c,
        0 <= r < rows,
    ensures
        col_of(cell_at(c, rows, across, r, k), c, rows, across) == k,
{
    if across {
        vstd::arithmetic::div_mod::lemma_fundamental_div_mod_converse_mod(
            r * (c as int) + k,
            c as int,
            r,
            k,
        );
    } else {
        vstd::arithmetic::div_mod::lemma_fundamental_div_mod_converse_div(
            k * (rows as int) + r,
            rows as int,
            k,
            r,
        );
    }
}

/// Every cell fits in its own column's width.
proof fn lemma_col_width_bound(
    cells: Seq<Seq<char>>,
    c: nat,
    rows: nat,
    across: bool,
    i: int,
    n: int,
)
    requires
        0 <= i < n <= cells.len(),
    ensures
        col_width_up_to(cells, c, rows, across, col_of(i, c, rows, across), n) >= cells[i].len(),
    decreases n,
{
    if i < n - 1 {
        lemma_col_width_bound(cells, c, rows, across, i, n - 1);
    }
}

fn fallback_lines(cells: &Vec<String>) -> (r: Vec<String>)
    ensures
        r.deep_view() == one_per_line(cells.deep_view()),
{
    let n = cells.len();
    let mut out: Vec<String> = Vec::new();
    let mut i: usize = 0;
    while i < n
        invariant
            i <= n,
            n == cells@.len(),
            out.deep_view() == cells.deep_view().take(i as int),
        decreases n - i,
    {
        let ghost prev = out.deep_view();
        let ghost oldv = out@;
        out.push(cells[i].clone());
        i += 1;
        proof {
            assert(out@ == oldv.push(cells@[i as int - 1]));
            assert(out@.len() == oldv.len() + 1);
            assert(prev.len() == oldv.len());
            assert(prev == cells.deep_view().take(i as int - 1));
            assert(prev.len() == i as int - 1);
            assert(out.deep_view().len() == i as int);
            assert forall|j: int| 0 <= j < i as int implies out.deep_view()[j]
                == cells.deep_view().take(i as int)[j] by {
                assert(out.deep_view()[j] == out@[j].deep_view());
                if j < i as int - 1 {
                    assert(out@[j] == oldv[j]);
                    assert(prev[j] == oldv[j].deep_view());
                    assert(prev[j] == cells.deep_view().take(i as int - 1)[j]);
                } else {
                    assert(out@[j] == cells@[j]);
                }
            }
            assert(out.deep_view() =~= cells.deep_view().take(i as int));
        }
    }
    proof {
        assert(cells.deep_view().take(n as int) =~~= cells.deep_view());
    }
    out
}

/// The character widths of the cells.
fn cell_widths(cells: &Vec<String>) -> (r: Vec<usize>)
    ensures
        r@.len() == cells@.len(),
        forall|j: int| 0 <= j < cells@.len() ==> r@[j] as nat == cells.deep_view()[j].len(),
{
    let n = cells.len();
    let mut lens: Vec<usize> = Vec::new();
    let mut i: usize = 0;
    while i < n
        invariant
            i <= n,
            n == cells@.len(),
            lens@.len() == i as int,
            forall|j: int| 0 <= j < i as int ==> lens@[j] as nat == cells.deep_view()[j].len(),
        decreases n - i,
    {
        lens.push(cells[i].as_str().unicode_len());
        i += 1;
    }
    lens
}

/// The widths of the `c` columns of a candidate layout.
fn layout_col_widths(lens: &Vec<usize>, c: usize, rows: usize, across: bool, Ghost(cv): Ghost<
    Seq<Seq<char>>,
>) -> (r: Vec<usize>)
    requires
        1 <= c,
        1 <= rows,
        lens@.len() == cv.len(),
        cv.len() <= rows as int * c as int,
        forall|j: int| 0 <= j < cv.len() ==> lens@[j] as nat == cv[j].len(),
    ensures
        r@.len() == c as int,
        forall|k: int|
            0 <= k < c as int ==> r@[k] as nat == col_width(cv, c as nat, rows as nat, across, k),
{
    let n = lens.len();
    let mut cols: Vec<usize> = Vec::new();
    let mut k: usize = 0;
    while k < c
        invariant
            k <= c,
            cols@.len() == k as int,
            forall|j: int| 0 <= j < k as int ==> cols@[j] == 0,
        decreases c - k,
    {
        cols.push(0);
        k += 1;
    }
    let mut i: usize = 0;
    while i < n
        invariant
            i <= n,
            n == cv.len(),
            1 <= c,
            1 <= rows,
            n as int <= rows as int * c as int,
            lens@.len() == cv.len(),
            forall|j: int| 0 <= j < cv.len() ==> lens@[j] as nat == cv[j].len(),
            cols@.len() == c as int,
            forall|j: int|
                0 <= j < c as int ==> cols@[j] as nat == col_width_up_to(
                    cv,
                    c as nat,
                    rows as nat,
                    across,
                    j,
                    i as int,
                ),
        decreases n - i,
    {
        proof {
            lemma_col_in_range(i as int, c as nat, rows as nat, across, n as int);
        }
        let col: usize = if across {
            i % c
        } else {
            i / rows
        };
        if lens[i] > cols[col] {
            cols.set(col, lens[i]);
        }
        i += 1;
    }
    cols
}

/// Whether the layout with `c` columns and these column widths fits.
fn layout_fits(cols: &Vec<usize>, u: usize, margin: usize, wmax: usize, Ghost(cv): Ghost<
    Seq<Seq<char>>,
>, Ghost(c): Ghost<nat>, Ghost(rows): Ghost<nat>, Ghost(across): Ghost<bool>) -> (b: bool)
    requires
        1 <= u <= cols@.len(),
        forall|k: int| 0 <= k < cols@.len() ==> cols@[k] as nat == col_width(cv, c, rows, across, k),
    ensures
        b == (sum_col_widths(cv, c, rows, across, u as int) + (margin as nat) * ((u - 1) as nat)
            <= wmax as nat),
{
    let mut sum: u128 = 0;
    let mut k: usize = 0;
    while k < u
        invariant
            k <= u <= cols@.len(),
            forall|j: int|
                0 <= j < cols@.len() ==> cols@[j] as nat == col_width(cv, c, rows, across, j),
            sum as nat == sum_col_widths(cv, c, rows, across, k as int),
            sum <= (k as u128) * (u64::MAX as u128),
        decreases u - k,
    {
        sum = sum + (cols[k] as u128);
        k += 1;
    }
    proof {
        vstd::arithmetic::mul::lemma_mul_upper_bound(
            margin as int,
            u64::MAX as int,
            (u - 1) as int,
            u64::MAX as int,
        );
        vstd::arithmetic::mul::lemma_mul_upper_bound(
            u as int,
            u64::MAX as int,
            u64::MAX as int,
            u64::MAX as int,
        );
    }
    let margin_total = (margin as u128) * ((u - 1) as u128);
    if sum > (wmax as u128) {
        false
    } else {
        sum + margin_total <= (wmax as u128)
    }
}

/// Renders the grid with the chosen layout.
#[verifier::rlimit(100)]
#[verifier::spinoff_prover]
fn render_grid(
    cells: &Vec<String>,
    lens: &Vec<usize>,
    cols: &Vec<usize>,
    c: usize,
    rows: usize,
    across: bool,
    margin: usize,
) -> (r: Vec<String>)
    requires
        1 <= c,
        1 <= rows,
        rows as nat == n_rows(cells.deep_view().len(), c as nat),
        cells.deep_view().len() <= rows as int * c as int,
        lens@.len() == cells@.len(),
        forall|j: int| 0 <= j < cells@.len() ==> lens@[j] as nat == cells.deep_view()[j].len(),
        cols@.len() == c as int,
        forall|k: int|
            0 <= k < c as int ==> cols@[k] as nat == col_width(
                cells.deep_view(),
                c as nat,
                rows as nat,
                across,
                k,
            ),
    ensures
        r.deep_view() == grid_text(cells.deep_view(), c as nat, across, margin as nat),
{
    let ghost cv = cells.deep_view();
    let n = cells.len();
    proof {
        assert(cv.len() == n as int);
    }
    let mut out: Vec<String> = Vec::new();
    let mut r: usize = 0;
    while r < rows
        invariant
            r <= rows,
            1 <= c,
            1 <= rows,
            n == cells@.len(),
            cv == cells.deep_view(),
            cv.len() == n as int,
            rows as nat == n_rows(cv.len(), c as nat),
            cv.len() <= rows as int * c as int,
            lens@.len() == cells@.len(),
            forall|j: int| 0 <= j < cells@.len() ==> lens@[j] as nat == cv[j].len(),
            cols@.len() == c as int,
            forall|k: int|
                0 <= k < c as int ==> cols@[k] as nat == col_width(
                    cv,
                    c as nat,
                    rows as nat,
                    across,
                    k,
                ),
            out.deep_view().len() == r as int,
            forall|q: int|
                0 <= q < r as int ==> out.deep_view()[q] == grid_row(
                    cv,
                    c as nat,
                    rows as nat,
                    across,
                    margin as nat,
                    q,
                ),
        decreases rows - r,
    {
        let mut line: Vec<char> = Vec::new();
        let mut k: usize = 0;
        while k < c
            invariant
                k <= c,
                r < rows,
                1 <= c,
                1 <= rows,
                n == cells@.len(),
                cv == cells.deep_view(),
                cv.len() == n as int,
                cv.len() <= rows as int * c as int,
                lens@.len() == cells@.len(),
                forall|j: int| 0 <= j < cells@.len() ==> lens@[j] as nat == cv[j].len(),
                cols@.len() == c as int,
                forall|q: int|
                    0 <= q < c as int ==> cols@[q] as nat == col_width(
                        cv,
                        c as nat,
                        rows as nat,
                        across,
                        q,
                    ),
                line@ == row_prefix(cv, c as nat, rows as nat, across, margin as nat, r as int, k as int),
            decreases c - k,
        {
            proof {
                vstd::arithmetic::mul::lemma_mul_upper_bound(
                    r as int,
                    u64::MAX as int,
                    c as int,
                    u64::MAX as int,
                );
                vstd::arithmetic::mul::lemma_mul_upper_bound(
                    k as int,
                    u64::MAX as int,
                    rows as int,
                    u64::MAX as int,
                );
            }
            let idx: u128 = if across {
                (r as u128) * (c as u128) + (k as u128)
            } else {
                (k as u128) * (rows as u128) + (r as u128)
            };
            proof {
                assert(idx as int == cell_at(c as nat, rows as nat, across, r as int, k as int));
            }
            if idx < (n as u128) {
                let i = idx as usize;
                proof {
                    lemma_cell_col(r as int, k as int, c as nat, rows as nat, across);
                    lemma_col_width_bound(cv, c as nat, rows as nat, across, i as int, n as int);
                }
                push_str_chars(&mut line, cells[i].as_str());
                let has_next: bool = if k + 1 < c {
                    proof {
                        vstd::arithmetic::mul::lemma_mul_upper_bound(
                            (k + 1) as int,
                            u64::MAX as int,
                            rows as int,
                            u64::MAX as int,
                        );
                    }
                    let next: u128 = if across {
                        idx + 1
                    } else {
                        ((k + 1) as u128) * (rows as u128) + (r as u128)
                    };
                    proof {
                        assert(next as int == cell_at(
                            c as nat,
                            rows as nat,
                            across,
                            r as int,
                            k as int + 1,
                        ));
                    }
                    next < (n as u128)
                } else {
                    false
                };
                if has_next {
                    push_spaces(&mut line, cols[k] - lens[i]);
                    push_spaces(&mut line, margin);
                }
                proof {
                    assert(line@ =~= row_prefix(
                        cv,
                        c as nat,
                        rows as nat,
                        across,
                        margin as nat,
                        r as int,
                        k as int + 1,
                    ));
                }
            } else {
                proof {
                    assert(line@ =~= row_prefix(
                        cv,
                        c as nat,
                        rows as nat,
                        across,
                        margin as nat,
                        r as int,
                        k as int + 1,
                    ));
                }
            }
            k += 1;
        }
        let s = crate::text::chars_to_string(&line);
        let ghost old_dv = out.deep_view();
        out.push(s);
        proof {
            assert(out.deep_view() =~~= old_dv.push(line@));
        }
        r += 1;
    }
    proof {
        assert(out.deep_view() =~~= grid_text(cv, c as nat, across, margin as nat));
    }
    out
}

/// Packs display cells into the widest grid that fits the terminal width:
/// tries every column count from the cell count down to two and renders the
/// first (largest) that fits, reading cells row-major when `across` is set
/// and column-major otherwise, with `margin` spaces between columns. Falls
/// back to one cell per line when the width is unknown or no grid of at
/// least two columns fits.
pub fn pack_grid(cells: &Vec<String>, width: Option<usize>, margin: usize, across: bool) -> (r: Vec<
    String,
>)
    ensures
        r.deep_view() == grid_lines(cells.deep_view(), width, margin as nat, across),
{
    let ghost cv = cells.deep_view();
    let n = cells.len();
    proof {
        assert(cv.len() == n as int);
    }
    let wmax: usize = match width {
        Some(w) => w,
        None => {
            return fallback_lines(cells);
        },
    };
    proof {
        assert(width == Some(wmax));
    }
    let lens = cell_widths(cells);
    let mut c: usize = n;
    while c >= 2
        invariant
            c <= n,
            n == cells@.len(),
            width == Some(wmax),
            cv == cells.deep_view(),
            cv.len() == n as int,
            lens@.len() == cells@.len(),
            forall|j: int| 0 <= j < cells@.len() ==> lens@[j] as nat == cv[j].len(),
            best_cols(cv, margin as nat, wmax as nat, across) == best_cols_from(
                cv,
                margin as nat,
                wmax as nat,
                across,
                c as nat,
            ),
        decreases c,
    {
        proof {
            lemma_nrows(n as nat, c as nat);
        }
        let rows_128 = ((n as u128) + (c as u128) - 1) / (c as u128);
        let rows = rows_128 as usize;
        proof {
            assert(rows as nat == n_rows(n as nat, c as nat));
        }
        let cols = layout_col_widths(&lens, c, rows, across, Ghost(cv));
        let u: usize = if across {
            c
        } else {
            proof {
                lemma_nrows(n as nat, rows as nat);
                lemma_used_le(n as nat, c as nat, rows as nat);
            }
            let u128v = ((n as u128) + (rows as u128) - 1) / (rows as u128);
            u128v as usize
        };
        proof {
            assert(u as nat == used_cols(n as nat, c as nat, rows as nat, across));
            assert(1 <= u as nat && u as nat <= c as nat);
        }
        if layout_fits(&cols, u, margin, wmax, Ghost(cv), Ghost(c as nat), Ghost(rows as nat), Ghost(across)) {
            proof {
                assert(grid_fits(cv, margin as nat, wmax as nat, across, c as nat));
                assert(best_cols_from(cv, margin as nat, wmax as nat, across, c as nat) == Some(
                    c as nat,
                ));
                assert(grid_lines(cv, width, margin as nat, across) == grid_text(
                    cv,
                    c as nat,
                    across,
                    margin as nat,
                ));
            }
            return render_grid(cells, &lens, &cols, c, rows, across, margin);
        }
        c -= 1;
    }
    fallback_lines(cells)
}

} // verus!
