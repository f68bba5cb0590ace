//! Order of the resolved shelf boards and uprights in bay layouts.

use vstd::prelude::*;

verus! {

/// The (bay, row) of the `k`-th board listed in a layout with `rows` rows per bay:
/// boards are listed bay by bay, left to right, and bottom-up within a bay.
pub open spec fn grid_cell(k: int, rows: int) -> (int, int) {
    (k / rows, k % rows)
}

/// Listing order of the boards of a bay layout: `bay_count` bays of `row_count` rows.
pub fn grid_board_cells(bay_count: u32, row_count: usize) -> (cells: Vec<(u32, usize)>)
    requires
        bay_count * row_count <= usize::MAX,
    ensures
        cells@.len() == bay_count * row_count,
        forall|k: int|
            0 <= k < cells@.len() ==> {
                let c = #[trigger] cells@[k];
                &&& c.0 as int == grid_cell(k, row_count as int).0
                &&& c.1 as int == grid_cell(k, row_count as int).1
            },
{
    let mut cells: Vec<(u32, usize)> = Vec::new();
    let mut b: u32 = 0;
    while b < bay_count
        invariant
            b <= bay_count,
            bay_count * row_count <= usize::MAX,
            cells@.len() == b * row_count,
            forall|k: int|
                0 <= k < cells@.len() ==> {
                    let c = #[trigger] cells@[k];
                    &&& c.0 as int == grid_cell(k, row_count as int).0
                    &&& c.1 as int == grid_cell(k, row_count as int).1
                },
        decreases bay_count - b,
    {
        let mut r: usize = 0;
        while r < row_count
            invariant
                b < bay_count,
                r <= row_count,
                bay_count * row_count <= usize::MAX,
                cells@.len() == b * row_count + r,
                forall|k: int|
                    0 <= k < cells@.len() ==> {
                        let c = #[trigger] cells@[k];
                        &&& c.0 as int == grid_cell(k, row_count as int).0
                        &&& c.1 as int == grid_cell(k, row_count as int).1
                    },
            decreases row_count - r,
        {
            proof {
                let k = b * row_count + r;
                assert(b * row_count + r < bay_count * row_count) by (nonlinear_arith)
                    requires
                        b < bay_count,
                        r < row_count,
                ;
                vstd::arithmetic::div_mod::lemma_fundamental_div_mod_converse(
                    k as int,
                    row_count as int,
                    b as int,
                    r as int,
                );
            }
            cells.push((b, r));
            r = r + 1;
        }
        assert((b + 1) * row_count == b * row_count + row_count) by (nonlinear_arith);
        b = b + 1;
    }
    cells
}

/// Board `r` of bay `b` is listed at position `b * rows + r`: the listing walks the bays in
/// order and, within a bay, its rows bottom-up.
pub proof fn lemma_grid_cell_position(b: int, r: int, rows: int)
    requires
        0 <= b,
        0 <= r < rows,
    ensures
        grid_cell(b * rows + r, rows) == (b, r),
{
    vstd::arithmetic::div_mod::lemma_fundamental_div_mod_converse(b * rows + r, rows, b, r);
}

/// Number of upright dividers between `bay_count` bays.
pub open spec fn upright_count_spec(bay_count: int) -> int {
    if bay_count < 2 {
        0
    } else {
        bay_count - 1
    }
}

/// Number of upright dividers between `bay_count` bays: one between each neighbouring pair.
pub fn upright_count(bay_count: u32) -> (n: u32)
    ensures
        n == upright_count_spec(bay_count as int),
        bay_count >= 1 ==> n == bay_count - 1,
        bay_count == 0 ==> n == 0,
{
    if bay_count < 2 {
        0
    } else {
        bay_count - 1
    }
}

/// Bays are separated by one upright each: `bay_count` bays side by side have
/// `bay_count - 1` uprights between them, and no bay means no upright.
pub proof fn lemma_uprights_between_bays(bay_count: int)
    requires
        bay_count >= 0,
    ensures
        bay_count >= 1 ==> upright_count_spec(bay_count) == bay_count - 1,
        bay_count == 0 ==> upright_count_spec(bay_count) == 0,
        upright_count_spec(bay_count + 1) == upright_count_spec(bay_count) + 1 || bay_count == 0,
{
}

/// The listing order is strictly increasing in (bay, row): every cell appears once and
/// boards of an earlier bay come first.
pub proof fn lemma_grid_order_strict(j: int, k: int, rows: int)
    requires
        rows > 0,
        0 <= j < k,
    ensures
        grid_cell(j, rows).0 < grid_cell(k, rows).0 || (grid_cell(j, rows).0 == grid_cell(
            k,
            rows,
        ).0 && grid_cell(j, rows).1 < grid_cell(k, rows).1),
{
    vstd::arithmetic::div_mod::lemma_div_is_ordered(j, k, rows);
    if j / rows == k / rows {
        vstd::arithmetic::div_mod::lemma_fundamental_div_mod(j, rows);
        vstd::arithmetic::div_mod::lemma_fundamental_div_mod(k, rows);
    }
}

} // verus!
