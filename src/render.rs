//! One computation of a view: sample the raster with the selected method,
//! then colour it.

use vstd::prelude::*;

use crate::divergence::{
    divergence_cell, is_divergence_table, is_limit, lemma_limit_within_budget, limit_on_screen_julia,
    limit_on_screen_mandelbrot, LimitMethod, State,
};
use crate::method::UnknownSelector;
use crate::palette::{is_labelling, rows_view, RootLabels};
use crate::raster::{
    convert_root_table_to_data, convert_state_table_to_data, label_table_bytes,
    lemma_label_table_bytes_len, lemma_state_table_bytes_len, root_table_cost, saturated,
    state_table_bytes, state_table_cost, within_budget, RasterData,
};
use crate::root::{is_root_table, limit_on_screen_root, Root, RootMethod};
use crate::viewport::{doubled_offset, MAX_SIDE};

verus! {

proof fn lemma_table_within_budget<P, F: Fn(P, P) -> P, W: Fn(P) -> bool, L: Fn(i64, i64) -> P>(
    f: F,
    inside: W,
    locate: L,
    fixed: P,
    julia: bool,
    budget: nat,
    size: [usize; 2],
    grid: bool,
    table: Seq<Vec<State>>,
)
    requires
        is_divergence_table(f, inside, locate, fixed, julia, budget, size, grid, table),
    ensures
        within_budget(table, budget as int),
{
    assert forall|y: int, x: int| 0 <= y < table.len() && 0 <= x < table[y]@.len() implies (
    #[trigger] table[y]@[x] matches State::Divergent { iterations } ==> iterations <= budget) by {
        assert(divergence_cell(f, inside, locate, fixed, julia, budget, size, grid, x, y, table[y]@[x]));
        if !(grid && (x == size[0] / 2 || y == size[1] / 2)) {
            let p = choose|p: P|
                #[trigger] locate.ensures(
                    (doubled_offset(x, size[0] as int) as i64, doubled_offset(y, size[0] as int) as i64),
                    p,
                ) && if julia {
                    is_limit(f, inside, fixed, p, budget, table[y]@[x])
                } else {
                    is_limit(f, inside, p, fixed, budget, table[y]@[x])
                };
            if julia {
                lemma_limit_within_budget(f, inside, fixed, p, budget, table[y]@[x]);
            } else {
                lemma_limit_within_budget(f, inside, p, fixed, budget, table[y]@[x]);
            }
        }
    }
}

/// Compute an escape-time view: sample with `method` (the pixel's point as
/// `c` for Mandelbrot, as `z0` for Julia, `constant` in the other role), then
/// colour the table.
pub fn render_divergence<P: Copy, F: Fn(P, P) -> P, W: Fn(P) -> bool, L: Fn(i64, i64) -> P>(
    method: LimitMethod,
    constant: P,
    f: &F,
    inside: &W,
    iterations: usize,
    size: [usize; 2],
    locate: &L,
    grid: bool,
    color_stable: [u8; 3],
    color_divergent: [u8; 3],
    color_grid: [u8; 3],
) -> (r: RasterData)
    requires
        forall|a: P, b: P| f.requires((a, b)),
        forall|p: P| inside.requires((p,)),
        forall|dx: i64, dy: i64| locate.requires((dx, dy)),
        size[0] <= MAX_SIDE,
        size[1] <= MAX_SIDE,
    ensures
        r.raw_pixels@.len() == 3 * size[0] * size[1],
        exists|table: Seq<Vec<State>>|
            {
                &&& is_divergence_table(
                    *f,
                    *inside,
                    *locate,
                    constant,
                    method == LimitMethod::Julia,
                    iterations as nat,
                    size,
                    grid,
                    table,
                )
                &&& r.raw_pixels@ == state_table_bytes(table, color_stable, color_divergent, color_grid, iterations as int)
                &&& saturated(state_table_cost(table, iterations as int), r.iterations_total)
            },
{
    let table = match method {
        LimitMethod::Julia => limit_on_screen_julia(constant, f, inside, iterations, size, locate, grid),
        LimitMethod::Mandelbrot => limit_on_screen_mandelbrot(constant, f, inside, iterations, size, locate, grid),
    };
    proof {
        lemma_table_within_budget(
            *f,
            *inside,
            *locate,
            constant,
            method == LimitMethod::Julia,
            iterations as nat,
            size,
            grid,
            table@,
        );
        lemma_state_table_bytes_len(table@, size[0] as int, color_stable, color_divergent, color_grid, iterations as int);
    }
    convert_state_table_to_data(&table, color_stable, color_divergent, color_grid, iterations)
}

/// Compute a Newton view with the root method numbered `method_id`: sample,
/// then colour the distinct roots, told apart by `same`. An unknown method
/// number is an error.
pub fn render_root<
    P: Copy,
    F: Fn(P) -> P,
    D: Fn(P) -> P,
    S: Fn(P, P, P) -> P,
    Z: Fn(P) -> bool,
    E: Fn(P, P) -> bool,
    L: Fn(i64, i64) -> P,
>(
    method_id: usize,
    function: &F,
    derivative: &D,
    step: &S,
    is_zero: &Z,
    same: &E,
    iterations: usize,
    size: [usize; 2],
    locate: &L,
    color_no_root: [u8; 3],
) -> (r: Result<RasterData, UnknownSelector>)
    requires
        forall|p: P| function.requires((p,)),
        forall|p: P| derivative.requires((p,)),
        forall|p: P, v: P, d: P| step.requires((p, v, d)),
        forall|p: P| is_zero.requires((p,)),
        forall|a: P, b: P| same.requires((a, b)),
        forall|dx: i64, dy: i64| locate.requires((dx, dy)),
        size[0] <= MAX_SIDE,
        size[1] <= MAX_SIDE,
    ensures
        method_id != 0 ==> r == Err::<RasterData, UnknownSelector>(UnknownSelector { id: method_id }),
        method_id == 0 ==> (r matches Ok(data) && data.raw_pixels@.len() == 3 * size[0] * size[1] && exists|table: Seq<Vec<Root<P>>>, labels: RootLabels<P>|
            {
                &&& is_root_table(*function, *derivative, *step, *is_zero, *locate, iterations as nat, size, table)
                &&& is_labelling(*same, table, labels)
                &&& data.raw_pixels@ == label_table_bytes(
                    rows_view(labels.labels@),
                    labels.roots@.len() as int,
                    color_no_root,
                )
                &&& saturated(root_table_cost(table, iterations as int), data.iterations_total)
            }),
{
    match RootMethod::from_id(method_id) {
        Err(e) => Err(e),
        Ok(RootMethod::Newton) => {
            let table = limit_on_screen_root(function, derivative, step, is_zero, iterations, size, locate);
            let data = convert_root_table_to_data(&table, color_no_root, iterations, same);
            proof {
                let labels = choose|labels: RootLabels<P>|
                    is_labelling(*same, table@, labels) && data.raw_pixels@ == label_table_bytes(
                        rows_view(labels.labels@),
                        labels.roots@.len() as int,
                        color_no_root,
                    );
                let rows = rows_view(labels.labels@);
                assert forall|y: int| 0 <= y < rows.len() implies (#[trigger] rows[y]).len() == size[0] by {
                    assert(labels.labels@[y]@.len() == table@[y]@.len());
                }
                lemma_label_table_bytes_len(rows, size[0] as int, labels.roots@.len() as int, color_no_root);
            }
            Ok(data)
        },
    }
}

} // verus!
