//! From classification tables to interleaved RGB rasters.
//!
//! A raster holds three bytes (red, green, blue) per pixel, row-major, top row
//! first, together with the total number of iterations its table cost.

use vstd::prelude::*;

use crate::color::{channel, hsv_to_rgb, Hsv, Ratio, Rgb};
use crate::divergence::State;
use crate::palette::{covered, is_labelling, label_roots, labelled, rows_view, RootLabels};
use crate::root::Root;

verus! {

/// RGB bytes of a classified raster, with the iteration count behind it.
pub struct RasterData {
    /// Three bytes per pixel, row-major, top row first.
    pub raw_pixels: Vec<u8>,
    /// Iterations spent on the table, saturated at `usize::MAX`.
    pub iterations_total: usize,
}

/// `value` scaled by `k / budget`, truncated; nothing is left when the budget
/// is zero.
pub open spec fn scaled(value: u8, k: int, budget: int) -> int {
    if budget == 0 {
        0
    } else {
        value * k / budget
    }
}

/// Colour of a divergence cell: a fixed colour when stable or on the overlay,
/// the divergent colour scaled by `k / budget` when it diverged after `k` steps.
pub open spec fn state_rgb(s: State, stable: [u8; 3], divergent: [u8; 3], grid: [u8; 3], budget: int) -> Seq<u8> {
    match s {
        State::Stable => seq![stable[0], stable[1], stable[2]],
        State::GridLine => seq![grid[0], grid[1], grid[2]],
        State::Divergent { iterations } => seq![
            scaled(divergent[0], iterations as int, budget) as u8,
            scaled(divergent[1], iterations as int, budget) as u8,
            scaled(divergent[2], iterations as int, budget) as u8,
        ],
    }
}

/// Iterations a divergence cell stands for: the whole budget when stable, one
/// for an overlay pixel, `k` when it diverged after `k` steps.
pub open spec fn state_cost(s: State, budget: int) -> int {
    match s {
        State::Stable => budget,
        State::GridLine => 1,
        State::Divergent { iterations } => iterations as int,
    }
}

/// Bytes of a row of divergence cells, left to right.
pub open spec fn state_row_bytes(
    row: Seq<State>,
    stable: [u8; 3],
    divergent: [u8; 3],
    grid: [u8; 3],
    budget: int,
) -> Seq<u8>
    decreases row.len(),
{
    if row.len() == 0 {
        Seq::empty()
    } else {
        state_row_bytes(row.drop_last(), stable, divergent, grid, budget) + state_rgb(
            row.last(),
            stable,
            divergent,
            grid,
            budget,
        )
    }
}

/// Bytes of a divergence table, top row first.
pub open spec fn state_table_bytes(
    table: Seq<Vec<State>>,
    stable: [u8; 3],
    divergent: [u8; 3],
    grid: [u8; 3],
    budget: int,
) -> Seq<u8>
    decreases table.len(),
{
    if table.len() == 0 {
        Seq::empty()
    } else {
        state_table_bytes(table.drop_last(), stable, divergent, grid, budget) + state_row_bytes(
            table.last()@,
            stable,
            divergent,
            grid,
            budget,
        )
    }
}

/// Iterations of a row of divergence cells.
pub open spec fn state_row_cost(row: Seq<State>, budget: int) -> int
    decreases row.len(),
{
    if row.len() == 0 {
        0
    } else {
        state_row_cost(row.drop_last(), budget) + state_cost(row.last(), budget)
    }
}

/// Iterations of a divergence table.
pub open spec fn state_table_cost(table: Seq<Vec<State>>, budget: int) -> int
    decreases table.len(),
{
    if table.len() == 0 {
        0
    } else {
        state_table_cost(table.drop_last(), budget) + state_row_cost(table.last()@, budget)
    }
}

/// No cell of `table` diverged after more than `budget` steps.
pub open spec fn within_budget(table: Seq<Vec<State>>, budget: int) -> bool {
    forall|y: int, x: int|
        0 <= y < table.len() && 0 <= x < table[y]@.len() ==> (#[trigger] table[y]@[x] matches State::Divergent {
            iterations,
        } ==> iterations <= budget)
}

/// `total` is `cost` saturated at `usize::MAX`.
pub open spec fn saturated(cost: int, total: usize) -> bool {
    total == if cost <= usize::MAX {
        cost
    } else {
        usize::MAX as int
    }
}

/// `value * k / budget`, for `k <= budget`.
fn scale(value: u8, k: usize, budget: usize) -> (r: u8)
    requires
        k <= budget,
    ensures
        r == scaled(value, k as int, budget as int),
{
    if budget == 0 {
        0
    } else {
        proof {
            assert(value as int * k as int <= 255 * 0x1_0000_0000_0000_0000) by (nonlinear_arith)
                requires
                    0 <= value <= 255,
                    0 <= k <= 0x1_0000_0000_0000_0000,
            ;
        }
        let product: u128 = value as u128 * k as u128;
        proof {
            assert(value as int * k as int <= value as int * budget as int) by (nonlinear_arith)
                requires
                    k <= budget,
                    0 <= value,
            ;
            assert(value as int * k as int / budget as int <= value as int) by (nonlinear_arith)
                requires
                    value as int * k as int <= value as int * budget as int,
                    budget > 0,
                    0 <= value,
            ;
        }
        (product / budget as u128) as u8
    }
}

/// Colour a divergence table: `Stable` cells take `color_stable`, overlay cells
/// `color_grid`, and a cell that diverged after `k` steps takes each channel of
/// `color_divergent` scaled by `k / iterations`.
pub fn convert_state_table_to_data(
    table: &Vec<Vec<State>>,
    color_stable: [u8; 3],
    color_divergent: [u8; 3],
    color_grid: [u8; 3],
    iterations: usize,
) -> (r: RasterData)
    requires
        within_budget(table@, iterations as int),
    ensures
        r.raw_pixels@ == state_table_bytes(table@, color_stable, color_divergent, color_grid, iterations as int),
        saturated(state_table_cost(table@, iterations as int), r.iterations_total),
{
    let mut raw: Vec<u8> = Vec::new();
    let mut total: usize = 0;
    let mut y: usize = 0;
    while y < table.len()
        invariant
            within_budget(table@, iterations as int),
            y <= table.len(),
            raw@ == state_table_bytes(table@.take(y as int), color_stable, color_divergent, color_grid, iterations as int),
            saturated(state_table_cost(table@.take(y as int), iterations as int), total),
        decreases table.len() - y,
    {
        let row = &table[y];
        let ghost before = raw@;
        let ghost cost_before = state_table_cost(table@.take(y as int), iterations as int);
        let mut x: usize = 0;
        while x < row.len()
            invariant
                within_budget(table@, iterations as int),
                y < table.len(),
                row == table@[y as int],
                x <= row.len(),
                raw@ == before + state_row_bytes(row@.take(x as int), color_stable, color_divergent, color_grid, iterations as int),
                cost_before >= 0,
                saturated(cost_before + state_row_cost(row@.take(x as int), iterations as int), total),
            decreases row.len() - x,
        {
            let cell = row[x];
            let ghost row_before = row@.take(x as int);
            proof {
                assert(row@.take(x as int + 1).drop_last() == row_before);
                assert(table@[y as int]@[x as int] == cell);
                lemma_row_cost_nonneg(row_before, iterations as int);
            }
            match cell {
                State::Stable => {
                    raw.push(color_stable[0]);
                    raw.push(color_stable[1]);
                    raw.push(color_stable[2]);
                    total = total.saturating_add(iterations);
                },
                State::GridLine => {
                    raw.push(color_grid[0]);
                    raw.push(color_grid[1]);
                    raw.push(color_grid[2]);
                    total = total.saturating_add(1);
                },
                State::Divergent { iterations: k } => {
                    raw.push(scale(color_divergent[0], k, iterations));
                    raw.push(scale(color_divergent[1], k, iterations));
                    raw.push(scale(color_divergent[2], k, iterations));
                    total = total.saturating_add(k);
                },
            }
            x += 1;
        }
        proof {
            assert(row@.take(x as int) == row@);
            assert(table@.take(y as int + 1).drop_last() == table@.take(y as int));
        }
        y += 1;
    }
    proof {
        assert(table@.take(y as int) == table@);
    }
    RasterData { raw_pixels: raw, iterations_total: total }
}

/// Three bytes per cell: a row of `n` divergence cells takes `3n` bytes.
pub proof fn lemma_state_row_bytes_len(
    row: Seq<State>,
    stable: [u8; 3],
    divergent: [u8; 3],
    grid: [u8; 3],
    budget: int,
)
    ensures
        state_row_bytes(row, stable, divergent, grid, budget).len() == 3 * row.len(),
    decreases row.len(),
{
    if row.len() > 0 {
        lemma_state_row_bytes_len(row.drop_last(), stable, divergent, grid, budget);
    }
}

/// A table of `h` rows of `w` divergence cells takes `3wh` bytes.
pub proof fn lemma_state_table_bytes_len(
    table: Seq<Vec<State>>,
    width: int,
    stable: [u8; 3],
    divergent: [u8; 3],
    grid: [u8; 3],
    budget: int,
)
    requires
        forall|y: int| 0 <= y < table.len() ==> (#[trigger] table[y])@.len() == width,
    ensures
        state_table_bytes(table, stable, divergent, grid, budget).len() == 3 * width * table.len(),
    decreases table.len(),
{
    if table.len() > 0 {
        lemma_state_table_bytes_len(table.drop_last(), width, stable, divergent, grid, budget);
        lemma_state_row_bytes_len(table.last()@, stable, divergent, grid, budget);
        assert(3 * width * (table.len() - 1) + 3 * width == 3 * width * table.len()) by (nonlinear_arith);
    }
}

/// Byte `k` of cell `x` in a row stands at `3x + k`.
pub proof fn lemma_state_row_bytes_index(
    row: Seq<State>,
    stable: [u8; 3],
    divergent: [u8; 3],
    grid: [u8; 3],
    budget: int,
    x: int,
    k: int,
)
    requires
        0 <= x < row.len(),
        0 <= k < 3,
    ensures
        state_row_bytes(row, stable, divergent, grid, budget)[3 * x + k] == state_rgb(
            row[x],
            stable,
            divergent,
            grid,
            budget,
        )[k],
    decreases row.len(),
{
    lemma_state_row_bytes_len(row.drop_last(), stable, divergent, grid, budget);
    if x < row.len() - 1 {
        lemma_state_row_bytes_index(row.drop_last(), stable, divergent, grid, budget, x, k);
    }
}

/// Row-major layout: in a table of rows `width` cells long, byte `k` of the
/// cell in row `y`, column `x` stands at `3 (y · width + x) + k`.
pub proof fn lemma_state_table_bytes_index(
    table: Seq<Vec<State>>,
    width: int,
    stable: [u8; 3],
    divergent: [u8; 3],
    grid: [u8; 3],
    budget: int,
    y: int,
    x: int,
    k: int,
)
    requires
        forall|j: int| 0 <= j < table.len() ==> (#[trigger] table[j])@.len() == width,
        0 <= y < table.len(),
        0 <= x < width,
        0 <= k < 3,
    ensures
        state_table_bytes(table, stable, divergent, grid, budget)[3 * (y * width + x) + k] == state_rgb(
            table[y]@[x],
            stable,
            divergent,
            grid,
            budget,
        )[k],
    decreases table.len(),
{
    let prefix = table.drop_last();
    assert forall|j: int| 0 <= j < prefix.len() implies (#[trigger] prefix[j])@.len() == width by {
        assert(prefix[j] == table[j]);
    }
    lemma_state_table_bytes_len(prefix, width, stable, divergent, grid, budget);
    assert(state_table_bytes(table, stable, divergent, grid, budget) == state_table_bytes(
        prefix,
        stable,
        divergent,
        grid,
        budget,
    ) + state_row_bytes(table.last()@, stable, divergent, grid, budget));
    if y < table.len() - 1 {
        assert(prefix[y] == table[y]);
        assert(3 * (y * width + x) + k < 3 * width * prefix.len()) by (nonlinear_arith)
            requires
                0 <= y < prefix.len(),
                0 <= x < width,
                0 <= k < 3,
        ;
        lemma_state_table_bytes_index(prefix, width, stable, divergent, grid, budget, y, x, k);
    } else {
        assert(3 * (y * width + x) + k - 3 * width * prefix.len() == 3 * x + k) by (nonlinear_arith)
            requires
                y == prefix.len(),
        ;
        assert(table[y] == table.last());
        lemma_state_row_bytes_len(table.last()@, stable, divergent, grid, budget);
        lemma_state_row_bytes_index(table.last()@, stable, divergent, grid, budget, x, k);
    }
}

proof fn lemma_row_cost_nonneg(row: Seq<State>, budget: int)
    requires
        budget >= 0,
    ensures
        state_row_cost(row, budget) >= 0,
    decreases row.len(),
{
    if row.len() > 0 {
        lemma_row_cost_nonneg(row.drop_last(), budget);
    }
}

/// Full saturation or brightness.
pub open spec fn full() -> Ratio {
    Ratio { num: 1, den: 1 }
}

/// Hue, in degrees, of the `index`-th of `count` distinct roots:
/// `360 · index / count`, so that the roots' hues are evenly spaced.
pub open spec fn root_hue(index: int, count: int) -> Ratio {
    Ratio { num: (360 * index) as u128, den: count as u64 }
}

/// Colour of the `index`-th of `count` distinct roots: its hue at full
/// saturation and brightness.
pub open spec fn root_rgb(index: int, count: int) -> Rgb {
    hsv_to_rgb(root_hue(index, count), full(), full())
}

/// With exactly two distinct roots, the hues are 0 and 180 degrees: red and
/// cyan.
pub proof fn lemma_two_roots_hues()
    ensures
        root_hue(0, 2).num == 0,
        root_hue(1, 2).num == 180 * root_hue(1, 2).den,
        root_rgb(0, 2) == (Rgb { red: 255, green: 0, blue: 0 }),
        root_rgb(1, 2) == (Rgb { red: 0, green: 255, blue: 255 }),
{
    assert(root_hue(1, 2).num == 360);
    assert(channel(120, 0, 120) == 255);
    assert(channel(0, 0, 120) == 0);
    assert(360int % 240 == 120);
    assert(360int / 120 == 3);
    assert(root_hue(0, 2).num == 0);
    assert(0int % 240 == 0);
    assert(0int / 120 == 0);
}

/// Colour of the `index`-th of `count` distinct roots.
pub fn root_color(index: usize, count: usize) -> (r: Rgb)
    requires
        index < count,
    ensures
        r == root_rgb(index as int, count as int),
{
    proof {
        assert(360 * index < 360 * count);
    }
    let hue = Ratio { num: 360 * index as u128, den: count as u64 };
    let one = Ratio { num: 1, den: 1 };
    Hsv::new(hue, one, one).to_rgb()
}

/// Bytes of a cell labelled `label` among `count` distinct roots.
pub open spec fn label_rgb(label: Option<usize>, count: int, no_root: [u8; 3]) -> Seq<u8> {
    match label {
        None => seq![no_root[0], no_root[1], no_root[2]],
        Some(j) => seq![
            root_rgb(j as int, count).red,
            root_rgb(j as int, count).green,
            root_rgb(j as int, count).blue,
        ],
    }
}

/// Bytes of a row of labelled cells, left to right.
pub open spec fn label_row_bytes(row: Seq<Option<usize>>, count: int, no_root: [u8; 3]) -> Seq<u8>
    decreases row.len(),
{
    if row.len() == 0 {
        Seq::empty()
    } else {
        label_row_bytes(row.drop_last(), count, no_root) + label_rgb(row.last(), count, no_root)
    }
}

/// Bytes of a table of labelled cells, top row first.
pub open spec fn label_table_bytes(rows: Seq<Seq<Option<usize>>>, count: int, no_root: [u8; 3]) -> Seq<u8>
    decreases rows.len(),
{
    if rows.len() == 0 {
        Seq::empty()
    } else {
        label_table_bytes(rows.drop_last(), count, no_root) + label_row_bytes(rows.last(), count, no_root)
    }
}

/// Iterations a Newton cell stands for: the whole budget without a root, the
/// steps taken with one.
pub open spec fn root_cost<P>(cell: Root<P>, budget: int) -> int {
    match cell {
        Root::No => budget,
        Root::Yes { iterations, .. } => iterations as int,
    }
}

/// Iterations of a row of Newton cells.
pub open spec fn root_row_cost<P>(row: Seq<Root<P>>, budget: int) -> int
    decreases row.len(),
{
    if row.len() == 0 {
        0
    } else {
        root_row_cost(row.drop_last(), budget) + root_cost(row.last(), budget)
    }
}

/// Iterations of a Newton table.
pub open spec fn root_table_cost<P>(table: Seq<Vec<Root<P>>>, budget: int) -> int
    decreases table.len(),
{
    if table.len() == 0 {
        0
    } else {
        root_table_cost(table.drop_last(), budget) + root_row_cost(table.last()@, budget)
    }
}

/// Three bytes per cell: a row of `n` labelled cells takes `3n` bytes.
pub proof fn lemma_label_row_bytes_len(row: Seq<Option<usize>>, count: int, no_root: [u8; 3])
    ensures
        label_row_bytes(row, count, no_root).len() == 3 * row.len(),
    decreases row.len(),
{
    if row.len() > 0 {
        lemma_label_row_bytes_len(row.drop_last(), count, no_root);
    }
}

/// A table of `h` rows of `w` labelled cells takes `3wh` bytes.
pub proof fn lemma_label_table_bytes_len(rows: Seq<Seq<Option<usize>>>, width: int, count: int, no_root: [u8; 3])
    requires
        forall|y: int| 0 <= y < rows.len() ==> (#[trigger] rows[y]).len() == width,
    ensures
        label_table_bytes(rows, count, no_root).len() == 3 * width * rows.len(),
    decreases rows.len(),
{
    if rows.len() > 0 {
        lemma_label_table_bytes_len(rows.drop_last(), width, count, no_root);
        lemma_label_row_bytes_len(rows.last(), count, no_root);
        assert(3 * width * (rows.len() - 1) + 3 * width == 3 * width * rows.len()) by (nonlinear_arith);
    }
}

proof fn lemma_root_row_cost_nonneg<P>(row: Seq<Root<P>>, budget: int)
    requires
        budget >= 0,
    ensures
        root_row_cost(row, budget) >= 0,
    decreases row.len(),
{
    if row.len() > 0 {
        lemma_root_row_cost_nonneg(row.drop_last(), budget);
    }
}

/// Colour a Newton table: cells without a root take `color_no_root`; the
/// distinct roots, in row-major order of first appearance and told apart by
/// `same`, take evenly spaced hues at full saturation and brightness.
pub fn convert_root_table_to_data<P: Copy, S: Fn(P, P) -> bool>(
    table: &Vec<Vec<Root<P>>>,
    color_no_root: [u8; 3],
    iterations: usize,
    same: &S,
) -> (r: RasterData)
    requires
        forall|a: P, b: P| same.requires((a, b)),
    ensures
        exists|labels: RootLabels<P>|
            is_labelling(*same, table@, labels) && r.raw_pixels@ == label_table_bytes(
                rows_view(labels.labels@),
                labels.roots@.len() as int,
                color_no_root,
            ),
        saturated(root_table_cost(table@, iterations as int), r.iterations_total),
{
    let labels = label_roots(table, same);
    let count = labels.roots.len();
    let ghost firsts = choose|f: Seq<(int, int)>| labelled(*same, table@, labels.roots@, rows_view(labels.labels@), f);
    let ghost lab = rows_view(labels.labels@);
    let mut palette: Vec<Rgb> = Vec::new();
    let mut i: usize = 0;
    while i < count
        invariant
            count == labels.roots.len(),
            i <= count,
            palette.len() == i,
            forall|k: int| 0 <= k < i ==> #[trigger] palette@[k] == root_rgb(k, count as int),
        decreases count - i,
    {
        palette.push(root_color(i, count));
        i += 1;
    }
    let mut raw: Vec<u8> = Vec::new();
    let mut total: usize = 0;
    let mut y: usize = 0;
    while y < table.len()
        invariant
            is_labelling(*same, table@, labels),
            labelled(*same, table@, labels.roots@, lab, firsts),
            lab == rows_view(labels.labels@),
            count == labels.roots.len(),
            palette.len() == count,
            forall|k: int| 0 <= k < count ==> #[trigger] palette@[k] == root_rgb(k, count as int),
            y <= table.len(),
            raw@ == label_table_bytes(lab.take(y as int), count as int, color_no_root),
            saturated(root_table_cost(table@.take(y as int), iterations as int), total),
        decreases table.len() - y,
    {
        let row = &table[y];
        let line = &labels.labels[y];
        let ghost before = raw@;
        let ghost cost_before = root_table_cost(table@.take(y as int), iterations as int);
        assert(lab[y as int] == line@);
        let mut x: usize = 0;
        while x < row.len()
            invariant
                is_labelling(*same, table@, labels),
                labelled(*same, table@, labels.roots@, lab, firsts),
                lab == rows_view(labels.labels@),
                count == labels.roots.len(),
                palette.len() == count,
                forall|k: int| 0 <= k < count ==> #[trigger] palette@[k] == root_rgb(k, count as int),
                y < table.len(),
                row == table@[y as int],
                line@ == lab[y as int],
                line@.len() == row@.len(),
                x <= row.len(),
                raw@ == before + label_row_bytes(line@.take(x as int), count as int, color_no_root),
                cost_before >= 0,
                saturated(cost_before + root_row_cost(row@.take(x as int), iterations as int), total),
            decreases row.len() - x,
        {
            proof {
                assert(row@.take(x as int + 1).drop_last() == row@.take(x as int));
                assert(line@.take(x as int + 1).drop_last() == line@.take(x as int));
                assert(covered(lab, y as int, x as int));
                lemma_root_row_cost_nonneg(row@.take(x as int), iterations as int);
            }
            match line[x] {
                None => {
                    raw.push(color_no_root[0]);
                    raw.push(color_no_root[1]);
                    raw.push(color_no_root[2]);
                },
                Some(j) => {
                    let c = palette[j];
                    raw.push(c.red);
                    raw.push(c.green);
                    raw.push(c.blue);
                },
            }
            match row[x] {
                Root::No => {
                    total = total.saturating_add(iterations);
                },
                Root::Yes { iterations: k, .. } => {
                    total = total.saturating_add(k);
                },
            }
            x += 1;
        }
        proof {
            assert(row@.take(x as int) == row@);
            assert(line@.take(x as int) == line@);
            assert(table@.take(y as int + 1).drop_last() == table@.take(y as int));
            assert(lab.take(y as int + 1).drop_last() == lab.take(y as int));
        }
        y += 1;
    }
    proof {
        assert(table@.take(y as int) == table@);
        assert(lab.take(y as int) == lab);
    }
    RasterData { raw_pixels: raw, iterations_total: total }
}

} // verus!
