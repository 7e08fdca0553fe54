//! Escape-time engine: iterate `p(n + 1) = f(p(n), c)` and tell whether the
//! sequence stays within the threshold.

use vstd::prelude::*;

use crate::method::UnknownSelector;
use crate::viewport::{doubled_offset, pixel_offset, MAX_SIDE};

verus! {

/// Classification of one starting point.
#[derive(Clone, Copy, PartialEq, Eq, Structural, Debug)]
pub enum State {
    /// The sequence left the threshold after `iterations` steps.
    Divergent { iterations: usize },
    /// The sequence stayed within the threshold for the whole budget.
    Stable,
    /// Axis overlay pixel: never produced by the iteration itself.
    GridLine,
}

/// Selects how the pixel's point takes part in the iteration.
#[derive(Clone, Copy, PartialEq, Eq, Structural, Debug)]
pub enum LimitMethod {
    /// The pixel's point is the constant `c`; the start `z0` is fixed.
    Mandelbrot,
    /// The pixel's point is the start `z0`; the constant `c` is fixed.
    Julia,
}

impl LimitMethod {
    /// Every method, in selector order.
    pub fn list() -> (r: Vec<LimitMethod>)
        ensures
            r@ == seq![LimitMethod::Mandelbrot, LimitMethod::Julia],
    {
        vec![LimitMethod::Mandelbrot, LimitMethod::Julia]
    }

    /// Entry of a selection list: the method with its number.
    pub fn to_static_str(&self) -> (r: &'static str)
        ensures
            r@ == (match *self {
                LimitMethod::Mandelbrot => "1. Mandelbrot"@,
                LimitMethod::Julia => "2. Julia"@,
            }),
    {
        proof {
            reveal_strlit("1. Mandelbrot");
            reveal_strlit("2. Julia");
        }
        match self {
            LimitMethod::Mandelbrot => "1. Mandelbrot",
            LimitMethod::Julia => "2. Julia",
        }
    }

    /// The method at position `id` of `list`, or an error naming `id`.
    pub fn from_id(id: usize) -> (r: Result<LimitMethod, UnknownSelector>)
        ensures
            id == 0 ==> r == Ok::<LimitMethod, UnknownSelector>(LimitMethod::Mandelbrot),
            id == 1 ==> r == Ok::<LimitMethod, UnknownSelector>(LimitMethod::Julia),
            id >= 2 ==> r == Err::<LimitMethod, UnknownSelector>(UnknownSelector { id }),
    {
        if id == 0 {
            Ok(LimitMethod::Mandelbrot)
        } else if id == 1 {
            Ok(LimitMethod::Julia)
        } else {
            Err(UnknownSelector { id })
        }
    }

    /// Display name of the method.
    pub fn name(&self) -> (r: &'static str)
        ensures
            r@ == (match *self {
                LimitMethod::Mandelbrot => "Mandelbrot"@,
                LimitMethod::Julia => "Julia"@,
            }),
    {
        proof {
            reveal_strlit("Mandelbrot");
            reveal_strlit("Julia");
        }
        match self {
            LimitMethod::Mandelbrot => "Mandelbrot",
            LimitMethod::Julia => "Julia",
        }
    }
}

/// `orbit` starts at `z0`, and each point is the image of the one before it
/// under `f` with the constant `c`.
pub open spec fn is_orbit<P, F: Fn(P, P) -> P>(f: F, c: P, z0: P, orbit: Seq<P>) -> bool {
    &&& orbit.len() >= 1
    &&& orbit[0] == z0
    &&& forall|i: int| 0 <= i < orbit.len() - 1 ==> #[trigger] f.ensures((orbit[i], c), orbit[i + 1])
}

/// `r` is what the escape-time rule gives along `orbit`: every point before the
/// last one was found within the threshold, and the walk stopped either on the
/// first point found outside (`Divergent`, with the number of steps taken) or
/// after `budget` steps on a point still within (`Stable`).
pub open spec fn limit_along<P, F: Fn(P, P) -> P, W: Fn(P) -> bool>(
    f: F,
    inside: W,
    c: P,
    z0: P,
    budget: nat,
    orbit: Seq<P>,
    r: State,
) -> bool {
    &&& is_orbit(f, c, z0, orbit)
    &&& orbit.len() - 1 <= budget
    &&& forall|i: int| 0 <= i < orbit.len() - 1 ==> #[trigger] inside.ensures((orbit[i],), true)
    &&& match r {
        State::Stable => orbit.len() - 1 == budget && inside.ensures((orbit.last(),), true),
        State::Divergent { iterations } => iterations == orbit.len() - 1 && inside.ensures(
            (orbit.last(),),
            false,
        ),
        State::GridLine => false,
    }
}

/// `r` is the escape-time classification of `z0` under `f` with constant `c`.
pub open spec fn is_limit<P, F: Fn(P, P) -> P, W: Fn(P) -> bool>(
    f: F,
    inside: W,
    c: P,
    z0: P,
    budget: nat,
    r: State,
) -> bool {
    exists|orbit: Seq<P>| limit_along(f, inside, c, z0, budget, orbit, r)
}

/// Iterate `p(0) = z0`, `p(n + 1) = f(p(n), c)` while the point is `inside`
/// the threshold, at most `iterations` times.
pub fn limit<P: Copy, F: Fn(P, P) -> P, W: Fn(P) -> bool>(
    c: P,
    z0: P,
    f: &F,
    inside: &W,
    iterations: usize,
) -> (r: State)
    requires
        forall|a: P, b: P| f.requires((a, b)),
        forall|p: P| inside.requires((p,)),
    ensures
        is_limit(*f, *inside, c, z0, iterations as nat, r),
        (forall|b: bool| inside.ensures((z0,), b) ==> !b) ==> r == (State::Divergent { iterations: 0 }),
{
    let mut current: P = z0;
    let mut counter: usize = 0;
    let mut within: bool = inside(current);
    let ghost mut orbit: Seq<P> = seq![z0];
    assert((forall|b: bool| inside.ensures((z0,), b) ==> !b) ==> !within);
    while counter < iterations && within
        invariant
            forall|a: P, b: P| f.requires((a, b)),
            forall|p: P| inside.requires((p,)),
            counter <= iterations,
            is_orbit(*f, c, z0, orbit),
            orbit.len() == counter + 1,
            orbit.last() == current,
            inside.ensures((current,), within),
            forall|i: int| 0 <= i < orbit.len() - 1 ==> #[trigger] inside.ensures((orbit[i],), true),
            (forall|b: bool| inside.ensures((z0,), b) ==> !b) ==> counter == 0 && !within,
        decreases iterations - counter,
    {
        let next = f(current, c);
        proof {
            orbit = orbit.push(next);
        }
        current = next;
        counter += 1;
        within = inside(current);
    }
    let r = if within {
        State::Stable
    } else {
        State::Divergent { iterations: counter }
    };
    assert(limit_along(*f, *inside, c, z0, iterations as nat, orbit, r));
    r
}

/// A point found outside the threshold from the start diverges at once: the
/// classification is `Divergent` after zero steps, whatever the map and budget.
pub proof fn lemma_outside_start_diverges_at_once<P, F: Fn(P, P) -> P, W: Fn(P) -> bool>(
    f: F,
    inside: W,
    c: P,
    z0: P,
    budget: nat,
    r: State,
)
    requires
        is_limit(f, inside, c, z0, budget, r),
        forall|b: bool| inside.ensures((z0,), b) ==> !b,
    ensures
        r == (State::Divergent { iterations: 0 }),
{
    let orbit = choose|orbit: Seq<P>| limit_along(f, inside, c, z0, budget, orbit, r);
    if orbit.len() > 1 {
        assert(inside.ensures((orbit[0],), true));
    }
}

/// An escape-time classification never counts more steps than the budget,
/// and is `Stable` only when the last point of the walk was found within the
/// threshold.
pub proof fn lemma_limit_within_budget<P, F: Fn(P, P) -> P, W: Fn(P) -> bool>(
    f: F,
    inside: W,
    c: P,
    z0: P,
    budget: nat,
    r: State,
)
    requires
        is_limit(f, inside, c, z0, budget, r),
    ensures
        r matches State::Divergent { iterations } ==> iterations <= budget,
        r is Stable ==> exists|orbit: Seq<P>|
            is_orbit(f, c, z0, orbit) && orbit.len() == budget + 1 && inside.ensures((orbit.last(),), true),
        !(r is GridLine),
{
    let orbit = choose|orbit: Seq<P>| limit_along(f, inside, c, z0, budget, orbit, r);
    assert(limit_along(f, inside, c, z0, budget, orbit, r));
}

/// Pixel `(x, y)` lies on the overlaid axes of a raster of `size` `[width, height]`.
pub open spec fn on_axis(x: int, y: int, size: [usize; 2]) -> bool {
    x == size[0] / 2 || y == size[1] / 2
}

/// `r` is the classification of pixel `(x, y)`: the overlay marker when the
/// axes are drawn and the pixel is on them; otherwise the escape-time
/// classification of the point `locate` builds from the pixel's doubled
/// offsets, which serves as the start `z0` (`julia`) or as the constant `c`.
pub open spec fn divergence_cell<P, F: Fn(P, P) -> P, W: Fn(P) -> bool, L: Fn(i64, i64) -> P>(
    f: F,
    inside: W,
    locate: L,
    fixed: P,
    julia: bool,
    budget: nat,
    size: [usize; 2],
    grid: bool,
    x: int,
    y: int,
    r: State,
) -> bool {
    if grid && on_axis(x, y, size) {
        r == State::GridLine
    } else {
        exists|p: P|
            #[trigger] locate.ensures(
                (doubled_offset(x, size[0] as int) as i64, doubled_offset(y, size[0] as int) as i64),
                p,
            ) && if julia {
                is_limit(f, inside, fixed, p, budget, r)
            } else {
                is_limit(f, inside, p, fixed, budget, r)
            }
    }
}

/// `table` holds `size[1]` rows of `size[0]` cells, row `y` column `x`
/// classified as `divergence_cell` says.
pub open spec fn is_divergence_table<P, F: Fn(P, P) -> P, W: Fn(P) -> bool, L: Fn(i64, i64) -> P>(
    f: F,
    inside: W,
    locate: L,
    fixed: P,
    julia: bool,
    budget: nat,
    size: [usize; 2],
    grid: bool,
    table: Seq<Vec<State>>,
) -> bool {
    &&& table.len() == size[1]
    &&& forall|y: int| 0 <= y < size[1] ==> (#[trigger] table[y])@.len() == size[0]
    &&& forall|y: int, x: int|
        0 <= y < size[1] && 0 <= x < size[0] ==> divergence_cell(
            f,
            inside,
            locate,
            fixed,
            julia,
            budget,
            size,
            grid,
            x,
            y,
            #[trigger] table[y]@[x],
        )
}

/// Classify every pixel of a `size` `[width, height]` raster, row by row, top
/// row first.
fn limit_on_screen<P: Copy, F: Fn(P, P) -> P, W: Fn(P) -> bool, L: Fn(i64, i64) -> P>(
    fixed: P,
    julia: bool,
    f: &F,
    inside: &W,
    iterations: usize,
    size: [usize; 2],
    locate: &L,
    grid: bool,
) -> (table: Vec<Vec<State>>)
    requires
        forall|a: P, b: P| f.requires((a, b)),
        forall|p: P| inside.requires((p,)),
        forall|dx: i64, dy: i64| locate.requires((dx, dy)),
        size[0] <= MAX_SIDE,
        size[1] <= MAX_SIDE,
    ensures
        is_divergence_table(*f, *inside, *locate, fixed, julia, iterations as nat, size, grid, table@),
{
    let mut table: Vec<Vec<State>> = Vec::new();
    let mut y: usize = 0;
    while y < size[1]
        invariant
            forall|a: P, b: P| f.requires((a, b)),
            forall|p: P| inside.requires((p,)),
            forall|dx: i64, dy: i64| locate.requires((dx, dy)),
            size[0] <= MAX_SIDE,
            size[1] <= MAX_SIDE,
            y <= size[1],
            table.len() == y,
            forall|j: int| 0 <= j < y ==> (#[trigger] table@[j])@.len() == size[0],
            forall|j: int, i: int|
                0 <= j < y && 0 <= i < size[0] ==> divergence_cell(
                    *f,
                    *inside,
                    *locate,
                    fixed,
                    julia,
                    iterations as nat,
                    size,
                    grid,
                    i,
                    j,
                    #[trigger] table@[j]@[i],
                ),
        decreases size[1] - y,
    {
        let mut line: Vec<State> = Vec::new();
        let mut x: usize = 0;
        while x < size[0]
            invariant
                forall|a: P, b: P| f.requires((a, b)),
                forall|p: P| inside.requires((p,)),
                forall|dx: i64, dy: i64| locate.requires((dx, dy)),
                size[0] <= MAX_SIDE,
                size[1] <= MAX_SIDE,
                y < size[1],
                x <= size[0],
                line.len() == x,
                forall|i: int|
                    0 <= i < x ==> divergence_cell(
                        *f,
                        *inside,
                        *locate,
                        fixed,
                        julia,
                        iterations as nat,
                        size,
                        grid,
                        i,
                        y as int,
                        #[trigger] line@[i],
                    ),
            decreases size[0] - x,
        {
            let cell = if grid && (x == size[0] / 2 || y == size[1] / 2) {
                State::GridLine
            } else {
                let dx = pixel_offset(x, size[0]);
                let dy = pixel_offset(y, size[0]);
                let p = locate(dx, dy);
                let r = if julia {
                    limit(fixed, p, f, inside, iterations)
                } else {
                    limit(p, fixed, f, inside, iterations)
                };
                assert(locate.ensures(
                    (doubled_offset(x as int, size[0] as int) as i64, doubled_offset(y as int, size[0] as int) as i64),
                    p,
                ));
                r
            };
            line.push(cell);
            x += 1;
        }
        table.push(line);
        y += 1;
    }
    table
}

/// Mandelbrot-like sampling: the start `z0` is the same for every pixel and
/// each pixel's point serves as the constant `c`.
pub fn limit_on_screen_mandelbrot<P: Copy, F: Fn(P, P) -> P, W: Fn(P) -> bool, L: Fn(i64, i64) -> P>(
    z0: P,
    f: &F,
    inside: &W,
    iterations: usize,
    size: [usize; 2],
    locate: &L,
    grid: bool,
) -> (table: Vec<Vec<State>>)
    requires
        forall|a: P, b: P| f.requires((a, b)),
        forall|p: P| inside.requires((p,)),
        forall|dx: i64, dy: i64| locate.requires((dx, dy)),
        size[0] <= MAX_SIDE,
        size[1] <= MAX_SIDE,
    ensures
        is_divergence_table(*f, *inside, *locate, z0, false, iterations as nat, size, grid, table@),
{
    limit_on_screen(z0, false, f, inside, iterations, size, locate, grid)
}

/// Julia-like sampling: the constant `c` is the same for every pixel and each
/// pixel's point serves as the start `z0`.
pub fn limit_on_screen_julia<P: Copy, F: Fn(P, P) -> P, W: Fn(P) -> bool, L: Fn(i64, i64) -> P>(
    c: P,
    f: &F,
    inside: &W,
    iterations: usize,
    size: [usize; 2],
    locate: &L,
    grid: bool,
) -> (table: Vec<Vec<State>>)
    requires
        forall|a: P, b: P| f.requires((a, b)),
        forall|p: P| inside.requires((p,)),
        forall|dx: i64, dy: i64| locate.requires((dx, dy)),
        size[0] <= MAX_SIDE,
        size[1] <= MAX_SIDE,
    ensures
        is_divergence_table(*f, *inside, *locate, c, true, iterations as nat, size, grid, table@),
{
    limit_on_screen(c, true, f, inside, iterations, size, locate, grid)
}

} // verus!
