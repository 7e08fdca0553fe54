//! Newton root-finding engine: iterate `z(n + 1) = z(n) - f(z(n)) / f'(z(n))`
//! a fixed number of times and tell whether the last point is a root.

use vstd::prelude::*;

use crate::method::UnknownSelector;
use crate::viewport::{doubled_offset, pixel_offset, MAX_SIDE};

verus! {

/// Classification of one starting point by the root engine.
#[derive(PartialEq, Eq, Debug)]
pub enum Root<P> {
    /// The function is not zero at the last point.
    No,
    /// The function is zero at `root`, reached after `iterations` steps.
    Yes { root: P, iterations: usize },
}

/// Root-finding method.
#[derive(Clone, Copy, PartialEq, Eq, Structural, Debug)]
pub enum RootMethod {
    Newton,
}

impl RootMethod {
    /// Every method, in selector order.
    pub fn list() -> (r: Vec<RootMethod>)
        ensures
            r@ == seq![RootMethod::Newton],
    {
        vec![RootMethod::Newton]
    }

    /// Entry of a selection list: the method with its number.
    pub fn to_static_str(&self) -> (r: &'static str)
        ensures
            r@ == "1. Newton"@,
    {
        proof {
            reveal_strlit("1. Newton");
        }
        match self {
            RootMethod::Newton => "1. Newton",
        }
    }

    /// The method at position `id` of `list`, if there is one.
    pub fn from_id(id: usize) -> (r: Result<RootMethod, UnknownSelector>)
        ensures
            id == 0 ==> r == Ok::<RootMethod, UnknownSelector>(RootMethod::Newton),
            id != 0 ==> r == Err::<RootMethod, UnknownSelector>(UnknownSelector { id }),
    {
        if id == 0 {
            Ok(RootMethod::Newton)
        } else {
            Err(UnknownSelector { id })
        }
    }
}

/// `orbit` is a Newton walk from `z0`: at each point `z` the function gives
/// `values[i]`, the derivative `slopes[i]`, and the next point is
/// `step(z, values[i], slopes[i])`, that is `z - f(z) / f'(z)`.
pub open spec fn is_newton_orbit<P, F: Fn(P) -> P, D: Fn(P) -> P, S: Fn(P, P, P) -> P>(
    function: F,
    derivative: D,
    step: S,
    z0: P,
    orbit: Seq<P>,
    values: Seq<P>,
    slopes: Seq<P>,
) -> bool {
    &&& orbit.len() >= 1
    &&& orbit[0] == z0
    &&& values.len() == orbit.len() - 1
    &&& slopes.len() == orbit.len() - 1
    &&& forall|i: int|
        0 <= i < orbit.len() - 1 ==> {
            &&& #[trigger] function.ensures((orbit[i],), values[i])
            &&& derivative.ensures((orbit[i],), slopes[i])
            &&& step.ensures((orbit[i], values[i], slopes[i]), orbit[i + 1])
        }
}

/// `r` is what Newton's method gives from `z0` after exactly `budget` steps:
/// `Yes` with the last point when the function is zero there, `No` otherwise.
pub open spec fn is_newton_root<P, F: Fn(P) -> P, D: Fn(P) -> P, S: Fn(P, P, P) -> P, Z: Fn(P) -> bool>(
    function: F,
    derivative: D,
    step: S,
    is_zero: Z,
    z0: P,
    budget: nat,
    r: Root<P>,
) -> bool {
    exists|orbit: Seq<P>, values: Seq<P>, slopes: Seq<P>, last_value: P, zero: bool|
        {
            &&& is_newton_orbit(function, derivative, step, z0, orbit, values, slopes)
            &&& orbit.len() == budget + 1
            &&& function.ensures((orbit.last(),), last_value)
            &&& is_zero.ensures((last_value,), zero)
            &&& r == if zero {
                Root::Yes { root: orbit.last(), iterations: budget as usize }
            } else {
                Root::No
            }
        }
}

/// Newton's method from `z0`, `iterations` steps without early exit; `step`
/// computes `z - v / d` and `is_zero` tells whether a value is zero.
pub fn newton_method<P: Copy, F: Fn(P) -> P, D: Fn(P) -> P, S: Fn(P, P, P) -> P, Z: Fn(P) -> bool>(
    z0: P,
    function: &F,
    derivative: &D,
    step: &S,
    is_zero: &Z,
    iterations: usize,
) -> (r: Root<P>)
    requires
        forall|p: P| function.requires((p,)),
        forall|p: P| derivative.requires((p,)),
        forall|p: P, v: P, d: P| step.requires((p, v, d)),
        forall|p: P| is_zero.requires((p,)),
    ensures
        is_newton_root(*function, *derivative, *step, *is_zero, z0, iterations as nat, r),
        r matches Root::Yes { iterations: k, .. } ==> k == iterations,
{
    let mut z: P = z0;
    let mut count: usize = 0;
    let ghost mut orbit: Seq<P> = seq![z0];
    let ghost mut values: Seq<P> = Seq::empty();
    let ghost mut slopes: Seq<P> = Seq::empty();
    while count < iterations
        invariant
            forall|p: P| function.requires((p,)),
            forall|p: P| derivative.requires((p,)),
            forall|p: P, v: P, d: P| step.requires((p, v, d)),
            count <= iterations,
            orbit.len() == count + 1,
            orbit.last() == z,
            is_newton_orbit(*function, *derivative, *step, z0, orbit, values, slopes),
        decreases iterations - count,
    {
        let v = function(z);
        let d = derivative(z);
        let next = step(z, v, d);
        proof {
            orbit = orbit.push(next);
            values = values.push(v);
            slopes = slopes.push(d);
            assert(function.ensures((orbit[count as int],), values[count as int]));
        }
        z = next;
        count += 1;
    }
    let last_value = function(z);
    let zero = is_zero(last_value);
    let r = if zero {
        Root::Yes { root: z, iterations: count }
    } else {
        Root::No
    };
    assert(function.ensures((orbit.last(),), last_value));
    r
}

/// `r` is Newton's classification of the point `locate` builds from the
/// doubled offsets of pixel `(x, y)`.
pub open spec fn root_cell<P, F: Fn(P) -> P, D: Fn(P) -> P, S: Fn(P, P, P) -> P, Z: Fn(P) -> bool, L: Fn(i64, i64) -> P>(
    function: F,
    derivative: D,
    step: S,
    is_zero: Z,
    locate: L,
    budget: nat,
    width: usize,
    x: int,
    y: int,
    r: Root<P>,
) -> bool {
    exists|p: P|
        #[trigger] locate.ensures(
            (doubled_offset(x, width as int) as i64, doubled_offset(y, width as int) as i64),
            p,
        ) && is_newton_root(function, derivative, step, is_zero, p, budget, r)
}

/// `table` holds `size[1]` rows of `size[0]` cells, row `y` column `x`
/// classified as `root_cell` says.
pub open spec fn is_root_table<P, F: Fn(P) -> P, D: Fn(P) -> P, S: Fn(P, P, P) -> P, Z: Fn(P) -> bool, L: Fn(i64, i64) -> P>(
    function: F,
    derivative: D,
    step: S,
    is_zero: Z,
    locate: L,
    budget: nat,
    size: [usize; 2],
    table: Seq<Vec<Root<P>>>,
) -> bool {
    &&& table.len() == size[1]
    &&& forall|y: int| 0 <= y < size[1] ==> (#[trigger] table[y])@.len() == size[0]
    &&& forall|y: int, x: int|
        0 <= y < size[1] && 0 <= x < size[0] ==> root_cell(
            function,
            derivative,
            step,
            is_zero,
            locate,
            budget,
            size[0],
            x,
            y,
            #[trigger] table[y]@[x],
        )
}

/// Classify every pixel of a `size` `[width, height]` raster with Newton's
/// method, row by row, top row first.
pub fn limit_on_screen_root<P: Copy, F: Fn(P) -> P, D: Fn(P) -> P, S: Fn(P, P, P) -> P, Z: Fn(P) -> bool, L: Fn(i64, i64) -> P>(
    function: &F,
    derivative: &D,
    step: &S,
    is_zero: &Z,
    iterations: usize,
    size: [usize; 2],
    locate: &L,
) -> (table: Vec<Vec<Root<P>>>)
    requires
        forall|p: P| function.requires((p,)),
        forall|p: P| derivative.requires((p,)),
        forall|p: P, v: P, d: P| step.requires((p, v, d)),
        forall|p: P| is_zero.requires((p,)),
        forall|dx: i64, dy: i64| locate.requires((dx, dy)),
        size[0] <= MAX_SIDE,
        size[1] <= MAX_SIDE,
    ensures
        is_root_table(*function, *derivative, *step, *is_zero, *locate, iterations as nat, size, table@),
{
    let mut table: Vec<Vec<Root<P>>> = Vec::new();
    let mut y: usize = 0;
    while y < size[1]
        invariant
            forall|p: P| function.requires((p,)),
            forall|p: P| derivative.requires((p,)),
            forall|p: P, v: P, d: P| step.requires((p, v, d)),
            forall|p: P| is_zero.requires((p,)),
            forall|dx: i64, dy: i64| locate.requires((dx, dy)),
            size[0] <= MAX_SIDE,
            size[1] <= MAX_SIDE,
            y <= size[1],
            table.len() == y,
            forall|j: int| 0 <= j < y ==> (#[trigger] table@[j])@.len() == size[0],
            forall|j: int, i: int|
                0 <= j < y && 0 <= i < size[0] ==> root_cell(
                    *function,
                    *derivative,
                    *step,
                    *is_zero,
                    *locate,
                    iterations as nat,
                    size[0],
                    i,
                    j,
                    #[trigger] table@[j]@[i],
                ),
        decreases size[1] - y,
    {
        let mut line: Vec<Root<P>> = Vec::new();
        let mut x: usize = 0;
        while x < size[0]
            invariant
                forall|p: P| function.requires((p,)),
                forall|p: P| derivative.requires((p,)),
                forall|p: P, v: P, d: P| step.requires((p, v, d)),
                forall|p: P| is_zero.requires((p,)),
                forall|dx: i64, dy: i64| locate.requires((dx, dy)),
                size[0] <= MAX_SIDE,
                size[1] <= MAX_SIDE,
                y < size[1],
                x <= size[0],
                line.len() == x,
                forall|i: int|
                    0 <= i < x ==> root_cell(
                        *function,
                        *derivative,
                        *step,
                        *is_zero,
                        *locate,
                        iterations as nat,
                        size[0],
                        i,
                        y as int,
                        #[trigger] line@[i],
                    ),
            decreases size[0] - x,
        {
            let dx = pixel_offset(x, size[0]);
            let dy = pixel_offset(y, size[0]);
            let p = locate(dx, dy);
            let cell = newton_method(p, function, derivative, step, is_zero, iterations);
            assert(locate.ensures(
                (doubled_offset(x as int, size[0] as int) as i64, doubled_offset(y as int, size[0] as int) as i64),
                p,
            ));
            line.push(cell);
            x += 1;
        }
        table.push(line);
        y += 1;
    }
    table
}

} // verus!
