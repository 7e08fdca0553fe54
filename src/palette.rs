//! Distinct roots of a Newton table, in order of first appearance, and the
//! label each cell gets from them.

use vstd::prelude::*;

use crate::root::Root;

verus! {

/// The distinct roots of a table, and for each cell the index of its root
/// among them (`None` for a cell without a root).
pub struct RootLabels<P> {
    pub roots: Vec<P>,
    pub labels: Vec<Vec<Option<usize>>>,
}

/// Views of the rows of a table of labels.
pub open spec fn rows_view<T>(rows: Seq<Vec<T>>) -> Seq<Seq<T>> {
    Seq::new(rows.len(), |i: int| rows[i]@)
}

/// Cell `a` comes before cell `b` in row-major order.
pub open spec fn before(a: (int, int), b: (int, int)) -> bool {
    a.0 < b.0 || (a.0 == b.0 && a.1 < b.1)
}

/// `j` is the first index whose entry `same` finds equal to `p`, or the index
/// where `p` itself was added after matching none before.
pub open spec fn first_match<P, S: Fn(P, P) -> bool>(same: S, roots: Seq<P>, p: P, j: int) -> bool {
    &&& 0 <= j < roots.len()
    &&& roots[j] == p || same.ensures((roots[j], p), true)
    &&& forall|k: int| 0 <= k < j ==> #[trigger] same.ensures((roots[k], p), false)
}

/// The label of a cell: none without a root, the first match of its root with one.
pub open spec fn label_ok<P, S: Fn(P, P) -> bool>(same: S, roots: Seq<P>, cell: Root<P>, label: Option<usize>) -> bool {
    match cell {
        Root::No => label is None,
        Root::Yes { root, .. } => label matches Some(j) && first_match(same, roots, root, j as int),
    }
}

/// The cell holds the root `p`.
pub open spec fn root_at<P>(cell: Root<P>, p: P) -> bool {
    match cell {
        Root::Yes { root, .. } => root == p,
        Root::No => false,
    }
}

/// Cell `(y, x)` is labelled in `lab`.
pub open spec fn covered<T>(lab: Seq<Seq<T>>, y: int, x: int) -> bool {
    0 <= y < lab.len() && 0 <= x < lab[y].len()
}

/// `lab` labels the cells of `table` it covers (whole rows, then a prefix of
/// the next one) against `roots`; `firsts[j]` is where `roots[j]` first
/// appears, in row-major order, and no cell before it carries label `j`.
pub open spec fn labelled<P, S: Fn(P, P) -> bool>(
    same: S,
    table: Seq<Vec<Root<P>>>,
    roots: Seq<P>,
    lab: Seq<Seq<Option<usize>>>,
    firsts: Seq<(int, int)>,
) -> bool {
    &&& lab.len() <= table.len()
    &&& forall|y: int| 0 <= y < lab.len() ==> #[trigger] lab[y].len() <= table[y]@.len()
    &&& forall|y: int, x: int| covered(lab, y, x) ==> label_ok(same, roots, table[y]@[x], #[trigger] lab[y][x])
    &&& forall|j: int, k: int| 0 <= j < k < roots.len() ==> #[trigger] same.ensures((roots[j], roots[k]), false)
    &&& firsts.len() == roots.len()
    &&& forall|j: int|
        0 <= j < firsts.len() ==> {
            &&& covered(lab, (#[trigger] firsts[j]).0, firsts[j].1)
            &&& root_at(table[firsts[j].0]@[firsts[j].1], roots[j])
            &&& lab[firsts[j].0][firsts[j].1] == Some(j as usize)
        }
    &&& forall|j: int, k: int| 0 <= j < k < firsts.len() ==> before(#[trigger] firsts[j], #[trigger] firsts[k])
    &&& forall|y: int, x: int|
        covered(lab, y, x) ==> (#[trigger] lab[y][x] matches Some(l) ==> l < firsts.len() && !before(
            (y, x),
            firsts[l as int],
        ))
}

/// `r` labels the whole of `table`: each row of labels as long as its row of
/// cells, distinct roots in order of first appearance.
pub open spec fn is_labelling<P, S: Fn(P, P) -> bool>(same: S, table: Seq<Vec<Root<P>>>, r: RootLabels<P>) -> bool {
    &&& r.labels.len() == table.len()
    &&& forall|y: int| 0 <= y < table.len() ==> (#[trigger] r.labels[y])@.len() == table[y]@.len()
    &&& exists|firsts: Seq<(int, int)>| labelled(same, table, r.roots@, rows_view(r.labels@), firsts)
}

/// A table without any root yields no distinct root, so no root colour is
/// ever needed.
pub proof fn lemma_no_root_no_palette<P, S: Fn(P, P) -> bool>(same: S, table: Seq<Vec<Root<P>>>, r: RootLabels<P>)
    requires
        is_labelling(same, table, r),
        forall|y: int, x: int| 0 <= y < table.len() && 0 <= x < table[y]@.len() ==> #[trigger] table[y]@[x] is No,
    ensures
        r.roots@.len() == 0,
{
    let firsts = choose|f: Seq<(int, int)>| labelled(same, table, r.roots@, rows_view(r.labels@), f);
    if r.roots@.len() > 0 {
        let (y, x) = firsts[0];
        assert(covered(rows_view(r.labels@), y, x));
        assert(table[y]@[x] is No);
    }
}

/// First index of `roots` whose entry `same` finds equal to `p`.
fn find_root<P: Copy, S: Fn(P, P) -> bool>(roots: &Vec<P>, p: P, same: &S) -> (r: Option<usize>)
    requires
        forall|a: P, b: P| same.requires((a, b)),
    ensures
        r matches Some(j) ==> j < roots.len() && same.ensures((roots@[j as int], p), true) && forall|k: int|
            0 <= k < j ==> #[trigger] same.ensures((roots@[k], p), false),
        r is None ==> forall|k: int| 0 <= k < roots.len() ==> #[trigger] same.ensures((roots@[k], p), false),
{
    let mut k: usize = 0;
    while k < roots.len()
        invariant
            forall|a: P, b: P| same.requires((a, b)),
            k <= roots.len(),
            forall|i: int| 0 <= i < k ==> #[trigger] same.ensures((roots@[i], p), false),
        decreases roots.len() - k,
    {
        if same(roots[k], p) {
            return Some(k);
        }
        k += 1;
    }
    None
}

/// Collect the distinct roots of `table` in row-major order of first
/// appearance, `same` telling equal roots apart, and label every cell with the
/// index of its root.
pub fn label_roots<P: Copy, S: Fn(P, P) -> bool>(table: &Vec<Vec<Root<P>>>, same: &S) -> (r: RootLabels<P>)
    requires
        forall|a: P, b: P| same.requires((a, b)),
    ensures
        is_labelling(*same, table@, r),
{
    let mut roots: Vec<P> = Vec::new();
    let mut labels: Vec<Vec<Option<usize>>> = Vec::new();
    let ghost mut firsts: Seq<(int, int)> = Seq::empty();
    let mut y: usize = 0;
    while y < table.len()
        invariant
            forall|a: P, b: P| same.requires((a, b)),
            y <= table.len(),
            labels.len() == y,
            forall|j: int| 0 <= j < y ==> (#[trigger] labels@[j])@.len() == table@[j]@.len(),
            labelled(*same, table@, roots@, rows_view(labels@), firsts),
        decreases table.len() - y,
    {
        let row = &table[y];
        let mut line: Vec<Option<usize>> = Vec::new();
        let mut x: usize = 0;
        assert(rows_view(labels@).push(line@) =~= rows_view(labels@.push(line)));
        while x < row.len()
            invariant
                forall|a: P, b: P| same.requires((a, b)),
                y < table.len(),
                row == table@[y as int],
                labels.len() == y,
                forall|j: int| 0 <= j < y ==> (#[trigger] labels@[j])@.len() == table@[j]@.len(),
                x <= row.len(),
                line.len() == x,
                labelled(*same, table@, roots@, rows_view(labels@).push(line@), firsts),
            decreases row.len() - x,
        {
            let ghost lab = rows_view(labels@).push(line@);
            let label = match row[x] {
                Root::No => None,
                Root::Yes { root, .. } => {
                    match find_root(&roots, root, same) {
                        Some(j) => Some(j),
                        None => {
                            let n = roots.len();
                            roots.push(root);
                            proof {
                                firsts = firsts.push((y as int, x as int));
                            }
                            Some(n)
                        },
                    }
                },
            };
            line.push(label);
            proof {
                let lab2 = rows_view(labels@).push(line@);
                assert(lab2 == lab.update(y as int, lab[y as int].push(label)));
                assert forall|j: int| 0 <= j < firsts.len() implies before(
                    #[trigger] firsts[j],
                    (y as int, x as int),
                ) || firsts[j] == (y as int, x as int) by {}
            }
            x += 1;
        }
        let ghost lab = rows_view(labels@).push(line@);
        labels.push(line);
        assert(rows_view(labels@) =~= lab);
        y += 1;
    }
    let r = RootLabels { roots, labels };
    assert(labelled(*same, table@, r.roots@, rows_view(r.labels@), firsts));
    r
}

} // verus!
