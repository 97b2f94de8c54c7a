use vstd::prelude::*;

use vstd::std_specs::cmp::PartialEqSpec;

use crate::edit::Edit;
use crate::model::{
    distance, edit_distance, emitted, lemma_script_from_empty, lemma_script_identity,
    lemma_script_sound, lemma_script_to_empty, script, script_cost, step, transforms,
};

verus! {

/// One cell of the cost grid: the minimal cost of its prefixes and the edit that enters it.
struct GridSquare<'a, T: 'a + Eq> {
    cost: usize,
    edit: Edit<'a, T>,
}

/// The cell `(i, j)` holds the distance of its prefixes and, away from the origin, the chosen step.
spec fn square_ok<'a, T: Eq>(a: Seq<T>, b: Seq<T>, s: GridSquare<'a, T>, i: nat, j: nat) -> bool {
    &&& s.cost == distance(a, b, i, j)
    &&& (i > 0 || j > 0) ==> s.edit == step::<'a, T>(a, b, i, j)
}

spec fn grid_ok<'a, T: Eq>(a: Seq<T>, b: Seq<T>, g: Seq<Vec<GridSquare<'a, T>>>) -> bool {
    &&& g.len() == a.len() + 1
    &&& forall|i: int| 0 <= i < g.len() ==> #[trigger] g[i]@.len() == b.len() + 1
    &&& forall|i: int, j: int|
        0 <= i < g.len() && 0 <= j <= b.len() ==> square_ok(a, b, #[trigger] g[i]@[j], i as nat, j as nat)
}

proof fn lemma_distance_bounded<T>(a: Seq<T>, b: Seq<T>, i: nat, j: nat)
    ensures
        distance(a, b, i, j) <= i + j,
    decreases i + j,
{
    if i > 0 && j > 0 {
        lemma_distance_bounded(a, b, i, (j - 1) as nat);
    }
}

/// Fills the cost grid row by row.
fn fill_grid<'a, T: Eq>(a: &'a Vec<T>, b: &'a Vec<T>) -> (g: Vec<Vec<GridSquare<'a, T>>>)
    requires
        vstd::laws_eq::obeys_concrete_eq::<T>(),
        a@.len() + b@.len() < usize::MAX,
    ensures
        grid_ok(a@, b@, g@),
{
    proof {
        reveal(vstd::laws_eq::obeys_concrete_eq);
    }
    let n = a.len();
    let m = b.len();
    let mut g: Vec<Vec<GridSquare<'a, T>>> = Vec::new();
    let mut i: usize = 0;
    while i <= n
        invariant
            T::obeys_eq_spec(),
            forall|x: T, y: T| x.eq_spec(&y) <==> (x == y),
            n == a@.len(),
            m == b@.len(),
            n + m < usize::MAX,
            i <= n + 1,
            g@.len() == i,
            forall|k: int| 0 <= k < g@.len() ==> #[trigger] g@[k]@.len() == m + 1,
            forall|k: int, j: int|
                0 <= k < g@.len() && 0 <= j <= m ==> square_ok(a@, b@, #[trigger] g@[k]@[j], k as nat, j as nat),
        decreases n + 1 - i,
    {
        let mut row: Vec<GridSquare<'a, T>> = Vec::new();
        let mut j: usize = 0;
        while j <= m
            invariant
                T::obeys_eq_spec(),
                forall|x: T, y: T| x.eq_spec(&y) <==> (x == y),
                n == a@.len(),
                m == b@.len(),
                n + m < usize::MAX,
                i <= n,
                j <= m + 1,
                row@.len() == j,
                g@.len() == i,
                forall|k: int| 0 <= k < g@.len() ==> #[trigger] g@[k]@.len() == m + 1,
                forall|k: int, l: int|
                    0 <= k < g@.len() && 0 <= l <= m ==> square_ok(a@, b@, #[trigger] g@[k]@[l], k as nat, l as nat),
                forall|l: int| 0 <= l < j ==> square_ok(a@, b@, #[trigger] row@[l], i as nat, l as nat),
            decreases m + 1 - j,
        {
            let square = if i == 0 && j == 0 {
                GridSquare { cost: 0, edit: Edit::Keep }
            } else if i == 0 {
                GridSquare { cost: j, edit: Edit::Insert(&b[j - 1]) }
            } else if j == 0 {
                GridSquare { cost: i, edit: Edit::Delete }
            } else {
                proof {
                    lemma_distance_bounded(a@, b@, i as nat, (j - 1) as nat);
                    lemma_distance_bounded(a@, b@, (i - 1) as nat, j as nat);
                    lemma_distance_bounded(a@, b@, (i - 1) as nat, (j - 1) as nat);
                }
                assert(square_ok(a@, b@, row@[j - 1], i as nat, (j - 1) as nat));
                assert(square_ok(a@, b@, g@[i - 1]@[j as int], (i - 1) as nat, j as nat));
                assert(square_ok(a@, b@, g@[i - 1]@[j - 1], (i - 1) as nat, (j - 1) as nat));
                let insertion_cost = row[j - 1].cost + 1;
                let deletion_cost = g[i - 1][j].cost + 1;
                let same = a[i - 1] == b[j - 1];
                let diagonal_cost = if same {
                    g[i - 1][j - 1].cost
                } else {
                    g[i - 1][j - 1].cost + 2
                };
                if insertion_cost <= deletion_cost && insertion_cost <= diagonal_cost {
                    GridSquare { cost: insertion_cost, edit: Edit::Insert(&b[j - 1]) }
                } else if deletion_cost <= diagonal_cost {
                    GridSquare { cost: deletion_cost, edit: Edit::Delete }
                } else if same {
                    GridSquare { cost: diagonal_cost, edit: Edit::Keep }
                } else {
                    GridSquare { cost: diagonal_cost, edit: Edit::Substitute(&b[j - 1]) }
                }
            };
            assert(square_ok(a@, b@, square, i as nat, j as nat));
            row.push(square);
            j = j + 1;
        }
        g.push(row);
        i = i + 1;
    }
    g
}

/// Walks the chosen steps back from the last cell to the origin and returns them in forward order.
fn path<'a, T: Eq>(
    a: &'a Vec<T>,
    b: &'a Vec<T>,
    g: &Vec<Vec<GridSquare<'a, T>>>,
) -> (r: Vec<Edit<'a, T>>)
    requires
        grid_ok(a@, b@, g@),
    ensures
        r@ == script::<'a, T>(a@, b@, a@.len(), b@.len()),
{
    let ghost whole = script::<'a, T>(a@, b@, a@.len(), b@.len());
    let mut i: usize = a.len();
    let mut j: usize = b.len();
    let mut back: Vec<Edit<'a, T>> = Vec::new();
    while i > 0 || j > 0
        invariant
            grid_ok(a@, b@, g@),
            whole == script::<'a, T>(a@, b@, a@.len(), b@.len()),
            i <= a@.len(),
            j <= b@.len(),
            script::<'a, T>(a@, b@, i as nat, j as nat).len() + back@.len() == whole.len(),
            whole.subrange(0, script::<'a, T>(a@, b@, i as nat, j as nat).len() as int)
                == script::<'a, T>(a@, b@, i as nat, j as nat),
            forall|k: int| 0 <= k < back@.len() ==> #[trigger] back@[k] == whole[whole.len() - 1 - k],
        decreases i + j,
    {
        let ghost here = script::<'a, T>(a@, b@, i as nat, j as nat);
        assert(square_ok(a@, b@, g@[i as int]@[j as int], i as nat, j as nat));
        let e = g[i][j].edit.clone();
        match e {
            Edit::Insert(_) => {
                j = j - 1;
            },
            Edit::Delete => {
                i = i - 1;
            },
            _ => {
                i = i - 1;
                j = j - 1;
            },
        }
        back.push(e);
        proof {
            let prev = script::<'a, T>(a@, b@, i as nat, j as nat);
            assert(here == prev.push(e));
            assert(whole.subrange(0, prev.len() as int) =~= prev);
            assert(here[here.len() - 1] == e);
            assert(whole.subrange(0, here.len() as int)[here.len() - 1] == whole[here.len() - 1]);
        }
    }
    let mut r: Vec<Edit<'a, T>> = Vec::new();
    let mut k: usize = back.len();
    while k > 0
        invariant
            k <= back@.len(),
            back@.len() == whole.len(),
            forall|l: int| 0 <= l < back@.len() ==> #[trigger] back@[l] == whole[whole.len() - 1 - l],
            r@ =~= whole.subrange(0, back@.len() - k),
        decreases k,
    {
        k = k - 1;
        r.push(back[k].clone());
    }
    assert(r@ =~= whole);
    r
}

/// Computes a minimal-cost edit script that turns `a` into `b`.
///
/// The grid holds, for every pair of prefixes, their minimal cost and the edit that
/// reaches it; ties prefer an insertion, then a deletion, then keeping or substituting.
pub fn diff<'a, T: Eq>(a: &'a Vec<T>, b: &'a Vec<T>) -> (r: Vec<Edit<'a, T>>)
    requires
        vstd::laws_eq::obeys_concrete_eq::<T>(),
        a@.len() + b@.len() < usize::MAX,
    ensures
        r@ == script::<'a, T>(a@, b@, a@.len(), b@.len()),
        transforms(a@, b@, r@),
        emitted(r@) == b@.len(),
        script_cost(r@) == edit_distance(a@, b@),
        a@ == b@ ==> r@ == Seq::new(a@.len(), |k: int| Edit::<'a, T>::Keep),
        a@.len() == 0 ==> r@ == Seq::new(b@.len(), |k: int| Edit::Insert(&b@[k])),
        b@.len() == 0 ==> r@ == Seq::new(a@.len(), |k: int| Edit::<'a, T>::Delete),
{
    let g = fill_grid(a, b);
    let r = path(a, b, &g);
    proof {
        lemma_script_sound(a@, b@, a@.len(), b@.len(), r@);
        assert(b@.subrange(0, b@.len() as int) =~= b@);
        if a@ == b@ {
            lemma_script_identity(a@, a@.len(), r@);
        }
        if a@.len() == 0 {
            lemma_script_from_empty(a@, b@, b@.len(), r@);
        }
        if b@.len() == 0 {
            lemma_script_to_empty(a@, b@, a@.len(), r@);
        }
    }
    r
}

} // verus!
