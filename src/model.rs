use vstd::prelude::*;

use crate::edit::Edit;

verus! {

/// Cost of a single edit: nothing for `Keep`, one for `Insert` and `Delete`, two for `Substitute`.
pub open spec fn edit_cost<'a, T: Eq>(e: Edit<'a, T>) -> nat {
    match e {
        Edit::Keep => 0,
        Edit::Insert(_) => 1,
        Edit::Delete => 1,
        Edit::Substitute(_) => 2,
    }
}

/// Total cost of an edit script.
pub open spec fn script_cost<'a, T: Eq>(es: Seq<Edit<'a, T>>) -> nat
    decreases es.len(),
{
    if es.len() == 0 {
        0
    } else {
        script_cost(es.drop_last()) + edit_cost(es.last())
    }
}

/// Minimal edit cost between the prefixes `a[..i]` and `b[..j]`.
pub open spec fn distance<T>(a: Seq<T>, b: Seq<T>, i: nat, j: nat) -> nat
    decreases i + j,
{
    if i == 0 {
        j
    } else if j == 0 {
        i
    } else {
        let ins = distance(a, b, i, (j - 1) as nat) + 1;
        let del = distance(a, b, (i - 1) as nat, j) + 1;
        let diag = if a[i - 1] == b[j - 1] {
            distance(a, b, (i - 1) as nat, (j - 1) as nat)
        } else {
            distance(a, b, (i - 1) as nat, (j - 1) as nat) + 2
        };
        if ins <= del && ins <= diag {
            ins
        } else if del <= diag {
            del
        } else {
            diag
        }
    }
}

/// Cost of reaching `(i, j)` by an insertion.
pub open spec fn insert_cost<T>(a: Seq<T>, b: Seq<T>, i: nat, j: nat) -> nat {
    distance(a, b, i, (j - 1) as nat) + 1
}

/// Cost of reaching `(i, j)` by a deletion.
pub open spec fn delete_cost<T>(a: Seq<T>, b: Seq<T>, i: nat, j: nat) -> nat {
    distance(a, b, (i - 1) as nat, j) + 1
}

/// Cost of reaching `(i, j)` by a diagonal step: a keep or a substitution.
pub open spec fn diagonal_cost<T>(a: Seq<T>, b: Seq<T>, i: nat, j: nat) -> nat {
    if a[i - 1] == b[j - 1] {
        distance(a, b, (i - 1) as nat, (j - 1) as nat)
    } else {
        distance(a, b, (i - 1) as nat, (j - 1) as nat) + 2
    }
}

/// Whether the cell `(i, j)` is entered by an insertion.
pub open spec fn takes_insert<T>(a: Seq<T>, b: Seq<T>, i: nat, j: nat) -> bool {
    i == 0 || (j > 0 && insert_cost(a, b, i, j) <= delete_cost(a, b, i, j) && insert_cost(a, b, i, j)
        <= diagonal_cost(a, b, i, j))
}

/// Whether the cell `(i, j)`, not entered by an insertion, is entered by a deletion.
pub open spec fn takes_delete<T>(a: Seq<T>, b: Seq<T>, i: nat, j: nat) -> bool {
    j == 0 || delete_cost(a, b, i, j) <= diagonal_cost(a, b, i, j)
}

/// The edit that enters the cell `(i, j)` other than the origin.
pub open spec fn step<'a, T: Eq>(a: Seq<T>, b: Seq<T>, i: nat, j: nat) -> Edit<'a, T> {
    if takes_insert(a, b, i, j) {
        Edit::Insert(&b[j - 1])
    } else if takes_delete(a, b, i, j) {
        Edit::Delete
    } else if a[i - 1] == b[j - 1] {
        Edit::Keep
    } else {
        Edit::Substitute(&b[j - 1])
    }
}

/// Script chosen for the prefixes `a[..i]` and `b[..j]`, following `step` back to the origin.
pub open spec fn script<'a, T: Eq>(a: Seq<T>, b: Seq<T>, i: nat, j: nat) -> Seq<Edit<'a, T>>
    decreases i + j,
{
    if i == 0 && j == 0 {
        seq![]
    } else if takes_insert(a, b, i, j) {
        script(a, b, i, (j - 1) as nat).push(step(a, b, i, j))
    } else if takes_delete(a, b, i, j) {
        script(a, b, (i - 1) as nat, j).push(step(a, b, i, j))
    } else {
        script(a, b, (i - 1) as nat, (j - 1) as nat).push(step(a, b, i, j))
    }
}

/// Number of source elements that a script consumes: its `Keep`, `Delete` and `Substitute` edits.
pub open spec fn consumed<'a, T: Eq>(es: Seq<Edit<'a, T>>) -> nat
    decreases es.len(),
{
    if es.len() == 0 {
        0
    } else {
        consumed(es.drop_last()) + match es.last() {
            Edit::Insert(_) => 0nat,
            _ => 1nat,
        }
    }
}

/// Number of elements that a script emits: its `Keep`, `Insert` and `Substitute` edits.
pub open spec fn emitted<'a, T: Eq>(es: Seq<Edit<'a, T>>) -> nat
    decreases es.len(),
{
    if es.len() == 0 {
        0
    } else {
        emitted(es.drop_last()) + match es.last() {
            Edit::Delete => 0nat,
            _ => 1nat,
        }
    }
}

/// Output of replaying a script over the source `a`: the read cursor stands at the number of
/// elements consumed so far, and `Keep` emits the element under it.
pub open spec fn replay<'a, T: Eq>(a: Seq<T>, es: Seq<Edit<'a, T>>) -> Seq<T>
    decreases es.len(),
{
    if es.len() == 0 {
        seq![]
    } else {
        let prev = es.drop_last();
        let out = replay(a, prev);
        match es.last() {
            Edit::Insert(v) => out.push(*v),
            Edit::Delete => out,
            Edit::Substitute(v) => out.push(*v),
            Edit::Keep => out.push(a[consumed(prev) as int]),
        }
    }
}

/// A script turns `a` into `b`: it consumes all of `a` and its replay is exactly `b`.
pub open spec fn transforms<'a, T: Eq>(a: Seq<T>, b: Seq<T>, es: Seq<Edit<'a, T>>) -> bool {
    consumed(es) == a.len() && replay(a, es) == b
}

/// Minimal edit cost between `a` and `b`.
pub open spec fn edit_distance<T>(a: Seq<T>, b: Seq<T>) -> nat {
    distance(a, b, a.len(), b.len())
}

/// The chosen script for the prefixes `a[..i]` and `b[..j]` consumes `a[..i]`, replays to
/// `b[..j]`, emits `j` elements and costs exactly their distance.
pub proof fn lemma_script_sound<'a, T: Eq>(a: Seq<T>, b: Seq<T>, i: nat, j: nat, es: Seq<Edit<'a, T>>)
    requires
        es == script::<'a, T>(a, b, i, j),
        i <= a.len(),
        j <= b.len(),
    ensures
        consumed(script::<'a, T>(a, b, i, j)) == i,
        emitted(script::<'a, T>(a, b, i, j)) == j,
        replay(a, script::<'a, T>(a, b, i, j)) == b.subrange(0, j as int),
        script_cost(script::<'a, T>(a, b, i, j)) == distance(a, b, i, j),
    decreases i + j,
{
    if i == 0 && j == 0 {
        assert(b.subrange(0, 0) =~= seq![]);
    } else {
        let (pi, pj) = if takes_insert(a, b, i, j) {
            (i, (j - 1) as nat)
        } else if takes_delete(a, b, i, j) {
            ((i - 1) as nat, j)
        } else {
            ((i - 1) as nat, (j - 1) as nat)
        };
        let prev = script::<'a, T>(a, b, pi, pj);
        lemma_script_sound(a, b, pi, pj, prev);
        assert(es.drop_last() =~= prev);
        if pj < j {
            assert(b.subrange(0, j as int) =~= b.subrange(0, pj as int).push(b[j - 1]));
        }
    }
}

/// No script that consumes `a[..i]` and replays to `b[..j]` costs less than their distance.
proof fn lemma_cost_at_least_distance<'a, T: Eq>(a: Seq<T>, b: Seq<T>, i: nat, j: nat, es: Seq<Edit<'a, T>>)
    requires
        i <= a.len(),
        j <= b.len(),
        consumed(es) == i,
        replay(a, es) == b.subrange(0, j as int),
    ensures
        distance(a, b, i, j) <= script_cost(es),
    decreases es.len(),
{
    if es.len() == 0 {
        assert(b.subrange(0, j as int).len() == 0);
    } else {
        let prev = es.drop_last();
        let out = replay(a, prev);
        match es.last() {
            Edit::Insert(v) => {
                assert(replay(a, es) == out.push(*v));
                assert(j > 0);
                assert(out =~= b.subrange(0, j - 1));
                lemma_cost_at_least_distance(a, b, i, (j - 1) as nat, prev);
            },
            Edit::Delete => {
                assert(replay(a, es) == out);
                lemma_cost_at_least_distance(a, b, (i - 1) as nat, j, prev);
            },
            Edit::Substitute(v) => {
                assert(replay(a, es) == out.push(*v));
                assert(j > 0);
                assert(out =~= b.subrange(0, j - 1));
                lemma_cost_at_least_distance(a, b, (i - 1) as nat, (j - 1) as nat, prev);
            },
            Edit::Keep => {
                assert(replay(a, es) == out.push(a[consumed(prev) as int]));
                assert(j > 0);
                assert(out =~= b.subrange(0, j - 1));
                assert(b.subrange(0, j as int)[j - 1] == b[j - 1]);
                lemma_cost_at_least_distance(a, b, (i - 1) as nat, (j - 1) as nat, prev);
            },
        }
    }
}

/// Optimality: no script that turns `a` into `b` costs less than the chosen one, whose
/// cost is the edit distance.
pub proof fn lemma_script_optimal<'a, T: Eq>(a: Seq<T>, b: Seq<T>, es: Seq<Edit<'a, T>>)
    requires
        transforms(a, b, es),
    ensures
        script_cost(script::<'a, T>(a, b, a.len(), b.len())) == edit_distance(a, b),
        edit_distance(a, b) <= script_cost(es),
{
    lemma_script_sound(a, b, a.len(), b.len(), script::<'a, T>(a, b, a.len(), b.len()));
    assert(b.subrange(0, b.len() as int) =~= b);
    lemma_cost_at_least_distance(a, b, a.len(), b.len(), es);
}

/// The distance between two prefixes is at least the difference of their lengths.
proof fn lemma_distance_at_least_gap<T>(a: Seq<T>, b: Seq<T>, i: nat, j: nat)
    ensures
        distance(a, b, i, j) >= i - j,
        distance(a, b, i, j) >= j - i,
    decreases i + j,
{
    if i > 0 && j > 0 {
        lemma_distance_at_least_gap(a, b, i, (j - 1) as nat);
        lemma_distance_at_least_gap(a, b, (i - 1) as nat, j);
        lemma_distance_at_least_gap(a, b, (i - 1) as nat, (j - 1) as nat);
    }
}

/// A sequence and itself: the chosen script keeps every element.
pub proof fn lemma_script_identity<'a, T: Eq>(a: Seq<T>, i: nat, es: Seq<Edit<'a, T>>)
    requires
        es == script::<'a, T>(a, a, i, i),
        i <= a.len(),
    ensures
        distance(a, a, i, i) == 0,
        es == Seq::new(i, |k: int| Edit::<'a, T>::Keep),
    decreases i,
{
    if i == 0 {
        assert(es =~= Seq::new(i, |k: int| Edit::<'a, T>::Keep));
    } else {
        let prev = script::<'a, T>(a, a, (i - 1) as nat, (i - 1) as nat);
        lemma_script_identity(a, (i - 1) as nat, prev);
        lemma_distance_at_least_gap(a, a, i, (i - 1) as nat);
        lemma_distance_at_least_gap(a, a, (i - 1) as nat, i);
        assert(es =~= Seq::new(i, |k: int| Edit::<'a, T>::Keep));
    }
}

/// From an empty source: the chosen script inserts `b[..j]` in order.
pub proof fn lemma_script_from_empty<'a, T: Eq>(a: Seq<T>, b: Seq<T>, j: nat, es: Seq<Edit<'a, T>>)
    requires
        es == script::<'a, T>(a, b, 0, j),
        j <= b.len(),
    ensures
        es == Seq::new(j, |k: int| Edit::Insert(&b[k])),
    decreases j,
{
    if j > 0 {
        lemma_script_from_empty(a, b, (j - 1) as nat, script::<'a, T>(a, b, 0, (j - 1) as nat));
    }
    assert(es =~= Seq::new(j, |k: int| Edit::Insert(&b[k])));
}

/// To an empty target: the chosen script deletes `a[..i]`.
pub proof fn lemma_script_to_empty<'a, T: Eq>(a: Seq<T>, b: Seq<T>, i: nat, es: Seq<Edit<'a, T>>)
    requires
        es == script::<'a, T>(a, b, i, 0),
        i <= a.len(),
    ensures
        es == Seq::new(i, |k: int| Edit::<'a, T>::Delete),
    decreases i,
{
    if i > 0 {
        lemma_script_to_empty(a, b, (i - 1) as nat, script::<'a, T>(a, b, (i - 1) as nat, 0));
    }
    assert(es =~= Seq::new(i, |k: int| Edit::<'a, T>::Delete));
}

} // verus!
