//! Ranking what the search found: each path once, by ascending cost.

use crate::box_fingering::{copy_grip, lemma_grip_view, BoxFingering, Cost, Grip};
use crate::views::lemma_push_deep_view;
use itertools::Itertools;
use vstd::prelude::*;

verus! {

/// `item` put into `sorted` behind every entry that costs no more than it.
pub open spec fn inserted_by_cost(
    sorted: Seq<(Seq<Seq<BoxFingering>>, u128)>,
    item: (Seq<Seq<BoxFingering>>, u128),
) -> Seq<(Seq<Seq<BoxFingering>>, u128)>
    decreases sorted.len(),
{
    if sorted.len() == 0 {
        seq![item]
    } else if sorted.last().1 <= item.1 {
        sorted.push(item)
    } else {
        inserted_by_cost(sorted.drop_last(), item).push(sorted.last())
    }
}

/// `found` by ascending cost; entries of equal cost keep their order.
pub open spec fn sorted_by_cost(found: Seq<(Seq<Seq<BoxFingering>>, u128)>) -> Seq<
    (Seq<Seq<BoxFingering>>, u128),
>
    decreases found.len(),
{
    if found.len() == 0 {
        Seq::empty()
    } else {
        inserted_by_cost(sorted_by_cost(found.drop_last()), found.last())
    }
}

/// Whether `found` holds the path `path`.
pub open spec fn holds_path(
    found: Seq<(Seq<Seq<BoxFingering>>, u128)>,
    path: Seq<Seq<BoxFingering>>,
) -> bool {
    exists|k: int| 0 <= k < found.len() && (#[trigger] found[k]).0 == path
}

/// `found` with each path once: of equal paths the first stays.
pub open spec fn without_repeats(found: Seq<(Seq<Seq<BoxFingering>>, u128)>) -> Seq<
    (Seq<Seq<BoxFingering>>, u128),
>
    decreases found.len(),
{
    if found.len() == 0 {
        Seq::empty()
    } else {
        let before = without_repeats(found.drop_last());
        if holds_path(before, found.last().0) {
            before
        } else {
            before.push(found.last())
        }
    }
}

/// The ranking of `found`: each path once, by ascending cost, and of these the
/// first `count`, or all of them where they are fewer. Of equal paths the first
/// counts, and paths of equal cost keep their order.
pub open spec fn ranked(found: Seq<(Seq<Seq<BoxFingering>>, u128)>, count: nat) -> Seq<
    (Seq<Seq<BoxFingering>>, u128),
> {
    let all = sorted_by_cost(without_repeats(found));
    if count < all.len() {
        all.take(count as int)
    } else {
        all
    }
}

/// Whether the entries of `found` stand by ascending cost.
pub open spec fn is_ascending_by_cost(found: Seq<(Seq<Seq<BoxFingering>>, u128)>) -> bool {
    forall|i: int, j: int| 0 <= i < j < found.len() ==> found[i].1 <= found[j].1
}

/// Whether no two entries of `found` hold the same path.
pub open spec fn has_no_repeats(found: Seq<(Seq<Seq<BoxFingering>>, u128)>) -> bool {
    forall|i: int, j: int| 0 <= i < j < found.len() ==> found[i].0 != found[j].0
}

/// Putting an entry into a list that stands by ascending cost keeps the order,
/// adds the entry and loses none.
pub proof fn lemma_inserted_by_cost(
    sorted: Seq<(Seq<Seq<BoxFingering>>, u128)>,
    item: (Seq<Seq<BoxFingering>>, u128),
)
    requires
        is_ascending_by_cost(sorted),
    ensures
        is_ascending_by_cost(inserted_by_cost(sorted, item)),
        inserted_by_cost(sorted, item).len() == sorted.len() + 1,
        inserted_by_cost(sorted, item).to_multiset() == sorted.to_multiset().insert(item),
        forall|k: int|
            0 <= k < sorted.len() + 1 ==> {
                let entry = #[trigger] inserted_by_cost(sorted, item)[k];
                entry == item || (sorted.contains(entry) && (entry.1 <= item.1 || k > 0))
            },
    decreases sorted.len(),
{
    broadcast use vstd::seq_lib::group_to_multiset_ensures;

    let result = inserted_by_cost(sorted, item);
    if sorted.len() == 0 {
        assert(sorted =~= Seq::empty());
        assert(result =~= Seq::<(Seq<Seq<BoxFingering>>, u128)>::empty().push(item));
    } else if sorted.last().1 <= item.1 {
        assert forall|k: int| 0 <= k < sorted.len() + 1 implies {
            let entry = #[trigger] result[k];
            entry == item || (sorted.contains(entry) && (entry.1 <= item.1 || k > 0))
        } by {
            if k < sorted.len() {
                assert(sorted[k] == result[k]);
            }
        }
    } else {
        let shorter = sorted.drop_last();
        lemma_inserted_by_cost(shorter, item);
        let inner = inserted_by_cost(shorter, item);
        assert(sorted =~= shorter.push(sorted.last()));
        assert forall|i: int, j: int| 0 <= i < j < result.len() implies result[i].1
            <= result[j].1 by {
            if j == result.len() - 1 {
                let entry = inner[i];
                if entry != item {
                    assert(shorter.contains(entry));
                    let at = choose|at: int| 0 <= at < shorter.len() && shorter[at] == entry;
                    assert(sorted[at] == entry);
                }
            }
        }
        assert forall|k: int| 0 <= k < sorted.len() + 1 implies {
            let entry = #[trigger] result[k];
            entry == item || (sorted.contains(entry) && (entry.1 <= item.1 || k > 0))
        } by {
            let entry = result[k];
            if k < inner.len() {
                if entry != item {
                    assert(inner[k] == entry);
                    assert(shorter.contains(entry));
                    let at = choose|at: int| 0 <= at < shorter.len() && shorter[at] == entry;
                    assert(sorted[at] == entry);
                }
            } else {
                assert(sorted[sorted.len() - 1] == entry);
            }
        }
        assert(sorted.to_multiset() =~= shorter.to_multiset().insert(sorted.last()));
        assert(result.to_multiset() =~= sorted.to_multiset().insert(item));
    }
}

/// The sorted list stands by ascending cost and holds exactly the entries of
/// the list that was sorted, each as often as that list holds it.
pub proof fn lemma_sorted_by_cost(found: Seq<(Seq<Seq<BoxFingering>>, u128)>)
    ensures
        is_ascending_by_cost(sorted_by_cost(found)),
        sorted_by_cost(found).len() == found.len(),
        sorted_by_cost(found).to_multiset() == found.to_multiset(),
    decreases found.len(),
{
    broadcast use vstd::seq_lib::group_to_multiset_ensures;

    if found.len() == 0 {
        assert(found =~= Seq::empty());
    } else {
        lemma_sorted_by_cost(found.drop_last());
        lemma_inserted_by_cost(sorted_by_cost(found.drop_last()), found.last());
        assert(found =~= found.drop_last().push(found.last()));
    }
}

/// The list without repeats holds no path twice; it holds only entries of the
/// list it was made from, and every path of that list.
pub proof fn lemma_without_repeats(found: Seq<(Seq<Seq<BoxFingering>>, u128)>)
    ensures
        has_no_repeats(without_repeats(found)),
        forall|k: int|
            0 <= k < without_repeats(found).len() ==> found.contains(
                #[trigger] without_repeats(found)[k],
            ),
        forall|path: Seq<Seq<BoxFingering>>|
            holds_path(found, path) <==> holds_path(without_repeats(found), path),
    decreases found.len(),
{
    if found.len() > 0 {
        let shorter = found.drop_last();
        lemma_without_repeats(shorter);
        let before = without_repeats(shorter);
        let result = without_repeats(found);
        assert forall|k: int| 0 <= k < result.len() implies found.contains(
            #[trigger] result[k],
        ) by {
            if k < before.len() {
                assert(result[k] == before[k]);
                assert(shorter.contains(before[k]));
                let at = choose|at: int| 0 <= at < shorter.len() && shorter[at] == before[k];
                assert(found[at] == result[k]);
            } else {
                assert(found[found.len() - 1] == result[k]);
            }
        }
        assert forall|path: Seq<Seq<BoxFingering>>| holds_path(found, path) <==> holds_path(
            result,
            path,
        ) by {
            if holds_path(found, path) {
                let k = choose|k: int| 0 <= k < found.len() && (#[trigger] found[k]).0 == path;
                if k < shorter.len() {
                    assert(shorter[k].0 == path);
                    assert(holds_path(shorter, path));
                    assert(holds_path(before, path));
                    let at = choose|at: int|
                        0 <= at < before.len() && (#[trigger] before[at]).0 == path;
                    assert(result[at].0 == path);
                } else if holds_path(before, path) {
                    let at = choose|at: int|
                        0 <= at < before.len() && (#[trigger] before[at]).0 == path;
                    assert(result[at].0 == path);
                } else {
                    assert(result[result.len() - 1].0 == path);
                }
            }
            if holds_path(result, path) {
                let k = choose|k: int| 0 <= k < result.len() && (#[trigger] result[k]).0 == path;
                if k < before.len() {
                    assert(before[k].0 == path);
                    assert(holds_path(shorter, path));
                    let at = choose|at: int|
                        0 <= at < shorter.len() && (#[trigger] shorter[at]).0 == path;
                    assert(found[at].0 == path);
                } else {
                    assert(found[found.len() - 1].0 == path);
                }
            }
        }
        assert forall|i: int, j: int| 0 <= i < j < result.len() implies result[i].0
            != result[j].0 by {
            if j >= before.len() {
                assert(before[i].0 == result[i].0);
            } else {
                assert(before[i] == result[i] && before[j] == result[j]);
            }
        }
    }
}

/// Putting an entry with a new path into a list that holds no path twice
/// gives a list that holds no path twice.
pub proof fn lemma_inserted_path(
    sorted: Seq<(Seq<Seq<BoxFingering>>, u128)>,
    item: (Seq<Seq<BoxFingering>>, u128),
)
    requires
        has_no_repeats(sorted),
        !holds_path(sorted, item.0),
    ensures
        has_no_repeats(inserted_by_cost(sorted, item)),
        forall|path: Seq<Seq<BoxFingering>>|
            holds_path(inserted_by_cost(sorted, item), path) <==> holds_path(sorted, path) || path
                == item.0,
    decreases sorted.len(),
{
    let result = inserted_by_cost(sorted, item);
    if sorted.len() == 0 {
        assert(result[0] == item);
    } else if sorted.last().1 <= item.1 {
        assert forall|i: int, j: int| 0 <= i < j < result.len() implies result[i].0
            != result[j].0 by {
            assert(sorted[i] == result[i]);
        }
        assert forall|path: Seq<Seq<BoxFingering>>| holds_path(result, path) <==> holds_path(
            sorted,
            path,
        ) || path == item.0 by {
            if holds_path(sorted, path) {
                let k = choose|k: int| 0 <= k < sorted.len() && (#[trigger] sorted[k]).0 == path;
                assert(result[k].0 == path);
            }
            if path == item.0 {
                assert(result[result.len() - 1].0 == path);
            }
            if holds_path(result, path) && path != item.0 {
                let k = choose|k: int| 0 <= k < result.len() && (#[trigger] result[k]).0 == path;
                assert(sorted[k].0 == path);
            }
        }
    } else {
        let shorter = sorted.drop_last();
        let last = sorted.last();
        assert forall|i: int, j: int| 0 <= i < j < shorter.len() implies shorter[i].0
            != shorter[j].0 by {
            assert(sorted[i] == shorter[i] && sorted[j] == shorter[j]);
        }
        if holds_path(shorter, item.0) {
            let k = choose|k: int| 0 <= k < shorter.len() && (#[trigger] shorter[k]).0 == item.0;
            assert(sorted[k].0 == item.0);
        }
        lemma_inserted_path(shorter, item);
        let inner = inserted_by_cost(shorter, item);
        assert(sorted[sorted.len() - 1].0 != item.0);
        if holds_path(shorter, last.0) {
            let k = choose|k: int| 0 <= k < shorter.len() && (#[trigger] shorter[k]).0 == last.0;
            assert(sorted[k].0 == sorted[sorted.len() - 1].0);
        }
        assert(!holds_path(inner, last.0));
        assert forall|i: int, j: int| 0 <= i < j < result.len() implies result[i].0
            != result[j].0 by {
            assert(inner[i] == result[i]);
            if j < inner.len() {
                assert(inner[j] == result[j]);
            }
        }
        assert forall|path: Seq<Seq<BoxFingering>>| holds_path(result, path) <==> holds_path(
            sorted,
            path,
        ) || path == item.0 by {
            if holds_path(result, path) {
                let k = choose|k: int| 0 <= k < result.len() && (#[trigger] result[k]).0 == path;
                if k < inner.len() {
                    assert(inner[k].0 == path);
                    assert(holds_path(inner, path));
                    if holds_path(shorter, path) {
                        let at = choose|at: int|
                            0 <= at < shorter.len() && (#[trigger] shorter[at]).0 == path;
                        assert(sorted[at].0 == path);
                    }
                } else {
                    assert(sorted[sorted.len() - 1].0 == path);
                }
            }
            if holds_path(sorted, path) {
                let k = choose|k: int| 0 <= k < sorted.len() && (#[trigger] sorted[k]).0 == path;
                if k < shorter.len() {
                    assert(shorter[k].0 == path);
                    assert(holds_path(shorter, path));
                    assert(holds_path(inner, path));
                    let at = choose|at: int|
                        0 <= at < inner.len() && (#[trigger] inner[at]).0 == path;
                    assert(result[at].0 == path);
                } else {
                    assert(result[result.len() - 1].0 == path);
                }
            }
            if path == item.0 {
                assert(holds_path(inner, path));
                let at = choose|at: int| 0 <= at < inner.len() && (#[trigger] inner[at]).0 == path;
                assert(result[at].0 == path);
            }
        }
    }
}

/// Sorting a list that holds no path twice gives a list that holds no path
/// twice, with the same paths.
pub proof fn lemma_sorted_paths(found: Seq<(Seq<Seq<BoxFingering>>, u128)>)
    requires
        has_no_repeats(found),
    ensures
        has_no_repeats(sorted_by_cost(found)),
        forall|path: Seq<Seq<BoxFingering>>|
            holds_path(sorted_by_cost(found), path) <==> holds_path(found, path),
    decreases found.len(),
{
    if found.len() > 0 {
        let shorter = found.drop_last();
        assert forall|i: int, j: int| 0 <= i < j < shorter.len() implies shorter[i].0
            != shorter[j].0 by {
            assert(found[i] == shorter[i] && found[j] == shorter[j]);
        }
        lemma_sorted_paths(shorter);
        if holds_path(shorter, found.last().0) {
            let k = choose|k: int|
                0 <= k < shorter.len() && (#[trigger] shorter[k]).0 == found.last().0;
            assert(found[k].0 == found[found.len() - 1].0);
        }
        lemma_inserted_path(sorted_by_cost(shorter), found.last());
        assert forall|path: Seq<Seq<BoxFingering>>| holds_path(sorted_by_cost(found), path)
            <==> holds_path(found, path) by {
            if holds_path(found, path) {
                let k = choose|k: int| 0 <= k < found.len() && (#[trigger] found[k]).0 == path;
                if k < shorter.len() {
                    assert(shorter[k].0 == path);
                    assert(holds_path(shorter, path));
                }
            }
            if holds_path(shorter, path) {
                let k = choose|k: int| 0 <= k < shorter.len() && (#[trigger] shorter[k]).0 == path;
                assert(found[k].0 == path);
            }
            if path == found.last().0 {
                assert(found[found.len() - 1].0 == path);
            }
        }
    }
}

/// Sorts `found` by cost with `itertools::Itertools::sorted_by`.
///
/// Trusted: that the result holds the entries of `found` by ascending cost, and
/// that entries of equal cost keep the order they had (the sort is stable).
#[verifier::external_body]
fn sort_by_cost(found: Vec<(Vec<Grip>, Cost)>) -> (sorted: Vec<(Vec<Grip>, Cost)>)
    ensures
        sorted.deep_view() == sorted_by_cost(found.deep_view()),
{
    found.into_iter().sorted_by(|a, b| a.1.cmp(&b.1)).collect()
}

/// Whether two grips hold the same fingerings.
fn same_grip(a: &Vec<BoxFingering>, b: &Vec<BoxFingering>) -> (same: bool)
    ensures
        same == (a@ == b@),
{
    if a.len() != b.len() {
        return false;
    }
    let mut k: usize = 0;
    while k < a.len()
        invariant
            k <= a.len(),
            a.len() == b.len(),
            forall|j: int| 0 <= j < k ==> a@[j] == b@[j],
        decreases a.len() - k,
    {
        if a[k] != b[k] {
            return false;
        }
        k += 1;
    }
    assert(a@ =~= b@);
    true
}

/// Whether two paths hold the same grips.
fn same_path(a: &Vec<Grip>, b: &Vec<Grip>) -> (same: bool)
    ensures
        same == (a.deep_view() == b.deep_view()),
{
    broadcast use lemma_grip_view;

    if a.len() != b.len() {
        assert(a.deep_view().len() != b.deep_view().len());
        return false;
    }
    let mut k: usize = 0;
    while k < a.len()
        invariant
            k <= a.len(),
            a.len() == b.len(),
            forall|j: int| 0 <= j < k ==> (#[trigger] a@[j])@ == b@[j]@,
        decreases a.len() - k,
    {
        if !same_grip(&a[k], &b[k]) {
            assert(a.deep_view()[k as int] == a@[k as int].deep_view());
            assert(b.deep_view()[k as int] == b@[k as int].deep_view());
            assert(a@[k as int].deep_view() == a@[k as int]@);
            assert(b@[k as int].deep_view() == b@[k as int]@);
            assert(a.deep_view()[k as int] != b.deep_view()[k as int]);
            return false;
        }
        k += 1;
    }
    assert(a.deep_view() =~= b.deep_view());
    true
}

/// A copy of `path`.
fn copy_path(path: &Vec<Grip>) -> (copy: Vec<Grip>)
    ensures
        copy.deep_view() == path.deep_view(),
{
    broadcast use lemma_grip_view;

    let mut copy: Vec<Grip> = Vec::new();
    let mut k: usize = 0;
    while k < path.len()
        invariant
            k <= path.len(),
            copy.len() == k,
            forall|j: int| 0 <= j < k ==> (#[trigger] copy@[j])@ == path@[j]@,
        decreases path.len() - k,
    {
        copy.push(copy_grip(&path[k]));
        k += 1;
    }
    assert(copy.deep_view() =~= path.deep_view());
    copy
}

/// Whether `found` holds the path `path`.
fn found_holds_path(found: &Vec<(Vec<Grip>, Cost)>, path: &Vec<Grip>) -> (holds: bool)
    ensures
        holds == holds_path(found.deep_view(), path.deep_view()),
{
    let mut k: usize = 0;
    while k < found.len()
        invariant
            k <= found.len(),
            forall|j: int| 0 <= j < k ==> (#[trigger] found.deep_view()[j]).0 != path.deep_view(),
        decreases found.len() - k,
    {
        if same_path(&found[k].0, path) {
            assert(found.deep_view()[k as int].0 == path.deep_view());
            return true;
        }
        assert(found.deep_view()[k as int].0 == found@[k as int].0.deep_view());
        k += 1;
    }
    false
}

/// `found` with each path once: of equal paths the first stays.
fn remove_repeats(found: &Vec<(Vec<Grip>, Cost)>) -> (distinct: Vec<(Vec<Grip>, Cost)>)
    ensures
        distinct.deep_view() == without_repeats(found.deep_view()),
{
    let mut distinct: Vec<(Vec<Grip>, Cost)> = Vec::new();
    let ghost all = found.deep_view();
    let mut i: usize = 0;
    assert(distinct.deep_view() =~= without_repeats(all.take(0)));
    while i < found.len()
        invariant
            i <= found.len(),
            all == found.deep_view(),
            distinct.deep_view() == without_repeats(all.take(i as int)),
        decreases found.len() - i,
    {
        assert(all.take(i + 1).drop_last() =~= all.take(i as int));
        assert(all.take(i + 1).last() == (found@[i as int].0.deep_view(), found@[i as int].1));
        if !found_holds_path(&distinct, &found[i].0) {
            let ghost before = distinct;
            let path = copy_path(&found[i].0);
            let cost: Cost = found[i].1;
            let ghost added = (path, cost);
            distinct.push((path, cost));
            proof {
                lemma_push_deep_view(before, distinct, added);
            }
        }
        i += 1;
    }
    assert(all.take(i as int) =~= all);
    distinct
}

/// Every entry of a ranking is an entry of what was ranked; the ranking stands
/// by ascending cost and holds no path twice.
pub proof fn lemma_ranked(found: Seq<(Seq<Seq<BoxFingering>>, u128)>, count: nat)
    ensures
        forall|k: int|
            0 <= k < ranked(found, count).len() ==> found.contains(#[trigger] ranked(found, count)[k]),
        is_ascending_by_cost(ranked(found, count)),
        has_no_repeats(ranked(found, count)),
{
    let distinct = without_repeats(found);
    let all = sorted_by_cost(distinct);
    lemma_without_repeats(found);
    lemma_sorted_by_cost(distinct);
    lemma_sorted_paths(distinct);
    assert forall|k: int| 0 <= k < ranked(found, count).len() implies found.contains(
        #[trigger] ranked(found, count)[k],
    ) by {
        let entry = ranked(found, count)[k];
        assert(entry == all[k]);
        assert(all.contains(entry));
        vstd::seq_lib::to_multiset_contains(all, entry);
        vstd::seq_lib::to_multiset_contains(distinct, entry);
        let d = choose|d: int| 0 <= d < distinct.len() && distinct[d] == entry;
        assert(found.contains(distinct[d]));
    }
    assert forall|i: int, j: int| 0 <= i < j < ranked(found, count).len() implies ranked(
        found,
        count,
    )[i].0 != ranked(found, count)[j].0 by {
        assert(all[i].0 != all[j].0);
    }
}

/// Ranks the paths that a search found: each path once, by ascending cost, and
/// of these the first `count`, or all of them where they are fewer. Of equal
/// paths the first counts, and paths of equal cost keep their order.
pub fn rank_paths(found: &Vec<(Vec<Grip>, Cost)>, count: usize) -> (best: Vec<(Vec<Grip>, Cost)>)
    ensures
        best.deep_view() == ranked(found.deep_view(), count as nat),
{
    let distinct = remove_repeats(found);
    let mut ordered_results = sort_by_cost(distinct);
    ordered_results.truncate(count);
    assert(ordered_results.deep_view() =~= ranked(found.deep_view(), count as nat));
    ordered_results
}

} // verus!
