//! Approximating a target sum by a subset of known values.

use std::collections::HashMap;
use vstd::prelude::*;

pub mod greedy_search;

verus! {

/// The positions at which `x` stands in `values`, in ascending order.
pub open spec fn positions_of(values: Seq<i64>, x: i64) -> Seq<int>
    decreases values.len(),
{
    if values.len() == 0 {
        Seq::empty()
    } else {
        let before = positions_of(values.drop_last(), x);
        if values.last() == x {
            before.push(values.len() - 1)
        } else {
            before
        }
    }
}

/// How often `x` stands in `values`.
pub open spec fn occurrences(values: Seq<i64>, x: i64) -> nat {
    positions_of(values, x).len()
}

/// Whether every value of `subset` can be matched with a value of `values`
/// of its own.
pub open spec fn drawn_from(subset: Seq<i64>, values: Seq<i64>) -> bool {
    subset.to_multiset().subset_of(values.to_multiset())
}

/// The position in `values` of the entity that answers for `subset[p]`:
/// among the entities of that value, the last one that no earlier slot of
/// `subset` has taken.
pub open spec fn answering_position(values: Seq<i64>, subset: Seq<i64>, p: int) -> int {
    let same = positions_of(values, subset[p]);
    same[same.len() - 1 - occurrences(subset.take(p), subset[p])]
}

/// The entities that answer for the values of `subset`, slot by slot.
pub open spec fn answering<T>(elements: Seq<T>, values: Seq<i64>, subset: Seq<i64>) -> Seq<T> {
    Seq::new(subset.len(), |p: int| elements[answering_position(values, subset, p)])
}

/// Whether `values` holds, entity by entity, a value that `value_get` may
/// return for it.
pub open spec fn values_of<'a, T, F: Fn(&'a T) -> i64>(
    elements: Seq<&'a T>,
    value_get: F,
    values: Seq<i64>,
) -> bool {
    &&& values.len() == elements.len()
    &&& forall|i: int|
        0 <= i < elements.len() ==> call_ensures(value_get, (elements[i],), #[trigger] values[i])
}

/// Whether `list` holds exactly `positions`.
pub open spec fn holds_positions(list: Seq<usize>, positions: Seq<int>) -> bool {
    &&& list.len() == positions.len()
    &&& forall|q: int| 0 <= q < list.len() ==> list[q] as int == positions[q]
}

/// Whether `groups` files under each value the positions at which it stands
/// in `values`, less as many from the end as `taken` holds of that value.
pub open spec fn groups_hold(
    groups: Map<i64, Vec<usize>>,
    values: Seq<i64>,
    taken: Seq<i64>,
) -> bool {
    forall|x: i64|
        {
            let positions = positions_of(values, x);
            let left = positions.len() - occurrences(taken, x);
            &&& #[trigger] groups.contains_key(x) <==> positions.len() > 0
            &&& groups.contains_key(x) ==> left >= 0 && holds_positions(
                groups[x]@,
                positions.take(left),
            )
        }
}

/// Counting positions is counting in the multiset.
pub proof fn lemma_occurrences_count(values: Seq<i64>, x: i64)
    ensures
        occurrences(values, x) == values.to_multiset().count(x),
    decreases values.len(),
{
    broadcast use vstd::seq_lib::group_to_multiset_ensures;

    if values.len() == 0 {
        assert(values.to_multiset().len() == 0);
    } else {
        lemma_occurrences_count(values.drop_last(), x);
        assert(values =~= values.drop_last().push(values.last()));
    }
}

/// Each position of `x` lies within `values`, holds `x`, and the positions
/// ascend.
pub proof fn lemma_positions_valid(values: Seq<i64>, x: i64)
    ensures
        forall|q: int|
            0 <= q < occurrences(values, x) ==> 0 <= #[trigger] positions_of(values, x)[q]
                < values.len() && values[positions_of(values, x)[q]] == x,
        forall|q: int, r: int|
            0 <= q < r < occurrences(values, x) ==> positions_of(values, x)[q] < positions_of(
                values,
                x,
            )[r],
    decreases values.len(),
{
    if values.len() > 0 {
        let shorter = values.drop_last();
        let before = positions_of(shorter, x);
        let all = positions_of(values, x);
        lemma_positions_valid(shorter, x);
        assert forall|q: int| 0 <= q < all.len() implies 0 <= #[trigger] all[q] < values.len()
            && values[all[q]] == x by {
            if q < before.len() {
                assert(all[q] == before[q]);
                assert(shorter[before[q]] == x);
            }
        }
        assert forall|q: int, r: int| 0 <= q < r < all.len() implies all[q] < all[r] by {
            assert(all[q] == before[q]);
            assert(0 <= before[q] < shorter.len());
            if r < before.len() {
                assert(all[r] == before[r]);
            }
        }
    }
}

/// One more value in the prefix counts once if it is `x`, else not at all.
pub proof fn lemma_occurrences_step(values: Seq<i64>, p: int, x: i64)
    requires
        0 <= p < values.len(),
    ensures
        occurrences(values.take(p + 1), x) == occurrences(values.take(p), x) + if values[p] == x {
            1int
        } else {
            0int
        },
{
    assert(values.take(p + 1).drop_last() =~= values.take(p));
}

/// A prefix holds `x` no more often than the whole.
pub proof fn lemma_occurrences_prefix(values: Seq<i64>, p: int, x: i64)
    requires
        0 <= p <= values.len(),
    ensures
        occurrences(values.take(p), x) <= occurrences(values, x),
    decreases values.len() - p,
{
    if p == values.len() {
        assert(values.take(p) =~= values);
    } else {
        lemma_occurrences_step(values, p, x);
        lemma_occurrences_prefix(values, p + 1, x);
    }
}

/// For a subset drawn from the values, every slot has an entity to answer
/// for it.
pub proof fn lemma_slot_is_answered(values: Seq<i64>, subset: Seq<i64>, p: int)
    requires
        drawn_from(subset, values),
        0 <= p < subset.len(),
    ensures
        occurrences(subset.take(p), subset[p]) < occurrences(values, subset[p]),
        0 <= answering_position(values, subset, p) < values.len(),
        values[answering_position(values, subset, p)] == subset[p],
{
    let x = subset[p];
    lemma_occurrences_step(subset, p, x);
    lemma_occurrences_prefix(subset, p + 1, x);
    lemma_occurrences_count(subset, x);
    lemma_occurrences_count(values, x);
    lemma_positions_valid(values, x);
}

/// No entity answers for two slots: a subset of some count consumes as many
/// entities.
pub proof fn lemma_answers_are_distinct(values: Seq<i64>, subset: Seq<i64>, p: int, q: int)
    requires
        drawn_from(subset, values),
        0 <= p < q < subset.len(),
    ensures
        answering_position(values, subset, p) != answering_position(values, subset, q),
{
    lemma_slot_is_answered(values, subset, p);
    lemma_slot_is_answered(values, subset, q);
    if subset[p] == subset[q] {
        let x = subset[p];
        lemma_occurrences_less(subset, p, q, x);
        lemma_positions_valid(values, x);
        let same = positions_of(values, x);
        let ip = same.len() - 1 - occurrences(subset.take(p), x);
        let iq = same.len() - 1 - occurrences(subset.take(q), x);
        assert(iq < ip);
    }
}

/// A longer prefix that takes in a slot holding `x` holds `x` more often.
pub proof fn lemma_occurrences_less(values: Seq<i64>, p: int, q: int, x: i64)
    requires
        0 <= p < q <= values.len(),
        values[p] == x,
    ensures
        occurrences(values.take(p), x) < occurrences(values.take(q), x),
{
    lemma_occurrences_step(values, p, x);
    assert(values.take(q).take(p + 1) =~= values.take(p + 1));
    lemma_occurrences_prefix(values.take(q), p + 1, x);
}

/// A strategy that picks, from a collection of values, a subset whose total
/// approximates a target.
pub trait SubsetSolver {
    /// The subset that this strategy picks from `numbers` for `target_sum`.
    spec fn subset_of_choice(&self, numbers: Seq<i64>, target_sum: int) -> Seq<i64>;

    /// Whatever the strategy, every value it picks is drawn from `numbers`,
    /// each at most as often as it occurs there.
    proof fn lemma_choice_is_drawn(&self, numbers: Seq<i64>, target_sum: int)
        ensures
            drawn_from(self.subset_of_choice(numbers, target_sum), numbers),
    ;

    /// Picks the subset of `numbers` that approximates `target_sum`.
    fn solve(&self, numbers: &[i64], target_sum: i64) -> (subset: Vec<i64>)
        ensures
            subset@ == self.subset_of_choice(numbers@, target_sum as int),
    ;

    /// Picks among `elements`, valued by `value_get`, those that stand for
    /// the subset `solve` picks among their values. Entities of one value
    /// are told apart by grouping them under that value: each slot of the
    /// subset takes the last entity of its value that is still left, so no
    /// entity is returned twice.
    fn solve_vector<'a, T, F: Fn(&'a T) -> i64>(
        &self,
        elements: &[&'a T],
        target_sum: i64,
        value_get: F,
    ) -> (chosen: Vec<&'a T>)
        requires
            forall|i: int| 0 <= i < elements@.len() ==> call_requires(value_get, (elements@[i],)),
        ensures
            exists|values: Seq<i64>| #[trigger]
                values_of(elements@, value_get, values) && chosen@ == answering(
                    elements@,
                    values,
                    self.subset_of_choice(values, target_sum as int),
                ),
    {
        let n: usize = elements.len();
        let mut values: Vec<i64> = Vec::new();
        let mut groups: HashMap<i64, Vec<usize>> = HashMap::new();
        let mut i: usize = 0;
        assert(groups_hold(groups@, values@, Seq::empty()));
        while i < n
            invariant
                n == elements@.len(),
                i <= n,
                values@.len() == i,
                forall|k: int| 0 <= k < n ==> call_requires(value_get, (elements@[k],)),
                forall|k: int|
                    0 <= k < i ==> call_ensures(value_get, (elements@[k],), #[trigger] values@[k]),
                groups_hold(groups@, values@, Seq::empty()),
            decreases n - i,
        {
            let value: i64 = value_get(elements[i]);
            let ghost before = values@;
            let ghost groups_before = groups@;
            values.push(value);
            let mut list: Vec<usize> = match groups.remove(&value) {
                Some(list) => list,
                None => Vec::new(),
            };
            list.push(i);
            groups.insert(value, list);
            proof {
                assert(values@.drop_last() =~= before);
                assert forall|x: i64|
                    {
                        let positions = positions_of(values@, x);
                        let left = positions.len() - occurrences(Seq::<i64>::empty(), x);
                        &&& #[trigger] groups@.contains_key(x) <==> positions.len() > 0
                        &&& groups@.contains_key(x) ==> left >= 0 && holds_positions(
                            groups@[x]@,
                            positions.take(left),
                        )
                    } by {
                    assert(groups_before.contains_key(x) <==> positions_of(before, x).len() > 0);
                    let old_positions = positions_of(before, x);
                    let positions = positions_of(values@, x);
                    assert(old_positions.take(old_positions.len() as int) =~= old_positions);
                    assert(positions.take(positions.len() as int) =~= positions);
                }
            }
            i = i + 1;
        }
        let subset: Vec<i64> = self.solve(values.as_slice(), target_sum);
        proof {
            self.lemma_choice_is_drawn(values@, target_sum as int);
        }
        let mut chosen: Vec<&'a T> = Vec::new();
        let m: usize = subset.len();
        let mut p: usize = 0;
        assert(subset@.take(0) =~= Seq::<i64>::empty());
        while p < m
            invariant
                n == elements@.len(),
                values@.len() == n,
                m == subset@.len(),
                p <= m,
                drawn_from(subset@, values@),
                groups_hold(groups@, values@, subset@.take(p as int)),
                chosen@.len() == p,
                forall|q: int|
                    0 <= q < p ==> #[trigger] chosen@[q] == elements@[answering_position(
                        values@,
                        subset@,
                        q,
                    )],
            decreases m - p,
        {
            let value: i64 = subset[p];
            let ghost groups_before = groups@;
            let ghost same = positions_of(values@, value);
            let ghost left = same.len() - occurrences(subset@.take(p as int), value);
            proof {
                lemma_slot_is_answered(values@, subset@, p as int);
                assert(groups_before.contains_key(value));
                lemma_positions_valid(values@, value);
            }
            let found = groups.remove(&value);
            let mut list: Vec<usize> = found.unwrap();
            let ghost list_before = list@;
            assert(holds_positions(list_before, same.take(left)));
            let position: usize = list.pop().unwrap();
            assert(position as int == same[left - 1]);
            chosen.push(elements[position]);
            groups.insert(value, list);
            proof {
                assert forall|x: i64|
                    {
                        let positions = positions_of(values@, x);
                        let left = positions.len() - occurrences(subset@.take(p as int + 1), x);
                        &&& #[trigger] groups@.contains_key(x) <==> positions.len() > 0
                        &&& groups@.contains_key(x) ==> left >= 0 && holds_positions(
                            groups@[x]@,
                            positions.take(left),
                        )
                    } by {
                    lemma_occurrences_step(subset@, p as int, x);
                    assert(groups_before.contains_key(x) <==> positions_of(values@, x).len() > 0);
                    if x == value {
                        assert(same.take(left - 1) =~= same.take(left).drop_last());
                    }
                }
            }
            p = p + 1;
        }
        proof {
            assert(values_of(elements@, value_get, values@));
            assert(chosen@ =~= answering(
                elements@,
                values@,
                self.subset_of_choice(values@, target_sum as int),
            ));
        }
        chosen
    }
}

} // verus!
