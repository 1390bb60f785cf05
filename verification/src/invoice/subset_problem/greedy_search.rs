//! The contiguous-window sweep over the sorted values.

use vstd::prelude::*;
use vstd::relations::{sorted_by, total_ordering};
use vstd::seq_lib::lemma_sorted_unique;
use crate::invoice::subset_problem::{drawn_from, SubsetSolver};

verus! {

/// The order in which the sweep arranges the values.
pub open spec fn ascending_order() -> spec_fn(i64, i64) -> bool {
    |a: i64, b: i64| a <= b
}

/// `numbers` in ascending order.
pub open spec fn ascending(numbers: Seq<i64>) -> Seq<i64> {
    numbers.sort_by(ascending_order())
}

/// The total of `s[from..to]`.
pub open spec fn window_sum(s: Seq<i64>, from: int, to: int) -> int
    decreases to - from,
{
    if to <= from {
        0
    } else {
        window_sum(s, from, to - 1) + s[to - 1]
    }
}

/// How far `sum` lies from `target`.
pub open spec fn deviation(sum: int, target: int) -> int {
    if sum >= target {
        sum - target
    } else {
        target - sum
    }
}

/// Whether the sweep looks at the window `s[from..to]`: it is not empty, and
/// no shorter window with the same start has reached the target.
pub open spec fn tried(s: Seq<i64>, target: int, from: int, to: int) -> bool {
    &&& 0 <= from < to <= s.len()
    &&& forall|k: int| from < k < to ==> window_sum(s, from, k) < target
}

/// Whether the sweep looks at `s[from1..to1]` before `s[from2..to2]`.
pub open spec fn earlier(from1: int, to1: int, from2: int, to2: int) -> bool {
    from1 < from2 || (from1 == from2 && to1 < to2)
}

/// Whether `s[from..to]` is the window the sweep settles on: the first one,
/// in the order of the sweep, whose total lies nearest to the target.
pub open spec fn is_closest_window(s: Seq<i64>, target: int, from: int, to: int) -> bool {
    &&& tried(s, target, from, to)
    &&& forall|i: int, j: int| #[trigger]
        tried(s, target, i, j) ==> deviation(window_sum(s, from, to), target) <= deviation(
            window_sum(s, i, j),
            target,
        )
    &&& forall|i: int, j: int| #[trigger]
        tried(s, target, i, j) && earlier(i, j, from, to) ==> deviation(
            window_sum(s, from, to),
            target,
        ) < deviation(window_sum(s, i, j), target)
}

/// The bounds of the window the sweep settles on.
pub open spec fn closest_window(s: Seq<i64>, target: int) -> (int, int) {
    choose|w: (int, int)| is_closest_window(s, target, w.0, w.1)
}

/// What the sweep returns for `numbers` and `target`: nothing for an empty
/// collection, else the values of the chosen window, in ascending order.
pub open spec fn greedy_subset(numbers: Seq<i64>, target: int) -> Seq<i64> {
    if numbers.len() == 0 {
        Seq::empty()
    } else {
        let s = ascending(numbers);
        let w = closest_window(s, target);
        s.subrange(w.0, w.1)
    }
}

/// At most one window is the closest.
pub proof fn lemma_closest_window_unique(
    s: Seq<i64>,
    target: int,
    from1: int,
    to1: int,
    from2: int,
    to2: int,
)
    requires
        is_closest_window(s, target, from1, to1),
        is_closest_window(s, target, from2, to2),
    ensures
        from1 == from2,
        to1 == to2,
{
    if earlier(from1, to1, from2, to2) {
        assert(tried(s, target, from1, to1));
    } else if earlier(from2, to2, from1, to1) {
        assert(tried(s, target, from2, to2));
    }
}

/// `<=` on `i64` is a total order.
pub proof fn lemma_ascending_order_total()
    ensures
        total_ordering(ascending_order()),
{
}

/// A sequence in ascending order that holds the values of `numbers` is
/// `ascending(numbers)`.
pub proof fn lemma_ascending_unique(numbers: Seq<i64>, s: Seq<i64>)
    requires
        sorted_by(s, ascending_order()),
        s.to_multiset() == numbers.to_multiset(),
    ensures
        s == ascending(numbers),
{
    lemma_ascending_order_total();
    numbers.lemma_sort_by_ensures(ascending_order());
    lemma_sorted_unique(s, ascending(numbers), ascending_order());
}

/// The total of a window lies between as many times the least and as many
/// times the greatest `i64` as the window has values.
pub proof fn lemma_window_sum_bounds(s: Seq<i64>, from: int, to: int)
    requires
        0 <= from <= to <= s.len(),
    ensures
        (to - from) * i64::MIN <= window_sum(s, from, to) <= (to - from) * i64::MAX,
    decreases to - from,
{
    if from < to {
        lemma_window_sum_bounds(s, from, to - 1);
    }
}

/// The values of a window occur in the whole sequence.
pub proof fn lemma_window_is_drawn(s: Seq<i64>, from: int, to: int)
    requires
        0 <= from <= to <= s.len(),
    ensures
        s.subrange(from, to).to_multiset().subset_of(s.to_multiset()),
{
    let head = s.subrange(0, from);
    let window = s.subrange(from, to);
    let rest = s.subrange(to, s.len() as int);
    assert(s =~= (head + window) + rest);
    vstd::seq_lib::lemma_multiset_commutative(head, window);
    vstd::seq_lib::lemma_multiset_commutative(head + window, rest);
}

/// Where the collection is not empty, the sweep settles on a window.
pub proof fn lemma_closest_window_exists(s: Seq<i64>, target: int)
    requires
        s.len() > 0,
    ensures
        is_closest_window(s, target, closest_window(s, target).0, closest_window(s, target).1),
{
    let w = lemma_closest_among(s, target, s.len() - 1, s.len() as int);
    assert(is_closest_window(s, target, w.0, w.1));
}

/// Among the windows that the sweep has looked at when it is done with
/// `s[from..to]`, one is the first of the closest.
pub proof fn lemma_closest_among(s: Seq<i64>, target: int, from: int, to: int) -> (w: (int, int))
    requires
        0 <= from < to <= s.len(),
    ensures
        tried(s, target, w.0, w.1),
        !earlier(from, to, w.0, w.1),
        forall|i: int, j: int| #[trigger]
            tried(s, target, i, j) && !earlier(from, to, i, j) ==> deviation(
                window_sum(s, w.0, w.1),
                target,
            ) <= deviation(window_sum(s, i, j), target),
        forall|i: int, j: int| #[trigger]
            tried(s, target, i, j) && earlier(i, j, w.0, w.1) ==> deviation(
                window_sum(s, w.0, w.1),
                target,
            ) < deviation(window_sum(s, i, j), target),
    decreases from, to,
{
    if from == 0 && to == 1 {
        assert(tried(s, target, 0, 1));
        (0, 1)
    } else {
        let before = if to > from + 1 {
            lemma_closest_among(s, target, from, to - 1)
        } else {
            lemma_closest_among(s, target, from - 1, s.len() as int)
        };
        if tried(s, target, from, to) && deviation(window_sum(s, from, to), target) < deviation(
            window_sum(s, before.0, before.1),
            target,
        ) {
            (from, to)
        } else {
            before
        }
    }
}

/// The sweep returns nothing for an empty collection, and for no other.
pub proof fn lemma_empty_only_for_empty(numbers: Seq<i64>, target: int)
    ensures
        greedy_subset(numbers, target).len() == 0 <==> numbers.len() == 0,
{
    if numbers.len() > 0 {
        let s = ascending(numbers);
        lemma_ascending_order_total();
        numbers.lemma_sort_by_ensures(ascending_order());
        vstd::seq_lib::to_multiset_len(s);
        vstd::seq_lib::to_multiset_len(numbers);
        lemma_closest_window_exists(s, target);
    }
}

/// The values that the sweep returns are drawn from the collection.
pub proof fn lemma_greedy_subset_is_drawn(numbers: Seq<i64>, target: int)
    ensures
        drawn_from(greedy_subset(numbers, target), numbers),
{
    broadcast use vstd::seq_lib::group_to_multiset_ensures;

    if numbers.len() > 0 {
        let s = ascending(numbers);
        lemma_ascending_order_total();
        numbers.lemma_sort_by_ensures(ascending_order());
        assert(s.to_multiset().len() == numbers.to_multiset().len());
        lemma_closest_window_exists(s, target);
        let w = closest_window(s, target);
        lemma_window_is_drawn(s, w.0, w.1);
    } else {
        assert(greedy_subset(numbers, target).to_multiset().len() == 0);
    }
}

/// Sorts the values in place with `slice::sort` of the standard library,
/// which leaves them in ascending order and neither adds nor drops a value.
#[verifier::external_body]
fn sort_ascending(values: &mut Vec<i64>)
    ensures
        sorted_by(final(values)@, ascending_order()),
        final(values)@.to_multiset() == old(values)@.to_multiset(),
{
    values.sort();
}

/// The sweep over contiguous windows of the sorted values.
pub struct GreedySearchSolver;

impl GreedySearchSolver {
    /// Finds the bounds of the closest window of `sorted`, which is not
    /// empty.
    fn sweep(sorted: &Vec<i64>, target: i64) -> (window: (usize, usize))
        requires
            sorted@.len() > 0,
        ensures
            is_closest_window(sorted@, target as int, window.0 as int, window.1 as int),
    {
        let n: usize = sorted.len();
        let ghost s = sorted@;
        let ghost t = target as int;
        let mut best_from: usize = 0;
        let mut best_to: usize = 1;
        let mut best_deviation: i128 = 0;
        let mut found: bool = false;
        let mut i: usize = 0;
        while i < n
            invariant
                s == sorted@,
                t == target as int,
                n == s.len(),
                n > 0,
                i <= n,
                found <==> i > 0,
                found ==> tried(s, t, best_from as int, best_to as int),
                found ==> best_from < i,
                found ==> best_deviation == deviation(
                    window_sum(s, best_from as int, best_to as int),
                    t,
                ),
                forall|a: int, b: int| #[trigger]
                    tried(s, t, a, b) && a < i ==> best_deviation <= deviation(
                        window_sum(s, a, b),
                        t,
                    ),
                forall|a: int, b: int| #[trigger]
                    tried(s, t, a, b) && earlier(a, b, best_from as int, best_to as int)
                        && found ==> best_deviation < deviation(window_sum(s, a, b), t),
            decreases n - i,
        {
            let mut sum: i128 = 0;
            let mut j: usize = i;
            let mut reached: bool = false;
            while j < n && !reached
                invariant
                    s == sorted@,
                    t == target as int,
                    n == s.len(),
                    i < n,
                    i <= j <= n,
                    sum == window_sum(s, i as int, j as int),
                    found <==> (i > 0 || j > i),
                    forall|k: int| i < k < j ==> window_sum(s, i as int, k) < t,
                    !reached && j > i ==> sum < t,
                    reached ==> j > i && sum >= t,
                    found ==> tried(s, t, best_from as int, best_to as int),
                    found ==> earlier(best_from as int, best_to as int, i as int, j as int + 1),
                    found ==> best_deviation == deviation(
                        window_sum(s, best_from as int, best_to as int),
                        t,
                    ),
                    forall|a: int, b: int| #[trigger]
                        tried(s, t, a, b) && (a < i || (a == i && b <= j))
                            ==> best_deviation <= deviation(window_sum(s, a, b), t),
                    forall|a: int, b: int| #[trigger]
                        tried(s, t, a, b) && earlier(a, b, best_from as int, best_to as int)
                            && found ==> best_deviation < deviation(window_sum(s, a, b), t),
                decreases n - j, if reached { 0int } else { 1int },
            {
                proof {
                    lemma_window_sum_bounds(s, i as int, j as int);
                    lemma_window_sum_bounds(s, i as int, j as int + 1);
                }
                sum = sum + sorted[j] as i128;
                j = j + 1;
                let current: i128 = if sum >= target as i128 {
                    sum - target as i128
                } else {
                    target as i128 - sum
                };
                assert(tried(s, t, i as int, j as int));
                if !found || current < best_deviation {
                    best_from = i;
                    best_to = j;
                    best_deviation = current;
                    found = true;
                }
                if sum >= target as i128 {
                    reached = true;
                }
            }
            proof {
                assert forall|a: int, b: int| #[trigger]
                    tried(s, t, a, b) && a < i + 1 implies best_deviation <= deviation(
                    window_sum(s, a, b),
                    t,
                ) by {
                    if a == i && b > j {
                        assert(window_sum(s, i as int, j as int) < t);
                    }
                }
            }
            i = i + 1;
        }
        (best_from, best_to)
    }
}

impl SubsetSolver for GreedySearchSolver {
    open spec fn subset_of_choice(&self, numbers: Seq<i64>, target_sum: int) -> Seq<i64> {
        greedy_subset(numbers, target_sum)
    }

    proof fn lemma_choice_is_drawn(&self, numbers: Seq<i64>, target_sum: int) {
        lemma_greedy_subset_is_drawn(numbers, target_sum);
    }

    /// Sorts the values, sweeps every window that starts at some value and
    /// grows until its total reaches the target, and returns the values of
    /// the window whose total lies nearest to the target; of several equally
    /// near, the one looked at first.
    fn solve(&self, numbers: &[i64], target_sum: i64) -> (subset: Vec<i64>)
        ensures
            subset@ == greedy_subset(numbers@, target_sum as int),
    {
        let mut sorted: Vec<i64> = vstd::slice::slice_to_vec(numbers);
        sort_ascending(&mut sorted);
        proof {
            lemma_ascending_unique(numbers@, sorted@);
            vstd::seq_lib::to_multiset_len(sorted@);
            vstd::seq_lib::to_multiset_len(numbers@);
        }
        let mut subset: Vec<i64> = Vec::new();
        if sorted.len() == 0 {
            return subset;
        }
        let window = GreedySearchSolver::sweep(&sorted, target_sum);
        proof {
            let chosen = closest_window(sorted@, target_sum as int);
            let found = (window.0 as int, window.1 as int);
            assert(is_closest_window(sorted@, target_sum as int, found.0, found.1));
            lemma_closest_window_unique(
                sorted@,
                target_sum as int,
                chosen.0,
                chosen.1,
                found.0,
                found.1,
            );
        }
        let mut k: usize = window.0;
        while k < window.1
            invariant
                window.0 <= k <= window.1 <= sorted@.len(),
                subset@ == sorted@.subrange(window.0 as int, k as int),
            decreases window.1 - k,
        {
            subset.push(sorted[k]);
            k = k + 1;
        }
        subset
    }
}

} // verus!
