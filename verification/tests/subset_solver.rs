use invoice_scanner::invoice::subset_problem::greedy_search::GreedySearchSolver;
use invoice_scanner::invoice::subset_problem::SubsetSolver;

#[test]
fn closest_window_is_the_exact_sum() {
    let solver = GreedySearchSolver;
    assert_eq!(solver.solve(&[5, 10, 12], 15), vec![5, 10]);
}

#[test]
fn values_are_sorted_before_the_sweep() {
    let solver = GreedySearchSolver;
    assert_eq!(solver.solve(&[12, 5, 10], 15), vec![5, 10]);
}

#[test]
fn empty_collection_gives_empty_subset() {
    let solver = GreedySearchSolver;
    assert_eq!(solver.solve(&[], 15), Vec::<i64>::new());
    assert_eq!(solver.solve(&[], 0), Vec::<i64>::new());
    assert_eq!(solver.solve(&[], -7), Vec::<i64>::new());
}

#[test]
fn first_of_equally_close_windows_is_kept() {
    let solver = GreedySearchSolver;
    // [4] and [6] are both 1 away from 5; [4] is looked at first.
    assert_eq!(solver.solve(&[6, 4], 5), vec![4]);
}

#[test]
fn equal_values_give_distinct_entities() {
    let solver = GreedySearchSolver;
    let items: Vec<(&str, i64)> = vec![("a", 5), ("b", 5), ("c", 5), ("d", 5)];
    let refs: Vec<&(&str, i64)> = items.iter().collect();
    let chosen = solver.solve_vector(&refs, 15, |item: &(&str, i64)| item.1);
    let names: Vec<&str> = chosen.iter().map(|item| item.0).collect();
    assert_eq!(names, vec!["d", "c", "b"]);
}

#[test]
fn extreme_values_do_not_overflow() {
    let solver = GreedySearchSolver;
    assert_eq!(solver.solve(&[i64::MAX, i64::MAX], i64::MAX), vec![i64::MAX]);
    assert_eq!(solver.solve(&[i64::MIN, i64::MIN], i64::MAX), vec![i64::MIN]);
    assert_eq!(solver.solve(&[i64::MAX, i64::MAX], i64::MIN), vec![i64::MAX]);
}
