use hgrep::orchestrator::{exit_status, expand_multiline, fold_found, MatchBudget, RunState};
use hgrep::printer::Error;

#[test]
fn shared_budget_caps_matches_across_files() {
    // Two files with three matches each share one budget of two: exactly two
    // matches are accepted in total, whichever file's worker runs first.
    for first_file_first in [true, false] {
        let mut budget = MatchBudget::new(Some(2));
        let file_a = [1u64, 2, 3];
        let file_b = [10u64, 20, 30];
        let (first, second) = if first_file_first {
            (file_a, file_b)
        } else {
            (file_b, file_a)
        };
        let mut accepted = 0usize;
        for _ in first.iter().chain(second.iter()) {
            if budget.accept() {
                accepted += 1;
            }
        }
        assert_eq!(accepted, 2);
        assert!(budget.exhausted());
    }
}

#[test]
fn interleaved_offers_accept_the_same_total() {
    // The same six offers in any interleaving accept the same two.
    let mut budget = MatchBudget::new(Some(2));
    let mut accepted = 0usize;
    for _ in 0..6 {
        // alternate files a and b
        if budget.accept() {
            accepted += 1;
        }
    }
    assert_eq!(accepted, 2);
}

#[test]
fn unlimited_budget_accepts_everything() {
    let mut budget = MatchBudget::new(None);
    for _ in 0..100 {
        assert!(budget.accept());
    }
    assert!(!budget.exhausted());
}

#[test]
fn exhausted_budget_stops_a_search_before_it_starts() {
    let mut budget = MatchBudget::new(Some(0));
    assert!(budget.exhausted());
    assert!(!budget.accept());
}

#[test]
fn found_flags_fold_by_disjunction() {
    assert!(!fold_found(&vec![]));
    assert!(!fold_found(&vec![false, false, false]));
    assert!(fold_found(&vec![false, true, false]));
    // the fold does not depend on completion order
    assert_eq!(
        fold_found(&vec![true, false, false]),
        fold_found(&vec![false, false, true])
    );
}

#[test]
fn run_state_keeps_the_first_error() {
    let mut run = RunState::new();
    run.on_unit_result(Ok(false));
    assert!(run.should_continue());
    run.on_unit_result(Ok(true));
    run.on_unit_result(Err(Error::Io));
    assert!(!run.should_continue());
    run.on_unit_result(Err(Error::BadPattern));
    // a unit already in flight still folds its result in
    run.on_unit_result(Ok(true));
    assert_eq!(run.into_result(), Err(Error::Io));
}

#[test]
fn run_without_error_reports_whether_anything_matched() {
    let mut run = RunState::new();
    run.on_unit_result(Ok(false));
    run.on_unit_result(Ok(true));
    assert_eq!(run.into_result(), Ok(true));

    let mut run = RunState::new();
    run.on_unit_result(Ok(false));
    assert_eq!(run.into_result(), Ok(false));
}

#[test]
fn exit_status_distinguishes_no_results_from_failure() {
    assert_eq!(exit_status(&Ok(true)), 0);
    assert_eq!(exit_status(&Ok(false)), 1);
    assert_eq!(exit_status(&Err(Error::Io)), 2);
}

#[test]
fn multiline_matches_expand_to_one_event_per_line() {
    assert_eq!(expand_multiline(10, 3), vec![10, 11, 12]);
    assert_eq!(expand_multiline(7, 1), vec![7]);
}
