use rlr::judge::Verdict;
use rlr::report::{is_accepted, wrong_answer_lines, JudgeResult, Outcome, Reporter, RunSummary};

fn run(cases: &[(&str, Verdict, u64)]) -> RunSummary {
    let mut reporter = Reporter::new();
    for (name, verdict, elapsed) in cases {
        reporter.record(JudgeResult::new(name.to_string(), is_accepted(*verdict), *elapsed));
    }
    reporter.summarize()
}

#[test]
fn all_accepted_is_full_success() {
    let s = run(&[("a", Verdict::AC, 5), ("b", Verdict::AC, 9), ("c", Verdict::AC, 1)]);
    assert_eq!(s.outcome, Outcome::AllPassed);
    assert_eq!((s.success_count, s.total_cases), (3, 3));
    assert_eq!(s.slowest_case_name, "b");
    assert_eq!(s.slowest_elapsed, 9);
}

#[test]
fn mixed_is_partial_success() {
    let s = run(&[("a", Verdict::AC, 5), ("b", Verdict::WA, 2), ("c", Verdict::RE, 7)]);
    assert_eq!(s.outcome, Outcome::SomePassed);
    assert_eq!((s.success_count, s.total_cases), (1, 3));
    assert_eq!(s.slowest_case_name, "c");
}

#[test]
fn none_accepted_is_full_failure() {
    let s = run(&[("a", Verdict::WA, 5), ("b", Verdict::TLE, 3_000_000_000)]);
    assert_eq!(s.outcome, Outcome::NonePassed);
    assert_eq!((s.success_count, s.total_cases), (0, 2));
    assert_eq!(s.slowest_case_name, "b");
}

#[test]
fn ties_keep_the_first_case() {
    let s = run(&[("a", Verdict::AC, 4), ("b", Verdict::AC, 8), ("c", Verdict::AC, 8)]);
    assert_eq!(s.slowest_case_name, "b");
    assert_eq!(s.slowest_elapsed, 8);
}

#[test]
fn no_cases_and_no_time() {
    let s = run(&[]);
    assert_eq!(s.outcome, Outcome::AllPassed);
    assert_eq!((s.success_count, s.total_cases), (0, 0));
    let s = run(&[("a", Verdict::WA, 0)]);
    assert_eq!(s.slowest_case_name, "");
    assert_eq!(s.slowest_elapsed, 0);
}

#[test]
fn rerun_gives_same_totals() {
    let first = run(&[("a", Verdict::AC, 10), ("b", Verdict::WA, 3)]);
    let second = run(&[("a", Verdict::AC, 2), ("b", Verdict::WA, 30)]);
    assert_eq!(first.success_count, second.success_count);
    assert_eq!(first.total_cases, second.total_cases);
    assert_eq!(first.outcome, second.outcome);
}

#[test]
fn wrong_answer_shows_input_actual_expected() {
    let lines = wrong_answer_lines("3,2", "2", "1");
    assert_eq!(
        lines,
        vec!["input:\n3,2".to_string(), "output:\n2".to_string(), String::new(), "expected:\n1".to_string()]
    );
}
