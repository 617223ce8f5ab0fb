use judge::batch::{Batch, RunReport};
use judge::question::Question;
use judge::results::{FailureReason, TestResult, TestResults};
use judge::text::normalize;

fn question(limit_ns: u64) -> Question {
    Question {
        title: String::from("sum"),
        time_limit_ns: limit_ns,
        solver: String::from("solver.py"),
        input_folders: vec![String::from("tests")],
        output_folders: vec![String::from("expected")],
        root: Some(String::from("/jobs/sum")),
        input_format: String::from("txt"),
        output_format: String::from("txt"),
    }
}

fn run(ok: bool, elapsed_ns: u64, stdout: &str) -> RunReport {
    RunReport { exit_success: ok, elapsed_ns, stdout: String::from(stdout) }
}

const FIVE_SECONDS: u64 = 5_000_000_000;

/// Builds the fixture set of a job whose input `tests/a.txt` holds "1 2" and whose
/// expected output `expected/a.txt` holds "3".
fn sum_batch() -> Batch {
    let mut batch = Batch::new();
    let input_key = Batch::fixture_key("tests", "a.txt", "txt").unwrap();
    batch.add_input(input_key, "1 2");
    let output_key = Batch::fixture_key("expected", "a.txt", "txt").unwrap();
    // Inputs and outputs pair by key, so the expected output is filed under the
    // input folder's name.
    assert_eq!(output_key, "expected-a");
    batch.add_output(String::from("tests-a"), "3");
    batch
}

#[test]
fn scenario_correct_sum_passes() {
    let batch = sum_batch();
    let runs = vec![Some(run(true, 1_000_000, "3\n"))];
    let summary = batch.process(&question(FIVE_SECONDS), &runs);
    assert_eq!(summary.successful, 1);
    assert_eq!(summary.failed, 0);
    assert!(summary.failure_reasons.is_empty());
}

#[test]
fn scenario_wrong_sum_fails() {
    let batch = sum_batch();
    let runs = vec![Some(run(true, 1_000_000, "4\n"))];
    let summary = batch.process(&question(FIVE_SECONDS), &runs);
    assert_eq!(summary.successful, 0);
    assert_eq!(summary.failed, 1);
    assert_eq!(summary.failure_reasons, vec![(FailureReason::WrongOutput, 1)]);
    assert_eq!(summary.count_of(FailureReason::WrongOutput), 1);
}

#[test]
fn scenario_missing_output() {
    let mut batch = Batch::new();
    batch.add_input(Batch::fixture_key("tests", "b.txt", "txt").unwrap(), "5 6");
    let key = String::from("tests-b");
    assert!(!batch.has_output(&key));
    let runs = vec![None];
    let summary = batch.process(&question(FIVE_SECONDS), &runs);
    assert_eq!(summary.successful, 0);
    assert_eq!(summary.failed, 1);
    assert_eq!(summary.failure_reasons, vec![(FailureReason::MissingOutput, 1)]);
}

#[test]
fn scenario_non_ascii_input_is_transliterated() {
    let mut batch = Batch::new();
    batch.add_input(String::from("tests-c"), "café");
    assert_eq!(batch.inputs, vec![(String::from("tests-c"), String::from("cafe"))]);
    batch.add_output(String::from("tests-c"), "café");
    let runs = vec![Some(run(true, 10, "café\r\n"))];
    let summary = batch.process(&question(FIVE_SECONDS), &runs);
    assert_eq!(summary.successful, 1);
}

#[test]
fn missing_output_ignores_the_run() {
    let batch = Batch::new();
    let key = String::from("tests-x");
    let good = Some(run(true, 0, "anything"));
    let crashed = Some(run(false, 0, ""));
    assert_eq!(batch.judge(&key, &good, 10), TestResult::Failure(FailureReason::MissingOutput));
    assert_eq!(batch.judge(&key, &crashed, 10), TestResult::Failure(FailureReason::MissingOutput));
    assert_eq!(batch.judge(&key, &None, 10), TestResult::Failure(FailureReason::MissingOutput));
}

#[test]
fn nonzero_exit_is_runtime_error_even_with_right_output() {
    let batch = sum_batch();
    let key = String::from("tests-a");
    let report = Some(run(false, 1, "3"));
    assert_eq!(batch.judge(&key, &report, 10), TestResult::Failure(FailureReason::RuntimeError));
    let slow = Some(run(false, 100, "3"));
    assert_eq!(batch.judge(&key, &slow, 10), TestResult::Failure(FailureReason::RuntimeError));
}

#[test]
fn slow_right_answer_is_timeout() {
    let batch = sum_batch();
    let key = String::from("tests-a");
    let report = Some(run(true, 11, "3"));
    assert_eq!(batch.judge(&key, &report, 10), TestResult::Failure(FailureReason::Timeout));
    let on_time = Some(run(true, 10, "3"));
    assert_eq!(batch.judge(&key, &on_time, 10), TestResult::Success);
}

#[test]
fn summary_counts_every_input_once() {
    let mut batch = Batch::new();
    batch.add_input(String::from("k-1"), "1");
    batch.add_input(String::from("k-2"), "2");
    batch.add_input(String::from("k-3"), "3");
    batch.add_input(String::from("k-4"), "4");
    batch.add_input(String::from("k-1"), "one again");
    batch.add_output(String::from("k-1"), "one");
    batch.add_output(String::from("k-2"), "two");
    batch.add_output(String::from("k-3"), "three");
    assert_eq!(batch.inputs.len(), 4);
    let runs = vec![
        Some(run(true, 1, "  one  ")),
        Some(run(true, 50, "two")),
        Some(run(false, 1, "three")),
        None,
    ];
    let summary = batch.process(&question(10), &runs);
    assert_eq!(summary.successful + summary.failed, 4);
    assert_eq!(summary.successful, 1);
    assert_eq!(summary.failed, 3);
    assert_eq!(
        summary.failure_reasons,
        vec![
            (FailureReason::MissingOutput, 1),
            (FailureReason::RuntimeError, 1),
            (FailureReason::Timeout, 1),
        ]
    );
    let total: u32 = summary.failure_reasons.iter().map(|e| e.1).sum();
    assert_eq!(total, summary.failed);
}

#[test]
fn later_file_with_same_key_wins() {
    let mut batch = Batch::new();
    batch.add_output(String::from("tests-a"), "first");
    batch.add_output(String::from("tests-a"), "second");
    assert_eq!(batch.outputs, vec![(String::from("tests-a"), String::from("second"))]);
}

#[test]
fn results_summary_of_mixed_outcomes() {
    let results = vec![
        TestResult::Success,
        TestResult::Failure(FailureReason::WrongOutput),
        TestResult::Failure(FailureReason::WrongOutput),
        TestResult::Success,
        TestResult::Failure(FailureReason::MissingOutput),
    ];
    let summary = TestResults::new(results);
    assert_eq!(summary.successful, 2);
    assert_eq!(summary.failed, 3);
    assert_eq!(
        summary.failure_reasons,
        vec![(FailureReason::MissingOutput, 1), (FailureReason::WrongOutput, 2)]
    );
    assert_eq!(summary.count_of(FailureReason::WrongOutput), 2);
    assert_eq!(summary.count_of(FailureReason::Timeout), 0);
}

#[test]
fn results_summary_of_nothing() {
    let summary = TestResults::new(Vec::new());
    assert_eq!(summary.successful, 0);
    assert_eq!(summary.failed, 0);
    assert!(summary.failure_reasons.is_empty());
}

#[test]
fn outcome_predicates() {
    assert!(TestResult::Success.is_success());
    assert!(!TestResult::Success.is_failure());
    assert!(TestResult::Failure(FailureReason::Timeout).is_failure());
    assert!(!TestResult::Failure(FailureReason::Timeout).is_success());
}

#[test]
fn key_is_folder_dash_stem() {
    assert_eq!(Batch::fixture_key("tests", "case1.txt", "txt"), Some(String::from("tests-case1")));
    assert_eq!(Batch::fixture_key("in", "a.b.txt", "txt"), Some(String::from("in-a.b")));
    assert_eq!(Batch::fixture_key("in", "a.out", "txt"), None);
    assert_eq!(Batch::fixture_key("in", "txt", "txt"), None);
    assert_eq!(Batch::fixture_key("in", ".txt", "txt"), None);
    assert_eq!(Batch::fixture_key("in", "a.txt.bak", "txt"), None);
    assert_eq!(Batch::fixture_key("in", "a.", ""), Some(String::from("in-a")));
    assert_eq!(Batch::fixture_key("in", "..", ""), None);
}

#[test]
fn normalization_steps() {
    assert_eq!(normalize("café"), "cafe");
    assert_eq!(normalize("Æneid"), "AEneid");
    assert_eq!(normalize("  a\r\nb \n"), "a\nb");
    assert_eq!(normalize("\t\r\n"), "");
    assert_eq!(normalize(""), "");
    assert_eq!(normalize("a\u{3000}"), "a");
}

#[test]
fn normalization_is_idempotent() {
    for text in ["café\r\n", "  x\r\ny  ", "北亰", "plain", "a\r\r\nb"] {
        let once = normalize(text);
        if !once.contains("\r\n") {
            assert_eq!(normalize(&once), once);
        }
    }
    assert_eq!(normalize("a\r\r\nb"), "a\r\nb");
}
