use vstd::prelude::*;

verus! {

/// Why a single fixture did not pass.
#[derive(Debug, Clone, Copy, PartialEq, Eq, Hash, Structural)]
pub enum FailureReason {
    MissingOutput,
    RuntimeError,
    Timeout,
    WrongOutput,
}

/// The outcome of running the solver on one input.
#[derive(Debug, Clone, Copy, PartialEq, Eq, Structural)]
pub enum TestResult {
    Success,
    Failure(FailureReason),
}

impl TestResult {
    pub fn is_success(&self) -> (r: bool)
        ensures
            r == (*self is Success),
    {
        match self {
            TestResult::Success => true,
            _ => false,
        }
    }

    pub fn is_failure(&self) -> (r: bool)
        ensures
            r == (*self is Failure),
    {
        match self {
            TestResult::Failure(_) => true,
            _ => false,
        }
    }
}

/// Number of successful outcomes in `s`.
pub open spec fn count_successes(s: Seq<TestResult>) -> nat
    decreases s.len(),
{
    if s.len() == 0 {
        0
    } else {
        count_successes(s.drop_last()) + if s.last() is Success {
            1nat
        } else {
            0nat
        }
    }
}

/// Number of failed outcomes in `s`.
pub open spec fn count_failures(s: Seq<TestResult>) -> nat
    decreases s.len(),
{
    if s.len() == 0 {
        0
    } else {
        count_failures(s.drop_last()) + if s.last() is Failure {
            1nat
        } else {
            0nat
        }
    }
}

/// Number of outcomes in `s` that failed for `reason`.
pub open spec fn count_reason(s: Seq<TestResult>, reason: FailureReason) -> nat
    decreases s.len(),
{
    if s.len() == 0 {
        0
    } else {
        count_reason(s.drop_last(), reason) + if s.last() == TestResult::Failure(reason) {
            1nat
        } else {
            0nat
        }
    }
}

/// The breakdown entry for `reason`: present only when the reason occurs.
pub open spec fn reason_entry(s: Seq<TestResult>, reason: FailureReason) -> Seq<(FailureReason, u32)> {
    if count_reason(s, reason) > 0 {
        seq![(reason, count_reason(s, reason) as u32)]
    } else {
        seq![]
    }
}

/// The failure breakdown of `s`, listed in the order in which the reasons are declared.
pub open spec fn reason_entries(s: Seq<TestResult>) -> Seq<(FailureReason, u32)> {
    reason_entry(s, FailureReason::MissingOutput) + reason_entry(s, FailureReason::RuntimeError)
        + reason_entry(s, FailureReason::Timeout) + reason_entry(s, FailureReason::WrongOutput)
}

/// Sum of the counts of a breakdown.
pub open spec fn reasons_total(v: Seq<(FailureReason, u32)>) -> int
    decreases v.len(),
{
    if v.len() == 0 {
        0
    } else {
        reasons_total(v.drop_last()) + v.last().1
    }
}

/// Count of `reason` in a breakdown, zero when it is absent.
pub open spec fn reason_count_in(v: Seq<(FailureReason, u32)>, reason: FailureReason) -> int
    decreases v.len(),
{
    if v.len() == 0 {
        0
    } else if v.last().0 == reason {
        v.last().1 as int
    } else {
        reason_count_in(v.drop_last(), reason)
    }
}

/// Every outcome is either a success or a failure.
pub proof fn successes_and_failures_cover(s: Seq<TestResult>)
    ensures
        count_successes(s) + count_failures(s) == s.len(),
    decreases s.len(),
{
    if s.len() > 0 {
        successes_and_failures_cover(s.drop_last());
    }
}

/// Every failure carries exactly one of the four reasons.
pub proof fn reasons_cover_failures(s: Seq<TestResult>)
    ensures
        count_reason(s, FailureReason::MissingOutput) + count_reason(s, FailureReason::RuntimeError)
            + count_reason(s, FailureReason::Timeout) + count_reason(s, FailureReason::WrongOutput)
            == count_failures(s),
    decreases s.len(),
{
    if s.len() > 0 {
        reasons_cover_failures(s.drop_last());
    }
}

proof fn lemma_counts_bounded(s: Seq<TestResult>, reason: FailureReason)
    ensures
        count_successes(s) <= s.len(),
        count_failures(s) <= s.len(),
        count_reason(s, reason) <= count_failures(s),
    decreases s.len(),
{
    if s.len() > 0 {
        lemma_counts_bounded(s.drop_last(), reason);
    }
}

proof fn lemma_total_concat(a: Seq<(FailureReason, u32)>, b: Seq<(FailureReason, u32)>)
    ensures
        reasons_total(a + b) == reasons_total(a) + reasons_total(b),
    decreases b.len(),
{
    if b.len() > 0 {
        assert((a + b).drop_last() =~= a + b.drop_last());
        lemma_total_concat(a, b.drop_last());
    }
}

/// The counts of a summary's failure breakdown add up to its number of failures.
pub proof fn failure_reasons_add_up(s: Seq<TestResult>)
    requires
        s.len() <= u32::MAX,
    ensures
        reasons_total(reason_entries(s)) == count_failures(s),
{
    let m = reason_entry(s, FailureReason::MissingOutput);
    let r = reason_entry(s, FailureReason::RuntimeError);
    let t = reason_entry(s, FailureReason::Timeout);
    let w = reason_entry(s, FailureReason::WrongOutput);
    reasons_cover_failures(s);
    lemma_counts_bounded(s, FailureReason::MissingOutput);
    lemma_counts_bounded(s, FailureReason::RuntimeError);
    lemma_counts_bounded(s, FailureReason::Timeout);
    lemma_counts_bounded(s, FailureReason::WrongOutput);
    lemma_total_concat(m + r + t, w);
    lemma_total_concat(m + r, t);
    lemma_total_concat(m, r);
    assert(reasons_total(seq![]) == 0);
    if count_reason(s, FailureReason::MissingOutput) > 0 {
        assert(m.drop_last() =~= seq![]);
    }
    if count_reason(s, FailureReason::RuntimeError) > 0 {
        assert(r.drop_last() =~= seq![]);
    }
    if count_reason(s, FailureReason::Timeout) > 0 {
        assert(t.drop_last() =~= seq![]);
    }
    if count_reason(s, FailureReason::WrongOutput) > 0 {
        assert(w.drop_last() =~= seq![]);
    }
}

/// Summary of a batch: how many inputs passed, how many failed, and why.
///
/// `failure_reasons` lists each reason that occurred once, with its count, in the order in
/// which the reasons are declared; a reason that never occurred is absent.
#[derive(Debug, Clone)]
pub struct TestResults {
    pub successful: u32,
    pub failed: u32,
    pub failure_reasons: Vec<(FailureReason, u32)>,
}

fn push_reason(v: &mut Vec<(FailureReason, u32)>, reason: FailureReason, count: u32)
    ensures
        count > 0 ==> final(v)@ == old(v)@.push((reason, count)),
        count == 0 ==> final(v)@ == old(v)@,
{
    if count > 0 {
        v.push((reason, count));
    }
}

impl TestResults {
    /// Reduces a sequence of outcomes to its summary.
    pub fn new(results: Vec<TestResult>) -> (r: Self)
        requires
            results.len() <= u32::MAX,
        ensures
            r.successful == count_successes(results@),
            r.failed == count_failures(results@),
            r.failure_reasons@ == reason_entries(results@),
            r.successful + r.failed == results.len(),
            reasons_total(r.failure_reasons@) == r.failed,
    {
        let mut successful: u32 = 0;
        let mut failed: u32 = 0;
        let mut missing: u32 = 0;
        let mut runtime: u32 = 0;
        let mut timeout: u32 = 0;
        let mut wrong: u32 = 0;
        let mut i: usize = 0;
        while i < results.len()
            invariant
                i <= results.len() <= u32::MAX,
                successful == count_successes(results@.take(i as int)),
                failed == count_failures(results@.take(i as int)),
                missing == count_reason(results@.take(i as int), FailureReason::MissingOutput),
                runtime == count_reason(results@.take(i as int), FailureReason::RuntimeError),
                timeout == count_reason(results@.take(i as int), FailureReason::Timeout),
                wrong == count_reason(results@.take(i as int), FailureReason::WrongOutput),
            decreases results.len() - i,
        {
            let ghost prefix = results@.take(i as int);
            let ghost next = results@.take(i + 1);
            assert(next.drop_last() =~= prefix);
            proof {
                lemma_counts_bounded(prefix, FailureReason::MissingOutput);
                lemma_counts_bounded(prefix, FailureReason::RuntimeError);
                lemma_counts_bounded(prefix, FailureReason::Timeout);
                lemma_counts_bounded(prefix, FailureReason::WrongOutput);
            }
            match results[i] {
                TestResult::Success => {
                    successful = successful + 1;
                },
                TestResult::Failure(reason) => {
                    failed = failed + 1;
                    match reason {
                        FailureReason::MissingOutput => {
                            missing = missing + 1;
                        },
                        FailureReason::RuntimeError => {
                            runtime = runtime + 1;
                        },
                        FailureReason::Timeout => {
                            timeout = timeout + 1;
                        },
                        FailureReason::WrongOutput => {
                            wrong = wrong + 1;
                        },
                    }
                },
            }
            i = i + 1;
        }
        assert(results@.take(i as int) =~= results@);
        let mut failure_reasons: Vec<(FailureReason, u32)> = Vec::new();
        push_reason(&mut failure_reasons, FailureReason::MissingOutput, missing);
        push_reason(&mut failure_reasons, FailureReason::RuntimeError, runtime);
        push_reason(&mut failure_reasons, FailureReason::Timeout, timeout);
        push_reason(&mut failure_reasons, FailureReason::WrongOutput, wrong);
        proof {
            assert(failure_reasons@ =~= reason_entries(results@));
            successes_and_failures_cover(results@);
            failure_reasons_add_up(results@);
        }
        TestResults { successful, failed, failure_reasons }
    }

    /// How many outcomes failed for `reason` (zero when it never occurred).
    pub fn count_of(&self, reason: FailureReason) -> (r: u32)
        ensures
            r == reason_count_in(self.failure_reasons@, reason),
    {
        let mut i: usize = self.failure_reasons.len();
        assert(self.failure_reasons@.take(i as int) =~= self.failure_reasons@);
        while i > 0
            invariant
                i <= self.failure_reasons.len(),
                reason_count_in(self.failure_reasons@, reason) == reason_count_in(
                    self.failure_reasons@.take(i as int),
                    reason,
                ),
            decreases i,
        {
            let ghost prefix = self.failure_reasons@.take(i as int);
            assert(prefix.drop_last() =~= self.failure_reasons@.take(i - 1));
            if self.failure_reasons[i - 1].0 == reason {
                return self.failure_reasons[i - 1].1;
            }
            i = i - 1;
        }
        0
    }
}

} // verus!
