use vstd::prelude::*;

use crate::question::Question;
use crate::results::{
    FailureReason, TestResult, TestResults, count_failures, count_successes, reason_entries,
};
use crate::text::{chars_of, normalize, normalized, string_of, trim, trim_chars};

verus! {

/// What came of one run of the solver.
pub struct RunReport {
    /// Whether the solver exited with status zero.
    pub exit_success: bool,
    /// Wall-clock time from writing the input to collecting the output, in nanoseconds.
    pub elapsed_ns: u64,
    /// What the solver wrote to its standard output.
    pub stdout: String,
}

/// A pairing of fixture keys with their texts; the keys are distinct.
pub open spec fn keys_unique(v: Seq<(String, String)>) -> bool {
    forall|i: int, j: int| 0 <= i < j < v.len() ==> (#[trigger] v[i]).0@ != (#[trigger] v[j]).0@
}

/// The key-to-text mapping that a list of entries stands for.
pub open spec fn entries_map(v: Seq<(String, String)>) -> Map<Seq<char>, Seq<char>>
    decreases v.len(),
{
    if v.len() == 0 {
        Map::empty()
    } else {
        entries_map(v.drop_last()).insert(v.last().0@, v.last().1@)
    }
}

/// The entry stored under `key`, if any.
pub open spec fn lookup(m: Map<Seq<char>, Seq<char>>, key: Seq<char>) -> Option<Seq<char>> {
    if m.contains_key(key) {
        Some(m[key])
    } else {
        None
    }
}

/// Index of the last `.` in `s`, or -1 when there is none.
pub open spec fn last_dot(s: Seq<char>) -> int
    decreases s.len(),
{
    if s.len() == 0 {
        -1
    } else if s.last() == '.' {
        s.len() - 1
    } else {
        last_dot(s.drop_last())
    }
}

/// Stem and extension of a file name, as `std::path::Path` splits it: at the last dot,
/// provided that something stands before that dot (and the name is not `..`).
pub open spec fn split_name(name: Seq<char>) -> Option<(Seq<char>, Seq<char>)> {
    let d = last_dot(name);
    if d <= 0 || name == seq!['.', '.'] {
        None
    } else {
        Some((name.take(d), name.skip(d + 1)))
    }
}

/// The key under which a file of `folder` is stored, when its extension is `format`:
/// the folder's name, a `-`, and the file's stem.
pub open spec fn fixture_key_of(folder: Seq<char>, name: Seq<char>, format: Seq<char>) -> Option<
    Seq<char>,
> {
    match split_name(name) {
        Some((stem, ext)) => if ext == format {
            Some(folder + seq!['-'] + stem)
        } else {
            None
        },
        None => None,
    }
}

/// The outcome for one input, given its expected output (if there is one), the report of
/// the solver's run, and the time limit.
pub open spec fn verdict(expected: Option<Seq<char>>, run: Option<RunReport>, time_limit_ns: u64) -> TestResult {
    match expected {
        None => TestResult::Failure(FailureReason::MissingOutput),
        Some(e) => match run {
            // The solver was never started for an input that has an expected output.
            None => TestResult::Failure(FailureReason::RuntimeError),
            Some(report) => if !report.exit_success {
                TestResult::Failure(FailureReason::RuntimeError)
            } else if report.elapsed_ns > time_limit_ns {
                TestResult::Failure(FailureReason::Timeout)
            } else if trim(normalized(report.stdout@)) == e {
                TestResult::Success
            } else {
                TestResult::Failure(FailureReason::WrongOutput)
            },
        },
    }
}

proof fn lemma_map_of_unique(v: Seq<(String, String)>)
    requires
        keys_unique(v),
    ensures
        forall|i: int|
            0 <= i < v.len() ==> #[trigger] entries_map(v).contains_key(v[i].0@) && entries_map(
                v,
            )[v[i].0@] == v[i].1@,
        forall|k: Seq<char>|
            #[trigger] entries_map(v).contains_key(k) ==> exists|i: int|
                0 <= i < v.len() && (#[trigger] v[i]).0@ == k,
        entries_map(v).dom().finite(),
        entries_map(v).dom().len() == v.len(),
    decreases v.len(),
{
    if v.len() > 0 {
        let d = v.drop_last();
        assert(keys_unique(d));
        lemma_map_of_unique(d);
        let k = v.last().0@;
        assert(!entries_map(d).contains_key(k)) by {
            if entries_map(d).contains_key(k) {
                let i = choose|i: int| 0 <= i < d.len() && (#[trigger] d[i]).0@ == k;
                assert(v[i].0@ == v[v.len() - 1].0@);
            }
        }
        assert forall|i: int| 0 <= i < v.len() implies #[trigger] entries_map(v).contains_key(
            v[i].0@,
        ) && entries_map(v)[v[i].0@] == v[i].1@ by {
            if i < v.len() - 1 {
                assert(d[i] == v[i]);
                assert(v[i].0@ != v[v.len() - 1].0@);
            }
        }
        assert forall|key: Seq<char>| #[trigger] entries_map(v).contains_key(key) implies exists|
            i: int,
        | 0 <= i < v.len() && (#[trigger] v[i]).0@ == key by {
            if key != k {
                let i = choose|i: int| 0 <= i < d.len() && (#[trigger] d[i]).0@ == key;
                assert(v[i] == d[i]);
            } else {
                assert(v[v.len() - 1].0@ == key);
            }
        }
        assert(entries_map(v).dom() =~= entries_map(d).dom().insert(k));
    }
}

proof fn lemma_map_update(v: Seq<(String, String)>, i: int, e: (String, String))
    requires
        keys_unique(v),
        0 <= i < v.len(),
        v[i].0@ == e.0@,
    ensures
        entries_map(v.update(i, e)) == entries_map(v).insert(e.0@, e.1@),
    decreases v.len(),
{
    let u = v.update(i, e);
    let d = v.drop_last();
    if i == v.len() - 1 {
        assert(u.drop_last() =~= d);
        assert(entries_map(u) =~= entries_map(v).insert(e.0@, e.1@));
    } else {
        assert(u.drop_last() =~= d.update(i, e));
        assert(keys_unique(d));
        lemma_map_update(d, i, e);
        assert(v[i].0@ != v[v.len() - 1].0@);
        assert(entries_map(u) =~= entries_map(v).insert(e.0@, e.1@));
    }
}

/// Index of the entry whose key is `key`.
fn find_key(v: &Vec<(String, String)>, key: &String) -> (r: Option<usize>)
    ensures
        r matches Some(i) ==> i < v.len() && v@[i as int].0@ == key@,
        r is None ==> forall|i: int| 0 <= i < v.len() ==> (#[trigger] v@[i]).0@ != key@,
{
    let mut i: usize = 0;
    while i < v.len()
        invariant
            i <= v.len(),
            forall|k: int| 0 <= k < i ==> (#[trigger] v@[k]).0@ != key@,
        decreases v.len() - i,
    {
        if v[i].0 == *key {
            return Some(i);
        }
        i = i + 1;
    }
    None
}

/// Stores `value` under `key`, replacing what was stored there.
fn store(v: &mut Vec<(String, String)>, key: String, value: String)
    requires
        keys_unique(old(v)@),
    ensures
        keys_unique(final(v)@),
        entries_map(final(v)@) == entries_map(old(v)@).insert(key@, value@),
{
    match find_key(v, &key) {
        Some(i) => {
            proof {
                lemma_map_update(v@, i as int, (key, value));
            }
            v.set(i, (key, value));
        },
        None => {
            let ghost k = key@;
            let ghost val = value@;
            v.push((key, value));
            assert(v@.drop_last() =~= old(v)@);
        },
    }
}

fn lookup_key<'a>(v: &'a Vec<(String, String)>, key: &String) -> (r: Option<&'a String>)
    requires
        keys_unique(v@),
    ensures
        r matches Some(s) ==> lookup(entries_map(v@), key@) == Some(s@),
        r is None ==> lookup(entries_map(v@), key@) is None,
{
    proof {
        lemma_map_of_unique(v@);
    }
    match find_key(v, key) {
        Some(i) => Some(&v[i].1),
        None => None,
    }
}

/// The fixture set: the inputs and the expected outputs, each by key.
pub struct Batch {
    pub inputs: Vec<(String, String)>,
    pub outputs: Vec<(String, String)>,
}

impl Batch {
    /// Keys are distinct within the inputs and within the outputs.
    pub open spec fn wf(&self) -> bool {
        keys_unique(self.inputs@) && keys_unique(self.outputs@)
    }

    pub open spec fn input_map(&self) -> Map<Seq<char>, Seq<char>> {
        entries_map(self.inputs@)
    }

    pub open spec fn output_map(&self) -> Map<Seq<char>, Seq<char>> {
        entries_map(self.outputs@)
    }

    /// The outcome for the `i`th input, given the solver's runs.
    pub open spec fn outcome_at(&self, runs: Seq<Option<RunReport>>, i: int, time_limit_ns: u64) -> TestResult {
        verdict(lookup(self.output_map(), self.inputs@[i].0@), runs[i], time_limit_ns)
    }

    /// An empty fixture set.
    pub fn new() -> (r: Batch)
        ensures
            r.wf(),
            r.input_map() == Map::<Seq<char>, Seq<char>>::empty(),
            r.output_map() == Map::<Seq<char>, Seq<char>>::empty(),
    {
        Batch { inputs: Vec::new(), outputs: Vec::new() }
    }

    /// The key of a file named `file_name` found in `folder`, when its extension is
    /// `format`; `None` when the file is not a fixture of that format.
    pub fn fixture_key(folder: &str, file_name: &str, format: &str) -> (r: Option<String>)
        ensures
            r matches Some(k) ==> fixture_key_of(folder@, file_name@, format@) == Some(k@),
            r is None ==> fixture_key_of(folder@, file_name@, format@) is None,
    {
        let name = chars_of(file_name);
        let n = name.len();
        let mut d: usize = n;
        assert(name@.take(n as int) =~= name@);
        while d > 0 && name[d - 1] != '.'
            invariant
                d <= n == name.len(),
                last_dot(name@) == last_dot(name@.take(d as int)),
            decreases d,
        {
            assert(name@.take(d as int).drop_last() =~= name@.take(d - 1));
            d = d - 1;
        }
        if d == 0 {
            assert(name@.take(0) =~= seq![]);
            return None;
        }
        let dot = d - 1;
        assert(last_dot(name@) == dot);
        if dot == 0 {
            return None;
        }
        if n == 2 && name[0] == '.' && name[1] == '.' {
            assert(name@ =~= seq!['.', '.']);
            return None;
        }
        assert(name@ != seq!['.', '.']) by {
            if name@ == seq!['.', '.'] {
                assert(name@.len() == 2 && name@[0] == '.' && name@[1] == '.');
            }
        }
        let mut ext: Vec<char> = Vec::new();
        let mut k: usize = dot + 1;
        while k < n
            invariant
                dot + 1 <= k <= n == name.len(),
                ext@ == name@.subrange(dot + 1, k as int),
            decreases n - k,
        {
            ext.push(name[k]);
            assert(ext@ =~= name@.subrange(dot + 1, k + 1));
            k = k + 1;
        }
        assert(ext@ =~= name@.skip(dot + 1));
        let ext_string = string_of(&ext);
        let format_string = format.to_owned();
        if ext_string != format_string {
            return None;
        }
        let mut key = chars_of(folder);
        key.push('-');
        let mut k: usize = 0;
        while k < dot
            invariant
                k <= dot < n == name.len(),
                key@ == folder@ + seq!['-'] + name@.take(k as int),
            decreases dot - k,
        {
            key.push(name[k]);
            assert(key@ =~= folder@ + seq!['-'] + name@.take(k + 1));
            k = k + 1;
        }
        Some(string_of(&key))
    }

    /// Stores the normalized text of an input file under `key`.
    pub fn add_input(&mut self, key: String, raw: &str)
        requires
            old(self).wf(),
        ensures
            final(self).wf(),
            final(self).input_map() == old(self).input_map().insert(key@, normalized(raw@)),
            final(self).outputs == old(self).outputs,
    {
        let text = normalize(raw);
        store(&mut self.inputs, key, text);
    }

    /// Stores the normalized text of an expected-output file under `key`.
    pub fn add_output(&mut self, key: String, raw: &str)
        requires
            old(self).wf(),
        ensures
            final(self).wf(),
            final(self).output_map() == old(self).output_map().insert(key@, normalized(raw@)),
            final(self).inputs == old(self).inputs,
    {
        let text = normalize(raw);
        store(&mut self.outputs, key, text);
    }

    /// Whether an expected output is stored under `key`: only then is the solver run.
    pub fn has_output(&self, key: &String) -> (r: bool)
        requires
            self.wf(),
        ensures
            r == self.output_map().contains_key(key@),
    {
        lookup_key(&self.outputs, key).is_some()
    }

    /// Decides the outcome for the input stored under `key`, from the solver's run.
    ///
    /// A key without an expected output fails with `MissingOutput` whatever the run; a run
    /// that exited with a non-zero status fails with `RuntimeError` whatever it printed and
    /// however long it took; a run over the time limit fails with `Timeout` even when its
    /// output is right.
    pub fn judge(&self, key: &String, run: &Option<RunReport>, time_limit_ns: u64) -> (r: TestResult)
        requires
            self.wf(),
        ensures
            r == verdict(lookup(self.output_map(), key@), *run, time_limit_ns),
            !self.output_map().contains_key(key@) ==> r == TestResult::Failure(
                FailureReason::MissingOutput,
            ),
            (*run matches Some(report) && self.output_map().contains_key(key@)
                && !report.exit_success) ==> r == TestResult::Failure(FailureReason::RuntimeError),
            (*run matches Some(report) && self.output_map().contains_key(key@) && report.exit_success
                && report.elapsed_ns > time_limit_ns) ==> r == TestResult::Failure(
                FailureReason::Timeout,
            ),
    {
        let expected = match lookup_key(&self.outputs, key) {
            None => {
                return TestResult::Failure(FailureReason::MissingOutput);
            },
            Some(e) => e,
        };
        let report = match run {
            None => {
                return TestResult::Failure(FailureReason::RuntimeError);
            },
            Some(report) => report,
        };
        if !report.exit_success {
            TestResult::Failure(FailureReason::RuntimeError)
        } else if report.elapsed_ns > time_limit_ns {
            TestResult::Failure(FailureReason::Timeout)
        } else {
            let printed = normalize(report.stdout.as_str());
            let trimmed = string_of(&trim_chars(&chars_of(printed.as_str())));
            if trimmed == *expected {
                TestResult::Success
            } else {
                TestResult::Failure(FailureReason::WrongOutput)
            }
        }
    }

    /// Judges every input against its run (`runs[i]` is the run on the `i`th input, `None`
    /// where the solver was not run) and sums the outcomes up.
    pub fn process(&self, question: &Question, runs: &Vec<Option<RunReport>>) -> (r: TestResults)
        requires
            self.wf(),
            runs.len() == self.inputs.len(),
            self.inputs.len() <= u32::MAX,
        ensures
            exists|outcomes: Seq<TestResult>|
                outcomes.len() == self.inputs.len() && (forall|i: int|
                    0 <= i < outcomes.len() ==> #[trigger] outcomes[i] == self.outcome_at(
                        runs@,
                        i,
                        question.time_limit_ns,
                    )) && r.successful == count_successes(outcomes) && r.failed
                    == count_failures(outcomes) && r.failure_reasons@ == reason_entries(outcomes),
            r.successful + r.failed == self.input_map().dom().len(),
    {
        let mut outcomes: Vec<TestResult> = Vec::new();
        let mut i: usize = 0;
        while i < self.inputs.len()
            invariant
                self.wf(),
                i <= self.inputs.len() == runs.len(),
                outcomes.len() == i,
                forall|k: int|
                    0 <= k < i ==> #[trigger] outcomes@[k] == self.outcome_at(
                        runs@,
                        k,
                        question.time_limit_ns,
                    ),
            decreases self.inputs.len() - i,
        {
            let outcome = self.judge(&self.inputs[i].0, &runs[i], question.time_limit_ns);
            outcomes.push(outcome);
            i = i + 1;
        }
        proof {
            lemma_map_of_unique(self.inputs@);
        }
        TestResults::new(outcomes)
    }
}

} // verus!
