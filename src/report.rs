//! The running aggregate of a judge run and its final summary.

use vstd::prelude::*;
use crate::judge::Verdict;

verus! {

/// The outcome of one case as the aggregate keeps it. `elapsed_time` is in nanoseconds.
#[derive(Debug)]
pub struct JudgeResult {
    pub case_name: String,
    pub is_success: bool,
    pub elapsed_time: u64,
}

impl JudgeResult {
    pub fn new(case_name: String, is_success: bool, elapsed_time: u64) -> (r: Self)
        ensures
            r.case_name == case_name,
            r.is_success == is_success,
            r.elapsed_time == elapsed_time,
    {
        Self { is_success, elapsed_time, case_name }
    }
}

/// Whether a verdict counts as a passed case.
pub fn is_accepted(v: Verdict) -> (r: bool)
    ensures
        r == (v == Verdict::AC),
{
    v == Verdict::AC
}

/// The diagnosis shown for a wrong answer: the input, the program's output, a blank line
/// and the expected output, each under its heading.
pub fn wrong_answer_lines(input: &str, actual: &str, expected: &str) -> (r: Vec<String>)
    ensures
        r@.len() == 4,
        r@[0]@ == "input:\n"@ + input@,
        r@[1]@ == "output:\n"@ + actual@,
        r@[2]@ == Seq::<char>::empty(),
        r@[3]@ == "expected:\n"@ + expected@,
{
    let mut first = "input:\n".to_owned();
    first.append(input);
    let mut second = "output:\n".to_owned();
    second.append(actual);
    let mut last = "expected:\n".to_owned();
    last.append(expected);
    let mut lines: Vec<String> = Vec::new();
    lines.push(first);
    lines.push(second);
    lines.push(String::new());
    lines.push(last);
    lines
}

/// The number of passed cases among `rs`.
pub open spec fn success_count_of(rs: Seq<JudgeResult>) -> nat
    decreases rs.len(),
{
    if rs.len() == 0 {
        0
    } else {
        success_count_of(rs.drop_last()) + if rs.last().is_success {
            1nat
        } else {
            0nat
        }
    }
}

/// The slowest case so far, name and time: a later case replaces it only when strictly
/// slower, and before any case took time it is the empty name with zero.
pub open spec fn slowest_of(rs: Seq<JudgeResult>) -> (Seq<char>, u64)
    decreases rs.len(),
{
    if rs.len() == 0 {
        (Seq::empty(), 0)
    } else {
        let prev = slowest_of(rs.drop_last());
        if prev.1 < rs.last().elapsed_time {
            (rs.last().case_name@, rs.last().elapsed_time)
        } else {
            prev
        }
    }
}

/// The three final states of a run.
#[derive(Debug, Clone, Copy, PartialEq, Eq, Structural)]
pub enum Outcome {
    /// Every case passed.
    AllPassed,
    /// Some cases passed, some did not.
    SomePassed,
    /// No case passed.
    NonePassed,
}

pub open spec fn outcome_of(success_count: nat, total: nat) -> Outcome {
    if success_count == total {
        Outcome::AllPassed
    } else if success_count > 0 {
        Outcome::SomePassed
    } else {
        Outcome::NonePassed
    }
}

/// The final summary of a run.
#[derive(Debug)]
pub struct RunSummary {
    pub total_cases: usize,
    pub success_count: usize,
    pub slowest_case_name: String,
    pub slowest_elapsed: u64,
    pub outcome: Outcome,
}

/// The aggregate of the cases recorded so far, in the order they ran.
pub struct Reporter {
    total_cases: usize,
    success_count: usize,
    slowest_case_name: String,
    slowest_elapsed: u64,
    recorded: Ghost<Seq<JudgeResult>>,
}

impl View for Reporter {
    type V = Seq<JudgeResult>;

    closed spec fn view(&self) -> Seq<JudgeResult> {
        self.recorded@
    }
}

impl Reporter {
    /// The fields agree with the recorded cases.
    pub closed spec fn wf(&self) -> bool {
        &&& self.total_cases == self.recorded@.len()
        &&& self.success_count == success_count_of(self.recorded@)
        &&& self.slowest_case_name@ == slowest_of(self.recorded@).0
        &&& self.slowest_elapsed == slowest_of(self.recorded@).1
    }

    pub fn new() -> (r: Self)
        ensures
            r.wf(),
            r@ == Seq::<JudgeResult>::empty(),
    {
        Reporter {
            total_cases: 0,
            success_count: 0,
            slowest_case_name: String::new(),
            slowest_elapsed: 0,
            recorded: Ghost(Seq::empty()),
        }
    }

    /// Adds one case: counts it if it passed, and makes it the slowest if it took
    /// strictly longer than the slowest so far.
    pub fn record(&mut self, result: JudgeResult)
        requires
            old(self).wf(),
            old(self)@.len() < usize::MAX,
        ensures
            final(self).wf(),
            final(self)@ == old(self)@.push(result),
    {
        proof {
            lemma_success_count_bounded(self.recorded@);
        }
        let ghost rs = self.recorded@.push(result);
        assert(rs.drop_last() =~= self.recorded@);
        if result.is_success {
            self.success_count = self.success_count + 1;
        }
        self.total_cases = self.total_cases + 1;
        if self.slowest_elapsed < result.elapsed_time {
            self.slowest_elapsed = result.elapsed_time;
            self.slowest_case_name = result.case_name;
        }
        self.recorded = Ghost(rs);
    }

    /// The summary of everything recorded.
    pub fn summarize(&self) -> (s: RunSummary)
        requires
            self.wf(),
        ensures
            s.total_cases == self@.len(),
            s.success_count == success_count_of(self@),
            s.slowest_case_name@ == slowest_of(self@).0,
            s.slowest_elapsed == slowest_of(self@).1,
            s.outcome == outcome_of(success_count_of(self@), self@.len()),
    {
        let outcome = if self.success_count == self.total_cases {
            Outcome::AllPassed
        } else if self.success_count > 0 {
            Outcome::SomePassed
        } else {
            Outcome::NonePassed
        };
        RunSummary {
            total_cases: self.total_cases,
            success_count: self.success_count,
            slowest_case_name: self.slowest_case_name.clone(),
            slowest_elapsed: self.slowest_elapsed,
            outcome,
        }
    }
}

proof fn lemma_success_count_bounded(rs: Seq<JudgeResult>)
    ensures
        success_count_of(rs) <= rs.len(),
    decreases rs.len(),
{
    if rs.len() > 0 {
        lemma_success_count_bounded(rs.drop_last());
    }
}

/// The slowest case is never faster than any case, and when some case took time it is
/// the first case whose time is maximal.
pub proof fn lemma_slowest_is_first_maximum(rs: Seq<JudgeResult>)
    ensures
        forall|i: int| 0 <= i < rs.len() ==> (#[trigger] rs[i]).elapsed_time <= slowest_of(rs).1,
        slowest_of(rs).1 > 0 ==> exists|k: int|
            {
                &&& 0 <= k < rs.len()
                &&& (#[trigger] rs[k]).elapsed_time == slowest_of(rs).1
                &&& rs[k].case_name@ == slowest_of(rs).0
                &&& forall|j: int| 0 <= j < k ==> (#[trigger] rs[j]).elapsed_time < slowest_of(rs).1
            },
        slowest_of(rs).1 == 0 ==> slowest_of(rs).0 == Seq::<char>::empty(),
    decreases rs.len(),
{
    if rs.len() > 0 {
        let prev = rs.drop_last();
        lemma_slowest_is_first_maximum(prev);
        assert forall|i: int| 0 <= i < prev.len() implies #[trigger] rs[i] == prev[i] by {}
        if slowest_of(prev).1 < rs.last().elapsed_time {
            let k = rs.len() - 1;
            assert(rs[k] == rs.last());
        } else if slowest_of(rs).1 > 0 {
            let k = choose|k: int|
                {
                    &&& 0 <= k < prev.len()
                    &&& (#[trigger] prev[k]).elapsed_time == slowest_of(prev).1
                    &&& prev[k].case_name@ == slowest_of(prev).0
                    &&& forall|j: int|
                        0 <= j < k ==> (#[trigger] prev[j]).elapsed_time < slowest_of(prev).1
                };
            assert(rs[k] == prev[k]);
        }
    }
}

/// Two runs whose cases pass and fail alike have the same totals and the same final
/// state, whatever their names and times.
pub proof fn lemma_same_verdicts_same_summary(a: Seq<JudgeResult>, b: Seq<JudgeResult>)
    requires
        a.len() == b.len(),
        forall|i: int| 0 <= i < a.len() ==> (#[trigger] a[i]).is_success == b[i].is_success,
    ensures
        success_count_of(a) == success_count_of(b),
        outcome_of(success_count_of(a), a.len()) == outcome_of(success_count_of(b), b.len()),
    decreases a.len(),
{
    if a.len() > 0 {
        let (pa, pb) = (a.drop_last(), b.drop_last());
        assert forall|i: int| 0 <= i < pa.len() implies (#[trigger] pa[i]).is_success
            == pb[i].is_success by {
            assert(pa[i] == a[i] && pb[i] == b[i]);
        }
        lemma_same_verdicts_same_summary(pa, pb);
        assert(a.last() == a[a.len() - 1]);
    }
}

} // verus!
