//! Jobs: a submission's execution record, and the judging steps that
//! mutate it.
//!
//! A judging pass is a sequence of calls by the task that owns the job:
//! [`JobContent::start_judging`], then [`JobContent::record_compilation`],
//! then one [`JobContent::record_case`] per test case in declared
//! order, then [`JobContent::finish_judging`]. The contracts pin every
//! step; [`JobContent::judge_wf`] is the shape every reachable judging
//! state has.

use vstd::prelude::*;
use crate::config::{Language, Problem};
use crate::contest::{check_job, job_in_contest, Contest};
use crate::timestamp::{ts_lt, Timestamp};
use crate::user::User;
use crate::wire::{CaseVerdict, JobState};
use crate::ApiError;

verus! {

/// An immutable submission.
pub struct PostJob {
    pub source_code: String,
    pub language: String,
    pub user_id: usize,
    pub contest_id: usize,
    pub problem_id: usize,
}

impl PostJob {
    /// An empty placeholder submission.
    pub fn new() -> (s: PostJob)
        ensures
            s.source_code@ == Seq::<char>::empty(),
            s.language@ == Seq::<char>::empty(),
            s.user_id == 0,
            s.contest_id == 0,
            s.problem_id == 0,
    {
        PostJob {
            source_code: String::new(),
            language: String::new(),
            user_id: 0,
            contest_id: 0,
            problem_id: 0,
        }
    }
}

/// One recorded case outcome. Index 0 carries the compilation outcome;
/// 1 onward are the test verdicts, in the problem's declared order.
pub struct Case {
    pub id: usize,
    pub result: CaseVerdict,
    /// Elapsed time in microseconds, 0 if unmeasured.
    pub time: u64,
    /// Peak memory in bytes, 0 if unmeasured.
    pub memory: u64,
    /// Diagnostic text.
    pub info: String,
}

impl Case {
    /// A fresh Waiting slot.
    pub fn new(case_id: usize) -> (c: Case)
        ensures
            c.id == case_id,
            c.result == CaseVerdict::Waiting,
            c.time == 0,
            c.memory == 0,
            c.info@ == Seq::<char>::empty(),
    {
        Case { id: case_id, result: CaseVerdict::Waiting, time: 0, memory: 0, info: String::new() }
    }
}

/// A submission's execution record: state, verdicts, score.
pub struct JobContent {
    /// Stable id, assigned at creation; a re-judge reuses it.
    pub id: usize,
    pub created_time: Timestamp,
    pub updated_time: Timestamp,
    pub submission: PostJob,
    pub state: JobState,
    /// Overall verdict of the job.
    pub result: CaseVerdict,
    /// Sum of the weights of the accepted cases, in points.
    pub score: u64,
    pub cases: Vec<Case>,
}

impl JobContent {
    /// A fresh Queueing record under the given id, timestamps at the
    /// calendar origin until the caller stamps them.
    pub fn new(len: usize) -> (j: JobContent)
        ensures
            j.id == len,
            j.created_time == origin_timestamp(),
            j.updated_time == origin_timestamp(),
            j.submission.source_code@ == Seq::<char>::empty(),
            j.submission.language@ == Seq::<char>::empty(),
            j.submission.user_id == 0,
            j.submission.contest_id == 0,
            j.submission.problem_id == 0,
            j.state == JobState::Queueing,
            j.result == CaseVerdict::Waiting,
            j.score == 0,
            j.cases@ == Seq::<Case>::empty(),
    {
        JobContent {
            id: len,
            created_time: Timestamp {
                year: 0,
                month: 1,
                day: 1,
                hour: 0,
                minute: 0,
                second: 0,
                millisecond: 0,
            },
            updated_time: Timestamp {
                year: 0,
                month: 1,
                day: 1,
                hour: 0,
                minute: 0,
                second: 0,
                millisecond: 0,
            },
            submission: PostJob::new(),
            state: JobState::Queueing,
            result: CaseVerdict::Waiting,
            score: 0,
            cases: Vec::new(),
        }
    }

    /// What a judging pass keeps fixed: identity, submission, creation
    /// time.
    pub open spec fn same_identity(self, other: JobContent) -> bool {
        &&& self.id == other.id
        &&& self.created_time == other.created_time
        &&& self.updated_time == other.updated_time
        &&& self.submission == other.submission
    }

    /// The shape of every reachable judging state: sequential case ids,
    /// case 0 settled before everything else, and nothing but Waiting
    /// after a Compilation Error.
    pub open spec fn judge_wf(self) -> bool {
        &&& self.cases@.len() >= 1
        &&& (forall|i: int| 0 <= i < self.cases@.len() ==> (#[trigger] self.cases@[i]).id == i)
        &&& (self.cases@[0].result == CaseVerdict::Waiting || self.cases@[0].result
            == CaseVerdict::CompilationError || self.cases@[0].result
            == CaseVerdict::CompilationSuccess)
        &&& (self.cases@[0].result == CaseVerdict::Waiting ==> self.result == CaseVerdict::Waiting
            && self.score == 0 && forall|i: int|
            1 <= i < self.cases@.len() ==> (#[trigger] self.cases@[i]).result
                == CaseVerdict::Waiting)
        &&& (self.cases@[0].result == CaseVerdict::CompilationError ==> self.result
            == CaseVerdict::CompilationError && self.score == 0 && forall|i: int|
            1 <= i < self.cases@.len() ==> (#[trigger] self.cases@[i]).result
                == CaseVerdict::Waiting)
    }

    /// Begin a judging pass: the job runs, and its case list becomes
    /// `case_count + 1` Waiting slots, one per test case and one for
    /// the compilation outcome.
    pub fn start_judging(&mut self, case_count: usize)
        requires
            old(self).state == JobState::Queueing,
            case_count < usize::MAX,
        ensures
            final(self).same_identity(*old(self)),
            final(self).state == JobState::Running,
            final(self).result == CaseVerdict::Waiting,
            final(self).score == 0,
            final(self).cases@.len() == case_count + 1,
            forall|i: int|
                0 <= i <= case_count ==> {
                    let c = #[trigger] final(self).cases@[i];
                    c.id == i && c.result == CaseVerdict::Waiting && c.time == 0 && c.memory == 0
                        && c.info@ == Seq::<char>::empty()
                },
            final(self).judge_wf(),
    {
        self.state = JobState::Running;
        self.result = CaseVerdict::Waiting;
        self.score = 0;
        let mut cases: Vec<Case> = Vec::new();
        let mut i: usize = 0;
        while i <= case_count
            invariant
                i <= case_count + 1,
                case_count < usize::MAX,
                cases@.len() == i,
                forall|k: int|
                    0 <= k < i ==> (#[trigger] cases@[k]).id == k && cases@[k].result
                        == CaseVerdict::Waiting && cases@[k].time == 0 && cases@[k].memory == 0
                        && cases@[k].info@ == Seq::<char>::empty(),
            decreases case_count + 1 - i,
        {
            cases.push(Case::new(i));
            i += 1;
        }
        self.cases = cases;
    }

    /// Record the compilation outcome in case 0. A failure settles the
    /// whole job: the overall result becomes Compilation Error and no
    /// test case will run.
    pub fn record_compilation(&mut self, ok: bool)
        requires
            old(self).state == JobState::Running,
            old(self).judge_wf(),
            old(self).cases@[0].result == CaseVerdict::Waiting,
        ensures
            final(self).same_identity(*old(self)),
            final(self).state == JobState::Running,
            final(self).score == 0,
            final(self).cases@.len() == old(self).cases@.len(),
            final(self).cases@[0].result == if ok {
                CaseVerdict::CompilationSuccess
            } else {
                CaseVerdict::CompilationError
            },
            final(self).cases@[0].id == 0,
            final(self).cases@[0].time == old(self).cases@[0].time,
            final(self).cases@[0].memory == old(self).cases@[0].memory,
            final(self).cases@[0].info == old(self).cases@[0].info,
            forall|i: int|
                1 <= i < old(self).cases@.len() ==> final(self).cases@[i] == old(self).cases@[i],
            final(self).result == if ok {
                CaseVerdict::Waiting
            } else {
                CaseVerdict::CompilationError
            },
            final(self).judge_wf(),
    {
        let slot = &mut self.cases[0];
        if ok {
            slot.result = CaseVerdict::CompilationSuccess;
        } else {
            slot.result = CaseVerdict::CompilationError;
            self.result = CaseVerdict::CompilationError;
        }
    }

    /// Record one test case's verdict, in declared order: the weight
    /// counts exactly when the case is accepted, and the overall result
    /// moves only off a neutral value.
    pub fn record_case(&mut self, index: usize, verdict: CaseVerdict, time: u64, weight: u64)
        requires
            old(self).state == JobState::Running,
            old(self).judge_wf(),
            old(self).cases@[0].result == CaseVerdict::CompilationSuccess,
            1 <= index < old(self).cases@.len(),
            verdict == CaseVerdict::Accepted || verdict == CaseVerdict::WrongAnswer || verdict
                == CaseVerdict::TimeLimitExceeded || verdict == CaseVerdict::RuntimeError,
            old(self).score + weight <= u64::MAX,
        ensures
            final(self).same_identity(*old(self)),
            final(self).state == JobState::Running,
            final(self).cases@.len() == old(self).cases@.len(),
            final(self).cases@[index as int].result == verdict,
            final(self).cases@[index as int].time == time,
            final(self).cases@[index as int].id == index,
            final(self).cases@[index as int].memory == old(self).cases@[index as int].memory,
            final(self).cases@[index as int].info == old(self).cases@[index as int].info,
            forall|i: int|
                0 <= i < old(self).cases@.len() && i != index ==> final(self).cases@[i] == old(
                    self,
                ).cases@[i],
            final(self).score == old(self).score + if verdict == CaseVerdict::Accepted {
                weight as int
            } else {
                0
            },
            final(self).result == if old(self).result.is_neutral_overall() {
                verdict
            } else {
                old(self).result
            },
            final(self).judge_wf(),
    {
        let slot = &mut self.cases[index];
        slot.result = verdict;
        slot.time = time;
        if verdict == CaseVerdict::Accepted {
            self.score = self.score + weight;
        }
        if self.result == CaseVerdict::Waiting || self.result == CaseVerdict::Accepted {
            self.result = verdict;
        }
    }

    /// End the judging pass.
    pub fn finish_judging(&mut self)
        requires
            old(self).state == JobState::Running,
        ensures
            *final(self) == (JobContent { state: JobState::Finished, ..*old(self) }),
    {
        self.state = JobState::Finished;
    }

    /// Gate and reset for a re-judge: only a Finished job may be
    /// re-judged, and it goes back to Queueing with a clean slate.
    pub fn rejudge_reset(&mut self, now: Timestamp) -> (r: Result<(), ApiError>)
        ensures
            match r {
                Ok(()) => old(self).state == JobState::Finished && *final(self) == (JobContent {
                    state: JobState::Queueing,
                    updated_time: now,
                    result: CaseVerdict::Waiting,
                    score: 0,
                    ..*old(self)
                }),
                Err(e) => e == ApiError::InvalidState && old(self).state != JobState::Finished
                    && *final(self) == *old(self),
            },
    {
        if self.state != JobState::Finished {
            return Err(ApiError::InvalidState);
        }
        self.state = JobState::Queueing;
        self.updated_time = now;
        self.result = CaseVerdict::Waiting;
        self.score = 0;
        Ok(())
    }

    /// Gate for deletion: only a job still Queueing may be deleted.
    pub fn delete_check(&self) -> (r: Result<(), ApiError>)
        ensures
            match r {
                Ok(()) => self.state == JobState::Queueing,
                Err(e) => e == ApiError::InvalidState && self.state != JobState::Queueing,
            },
    {
        if self.state == JobState::Queueing {
            Ok(())
        } else {
            Err(ApiError::InvalidState)
        }
    }
}

/// The calendar origin the fresh record carries until stamped.
pub open spec fn origin_timestamp() -> Timestamp {
    Timestamp { year: 0, month: 1, day: 1, hour: 0, minute: 0, second: 0, millisecond: 0 }
}

/// After a Compilation Error, every test case stands Waiting and stays
/// so: no judging step accepts such a job any more.
pub proof fn lemma_compilation_error_freezes(j: JobContent)
    requires
        j.judge_wf(),
        j.cases@[0].result == CaseVerdict::CompilationError,
    ensures
        j.result == CaseVerdict::CompilationError,
        forall|i: int| 1 <= i < j.cases@.len() ==> j.cases@[i].result == CaseVerdict::Waiting,
{
}

/// How a case run's outcome reads, before comparison is consulted.
#[derive(Clone, Copy, PartialEq, Eq, Structural, Debug)]
pub enum RunOutcome {
    /// The program exited cleanly within the deadline.
    Exited,
    /// The program exited abnormally or with a non-zero status.
    Crashed,
    /// The deadline passed first.
    TimedOut,
}

pub open spec fn case_verdict_spec(run: RunOutcome, matched: bool) -> CaseVerdict {
    match run {
        RunOutcome::TimedOut => CaseVerdict::TimeLimitExceeded,
        RunOutcome::Crashed => CaseVerdict::RuntimeError,
        RunOutcome::Exited => if matched {
            CaseVerdict::Accepted
        } else {
            CaseVerdict::WrongAnswer
        },
    }
}

/// The verdict of one case: a timeout beats everything, a crash beats
/// comparison, and a clean run stands or falls with the comparator.
pub fn case_verdict(run: RunOutcome, matched: bool) -> (v: CaseVerdict)
    ensures
        v == case_verdict_spec(run, matched),
{
    match run {
        RunOutcome::TimedOut => CaseVerdict::TimeLimitExceeded,
        RunOutcome::Crashed => CaseVerdict::RuntimeError,
        RunOutcome::Exited => if matched {
            CaseVerdict::Accepted
        } else {
            CaseVerdict::WrongAnswer
        },
    }
}

/// The wait applied to one case run: the case's time limit in
/// microseconds, or no deadline at all for the 0 mark.
pub fn deadline_micros(time_limit: u64) -> (r: Option<u64>)
    ensures
        r == if time_limit == 0 {
            Option::<u64>::None
        } else {
            Option::<u64>::Some(time_limit)
        },
{
    if time_limit == 0 {
        None
    } else {
        Some(time_limit)
    }
}

/// Some configured language bears this name.
pub open spec fn language_known(languages: Seq<Language>, name: Seq<char>) -> bool {
    exists|i: int| 0 <= i < languages.len() && (#[trigger] languages[i]).name@ == name
}

/// Some configured problem bears this id.
pub open spec fn problem_known(problems: Seq<Problem>, pid: int) -> bool {
    exists|i: int| 0 <= i < problems.len() && (#[trigger] problems[i]).id == pid
}

/// The first index whose problem bears this id, or the length if none
/// does.
pub open spec fn first_problem_index(problems: Seq<Problem>, pid: int) -> int
    decreases problems.len(),
{
    if problems.len() == 0 {
        0
    } else if problems[0].id == pid {
        0
    } else {
        1 + first_problem_index(problems.drop_first(), pid)
    }
}

proof fn lemma_first_problem_index_at(problems: Seq<Problem>, pid: int, i: int)
    requires
        0 <= i <= problems.len(),
        forall|j: int| 0 <= j < i ==> (#[trigger] problems[j]).id != pid,
        i < problems.len() ==> problems[i].id == pid,
    ensures
        first_problem_index(problems, pid) == i,
    decreases problems.len(),
{
    if problems.len() == 0 {
    } else if problems[0].id == pid {
    } else {
        assert forall|j: int| 0 <= j < i - 1 implies (#[trigger] problems.drop_first()[j]).id
            != pid by {
            assert(problems.drop_first()[j] == problems[j + 1]);
        }
        if i - 1 < problems.drop_first().len() {
            assert(problems.drop_first()[i - 1] == problems[i]);
        }
        lemma_first_problem_index_at(problems.drop_first(), pid, i - 1);
    }
}

/// How many of the jobs count toward the contest and are this user's.
pub open spec fn contest_submission_count(uid: int, jobs: Seq<JobContent>, c: Contest) -> nat
    decreases jobs.len(),
{
    if jobs.len() == 0 {
        0
    } else {
        contest_submission_count(uid, jobs.drop_last(), c) + if job_in_contest(jobs.last(), c)
            && jobs.last().submission.user_id == uid {
            1nat
        } else {
            0nat
        }
    }
}

/// What a submission request shall come to, in the order the checks
/// are made: unknown language, problem, user or contest first; then,
/// inside a real contest, membership of user and problem, the contest
/// window, and the submission cap. Success carries the index of the
/// submitted problem in the configuration.
pub open spec fn submission_decision(
    body: PostJob,
    languages: Seq<Language>,
    problems: Seq<Problem>,
    user_count: int,
    contests: Seq<Contest>,
    jobs: Seq<JobContent>,
    now: Timestamp,
) -> Result<int, ApiError> {
    let cid = body.contest_id as int;
    if !language_known(languages, body.language@) {
        Err(ApiError::NotFound)
    } else if !problem_known(problems, body.problem_id as int) {
        Err(ApiError::NotFound)
    } else if body.user_id >= user_count {
        Err(ApiError::NotFound)
    } else if cid > contests.len() {
        Err(ApiError::NotFound)
    } else if cid > 0 && !contests[cid - 1].user_ids@.contains(body.user_id) {
        Err(ApiError::InvalidArgument)
    } else if cid > 0 && !contests[cid - 1].problem_ids@.contains(body.problem_id) {
        Err(ApiError::InvalidArgument)
    } else if cid > 0 && ts_lt(now, contests[cid - 1].from) {
        Err(ApiError::InvalidArgument)
    } else if cid > 0 && ts_lt(contests[cid - 1].to, now) {
        Err(ApiError::InvalidArgument)
    } else if cid > 0 && contests[cid - 1].submission_limit > 0 && contest_submission_count(
        body.user_id as int,
        jobs,
        contests[cid - 1],
    ) >= contests[cid - 1].submission_limit {
        Err(ApiError::RateLimit)
    } else {
        Ok(first_problem_index(problems, body.problem_id as int))
    }
}

/// Hold a submission request against the configuration, the stored
/// contests and the job history, at the moment `now`: the decision of
/// [`submission_decision`], made executable.
pub fn validate_submission(
    body: &PostJob,
    languages: &Vec<Language>,
    problems: &Vec<Problem>,
    user_count: usize,
    contests: &Vec<Contest>,
    jobs: &Vec<JobContent>,
    now: Timestamp,
) -> (r: Result<usize, ApiError>)
    ensures
        (r matches Ok(i) ==> submission_decision(
            *body,
            languages@,
            problems@,
            user_count as int,
            contests@,
            jobs@,
            now,
        ) == Ok::<int, ApiError>(i as int)),
        (r matches Err(e) ==> submission_decision(
            *body,
            languages@,
            problems@,
            user_count as int,
            contests@,
            jobs@,
            now,
        ) == Err::<int, ApiError>(e)),
{
    let ghost decision = submission_decision(
        *body,
        languages@,
        problems@,
        user_count as int,
        contests@,
        jobs@,
        now,
    );
    let mut i: usize = 0;
    let n = languages.len();
    while i < n && !crate::compare::str_eq(languages[i].name.as_str(), body.language.as_str())
        invariant
            i <= n,
            n == languages@.len(),
            forall|j: int| 0 <= j < i ==> (#[trigger] languages@[j]).name@ != body.language@,
        decreases n - i,
    {
        i += 1;
    }
    if i == n {
        proof {
            assert(!language_known(languages@, body.language@));
        }
        return Err(ApiError::NotFound);
    }
    proof {
        assert(0 <= i < languages@.len() && languages@[i as int].name@ == body.language@);
    }
    let mut p: usize = 0;
    let pn = problems.len();
    while p < pn && problems[p].id != body.problem_id
        invariant
            p <= pn,
            pn == problems@.len(),
            forall|j: int| 0 <= j < p ==> (#[trigger] problems@[j]).id != body.problem_id,
        decreases pn - p,
    {
        p += 1;
    }
    if p == pn {
        proof {
            assert(!problem_known(problems@, body.problem_id as int));
        }
        return Err(ApiError::NotFound);
    }
    proof {
        assert(0 <= p < problems@.len() && problems@[p as int].id == body.problem_id);
        lemma_first_problem_index_at(problems@, body.problem_id as int, p as int);
    }
    if body.user_id >= user_count {
        return Err(ApiError::NotFound);
    }
    if body.contest_id > contests.len() {
        return Err(ApiError::NotFound);
    }
    if body.contest_id > 0 {
        let c = &contests[body.contest_id - 1];
        if !crate::contest::contains_usize(&c.user_ids, body.user_id) {
            return Err(ApiError::InvalidArgument);
        }
        if !crate::contest::contains_usize(&c.problem_ids, body.problem_id) {
            return Err(ApiError::InvalidArgument);
        }
        if crate::timestamp::ts_before(&now, &c.from) {
            return Err(ApiError::InvalidArgument);
        }
        if crate::timestamp::ts_before(&c.to, &now) {
            return Err(ApiError::InvalidArgument);
        }
        if c.submission_limit > 0 {
            let mut count: u64 = 0;
            let mut k: usize = 0;
            proof {
                assert(jobs@.take(0) =~= Seq::<JobContent>::empty());
            }
            while k < jobs.len()
                invariant
                    k <= jobs@.len(),
                    count <= k,
                    1 <= body.contest_id <= contests@.len(),
                    c == &contests@[body.contest_id - 1],
                    count == contest_submission_count(
                        body.user_id as int,
                        jobs@.take(k as int),
                        *c,
                    ),
                decreases jobs@.len() - k,
            {
                proof {
                    assert(jobs@.take(k + 1).drop_last() =~= jobs@.take(k as int));
                    assert(jobs@.take(k + 1).last() == jobs@[k as int]);
                }
                let job = &jobs[k];
                if check_job(job, c) && job.submission.user_id == body.user_id {
                    count += 1;
                }
                k += 1;
            }
            proof {
                assert(jobs@.take(jobs@.len() as int) =~= jobs@);
            }
            if count >= c.submission_limit {
                return Err(ApiError::RateLimit);
            }
        }
    }
    Ok(p)
}

/// The filters of a job-list query; an absent field filters nothing.
pub struct QueryJob {
    pub user_id: Option<usize>,
    pub user_name: Option<String>,
    pub contest_id: Option<usize>,
    pub problem_id: Option<usize>,
    pub language: Option<String>,
    pub from: Option<Timestamp>,
    pub to: Option<Timestamp>,
    pub state: Option<JobState>,
    pub result: Option<CaseVerdict>,
}

pub open spec fn match_job_spec(q: QueryJob, job: JobContent, users: Seq<User>) -> bool {
    &&& (q.user_id matches Some(uid) ==> uid == job.submission.user_id)
    &&& (q.user_name matches Some(name) ==> name@ == users[job.submission.user_id as int].name@)
    &&& (q.contest_id matches Some(cid) ==> cid == job.submission.contest_id)
    &&& (q.problem_id matches Some(pid) ==> pid == job.submission.problem_id)
    &&& (q.language matches Some(lang) ==> lang@ == job.submission.language@)
    &&& (q.state matches Some(st) ==> st == job.state)
    &&& (q.result matches Some(res) ==> res == job.result)
    &&& (q.from matches Some(from) ==> !ts_lt(job.created_time, from))
    &&& (q.to matches Some(to) ==> !ts_lt(to, job.created_time))
}

impl QueryJob {
    /// Whether a job passes every present filter.
    pub fn match_job(&self, job: &JobContent, users: &Vec<User>) -> (r: bool)
        requires
            self.user_name is Some ==> job.submission.user_id < users@.len(),
        ensures
            r == match_job_spec(*self, *job, users@),
    {
        match &self.user_id {
            Some(uid) => {
                if *uid != job.submission.user_id {
                    return false;
                }
            },
            None => {},
        }
        match &self.user_name {
            Some(name) => {
                let user = &users[job.submission.user_id];
                if !crate::compare::str_eq(name.as_str(), user.name.as_str()) {
                    return false;
                }
            },
            None => {},
        }
        match &self.contest_id {
            Some(cid) => {
                if *cid != job.submission.contest_id {
                    return false;
                }
            },
            None => {},
        }
        match &self.problem_id {
            Some(pid) => {
                if *pid != job.submission.problem_id {
                    return false;
                }
            },
            None => {},
        }
        match &self.language {
            Some(lang) => {
                if !crate::compare::str_eq(lang.as_str(), job.submission.language.as_str()) {
                    return false;
                }
            },
            None => {},
        }
        match &self.state {
            Some(st) => {
                if *st != job.state {
                    return false;
                }
            },
            None => {},
        }
        match &self.result {
            Some(res) => {
                if *res != job.result {
                    return false;
                }
            },
            None => {},
        }
        match &self.from {
            Some(from) => {
                if crate::timestamp::ts_before(&job.created_time, from) {
                    return false;
                }
            },
            None => {},
        }
        match &self.to {
            Some(to) => {
                if crate::timestamp::ts_before(to, &job.created_time) {
                    return false;
                }
            },
            None => {},
        }
        true
    }
}

} // verus!
