//! The closed vocabularies of the wire contract: job states, case and
//! job verdicts, problem types, scoring rules and tie-breakers, each
//! with its one canonical string form.

use vstd::prelude::*;
use crate::compare::str_eq;

verus! {

/// Lifecycle state of a job. Monotonic Queueing -> Running -> Finished,
/// except a re-judge, which resets a Finished job to Queueing.
#[derive(Clone, Copy, PartialEq, Eq, Structural, Debug)]
pub enum JobState {
    Queueing,
    Running,
    Finished,
}

impl JobState {
    pub open spec fn str_spec(self) -> Seq<char> {
        match self {
            JobState::Queueing => "Queueing"@,
            JobState::Running => "Running"@,
            JobState::Finished => "Finished"@,
        }
    }

    /// The canonical string of the wire contract.
    pub fn as_str(&self) -> (r: &'static str)
        ensures
            r@ == self.str_spec(),
    {
        proof {
            reveal_strlit("Queueing");
            reveal_strlit("Running");
            reveal_strlit("Finished");
        }
        match *self {
            JobState::Queueing => "Queueing",
            JobState::Running => "Running",
            JobState::Finished => "Finished",
        }
    }
}

/// Outcome of one case, or of a whole job. Index 0 of a job's case list
/// carries the compilation outcome, so the two compilation verdicts live
/// in the same vocabulary.
#[derive(Clone, Copy, PartialEq, Eq, Structural, Debug)]
pub enum CaseVerdict {
    Waiting,
    Accepted,
    WrongAnswer,
    TimeLimitExceeded,
    RuntimeError,
    CompilationError,
    CompilationSuccess,
}

impl CaseVerdict {
    pub open spec fn str_spec(self) -> Seq<char> {
        match self {
            CaseVerdict::Waiting => "Waiting"@,
            CaseVerdict::Accepted => "Accepted"@,
            CaseVerdict::WrongAnswer => "Wrong Answer"@,
            CaseVerdict::TimeLimitExceeded => "Time Limit Exceeded"@,
            CaseVerdict::RuntimeError => "Runtime Error"@,
            CaseVerdict::CompilationError => "Compilation Error"@,
            CaseVerdict::CompilationSuccess => "Compilation Success"@,
        }
    }

    /// The canonical string of the wire contract.
    pub fn as_str(&self) -> (r: &'static str)
        ensures
            r@ == self.str_spec(),
    {
        proof {
            reveal_strlit("Waiting");
            reveal_strlit("Accepted");
            reveal_strlit("Wrong Answer");
            reveal_strlit("Time Limit Exceeded");
            reveal_strlit("Runtime Error");
            reveal_strlit("Compilation Error");
            reveal_strlit("Compilation Success");
        }
        match *self {
            CaseVerdict::Waiting => "Waiting",
            CaseVerdict::Accepted => "Accepted",
            CaseVerdict::WrongAnswer => "Wrong Answer",
            CaseVerdict::TimeLimitExceeded => "Time Limit Exceeded",
            CaseVerdict::RuntimeError => "Runtime Error",
            CaseVerdict::CompilationError => "Compilation Error",
            CaseVerdict::CompilationSuccess => "Compilation Success",
        }
    }

    /// Whether this verdict keeps a job's overall result as it is: the
    /// overall result stays at the first verdict that is neither of these.
    pub open spec fn is_neutral_overall(self) -> bool {
        self == CaseVerdict::Waiting || self == CaseVerdict::Accepted
    }
}

/// How produced output is held against the expected answer.
#[derive(Clone, Copy, PartialEq, Eq, Structural, Debug)]
pub enum ProblemType {
    Standard,
    Strict,
    Spj,
    DynamicRanking,
}

impl ProblemType {
    pub open spec fn str_spec(self) -> Seq<char> {
        match self {
            ProblemType::Standard => "standard"@,
            ProblemType::Strict => "strict"@,
            ProblemType::Spj => "spj"@,
            ProblemType::DynamicRanking => "dynamic_ranking"@,
        }
    }

    pub fn as_str(&self) -> (r: &'static str)
        ensures
            r@ == self.str_spec(),
    {
        proof {
            reveal_strlit("standard");
            reveal_strlit("strict");
            reveal_strlit("spj");
            reveal_strlit("dynamic_ranking");
        }
        match *self {
            ProblemType::Standard => "standard",
            ProblemType::Strict => "strict",
            ProblemType::Spj => "spj",
            ProblemType::DynamicRanking => "dynamic_ranking",
        }
    }
}

/// Policy resolving several submissions to one problem into one counted
/// score. `Latest` lets every job overwrite the cell; `Highest` applies
/// a job only if it is the first for its (user, problem) pair or beats
/// the current cell strictly.
#[derive(Clone, Copy, PartialEq, Eq, Structural, Debug)]
pub enum ScoringRule {
    Latest,
    Highest,
}

/// Secondary ordering key applied when total scores tie.
#[derive(Clone, Copy, PartialEq, Eq, Structural, Debug)]
pub enum TieBreaker {
    SubmissionTime,
    SubmissionCount,
    UserId,
}

impl JobState {
    /// The state a wire string names, if any.
    pub fn from_str(s: &str) -> (r: Option<JobState>)
        ensures
            match r {
                Some(v) => s@ == v.str_spec(),
                None => s@ != "Queueing"@ && s@ != "Running"@ && s@ != "Finished"@,
            },
    {
        if str_eq(s, "Queueing") {
            Some(JobState::Queueing)
        } else if str_eq(s, "Running") {
            Some(JobState::Running)
        } else if str_eq(s, "Finished") {
            Some(JobState::Finished)
        } else {
            None
        }
    }
}

impl CaseVerdict {
    /// The verdict a wire string names, if any.
    pub fn from_str(s: &str) -> (r: Option<CaseVerdict>)
        ensures
            match r {
                Some(v) => s@ == v.str_spec(),
                None => s@ != "Waiting"@ && s@ != "Accepted"@ && s@ != "Wrong Answer"@ && s@
                    != "Time Limit Exceeded"@ && s@ != "Runtime Error"@ && s@
                    != "Compilation Error"@ && s@ != "Compilation Success"@,
            },
    {
        if str_eq(s, "Waiting") {
            Some(CaseVerdict::Waiting)
        } else if str_eq(s, "Accepted") {
            Some(CaseVerdict::Accepted)
        } else if str_eq(s, "Wrong Answer") {
            Some(CaseVerdict::WrongAnswer)
        } else if str_eq(s, "Time Limit Exceeded") {
            Some(CaseVerdict::TimeLimitExceeded)
        } else if str_eq(s, "Runtime Error") {
            Some(CaseVerdict::RuntimeError)
        } else if str_eq(s, "Compilation Error") {
            Some(CaseVerdict::CompilationError)
        } else if str_eq(s, "Compilation Success") {
            Some(CaseVerdict::CompilationSuccess)
        } else {
            None
        }
    }
}

impl ProblemType {
    /// The comparison mode a configuration string names, if any.
    pub fn from_str(s: &str) -> (r: Option<ProblemType>)
        ensures
            match r {
                Some(v) => s@ == v.str_spec(),
                None => s@ != "standard"@ && s@ != "strict"@ && s@ != "spj"@ && s@
                    != "dynamic_ranking"@,
            },
    {
        if str_eq(s, "standard") {
            Some(ProblemType::Standard)
        } else if str_eq(s, "strict") {
            Some(ProblemType::Strict)
        } else if str_eq(s, "spj") {
            Some(ProblemType::Spj)
        } else if str_eq(s, "dynamic_ranking") {
            Some(ProblemType::DynamicRanking)
        } else {
            None
        }
    }
}

/// The scoring rule a request names: absent or `latest` lets every job
/// overwrite its cell, any other word keeps the strictly highest.
pub fn parse_scoring_rule(rule: Option<&str>) -> (r: ScoringRule)
    ensures
        r == match rule {
            None => ScoringRule::Latest,
            Some(s) => if s@ == "latest"@ {
                ScoringRule::Latest
            } else {
                ScoringRule::Highest
            },
        },
{
    match rule {
        None => ScoringRule::Latest,
        Some(s) => {
            if str_eq(s, "latest") {
                ScoringRule::Latest
            } else {
                ScoringRule::Highest
            }
        },
    }
}

/// The tie-breaker a request names: absent means none, the two known
/// words name their statistics, and any other word falls back to the
/// user id.
pub fn parse_tie_breaker(t: Option<&str>) -> (r: Option<TieBreaker>)
    ensures
        r == match t {
            None => Option::<TieBreaker>::None,
            Some(s) => if s@ == "submission_time"@ {
                Some(TieBreaker::SubmissionTime)
            } else if s@ == "submission_count"@ {
                Some(TieBreaker::SubmissionCount)
            } else {
                Some(TieBreaker::UserId)
            },
        },
{
    match t {
        None => None,
        Some(s) => {
            if str_eq(s, "submission_time") {
                Some(TieBreaker::SubmissionTime)
            } else if str_eq(s, "submission_count") {
                Some(TieBreaker::SubmissionCount)
            } else {
                Some(TieBreaker::UserId)
            }
        },
    }
}

} // verus!
