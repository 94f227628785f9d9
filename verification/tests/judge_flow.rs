use oj::compare::compare_output;
use oj::config::{build_command, Language, Problem};
use oj::contest::Contest;
use oj::job::{
    case_verdict, deadline_micros, validate_submission, JobContent, PostJob, QueryJob, RunOutcome,
};
use oj::timestamp::{parse_timestamp, Timestamp};
use oj::user::User;
use oj::wire::{CaseVerdict, JobState, ProblemType};
use oj::ApiError;

fn ts(s: &str) -> Timestamp {
    parse_timestamp(s).unwrap()
}

fn submission(user_id: usize, contest_id: usize, problem_id: usize) -> PostJob {
    PostJob {
        source_code: "print(1)".to_string(),
        language: "Python".to_string(),
        user_id,
        contest_id,
        problem_id,
    }
}

fn python() -> Language {
    Language {
        name: "Python".to_string(),
        file_name: "main.py".to_string(),
        command: vec!["python3".to_string(), "%INPUT%".to_string()],
    }
}

#[test]
fn accepted_run_scores_both_cases() {
    // A problem with two cases of weight 50 each, output matching both
    // answers: full marks and an Accepted job.
    let mut job = JobContent::new(0);
    job.submission = submission(0, 0, 0);
    job.start_judging(2);
    job.record_compilation(true);
    let answers = ["3\n", "7\n"];
    let produced = ["3\n", "7  \n"];
    for i in 0..2 {
        let matched = compare_output(produced[i], answers[i], ProblemType::Standard);
        let verdict = case_verdict(RunOutcome::Exited, matched);
        job.record_case(i + 1, verdict, 0, 50);
    }
    job.finish_judging();
    assert_eq!(job.state, JobState::Finished);
    assert_eq!(job.result, CaseVerdict::Accepted);
    assert_eq!(job.score, 100);
    assert_eq!(job.cases[0].result, CaseVerdict::CompilationSuccess);
    assert_eq!(job.cases[1].result, CaseVerdict::Accepted);
    assert_eq!(job.cases[2].result, CaseVerdict::Accepted);
}

#[test]
fn compilation_error_settles_the_job() {
    let mut job = JobContent::new(3);
    job.start_judging(2);
    job.record_compilation(false);
    job.finish_judging();
    assert_eq!(job.cases[0].result, CaseVerdict::CompilationError);
    assert_eq!(job.result, CaseVerdict::CompilationError);
    assert_eq!(job.score, 0);
    // No case after a compilation error is ever written: both stay
    // Waiting.
    assert_eq!(job.cases[1].result, CaseVerdict::Waiting);
    assert_eq!(job.cases[2].result, CaseVerdict::Waiting);
}

#[test]
fn timeout_verdict_and_judging_proceeds() {
    // A case over its deadline is Time Limit Exceeded, and the
    // remaining cases still run.
    let mut job = JobContent::new(1);
    job.start_judging(2);
    job.record_compilation(true);
    let v1 = case_verdict(RunOutcome::TimedOut, false);
    assert_eq!(v1, CaseVerdict::TimeLimitExceeded);
    job.record_case(1, v1, 1000, 50);
    let v2 = case_verdict(RunOutcome::Exited, true);
    job.record_case(2, v2, 10, 50);
    job.finish_judging();
    assert_eq!(job.cases[1].result, CaseVerdict::TimeLimitExceeded);
    assert_eq!(job.cases[2].result, CaseVerdict::Accepted);
    // The overall result keeps the first non-neutral verdict.
    assert_eq!(job.result, CaseVerdict::TimeLimitExceeded);
    assert_eq!(job.score, 50);
}

#[test]
fn crash_is_runtime_error() {
    assert_eq!(case_verdict(RunOutcome::Crashed, false), CaseVerdict::RuntimeError);
    assert_eq!(case_verdict(RunOutcome::Exited, false), CaseVerdict::WrongAnswer);
}

#[test]
fn zero_time_limit_means_no_deadline() {
    assert_eq!(deadline_micros(0), None);
    assert_eq!(deadline_micros(1000), Some(1000));
}

#[test]
fn rejudge_only_when_finished() {
    let mut job = JobContent::new(2);
    let now = ts("2022-08-27T02:05:29.000Z");
    assert_eq!(job.rejudge_reset(now), Err(ApiError::InvalidState));
    job.start_judging(1);
    assert_eq!(job.rejudge_reset(now), Err(ApiError::InvalidState));
    job.record_compilation(true);
    job.record_case(1, CaseVerdict::Accepted, 0, 100);
    job.finish_judging();
    assert_eq!(job.rejudge_reset(now), Ok(()));
    assert_eq!(job.state, JobState::Queueing);
    assert_eq!(job.result, CaseVerdict::Waiting);
    assert_eq!(job.score, 0);
    assert_eq!(job.updated_time, now);
}

#[test]
fn delete_only_while_queueing() {
    let mut job = JobContent::new(4);
    assert_eq!(job.delete_check(), Ok(()));
    job.start_judging(0);
    assert_eq!(job.delete_check(), Err(ApiError::InvalidState));
}

#[test]
fn command_template_substitution() {
    let lang = Language {
        name: "Rust".to_string(),
        file_name: "main.rs".to_string(),
        command: vec![
            "rustc".to_string(),
            "-O".to_string(),
            "-o".to_string(),
            "%OUTPUT%".to_string(),
            "%INPUT%".to_string(),
        ],
    };
    let cmd = build_command(&lang, "/tmp/j0/main.rs", "/tmp/j0/test");
    assert_eq!(
        cmd,
        vec!["rustc", "-O", "-o", "/tmp/j0/test", "/tmp/j0/main.rs"]
    );
}

fn one_problem(id: usize) -> Problem {
    let mut p = Problem::new();
    p.id = id;
    p
}

#[test]
fn submission_checks_in_order() {
    let languages = vec![python()];
    let problems = vec![one_problem(0), one_problem(5)];
    let contests: Vec<Contest> = vec![Contest {
        id: 1,
        name: "weekly".to_string(),
        from: ts("2022-08-01T00:00:00.000Z"),
        to: ts("2022-09-01T00:00:00.000Z"),
        problem_ids: vec![0],
        user_ids: vec![0],
        submission_limit: 0,
    }];
    let jobs: Vec<JobContent> = Vec::new();
    let now = ts("2022-08-15T12:00:00.000Z");

    // Unknown language.
    let mut body = submission(0, 0, 0);
    body.language = "Cobol".to_string();
    assert_eq!(
        validate_submission(&body, &languages, &problems, 1, &contests, &jobs, now),
        Err(ApiError::NotFound)
    );
    // Unknown problem id.
    let body = submission(0, 0, 3);
    assert_eq!(
        validate_submission(&body, &languages, &problems, 1, &contests, &jobs, now),
        Err(ApiError::NotFound)
    );
    // Unknown user.
    let body = submission(9, 0, 0);
    assert_eq!(
        validate_submission(&body, &languages, &problems, 1, &contests, &jobs, now),
        Err(ApiError::NotFound)
    );
    // Unknown contest.
    let body = submission(0, 2, 0);
    assert_eq!(
        validate_submission(&body, &languages, &problems, 1, &contests, &jobs, now),
        Err(ApiError::NotFound)
    );
    // Problem exists but is outside the contest.
    let body = submission(0, 1, 5);
    assert_eq!(
        validate_submission(&body, &languages, &problems, 1, &contests, &jobs, now),
        Err(ApiError::InvalidArgument)
    );
    // All checks pass: the result is the problem's index.
    let body = submission(0, 1, 0);
    assert_eq!(
        validate_submission(&body, &languages, &problems, 1, &contests, &jobs, now),
        Ok(0)
    );
    let body = submission(0, 0, 5);
    assert_eq!(
        validate_submission(&body, &languages, &problems, 1, &contests, &jobs, now),
        Ok(1)
    );
}

#[test]
fn submission_respects_contest_window() {
    let languages = vec![python()];
    let problems = vec![one_problem(0)];
    let contests: Vec<Contest> = vec![Contest {
        id: 1,
        name: "weekly".to_string(),
        from: ts("2022-08-01T00:00:00.000Z"),
        to: ts("2022-09-01T00:00:00.000Z"),
        problem_ids: vec![0],
        user_ids: vec![0],
        submission_limit: 0,
    }];
    let jobs: Vec<JobContent> = Vec::new();
    let body = submission(0, 1, 0);
    let early = ts("2022-07-31T23:59:59.999Z");
    let late = ts("2022-09-01T00:00:00.001Z");
    assert_eq!(
        validate_submission(&body, &languages, &problems, 1, &contests, &jobs, early),
        Err(ApiError::InvalidArgument)
    );
    assert_eq!(
        validate_submission(&body, &languages, &problems, 1, &contests, &jobs, late),
        Err(ApiError::InvalidArgument)
    );
}

#[test]
fn submission_cap_gives_rate_limit() {
    let languages = vec![python()];
    let problems = vec![one_problem(0)];
    let contests: Vec<Contest> = vec![Contest {
        id: 1,
        name: "weekly".to_string(),
        from: ts("2022-08-01T00:00:00.000Z"),
        to: ts("2022-09-01T00:00:00.000Z"),
        problem_ids: vec![0],
        user_ids: vec![0],
        submission_limit: 1,
    }];
    let mut prior = JobContent::new(0);
    prior.submission = submission(0, 1, 0);
    prior.created_time = ts("2022-08-10T00:00:00.000Z");
    prior.state = JobState::Finished;
    let jobs = vec![prior];
    let body = submission(0, 1, 0);
    let now = ts("2022-08-15T12:00:00.000Z");
    assert_eq!(
        validate_submission(&body, &languages, &problems, 1, &contests, &jobs, now),
        Err(ApiError::RateLimit)
    );
}

#[test]
fn job_query_filters() {
    let mut job = JobContent::new(0);
    job.submission = submission(1, 0, 2);
    job.created_time = ts("2022-08-27T02:05:29.000Z");
    job.state = JobState::Finished;
    job.result = CaseVerdict::Accepted;
    let users = vec![
        User { id: 0, name: "root".to_string() },
        User { id: 1, name: "alice".to_string() },
    ];
    let all_open = QueryJob {
        user_id: None,
        user_name: None,
        contest_id: None,
        problem_id: None,
        language: None,
        from: None,
        to: None,
        state: None,
        result: None,
    };
    assert!(all_open.match_job(&job, &users));
    let mut q = QueryJob { user_id: Some(1), ..all_open_clone() };
    assert!(q.match_job(&job, &users));
    q.user_id = Some(0);
    assert!(!q.match_job(&job, &users));
    let q = QueryJob { user_name: Some("alice".to_string()), ..all_open_clone() };
    assert!(q.match_job(&job, &users));
    let q = QueryJob { user_name: Some("bob".to_string()), ..all_open_clone() };
    assert!(!q.match_job(&job, &users));
    let q = QueryJob { from: Some(ts("2022-08-28T00:00:00.000Z")), ..all_open_clone() };
    assert!(!q.match_job(&job, &users));
    let q = QueryJob { to: Some(ts("2022-08-28T00:00:00.000Z")), ..all_open_clone() };
    assert!(q.match_job(&job, &users));
    let q = QueryJob { state: Some(JobState::Queueing), ..all_open_clone() };
    assert!(!q.match_job(&job, &users));
    let q = QueryJob { result: Some(CaseVerdict::Accepted), ..all_open_clone() };
    assert!(q.match_job(&job, &users));
}

fn all_open_clone() -> QueryJob {
    QueryJob {
        user_id: None,
        user_name: None,
        contest_id: None,
        problem_id: None,
        language: None,
        from: None,
        to: None,
        state: None,
        result: None,
    }
}
