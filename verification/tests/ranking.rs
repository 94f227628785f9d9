use oj::contest::{check_job, plan_post_contest, Contest, PostContest, PostContestPlan};
use oj::job::{JobContent, PostJob};
use oj::rank::{ranklist, RankContent};
use oj::timestamp::{parse_timestamp, Timestamp};
use oj::user::{plan_post_user, root_user, PostUser, PostUserPlan, User};
use oj::wire::{parse_scoring_rule, parse_tie_breaker, JobState, ScoringRule, TieBreaker};
use oj::ApiError;

fn ts(s: &str) -> Timestamp {
    parse_timestamp(s).unwrap()
}

fn finished_job(id: usize, user_id: usize, problem_id: usize, score: u64, created: &str) -> JobContent {
    let mut job = JobContent::new(id);
    job.submission = PostJob {
        source_code: String::new(),
        language: "Rust".to_string(),
        user_id,
        contest_id: 0,
        problem_id,
    };
    job.created_time = ts(created);
    job.state = JobState::Finished;
    job.score = score;
    job
}

fn three_users() -> Vec<User> {
    vec![
        User { id: 0, name: "root".to_string() },
        User { id: 1, name: "alice".to_string() },
        User { id: 2, name: "bob".to_string() },
    ]
}

fn ranks(list: &[RankContent]) -> Vec<(usize, u64)> {
    list.iter().map(|rc| (rc.user.id, rc.rank)).collect()
}

#[test]
fn unknown_contest_is_not_found() {
    let contests: Vec<Contest> = Vec::new();
    let users = three_users();
    let jobs: Vec<JobContent> = Vec::new();
    let r = ranklist(1, &contests, &users, 1, &jobs, ScoringRule::Latest, None);
    assert!(matches!(r, Err(ApiError::NotFound)));
}

#[test]
fn contest_zero_orders_by_score_then_id() {
    // No tie-breaker: strictly descending by total score, equal scores
    // broken by ascending user id, tied entries sharing one rank.
    let contests: Vec<Contest> = Vec::new();
    let users = three_users();
    let jobs = vec![
        finished_job(0, 0, 0, 40, "2022-08-27T02:00:00.000Z"),
        finished_job(1, 1, 0, 90, "2022-08-27T02:01:00.000Z"),
        finished_job(2, 2, 0, 40, "2022-08-27T02:02:00.000Z"),
    ];
    let list = ranklist(0, &contests, &users, 1, &jobs, ScoringRule::Latest, None).unwrap();
    // alice first with 90; root and bob tie at 40, in id order, with
    // one shared rank and a gap after them.
    assert_eq!(ranks(&list), vec![(1, 1), (0, 2), (2, 2)]);
    assert_eq!(list[0].scores, vec![90]);
    assert_eq!(list[1].scores, vec![40]);
    assert_eq!(list[2].scores, vec![40]);
}

#[test]
fn rank_sequence_is_gap_tolerant() {
    let contests: Vec<Contest> = Vec::new();
    let users = three_users();
    let jobs = vec![
        finished_job(0, 0, 0, 70, "2022-08-27T02:00:00.000Z"),
        finished_job(1, 1, 0, 70, "2022-08-27T02:01:00.000Z"),
        finished_job(2, 2, 0, 10, "2022-08-27T02:02:00.000Z"),
    ];
    let list = ranklist(0, &contests, &users, 1, &jobs, ScoringRule::Latest, None).unwrap();
    assert_eq!(ranks(&list), vec![(0, 1), (1, 1), (2, 3)]);
    for i in 1..list.len() {
        assert!(list[i].rank == list[i - 1].rank || list[i].rank == (i as u64) + 1);
        assert!(list[i].rank >= list[i - 1].rank);
    }
}

#[test]
fn latest_rule_keeps_the_later_lower_score() {
    // 80 then 50 for the same user and problem leaves the cell at 50.
    let contests: Vec<Contest> = Vec::new();
    let users = three_users();
    let jobs = vec![
        finished_job(0, 1, 0, 80, "2022-08-27T02:00:00.000Z"),
        finished_job(1, 1, 0, 50, "2022-08-27T02:01:00.000Z"),
    ];
    let list = ranklist(0, &contests, &users, 1, &jobs, ScoringRule::Latest, None).unwrap();
    let alice = list.iter().find(|rc| rc.user.id == 1).unwrap();
    assert_eq!(alice.scores, vec![50]);
}

#[test]
fn default_rule_keeps_the_higher_score() {
    // The same sequence under the default rule leaves the cell at 80.
    let contests: Vec<Contest> = Vec::new();
    let users = three_users();
    let jobs = vec![
        finished_job(0, 1, 0, 80, "2022-08-27T02:00:00.000Z"),
        finished_job(1, 1, 0, 50, "2022-08-27T02:01:00.000Z"),
    ];
    let list = ranklist(0, &contests, &users, 1, &jobs, ScoringRule::Highest, None).unwrap();
    let alice = list.iter().find(|rc| rc.user.id == 1).unwrap();
    assert_eq!(alice.scores, vec![80]);
}

#[test]
fn default_rule_baseline_lands_even_at_zero() {
    // The first job for a pair always lands, even scoring zero, and a
    // later zero does not count again.
    let contests: Vec<Contest> = Vec::new();
    let users = three_users();
    let jobs = vec![
        finished_job(0, 1, 0, 0, "2022-08-27T02:00:00.000Z"),
        finished_job(1, 1, 0, 0, "2022-08-27T02:01:00.000Z"),
        finished_job(2, 2, 0, 0, "2022-08-27T02:02:00.000Z"),
    ];
    // With the submission-count tie-breaker, only applied jobs count:
    // alice has one applied job, bob one, root none.
    let list = ranklist(
        0,
        &contests,
        &users,
        1,
        &jobs,
        ScoringRule::Highest,
        Some(TieBreaker::SubmissionCount),
    )
    .unwrap();
    // All totals are zero; root (count 0) sorts before alice and bob
    // (count 1 each), and alice and bob tie.
    assert_eq!(ranks(&list), vec![(0, 1), (1, 2), (2, 2)]);
}

#[test]
fn submission_time_tie_breaker_orders_earlier_first() {
    let contests: Vec<Contest> = Vec::new();
    let users = three_users();
    let jobs = vec![
        finished_job(0, 2, 0, 60, "2022-08-27T02:00:00.000Z"),
        finished_job(1, 1, 0, 60, "2022-08-27T03:00:00.000Z"),
    ];
    let list = ranklist(
        0,
        &contests,
        &users,
        1,
        &jobs,
        ScoringRule::Latest,
        Some(TieBreaker::SubmissionTime),
    )
    .unwrap();
    // bob submitted earlier, so bob precedes alice; root, with no
    // applied submission, sorts last.
    assert_eq!(ranks(&list), vec![(2, 1), (1, 2), (0, 3)]);
}

#[test]
fn contest_ranklist_uses_declared_sets() {
    let contest = Contest {
        id: 1,
        name: "weekly".to_string(),
        from: ts("2022-08-01T00:00:00.000Z"),
        to: ts("2022-09-01T00:00:00.000Z"),
        problem_ids: vec![0, 3],
        user_ids: vec![1, 2],
        submission_limit: 0,
    };
    let users = three_users();
    let mut in_window = finished_job(0, 1, 3, 25, "2022-08-10T00:00:00.000Z");
    in_window.submission.contest_id = 1;
    let mut out_of_window = finished_job(1, 2, 0, 99, "2022-09-02T00:00:00.000Z");
    out_of_window.submission.contest_id = 1;
    let jobs = vec![in_window, out_of_window];
    let contests = vec![contest];
    assert!(check_job(&jobs[0], &contests[0]));
    assert!(!check_job(&jobs[1], &contests[0]));
    let list = ranklist(1, &contests, &users, 5, &jobs, ScoringRule::Latest, None).unwrap();
    // Only the two declared users are ranked; root is absent.
    assert_eq!(list.len(), 2);
    let alice = list.iter().find(|rc| rc.user.id == 1).unwrap();
    assert_eq!(alice.scores, vec![0, 25]);
    let bob = list.iter().find(|rc| rc.user.id == 2).unwrap();
    assert_eq!(bob.scores, vec![0, 0]);
}

#[test]
fn unfinished_jobs_do_not_count() {
    let contests: Vec<Contest> = Vec::new();
    let users = three_users();
    let mut job = finished_job(0, 1, 0, 80, "2022-08-27T02:00:00.000Z");
    job.state = JobState::Running;
    let jobs = vec![job];
    let list = ranklist(0, &contests, &users, 1, &jobs, ScoringRule::Latest, None).unwrap();
    let alice = list.iter().find(|rc| rc.user.id == 1).unwrap();
    assert_eq!(alice.scores, vec![0]);
}

#[test]
fn user_id_tie_breaker_never_shares_ranks() {
    // An unrecognized tie-breaker word falls back to the user id, and
    // distinct users then never compare equal: no shared ranks.
    let contests: Vec<Contest> = Vec::new();
    let users = three_users();
    let jobs = vec![
        finished_job(0, 0, 0, 70, "2022-08-27T02:00:00.000Z"),
        finished_job(1, 1, 0, 70, "2022-08-27T02:01:00.000Z"),
    ];
    let list = ranklist(
        0,
        &contests,
        &users,
        1,
        &jobs,
        ScoringRule::Latest,
        Some(TieBreaker::UserId),
    )
    .unwrap();
    assert_eq!(ranks(&list), vec![(0, 1), (1, 2), (2, 3)]);
}

#[test]
fn scoring_rule_words() {
    assert_eq!(parse_scoring_rule(None), ScoringRule::Latest);
    assert_eq!(parse_scoring_rule(Some("latest")), ScoringRule::Latest);
    assert_eq!(parse_scoring_rule(Some("highest")), ScoringRule::Highest);
    assert_eq!(parse_scoring_rule(Some("anything")), ScoringRule::Highest);
}

#[test]
fn tie_breaker_words() {
    assert_eq!(parse_tie_breaker(None), None);
    assert_eq!(
        parse_tie_breaker(Some("submission_time")),
        Some(TieBreaker::SubmissionTime)
    );
    assert_eq!(
        parse_tie_breaker(Some("submission_count")),
        Some(TieBreaker::SubmissionCount)
    );
    assert_eq!(parse_tie_breaker(Some("unheard_of")), Some(TieBreaker::UserId));
}

#[test]
fn user_plans() {
    let users = vec![root_user(), User { id: 1, name: "alice".to_string() }];
    // A taken name is refused.
    let body = PostUser { id: None, name: "alice".to_string() };
    assert!(matches!(plan_post_user(&body, &users), Err(ApiError::InvalidArgument)));
    // A fresh user takes the next id.
    let body = PostUser { id: None, name: "bob".to_string() };
    match plan_post_user(&body, &users) {
        Ok(PostUserPlan::Insert(u)) => {
            assert_eq!(u.id, 2);
            assert_eq!(u.name, "bob");
        },
        other => panic!("unexpected plan: {:?}", other.is_ok()),
    }
    // A given id renames an existing user.
    let body = PostUser { id: Some(1), name: "alicia".to_string() };
    match plan_post_user(&body, &users) {
        Ok(PostUserPlan::Update(u)) => {
            assert_eq!(u.id, 1);
            assert_eq!(u.name, "alicia");
        },
        other => panic!("unexpected plan: {:?}", other.is_ok()),
    }
    // A given id that names nobody is not found.
    let body = PostUser { id: Some(9), name: "carol".to_string() };
    assert!(matches!(plan_post_user(&body, &users), Err(ApiError::NotFound)));
}

#[test]
fn contest_plans() {
    let contests: Vec<Contest> = vec![Contest {
        id: 1,
        name: "weekly".to_string(),
        from: ts("2022-08-01T00:00:00.000Z"),
        to: ts("2022-09-01T00:00:00.000Z"),
        problem_ids: vec![0],
        user_ids: vec![0],
        submission_limit: 0,
    }];
    let fresh = PostContest {
        id: None,
        name: "monthly".to_string(),
        from: ts("2022-09-01T00:00:00.000Z"),
        to: ts("2022-10-01T00:00:00.000Z"),
        problem_ids: vec![0, 1],
        user_ids: vec![0, 1],
        submission_limit: 3,
    };
    match plan_post_contest(&fresh, 2, 2, &contests) {
        Ok(PostContestPlan::Insert(c)) => {
            assert_eq!(c.id, 2);
            assert_eq!(c.name, "monthly");
            assert_eq!(c.submission_limit, 3);
        },
        _ => panic!("expected an insert plan"),
    }
    // An unknown problem id in the declared set is refused.
    let mut bad = clone_post(&fresh);
    bad.problem_ids = vec![5];
    assert!(matches!(plan_post_contest(&bad, 2, 2, &contests), Err(ApiError::NotFound)));
    // An unknown user id in the declared set is refused.
    let mut bad = clone_post(&fresh);
    bad.user_ids = vec![7];
    assert!(matches!(plan_post_contest(&bad, 2, 2, &contests), Err(ApiError::NotFound)));
    // Contest id 0 is never writable.
    let mut bad = clone_post(&fresh);
    bad.id = Some(0);
    assert!(matches!(plan_post_contest(&bad, 2, 2, &contests), Err(ApiError::InvalidArgument)));
    // A known id is rewritten in place.
    let mut upd = clone_post(&fresh);
    upd.id = Some(1);
    match plan_post_contest(&upd, 2, 2, &contests) {
        Ok(PostContestPlan::Update(c)) => assert_eq!(c.id, 1),
        _ => panic!("expected an update plan"),
    }
    // An unknown id is not found.
    let mut missing = clone_post(&fresh);
    missing.id = Some(4);
    assert!(matches!(plan_post_contest(&missing, 2, 2, &contests), Err(ApiError::NotFound)));
}

fn clone_post(p: &PostContest) -> PostContest {
    PostContest {
        id: p.id,
        name: p.name.clone(),
        from: p.from,
        to: p.to,
        problem_ids: p.problem_ids.clone(),
        user_ids: p.user_ids.clone(),
        submission_limit: p.submission_limit,
    }
}
