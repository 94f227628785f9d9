//! The ranking engine: an ordered contest ranking from the job
//! history, under a scoring rule and a tie-breaker.
//!
//! The computation runs in stages, each pinned by a specification of
//! its own: resolve the eligible users and problems, filter the job
//! history, fold the jobs into score cells, sort, and assign
//! competition ranks.

use vstd::prelude::*;
use crate::contest::{check_job, job_in_contest, Contest};
use crate::job::JobContent;
use crate::timestamp::{ts_lt, Timestamp};
use crate::user::User;
use crate::wire::{ScoringRule, TieBreaker};
use crate::ApiError;

verus! {

/// One line of a ranklist: the user, their competition rank, and their
/// per-problem score cells in eligible-problem order.
pub struct RankContent {
    pub user: User,
    pub rank: u64,
    pub scores: Vec<u64>,
}

/// A working entry of the fold, one per eligible user.
struct RankWork {
    user: User,
    scores: Vec<u64>,
    /// Which cells an applied job has touched.
    counted: Vec<bool>,
    /// How many jobs were applied for this user.
    applied_count: u64,
    /// When the user's latest applied job was created.
    applied_last: Option<Timestamp>,
}

/// The ghost image of a working entry.
pub ghost struct RankWorkV {
    pub user_id: int,
    pub user_name: Seq<char>,
    pub scores: Seq<u64>,
    pub counted: Seq<bool>,
    pub applied_count: int,
    pub applied_last: Option<Timestamp>,
}

impl RankWork {
    spec fn wv(self) -> RankWorkV {
        RankWorkV {
            user_id: self.user.id as int,
            user_name: self.user.name@,
            scores: self.scores@,
            counted: self.counted@,
            applied_count: self.applied_count as int,
            applied_last: self.applied_last,
        }
    }
}

/// The problems whose cells the ranklist carries, in order: all
/// configured problems for contest 0, the declared set otherwise.
pub open spec fn eligible_problem_ids(
    contest_id: int,
    contests: Seq<Contest>,
    problem_count: int,
) -> Seq<usize> {
    if contest_id == 0 {
        Seq::new(problem_count as nat, |i: int| i as usize)
    } else {
        contests[contest_id - 1].problem_ids@
    }
}

/// Whether a user is ranked at all: everyone for contest 0, the
/// declared set otherwise.
pub open spec fn user_eligible(u: User, contest_id: int, contests: Seq<Contest>) -> bool {
    contest_id == 0 || contests[contest_id - 1].user_ids@.contains(u.id)
}

/// A fresh entry: a zero cell per eligible problem, no applied jobs.
pub open spec fn zero_entry(u: User, problem_count: int) -> RankWorkV {
    RankWorkV {
        user_id: u.id as int,
        user_name: u.name@,
        scores: Seq::new(problem_count as nat, |i: int| 0u64),
        counted: Seq::new(problem_count as nat, |i: int| false),
        applied_count: 0,
        applied_last: None,
    }
}

/// One entry per eligible user, in stored order.
pub open spec fn seeded(
    users: Seq<User>,
    contest_id: int,
    contests: Seq<Contest>,
    problem_count: int,
) -> Seq<RankWorkV>
    decreases users.len(),
{
    if users.len() == 0 {
        Seq::empty()
    } else {
        seeded(users.drop_last(), contest_id, contests, problem_count) + if user_eligible(
            users.last(),
            contest_id,
            contests,
        ) {
            seq![zero_entry(users.last(), problem_count)]
        } else {
            Seq::empty()
        }
    }
}

/// The jobs the fold reads, in submission order: every finished job
/// for contest 0, those that count toward the contest otherwise.
pub open spec fn filtered_jobs(
    jobs: Seq<JobContent>,
    contest_id: int,
    contests: Seq<Contest>,
) -> Seq<JobContent>
    decreases jobs.len(),
{
    if jobs.len() == 0 {
        Seq::empty()
    } else {
        filtered_jobs(jobs.drop_last(), contest_id, contests) + if (contest_id == 0
            && jobs.last().state == crate::wire::JobState::Finished) || (contest_id != 0
            && job_in_contest(jobs.last(), contests[contest_id - 1])) {
            seq![jobs.last()]
        } else {
            Seq::empty()
        }
    }
}

/// The first entry of this user, or the length if none is.
pub open spec fn first_user_index(ws: Seq<RankWorkV>, uid: int) -> int
    decreases ws.len(),
{
    if ws.len() == 0 {
        0
    } else if ws[0].user_id == uid {
        0
    } else {
        1 + first_user_index(ws.drop_first(), uid)
    }
}

/// The first cell of this problem, or the length if none is.
pub open spec fn first_cell_index(problem_ids: Seq<usize>, pid: int) -> int
    decreases problem_ids.len(),
{
    if problem_ids.len() == 0 {
        0
    } else if problem_ids[0] == pid {
        0
    } else {
        1 + first_cell_index(problem_ids.drop_first(), pid)
    }
}

/// The later of an optional instant and a new one.
pub open spec fn max_time(o: Option<Timestamp>, t: Timestamp) -> Option<Timestamp> {
    match o {
        None => Some(t),
        Some(u) => if ts_lt(u, t) {
            Some(t)
        } else {
            Some(u)
        },
    }
}

/// Whether a job, landing on this entry and cell, is applied: under
/// `Latest` always; under `Highest` only as the first job for the pair
/// or with a strictly higher score.
pub open spec fn job_applies(w: RankWorkV, ci: int, score: u64, rule: ScoringRule) -> bool {
    match rule {
        ScoringRule::Latest => true,
        ScoringRule::Highest => !w.counted[ci] || score > w.scores[ci],
    }
}

/// One job folded into the entries: its user's entry and its problem's
/// cell found, the cell overwritten when the job applies, and the
/// tie-break statistics advanced with it. A job whose user or problem
/// has no entry or cell is ignored.
pub open spec fn apply_job(
    ws: Seq<RankWorkV>,
    job: JobContent,
    rule: ScoringRule,
    problem_ids: Seq<usize>,
) -> Seq<RankWorkV> {
    let ui = first_user_index(ws, job.submission.user_id as int);
    let ci = first_cell_index(problem_ids, job.submission.problem_id as int);
    if ui < ws.len() && ci < problem_ids.len() && job_applies(ws[ui], ci, job.score, rule) {
        ws.update(
            ui,
            RankWorkV {
                scores: ws[ui].scores.update(ci, job.score),
                counted: ws[ui].counted.update(ci, true),
                applied_count: ws[ui].applied_count + 1,
                applied_last: max_time(ws[ui].applied_last, job.created_time),
                ..ws[ui]
            },
        )
    } else {
        ws
    }
}

/// The jobs folded into the entries, in submission order.
pub open spec fn fold_jobs(
    ws: Seq<RankWorkV>,
    jobs: Seq<JobContent>,
    rule: ScoringRule,
    problem_ids: Seq<usize>,
) -> Seq<RankWorkV>
    decreases jobs.len(),
{
    if jobs.len() == 0 {
        ws
    } else {
        apply_job(fold_jobs(ws, jobs.drop_last(), rule, problem_ids), jobs.last(), rule, problem_ids)
    }
}

/// A user's total: the sum of their cells.
pub open spec fn sum_scores(s: Seq<u64>) -> int
    decreases s.len(),
{
    if s.len() == 0 {
        0
    } else {
        sum_scores(s.drop_last()) + s.last()
    }
}

/// Where an absent latest-applied time sorts: after every real
/// instant.
pub open spec fn time_key(o: Option<Timestamp>) -> int {
    match o {
        None => u64::MAX as int,
        Some(t) => t.key(),
    }
}

/// The tie-break key, ascending: nothing without a tie-breaker, the
/// latest applied time, the applied count, or the user id.
pub open spec fn tie_key(tie: Option<TieBreaker>, w: RankWorkV) -> int {
    match tie {
        None => 0,
        Some(TieBreaker::SubmissionTime) => time_key(w.applied_last),
        Some(TieBreaker::SubmissionCount) => w.applied_count,
        Some(TieBreaker::UserId) => w.user_id,
    }
}

/// The ranklist order: total score descending, then the tie-break key
/// ascending, then user id ascending.
pub open spec fn work_le(tie: Option<TieBreaker>, a: RankWorkV, b: RankWorkV) -> bool {
    ||| sum_scores(a.scores) > sum_scores(b.scores)
    ||| (sum_scores(a.scores) == sum_scores(b.scores) && tie_key(tie, a) < tie_key(tie, b))
    ||| (sum_scores(a.scores) == sum_scores(b.scores) && tie_key(tie, a) == tie_key(tie, b)
        && a.user_id <= b.user_id)
}

/// When two adjacent entries share one rank number: the full
/// comparator judges them equal — same total, same tie-break key.
pub open spec fn work_rank_eq(tie: Option<TieBreaker>, a: RankWorkV, b: RankWorkV) -> bool {
    sum_scores(a.scores) == sum_scores(b.scores) && tie_key(tie, a) == tie_key(tie, b)
}

/// The entry of this user.
pub open spec fn work_for(ws: Seq<RankWorkV>, uid: int) -> RankWorkV {
    ws[first_user_index(ws, uid)]
}

proof fn lemma_first_user_index_bounds(ws: Seq<RankWorkV>, uid: int)
    ensures
        0 <= first_user_index(ws, uid) <= ws.len(),
        first_user_index(ws, uid) < ws.len() ==> ws[first_user_index(ws, uid)].user_id == uid,
        forall|j: int| 0 <= j < first_user_index(ws, uid) ==> (#[trigger] ws[j]).user_id != uid,
    decreases ws.len(),
{
    if ws.len() > 0 && ws[0].user_id != uid {
        lemma_first_user_index_bounds(ws.drop_first(), uid);
        if first_user_index(ws, uid) < ws.len() {
            assert(ws.drop_first()[first_user_index(ws.drop_first(), uid)] == ws[first_user_index(
                ws,
                uid,
            )]);
        }
        assert forall|j: int| 0 <= j < first_user_index(ws, uid) implies (#[trigger] ws[j]).user_id
            != uid by {
            if j > 0 {
                assert(ws.drop_first()[j - 1] == ws[j]);
            }
        }
    }
}

proof fn lemma_first_cell_index_bounds(problem_ids: Seq<usize>, pid: int)
    ensures
        0 <= first_cell_index(problem_ids, pid) <= problem_ids.len(),
        first_cell_index(problem_ids, pid) < problem_ids.len() ==> problem_ids[first_cell_index(
            problem_ids,
            pid,
        )] == pid,
    decreases problem_ids.len(),
{
    if problem_ids.len() > 0 && problem_ids[0] != pid {
        lemma_first_cell_index_bounds(problem_ids.drop_first(), pid);
        if first_cell_index(problem_ids, pid) < problem_ids.len() {
            assert(problem_ids.drop_first()[first_cell_index(problem_ids.drop_first(), pid)]
                == problem_ids[first_cell_index(problem_ids, pid)]);
        }
    }
}

proof fn lemma_first_user_index_at(ws: Seq<RankWorkV>, uid: int, i: int)
    requires
        0 <= i <= ws.len(),
        forall|j: int| 0 <= j < i ==> (#[trigger] ws[j]).user_id != uid,
        i < ws.len() ==> ws[i].user_id == uid,
    ensures
        first_user_index(ws, uid) == i,
    decreases ws.len(),
{
    if ws.len() == 0 {
    } else if ws[0].user_id == uid {
    } else {
        assert forall|j: int| 0 <= j < i - 1 implies (#[trigger] ws.drop_first()[j]).user_id
            != uid by {
            assert(ws.drop_first()[j] == ws[j + 1]);
        }
        if i - 1 < ws.drop_first().len() {
            assert(ws.drop_first()[i - 1] == ws[i]);
        }
        lemma_first_user_index_at(ws.drop_first(), uid, i - 1);
    }
}

proof fn lemma_first_cell_index_at(problem_ids: Seq<usize>, pid: int, i: int)
    requires
        0 <= i <= problem_ids.len(),
        forall|j: int| 0 <= j < i ==> #[trigger] problem_ids[j] != pid,
        i < problem_ids.len() ==> problem_ids[i] == pid,
    ensures
        first_cell_index(problem_ids, pid) == i,
    decreases problem_ids.len(),
{
    if problem_ids.len() == 0 {
    } else if problem_ids[0] == pid {
    } else {
        assert forall|j: int| 0 <= j < i - 1 implies #[trigger] problem_ids.drop_first()[j]
            != pid by {
            assert(problem_ids.drop_first()[j] == problem_ids[j + 1]);
        }
        if i - 1 < problem_ids.drop_first().len() {
            assert(problem_ids.drop_first()[i - 1] == problem_ids[i]);
        }
        lemma_first_cell_index_at(problem_ids.drop_first(), pid, i - 1);
    }
}

/// Folding one job keeps the entry list's length.
proof fn lemma_apply_len(
    ws: Seq<RankWorkV>,
    job: JobContent,
    rule: ScoringRule,
    problem_ids: Seq<usize>,
)
    ensures
        apply_job(ws, job, rule, problem_ids).len() == ws.len(),
{
    lemma_first_user_index_bounds(ws, job.submission.user_id as int);
    lemma_first_cell_index_bounds(problem_ids, job.submission.problem_id as int);
}

/// Folding never moves, adds or renames entries: it only rewrites
/// cells and statistics.
proof fn lemma_fold_preserves_users(
    ws: Seq<RankWorkV>,
    jobs: Seq<JobContent>,
    rule: ScoringRule,
    problem_ids: Seq<usize>,
)
    ensures
        fold_jobs(ws, jobs, rule, problem_ids).len() == ws.len(),
        forall|k: int|
            0 <= k < ws.len() ==> (#[trigger] fold_jobs(ws, jobs, rule, problem_ids)[k]).user_id
                == ws[k].user_id && fold_jobs(ws, jobs, rule, problem_ids)[k].user_name
                == ws[k].user_name,
    decreases jobs.len(),
{
    if jobs.len() > 0 {
        lemma_fold_preserves_users(ws, jobs.drop_last(), rule, problem_ids);
        let prev = fold_jobs(ws, jobs.drop_last(), rule, problem_ids);
        let cur = fold_jobs(ws, jobs, rule, problem_ids);
        assert(cur == apply_job(prev, jobs.last(), rule, problem_ids));
        lemma_apply_len(prev, jobs.last(), rule, problem_ids);
        assert forall|k: int|
            0 <= k < ws.len() implies (#[trigger] cur[k]).user_id == ws[k].user_id
            && cur[k].user_name == ws[k].user_name by {
            assert(prev[k].user_id == ws[k].user_id && prev[k].user_name == ws[k].user_name);
            let j = jobs.last();
            let ui = first_user_index(prev, j.submission.user_id as int);
            let ci = first_cell_index(problem_ids, j.submission.problem_id as int);
            lemma_first_user_index_bounds(prev, j.submission.user_id as int);
            lemma_first_cell_index_bounds(problem_ids, j.submission.problem_id as int);
            if ui < prev.len() && ci < problem_ids.len() && job_applies(prev[ui], ci, j.score, rule) {
                let upd = RankWorkV {
                    scores: prev[ui].scores.update(ci, j.score),
                    counted: prev[ui].counted.update(ci, true),
                    applied_count: prev[ui].applied_count + 1,
                    applied_last: max_time(prev[ui].applied_last, j.created_time),
                    ..prev[ui]
                };
                assert(cur == prev.update(ui, upd));
                if k != ui {
                    assert(cur[k] == prev[k]);
                }
            } else {
                assert(cur == prev);
            }
        }
    }
}

/// With distinct stored users, the seeded entries bear distinct ids,
/// each some user's.
proof fn lemma_seeded_ids(users: Seq<User>, contest_id: int, contests: Seq<Contest>, np: int)
    requires
        forall|i: int, j: int|
            0 <= i < j < users.len() ==> (#[trigger] users[i]).id != (#[trigger] users[j]).id,
    ensures
        seeded(users, contest_id, contests, np).len() <= users.len(),
        forall|a: int|
            0 <= a < seeded(users, contest_id, contests, np).len() ==> exists|j: int|
                0 <= j < users.len() && (#[trigger] seeded(users, contest_id, contests, np)[a]).user_id
                    == (#[trigger] users[j]).id,
        forall|a: int, b: int|
            0 <= a < b < seeded(users, contest_id, contests, np).len() ==> (#[trigger] seeded(
                users,
                contest_id,
                contests,
                np,
            )[a]).user_id != (#[trigger] seeded(users, contest_id, contests, np)[b]).user_id,
    decreases users.len(),
{
    if users.len() > 0 {
        let w = users.drop_last();
        let s = seeded(users, contest_id, contests, np);
        let sw = seeded(w, contest_id, contests, np);
        lemma_seeded_ids(w, contest_id, contests, np);
        assert forall|a: int| 0 <= a < s.len() implies exists|j: int|
            0 <= j < users.len() && (#[trigger] s[a]).user_id == (#[trigger] users[j]).id by {
            if a < sw.len() {
                assert(s[a] == sw[a]);
                let j = choose|j: int| 0 <= j < w.len() && sw[a].user_id == (#[trigger] w[j]).id;
                assert(users[j] == w[j]);
                assert(0 <= j < users.len() && s[a].user_id == users[j].id);
            } else {
                assert(s[a] == zero_entry(users.last(), np));
                assert(s[a].user_id == users[users.len() - 1].id);
            }
        }
        assert forall|a: int, b: int| 0 <= a < b < s.len() implies (#[trigger] s[a]).user_id != (
        #[trigger] s[b]).user_id by {
            if b < sw.len() {
                assert(s[a] == sw[a] && s[b] == sw[b]);
            } else {
                assert(s[a] == sw[a]);
                assert(s[b] == zero_entry(users.last(), np));
                let j = choose|j: int| 0 <= j < w.len() && sw[a].user_id == (#[trigger] w[j]).id;
                assert(users[j] == w[j]);
                assert(users[j].id != users.last().id);
            }
        }
    }
}

/// A total never tops one maximal cell per problem.
proof fn lemma_sum_bound(s: Seq<u64>)
    ensures
        0 <= sum_scores(s) <= s.len() * (u64::MAX as int),
    decreases s.len(),
{
    if s.len() > 0 {
        lemma_sum_bound(s.drop_last());
        assert((s.len() - 1) * (u64::MAX as int) + (u64::MAX as int) == s.len() * (
        u64::MAX as int)) by (nonlinear_arith);
    }
}

/// A sortable line: an entry with its totals made explicit.
struct RankRow {
    user: User,
    scores: Vec<u64>,
    /// The sum of the cells.
    total: u128,
    /// The tie-break key, already on one ascending scale.
    tkey: u64,
}

/// A row faithfully mirrors its user's folded entry.
spec fn row_ok(row: RankRow, works: Seq<RankWorkV>, tie: Option<TieBreaker>) -> bool {
    let k = first_user_index(works, row.user.id as int);
    &&& 0 <= k < works.len()
    &&& row.user.name@ == works[k].user_name
    &&& row.scores@ == works[k].scores
    &&& row.total as int == sum_scores(works[k].scores)
    &&& row.tkey as int == tie_key(tie, works[k])
}

/// The ranklist order on rows: total descending, tie-break key
/// ascending, user id ascending.
spec fn row_le(a: RankRow, b: RankRow) -> bool {
    ||| a.total > b.total
    ||| (a.total == b.total && a.tkey < b.tkey)
    ||| (a.total == b.total && a.tkey == b.tkey && a.user.id <= b.user.id)
}

/// What a row carries into the ranklist.
spec fn row_content(r: RankRow) -> (int, Seq<char>, Seq<u64>) {
    (r.user.id as int, r.user.name@, r.scores@)
}

/// What a folded entry owes the ranklist.
pub open spec fn work_content(w: RankWorkV) -> (int, Seq<char>, Seq<u64>) {
    (w.user_id, w.user_name, w.scores)
}

/// What a ranklist line carries.
pub open spec fn out_content(rc: RankContent) -> (int, Seq<char>, Seq<u64>) {
    (rc.user.id as int, rc.user.name@, rc.scores@)
}

fn row_le_exec(a: &RankRow, b: &RankRow) -> (r: bool)
    ensures
        r == row_le(*a, *b),
{
    if a.total > b.total {
        true
    } else if a.total == b.total && a.tkey < b.tkey {
        true
    } else if a.total == b.total && a.tkey == b.tkey && a.user.id <= b.user.id {
        true
    } else {
        false
    }
}

/// Order the rows: total descending, tie-break key ascending, user id
/// ascending. The content is a permutation of what came in, and every
/// row still mirrors its folded entry.
fn sort_rows(rows: Vec<RankRow>, Ghost(works): Ghost<Seq<RankWorkV>>, Ghost(tie): Ghost<
    Option<TieBreaker>,
>) -> (out: Vec<RankRow>)
    requires
        forall|i: int| 0 <= i < rows@.len() ==> row_ok(#[trigger] rows@[i], works, tie),
    ensures
        out@.len() == rows@.len(),
        forall|i: int| 0 <= i < out@.len() ==> row_ok(#[trigger] out@[i], works, tie),
        forall|i: int, j: int| 0 <= i < j < out@.len() ==> row_le(out@[i], out@[j]),
        out@.map_values(|r: RankRow| row_content(r)).to_multiset() == rows@.map_values(
            |r: RankRow| row_content(r),
        ).to_multiset(),
{
    broadcast use vstd::seq_lib::group_to_multiset_ensures;

    let ghost full = rows@.map_values(|r: RankRow| row_content(r));
    let mut src = rows;
    let mut out: Vec<RankRow> = Vec::new();
    proof {
        assert(out@.map_values(|r: RankRow| row_content(r)) =~= Seq::<(
            int,
            Seq<char>,
            Seq<u64>,
        )>::empty());
        assert(out@.map_values(|r: RankRow| row_content(r)).to_multiset().add(
            src@.map_values(|r: RankRow| row_content(r)).to_multiset(),
        ) =~= full.to_multiset());
    }
    while src.len() > 0
        invariant
            out@.len() + src@.len() == full.len(),
            forall|i: int| 0 <= i < out@.len() ==> row_ok(#[trigger] out@[i], works, tie),
            forall|i: int| 0 <= i < src@.len() ==> row_ok(#[trigger] src@[i], works, tie),
            forall|i: int, j: int| 0 <= i < j < out@.len() ==> row_le(out@[i], out@[j]),
            forall|i: int, j: int|
                0 <= i < out@.len() && 0 <= j < src@.len() ==> row_le(out@[i], src@[j]),
            out@.map_values(|r: RankRow| row_content(r)).to_multiset().add(
                src@.map_values(|r: RankRow| row_content(r)).to_multiset(),
            ) == full.to_multiset(),
        decreases src@.len(),
    {
        let mut m: usize = 0;
        let mut j: usize = 1;
        while j < src.len()
            invariant
                m < j <= src@.len(),
                forall|k: int| 0 <= k < j ==> row_le(src@[m as int], #[trigger] src@[k]),
            decreases src@.len() - j,
        {
            if row_le_exec(&src[j], &src[m]) {
                m = j;
            }
            j += 1;
        }
        let ghost src_before = src@;
        let ghost out_before = out@;
        let row = src.remove(m);
        out.push(row);
        proof {
            let f = |r: RankRow| row_content(r);
            assert(src@ =~= src_before.remove(m as int));
            assert(src@.map_values(f) =~= src_before.map_values(f).remove(m as int));
            assert(out@.map_values(f) =~= out_before.map_values(f).push(f(row)));
            assert(src_before.map_values(f)[m as int] == f(row));
            vstd::seq_lib::to_multiset_remove(src_before.map_values(f), m as int);
            vstd::seq_lib::to_multiset_build(out_before.map_values(f), f(row));
            vstd::seq_lib::to_multiset_contains(src_before.map_values(f), f(row));
            assert(src_before.map_values(f).contains(f(row)));
            assert(src_before.map_values(f).to_multiset().count(f(row)) > 0);
            assert(out@.map_values(f).to_multiset().add(src@.map_values(f).to_multiset())
                =~= full.to_multiset());
            assert forall|i: int| 0 <= i < src@.len() implies row_ok(
                #[trigger] src@[i],
                works,
                tie,
            ) by {
                if i < m {
                    assert(src@[i] == src_before[i]);
                } else {
                    assert(src@[i] == src_before[i + 1]);
                }
            }
            assert forall|i: int, j2: int|
                0 <= i < out@.len() && 0 <= j2 < src@.len() implies row_le(
                out@[i],
                src@[j2],
            ) by {
                let orig = if j2 < m {
                    j2
                } else {
                    j2 + 1
                };
                assert(src@[j2] == src_before[orig]);
                if i < out_before.len() {
                    assert(row_le(out_before[i], src_before[orig]));
                } else {
                    assert(out@[i] == row);
                    assert(row_le(src_before[m as int], src_before[orig]));
                }
            }
            assert forall|i: int, j2: int|
                0 <= i < j2 < out@.len() implies row_le(out@[i], out@[j2]) by {
                if j2 < out_before.len() {
                } else {
                    assert(out@[j2] == row);
                    assert(row_le(out_before[i], src_before[m as int]));
                }
            }
        }
    }
    proof {
        assert(src@.map_values(|r: RankRow| row_content(r)) =~= Seq::<(
            int,
            Seq<char>,
            Seq<u64>,
        )>::empty());
        assert(out@.map_values(|r: RankRow| row_content(r)).to_multiset() =~= full.to_multiset());
    }
    out
}

/// An instant on the single scale, executably.
fn ts_key_exec(t: &Timestamp) -> (k: u64)
    ensures
        k as int == t.key(),
        k < u64::MAX,
{
    (((((t.year as u64 * 13 + t.month as u64) * 32 + t.day as u64) * 24 + t.hour as u64) * 60
        + t.minute as u64) * 60 + t.second as u64) * 1000 + t.millisecond as u64
}

/// A line of the ranklist mirrors its user's folded entry.
pub open spec fn out_ok(rc: RankContent, works: Seq<RankWorkV>) -> bool {
    let k = first_user_index(works, rc.user.id as int);
    &&& 0 <= k < works.len()
    &&& rc.user.name@ == works[k].user_name
    &&& rc.scores@ == works[k].scores
}

/// The folded entries of a ranklist request: one per eligible user,
/// every counting job folded in.
pub open spec fn standings(
    contest_id: int,
    contests: Seq<Contest>,
    users: Seq<User>,
    problem_count: int,
    jobs: Seq<JobContent>,
    rule: ScoringRule,
) -> Seq<RankWorkV> {
    let pids = eligible_problem_ids(contest_id, contests, problem_count);
    fold_jobs(
        seeded(users, contest_id, contests, pids.len() as int),
        filtered_jobs(jobs, contest_id, contests),
        rule,
        pids,
    )
}

/// The ordered contest ranking, recomputed from the whole job history.
///
/// An unknown contest id is refused. Otherwise the list holds exactly
/// the eligible users with their folded score cells, ordered by total
/// descending with the tie-breaker and then the user id breaking ties,
/// and competition ranks assigned: the first entry ranks 1, each later
/// entry shares its predecessor's rank exactly when the full
/// comparator judges them equal, and otherwise takes its 1-based
/// position, so ranks may skip over tied groups.
#[verifier::rlimit(50)]
pub fn ranklist(
    contest_id: usize,
    contests: &Vec<Contest>,
    users: &Vec<User>,
    problem_count: usize,
    jobs: &Vec<JobContent>,
    rule: ScoringRule,
    tie: Option<TieBreaker>,
) -> (r: Result<Vec<RankContent>, ApiError>)
    requires
        forall|i: int, j: int|
            0 <= i < j < users@.len() ==> (#[trigger] users@[i]).id != (#[trigger] users@[j]).id,
    ensures
        match r {
            Err(e) => e == ApiError::NotFound && contest_id > contests@.len(),
            Ok(list) => {
                let works = standings(
                    contest_id as int,
                    contests@,
                    users@,
                    problem_count as int,
                    jobs@,
                    rule,
                );
                &&& contest_id <= contests@.len()
                &&& list@.len() == works.len()
                &&& (forall|i: int| 0 <= i < list@.len() ==> out_ok(#[trigger] list@[i], works))
                &&& list@.map_values(|rc: RankContent| out_content(rc)).to_multiset()
                    == works.map_values(|w: RankWorkV| work_content(w)).to_multiset()
                &&& (forall|i: int, j: int|
                    0 <= i < j < list@.len() ==> work_le(
                        tie,
                        work_for(works, (#[trigger] list@[i]).user.id as int),
                        work_for(works, (#[trigger] list@[j]).user.id as int),
                    ))
                &&& (list@.len() > 0 ==> list@[0].rank == 1)
                &&& (forall|i: int|
                    1 <= i < list@.len() ==> (#[trigger] list@[i]).rank == (if work_rank_eq(
                        tie,
                        work_for(works, list@[i - 1].user.id as int),
                        work_for(works, list@[i].user.id as int),
                    ) {
                        list@[i - 1].rank
                    } else {
                        (i + 1) as u64
                    }))
                &&& (forall|i: int|
                    1 <= i < list@.len() ==> (#[trigger] list@[i]).rank == list@[i - 1].rank
                        || list@[i].rank == (i + 1) as u64)
                &&& (forall|i: int|
                    1 <= i < list@.len() ==> (#[trigger] list@[i]).rank >= list@[i - 1].rank)
            },
        },
{
    if contest_id > contests.len() {
        return Err(ApiError::NotFound);
    }
    let ghost gpids = eligible_problem_ids(contest_id as int, contests@, problem_count as int);
    let mut pids: Vec<usize> = Vec::new();
    if contest_id == 0 {
        let mut i: usize = 0;
        while i < problem_count
            invariant
                i <= problem_count,
                pids@.len() == i,
                forall|k: int| 0 <= k < i ==> pids@[k] == k,
            decreases problem_count - i,
        {
            pids.push(i);
            i += 1;
        }
    } else {
        let src = &contests[contest_id - 1].problem_ids;
        let mut i: usize = 0;
        while i < src.len()
            invariant
                i <= src@.len(),
                pids@ =~= src@.take(i as int),
            decreases src@.len() - i,
        {
            pids.push(src[i]);
            i += 1;
        }
        proof {
            assert(src@.take(src@.len() as int) =~= src@);
        }
    }
    proof {
        assert(pids@ =~= gpids);
    }
    let np = pids.len();

    // Seed one working entry per eligible user, in stored order.
    let mut entries: Vec<RankWork> = Vec::new();
    let mut u: usize = 0;
    proof {
        assert(users@.take(0) =~= Seq::<User>::empty());
        assert(entries@.map_values(|w: RankWork| w.wv()) =~= seeded(
            users@.take(0),
            contest_id as int,
            contests@,
            np as int,
        ));
    }
    while u < users.len()
        invariant
            u <= users@.len(),
            contest_id <= contests@.len(),
            np == gpids.len(),
            entries@.map_values(|w: RankWork| w.wv()) == seeded(
                users@.take(u as int),
                contest_id as int,
                contests@,
                np as int,
            ),
            forall|k: int|
                0 <= k < entries@.len() ==> (#[trigger] entries@[k]).scores@.len() == np
                    && entries@[k].counted@.len() == np,
            forall|k: int| 0 <= k < entries@.len() ==> (#[trigger] entries@[k]).applied_count == 0,
        decreases users@.len() - u,
    {
        proof {
            assert(users@.take(u + 1).drop_last() =~= users@.take(u as int));
            assert(users@.take(u + 1).last() == users@[u as int]);
        }
        let eligible = if contest_id == 0 {
            true
        } else {
            crate::contest::contains_usize(&contests[contest_id - 1].user_ids, users[u].id)
        };
        if eligible {
            let mut zscores: Vec<u64> = Vec::new();
            let mut zcounted: Vec<bool> = Vec::new();
            let mut z: usize = 0;
            while z < np
                invariant
                    z <= np,
                    zscores@.len() == z,
                    zcounted@.len() == z,
                    forall|k: int| 0 <= k < z ==> zscores@[k] == 0u64,
                    forall|k: int| 0 <= k < z ==> zcounted@[k] == false,
                decreases np - z,
            {
                zscores.push(0);
                zcounted.push(false);
                z += 1;
            }
            let w = RankWork {
                user: User { id: users[u].id, name: users[u].name.clone() },
                scores: zscores,
                counted: zcounted,
                applied_count: 0,
                applied_last: None,
            };
            let ghost before = entries@.map_values(|w2: RankWork| w2.wv());
            proof {
                assert(w.wv().scores =~= zero_entry(users@[u as int], np as int).scores);
                assert(w.wv().counted =~= zero_entry(users@[u as int], np as int).counted);
                assert(w.wv() == zero_entry(users@[u as int], np as int));
            }
            entries.push(w);
            proof {
                assert(entries@.map_values(|w2: RankWork| w2.wv()) =~= before.push(
                    zero_entry(users@[u as int], np as int),
                ));
                assert(entries@.map_values(|w2: RankWork| w2.wv()) =~= seeded(
                    users@.take(u + 1),
                    contest_id as int,
                    contests@,
                    np as int,
                ));
            }
        } else {
            proof {
                assert(entries@.map_values(|w2: RankWork| w2.wv()) =~= seeded(
                    users@.take(u + 1),
                    contest_id as int,
                    contests@,
                    np as int,
                ));
            }
        }
        u += 1;
    }
    proof {
        assert(users@.take(users@.len() as int) =~= users@);
    }
    let ghost seed0 = seeded(users@, contest_id as int, contests@, np as int);

    // Fold the jobs, in submission order, skipping those that do not
    // count toward the contest.
    let mut ji: usize = 0;
    proof {
        assert(jobs@.take(0) =~= Seq::<JobContent>::empty());
    }
    while ji < jobs.len()
        invariant
            ji <= jobs@.len(),
            contest_id <= contests@.len(),
            np == gpids.len(),
            pids@ == gpids,
            seed0 == seeded(users@, contest_id as int, contests@, np as int),
            entries@.map_values(|w: RankWork| w.wv()) == fold_jobs(
                seed0,
                filtered_jobs(jobs@.take(ji as int), contest_id as int, contests@),
                rule,
                gpids,
            ),
            forall|k: int|
                0 <= k < entries@.len() ==> (#[trigger] entries@[k]).scores@.len() == np
                    && entries@[k].counted@.len() == np,
            forall|k: int|
                0 <= k < entries@.len() ==> (#[trigger] entries@[k]).applied_count <= ji,
        decreases jobs@.len() - ji,
    {
        let ghost ev = entries@.map_values(|w: RankWork| w.wv());
        proof {
            assert(jobs@.take(ji + 1).drop_last() =~= jobs@.take(ji as int));
            assert(jobs@.take(ji + 1).last() == jobs@[ji as int]);
        }
        let counts = if contest_id == 0 {
            jobs[ji].state == crate::wire::JobState::Finished
        } else {
            check_job(&jobs[ji], &contests[contest_id - 1])
        };
        proof {
            if counts {
                assert(filtered_jobs(jobs@.take(ji + 1), contest_id as int, contests@)
                    =~= filtered_jobs(jobs@.take(ji as int), contest_id as int, contests@)
                    + seq![jobs@[ji as int]]);
            } else {
                assert(filtered_jobs(jobs@.take(ji + 1), contest_id as int, contests@)
                    =~= filtered_jobs(jobs@.take(ji as int), contest_id as int, contests@));
            }
        }
        if counts {
            let job = &jobs[ji];
            let ghost jv = jobs@[ji as int];
            // Find the job's entry and cell; a miss on either ignores
            // the job.
            let mut ui: usize = 0;
            while ui < entries.len() && entries[ui].user.id != job.submission.user_id
                invariant
                    ui <= entries@.len(),
                    forall|k: int|
                        0 <= k < ui ==> (#[trigger] entries@[k]).user.id
                            != job.submission.user_id,
                decreases entries@.len() - ui,
            {
                ui += 1;
            }
            let mut ci: usize = 0;
            while ci < pids.len() && pids[ci] != job.submission.problem_id
                invariant
                    ci <= pids@.len(),
                    forall|k: int| 0 <= k < ci ==> #[trigger] pids@[k] != job.submission.problem_id,
                decreases pids@.len() - ci,
            {
                ci += 1;
            }
            proof {
                assert(jv == *job);
                assert forall|k: int| 0 <= k < ui implies (#[trigger] ev[k]).user_id
                    != jv.submission.user_id as int by {
                    assert(ev[k] == entries@[k].wv());
                }
                if (ui as int) < ev.len() {
                    assert(ev[ui as int] == entries@[ui as int].wv());
                }
                lemma_first_user_index_at(ev, jv.submission.user_id as int, ui as int);
                lemma_first_cell_index_at(gpids, jv.submission.problem_id as int, ci as int);
            }
            if ui < entries.len() && ci < np {
                let applies = match rule {
                    ScoringRule::Latest => true,
                    ScoringRule::Highest => {
                        !entries[ui].counted[ci] || job.score > entries[ui].scores[ci]
                    },
                };
                proof {
                    assert(ev[ui as int] == entries@[ui as int].wv());
                    assert(applies == job_applies(ev[ui as int], ci as int, jv.score, rule));
                }
                if applies {
                    let score = job.score;
                    let created = job.created_time;
                    let ghost entries_before = entries@;
                    let w = &mut entries[ui];
                    w.scores[ci] = score;
                    w.counted[ci] = true;
                    w.applied_count = w.applied_count + 1;
                    w.applied_last = match w.applied_last {
                        None => Some(created),
                        Some(prev) => {
                            if crate::timestamp::ts_before(&prev, &created) {
                                Some(created)
                            } else {
                                Some(prev)
                            }
                        },
                    };
                    proof {
                        let nw = entries@[ui as int];
                        assert(entries@ =~= entries_before.update(ui as int, nw));
                        assert(nw.wv().scores =~= ev[ui as int].scores.update(
                            ci as int,
                            jv.score,
                        ));
                        assert(nw.wv().counted =~= ev[ui as int].counted.update(ci as int, true));
                        assert(nw.wv() == (RankWorkV {
                            scores: ev[ui as int].scores.update(ci as int, jv.score),
                            counted: ev[ui as int].counted.update(ci as int, true),
                            applied_count: ev[ui as int].applied_count + 1,
                            applied_last: max_time(ev[ui as int].applied_last, jv.created_time),
                            ..ev[ui as int]
                        }));
                        assert(entries@.map_values(|w2: RankWork| w2.wv()) =~= ev.update(
                            ui as int,
                            nw.wv(),
                        ));
                        assert(entries@.map_values(|w2: RankWork| w2.wv()) =~= apply_job(
                            ev,
                            jv,
                            rule,
                            gpids,
                        ));
                        assert forall|k: int|
                            0 <= k < entries@.len() implies (#[trigger] entries@[k]).applied_count
                            <= ji + 1 by {
                            if k != ui {
                                assert(entries@[k] == entries_before[k]);
                            }
                        }
                    }
                } else {
                    proof {
                        assert(entries@.map_values(|w2: RankWork| w2.wv()) =~= apply_job(
                            ev,
                            jv,
                            rule,
                            gpids,
                        ));
                    }
                }
            } else {
                proof {
                    assert(entries@.map_values(|w2: RankWork| w2.wv()) =~= apply_job(
                        ev,
                        jv,
                        rule,
                        gpids,
                    ));
                }
            }
            proof {
                let fprev = filtered_jobs(jobs@.take(ji as int), contest_id as int, contests@);
                let fnext = filtered_jobs(jobs@.take(ji + 1), contest_id as int, contests@);
                assert(fnext =~= fprev + seq![jv]);
                assert((fprev + seq![jv]).drop_last() =~= fprev);
                assert((fprev + seq![jv]).last() == jv);
                assert(fold_jobs(seed0, fnext, rule, gpids) == apply_job(
                    fold_jobs(seed0, fprev, rule, gpids),
                    jv,
                    rule,
                    gpids,
                ));
            }
        }
        ji += 1;
    }
    proof {
        assert(jobs@.take(jobs@.len() as int) =~= jobs@);
    }
    let ghost works = standings(
        contest_id as int,
        contests@,
        users@,
        problem_count as int,
        jobs@,
        rule,
    );
    proof {
        assert(entries@.map_values(|w: RankWork| w.wv()) == works);
    }

    // The folded entries bear distinct user ids: each is its own
    // user's first entry.
    proof {
        lemma_seeded_ids(users@, contest_id as int, contests@, np as int);
        lemma_fold_preserves_users(
            seed0,
            filtered_jobs(jobs@, contest_id as int, contests@),
            rule,
            gpids,
        );
        assert forall|a: int, b: int|
            0 <= a < b < works.len() implies (#[trigger] works[a]).user_id != (
        #[trigger] works[b]).user_id by {
            assert(works[a].user_id == seed0[a].user_id);
            assert(works[b].user_id == seed0[b].user_id);
        }
    }

    // Make the totals and tie-break keys explicit, row by row.
    let mut rows: Vec<RankRow> = Vec::new();
    let ghost total_count = works.len();
    let mut k: usize = 0;
    while entries.len() > 0
        invariant
            k + entries@.len() == total_count,
            total_count == works.len(),
            total_count <= usize::MAX,
            entries@.map_values(|w: RankWork| w.wv()) =~= works.skip(k as int),
            rows@.len() == k,
            forall|i: int| 0 <= i < k ==> row_ok(#[trigger] rows@[i], works, tie),
            rows@.map_values(|r: RankRow| row_content(r)) =~= works.take(k as int).map_values(
                |w: RankWorkV| work_content(w),
            ),
            forall|a: int, b: int|
                0 <= a < b < works.len() ==> (#[trigger] works[a]).user_id != (
                #[trigger] works[b]).user_id,
        decreases entries@.len(),
    {
        let ghost entries_before = entries@;
        let e = entries.remove(0);
        proof {
            assert(entries@ =~= entries_before.remove(0));
            assert(e == entries_before[0]);
            assert(entries_before.map_values(|w: RankWork| w.wv())[0] == e.wv());
            assert(works.skip(k as int)[0] == works[k as int]);
            assert(e.wv() == works[k as int]);
            assert forall|j: int| 0 <= j < entries@.len() implies entries@.map_values(
                |w: RankWork| w.wv(),
            )[j] == #[trigger] works.skip(k + 1)[j] by {
                assert(entries@[j] == entries_before[j + 1]);
                assert(entries_before.map_values(|w: RankWork| w.wv())[j + 1] == entries_before[j
                    + 1].wv());
                assert(works.skip(k as int)[j + 1] == works[k + 1 + j]);
                assert(works.skip(k + 1)[j] == works[k + 1 + j]);
            }
            assert(entries@.map_values(|w: RankWork| w.wv()) =~= works.skip(k + 1));
        }
        let total = sum_exec(&e.scores);
        let tkey: u64 = match tie {
            None => 0,
            Some(TieBreaker::SubmissionTime) => {
                match &e.applied_last {
                    None => u64::MAX,
                    Some(t) => ts_key_exec(t),
                }
            },
            Some(TieBreaker::SubmissionCount) => e.applied_count,
            Some(TieBreaker::UserId) => e.user.id as u64,
        };
        let row = RankRow { user: e.user, scores: e.scores, total, tkey };
        proof {
            assert forall|j: int| 0 <= j < k implies (#[trigger] works[j]).user_id
                != works[k as int].user_id by {}
            lemma_first_user_index_at(works, works[k as int].user_id, k as int);
            assert(row_ok(row, works, tie));
        }
        let ghost rows_before = rows@;
        rows.push(row);
        proof {
            assert(rows@.map_values(|r: RankRow| row_content(r)) =~= rows_before.map_values(
                |r: RankRow| row_content(r),
            ).push(row_content(row)));
            assert(works.take(k + 1) =~= works.take(k as int).push(works[k as int]));
            assert(works.take(k + 1).map_values(|w: RankWorkV| work_content(w)) =~= works.take(
                k as int,
            ).map_values(|w: RankWorkV| work_content(w)).push(work_content(works[k as int])));
            assert(rows@.map_values(|r: RankRow| row_content(r)) =~= works.take(k + 1).map_values(
                |w: RankWorkV| work_content(w),
            ));
        }
        k += 1;
    }
    proof {
        assert(works.take(works.len() as int) =~= works);
        assert(rows@.map_values(|r: RankRow| row_content(r)) =~= works.map_values(
            |w: RankWorkV| work_content(w),
        ));
    }

    let mut sorted = sort_rows(rows, Ghost(works), Ghost(tie));
    let ghost srows = sorted@;

    // Assign competition ranks down the ordered rows.
    let n = sorted.len();
    let mut list: Vec<RankContent> = Vec::new();
    let mut prev_total: u128 = 0;
    let mut prev_tkey: u64 = 0;
    let mut prev_rank: u64 = 0;
    let mut i: usize = 0;
    while i < n
        invariant
            i <= n,
            n == srows.len(),
            sorted@ =~= srows.skip(i as int),
            list@.len() == i,
            forall|idx: int| 0 <= idx < srows.len() ==> row_ok(#[trigger] srows[idx], works, tie),
            forall|a: int, b: int| 0 <= a < b < srows.len() ==> row_le(srows[a], srows[b]),
            forall|idx: int|
                0 <= idx < i ==> (#[trigger] list@[idx]).user == srows[idx].user && list@[idx].scores
                    == srows[idx].scores,
            i > 0 ==> list@[0].rank == 1,
            i > 0 ==> prev_rank == list@[i - 1].rank && prev_total == srows[i - 1].total
                && prev_tkey == srows[i - 1].tkey,
            i > 0 ==> 1 <= prev_rank <= i,
            forall|idx: int| 1 <= idx < i ==> (#[trigger] list@[idx]).rank >= list@[idx - 1].rank,
            forall|idx: int|
                1 <= idx < i ==> (#[trigger] list@[idx]).rank == (if srows[idx - 1].total
                    == srows[idx].total && srows[idx - 1].tkey == srows[idx].tkey {
                    list@[idx - 1].rank
                } else {
                    (idx + 1) as u64
                }),
        decreases n - i,
    {
        let ghost sorted_before = sorted@;
        let row = sorted.remove(0);
        proof {
            assert(sorted@ =~= sorted_before.drop_first());
            assert(sorted@ =~= srows.skip(i + 1));
            assert(row == srows[i as int]);
        }
        let rank: u64 = if i == 0 {
            1
        } else if row.total == prev_total && row.tkey == prev_tkey {
            prev_rank
        } else {
            (i as u64) + 1
        };
        prev_total = row.total;
        prev_tkey = row.tkey;
        prev_rank = rank;
        list.push(RankContent { user: row.user, rank, scores: row.scores });
        i += 1;
    }

    proof {
        assert(srows.skip(srows.len() as int) =~= Seq::<RankRow>::empty());
        assert(list@.map_values(|rc: RankContent| out_content(rc)) =~= srows.map_values(
            |r: RankRow| row_content(r),
        ));
        assert forall|idx: int| 0 <= idx < list@.len() implies out_ok(
            #[trigger] list@[idx],
            works,
        ) by {
            assert(row_ok(srows[idx], works, tie));
            assert(list@[idx].user == srows[idx].user);
        }
        assert forall|a: int, b: int| 0 <= a < b < list@.len() implies work_le(
            tie,
            work_for(works, (#[trigger] list@[a]).user.id as int),
            work_for(works, (#[trigger] list@[b]).user.id as int),
        ) by {
            assert(row_le(srows[a], srows[b]));
            assert(row_ok(srows[a], works, tie));
            assert(row_ok(srows[b], works, tie));
            lemma_first_user_index_bounds(works, srows[a].user.id as int);
            lemma_first_user_index_bounds(works, srows[b].user.id as int);
        }
        assert forall|idx: int|
            1 <= idx < list@.len() implies (#[trigger] list@[idx]).rank == (if work_rank_eq(
            tie,
            work_for(works, list@[idx - 1].user.id as int),
            work_for(works, list@[idx].user.id as int),
        ) {
            list@[idx - 1].rank
        } else {
            (idx + 1) as u64
        }) by {
            assert(row_ok(srows[idx - 1], works, tie));
            assert(row_ok(srows[idx], works, tie));
            lemma_first_user_index_bounds(works, srows[idx - 1].user.id as int);
            lemma_first_user_index_bounds(works, srows[idx].user.id as int);
        }
    }
    Ok(list)
}

/// Entries whose cell vectors match the eligible problem count.
pub open spec fn entries_wf(ws: Seq<RankWorkV>, problem_count: int) -> bool {
    forall|k: int|
        0 <= k < ws.len() ==> (#[trigger] ws[k]).scores.len() == problem_count
            && ws[k].counted.len() == problem_count
}

/// Updating one entry's cells or statistics moves no user.
proof fn lemma_update_keeps_index(
    ws: Seq<RankWorkV>,
    ws2: Seq<RankWorkV>,
    uid: int,
)
    requires
        ws2.len() == ws.len(),
        forall|k: int| 0 <= k < ws.len() ==> (#[trigger] ws2[k]).user_id == ws[k].user_id,
    ensures
        first_user_index(ws2, uid) == first_user_index(ws, uid),
{
    lemma_first_user_index_bounds(ws, uid);
    let i = first_user_index(ws, uid);
    assert forall|j: int| 0 <= j < i implies (#[trigger] ws2[j]).user_id != uid by {
        assert(ws[j].user_id != uid);
    }
    lemma_first_user_index_at(ws2, uid, i);
}

/// Under the "latest" rule, the second of two submissions for one
/// (user, problem) pair leaves the cell at its own score, even a lower
/// one.
pub proof fn lemma_latest_rule(
    ws: Seq<RankWorkV>,
    j1: JobContent,
    j2: JobContent,
    problem_ids: Seq<usize>,
)
    requires
        j1.submission.user_id == j2.submission.user_id,
        j1.submission.problem_id == j2.submission.problem_id,
        first_user_index(ws, j1.submission.user_id as int) < ws.len(),
        first_cell_index(problem_ids, j1.submission.problem_id as int) < problem_ids.len(),
        entries_wf(ws, problem_ids.len() as int),
    ensures
        ({
            let ui = first_user_index(ws, j1.submission.user_id as int);
            let ci = first_cell_index(problem_ids, j1.submission.problem_id as int);
            fold_jobs(ws, seq![j1, j2], ScoringRule::Latest, problem_ids)[ui].scores[ci]
                == j2.score
        }),
{
    let uid = j1.submission.user_id as int;
    let pid = j1.submission.problem_id as int;
    let ui = first_user_index(ws, uid);
    let ci = first_cell_index(problem_ids, pid);
    lemma_first_user_index_bounds(ws, uid);
    lemma_first_cell_index_bounds(problem_ids, pid);
    let two = seq![j1, j2];
    assert(two.drop_last() =~= seq![j1]);
    assert(two.last() == j2);
    assert(seq![j1].drop_last() =~= Seq::<JobContent>::empty());
    assert(seq![j1].last() == j1);
    let ws1 = apply_job(ws, j1, ScoringRule::Latest, problem_ids);
    assert(fold_jobs(ws, Seq::<JobContent>::empty(), ScoringRule::Latest, problem_ids) == ws);
    assert(fold_jobs(ws, seq![j1], ScoringRule::Latest, problem_ids) == ws1);
    assert(fold_jobs(ws, two, ScoringRule::Latest, problem_ids) == apply_job(
        ws1,
        j2,
        ScoringRule::Latest,
        problem_ids,
    ));
    assert(ws1.len() == ws.len());
    assert forall|k: int| 0 <= k < ws.len() implies (#[trigger] ws1[k]).user_id
        == ws[k].user_id by {}
    lemma_update_keeps_index(ws, ws1, uid);
    let ws2 = apply_job(ws1, j2, ScoringRule::Latest, problem_ids);
    assert(ws2[ui].scores[ci] == j2.score);
}

/// Under the default rule, the first submission for a pair always
/// lands, and a later one only with a strictly higher score: 80 then
/// 50 leaves the cell at 80.
pub proof fn lemma_highest_rule(
    ws: Seq<RankWorkV>,
    j1: JobContent,
    j2: JobContent,
    problem_ids: Seq<usize>,
)
    requires
        j1.submission.user_id == j2.submission.user_id,
        j1.submission.problem_id == j2.submission.problem_id,
        first_user_index(ws, j1.submission.user_id as int) < ws.len(),
        first_cell_index(problem_ids, j1.submission.problem_id as int) < problem_ids.len(),
        !ws[first_user_index(ws, j1.submission.user_id as int)].counted[first_cell_index(
            problem_ids,
            j1.submission.problem_id as int,
        )],
        entries_wf(ws, problem_ids.len() as int),
    ensures
        ({
            let ui = first_user_index(ws, j1.submission.user_id as int);
            let ci = first_cell_index(problem_ids, j1.submission.problem_id as int);
            fold_jobs(ws, seq![j1, j2], ScoringRule::Highest, problem_ids)[ui].scores[ci] == (
            if j2.score > j1.score {
                j2.score
            } else {
                j1.score
            })
        }),
{
    let uid = j1.submission.user_id as int;
    let pid = j1.submission.problem_id as int;
    let ui = first_user_index(ws, uid);
    let ci = first_cell_index(problem_ids, pid);
    lemma_first_user_index_bounds(ws, uid);
    lemma_first_cell_index_bounds(problem_ids, pid);
    let two = seq![j1, j2];
    assert(two.drop_last() =~= seq![j1]);
    assert(two.last() == j2);
    assert(seq![j1].drop_last() =~= Seq::<JobContent>::empty());
    assert(seq![j1].last() == j1);
    let ws1 = apply_job(ws, j1, ScoringRule::Highest, problem_ids);
    assert(job_applies(ws[ui], ci, j1.score, ScoringRule::Highest));
    assert(ws1[ui].scores[ci] == j1.score);
    assert(ws1[ui].counted[ci]);
    assert(fold_jobs(ws, Seq::<JobContent>::empty(), ScoringRule::Highest, problem_ids) == ws);
    assert(fold_jobs(ws, seq![j1], ScoringRule::Highest, problem_ids) == ws1);
    assert(fold_jobs(ws, two, ScoringRule::Highest, problem_ids) == apply_job(
        ws1,
        j2,
        ScoringRule::Highest,
        problem_ids,
    ));
    assert(ws1.len() == ws.len());
    assert forall|k: int| 0 <= k < ws.len() implies (#[trigger] ws1[k]).user_id
        == ws[k].user_id by {}
    lemma_update_keeps_index(ws, ws1, uid);
    let ws2 = apply_job(ws1, j2, ScoringRule::Highest, problem_ids);
    if j2.score > j1.score {
        assert(job_applies(ws1[ui], ci, j2.score, ScoringRule::Highest));
        assert(ws2[ui].scores[ci] == j2.score);
    } else {
        assert(!job_applies(ws1[ui], ci, j2.score, ScoringRule::Highest));
        assert(ws2 == ws1);
    }
}

/// A user's total, executably.
fn sum_exec(s: &Vec<u64>) -> (total: u128)
    ensures
        total as int == sum_scores(s@),
{
    let mut total: u128 = 0;
    let mut i: usize = 0;
    proof {
        assert(s@.take(0) =~= Seq::<u64>::empty());
    }
    while i < s.len()
        invariant
            i <= s@.len(),
            total as int == sum_scores(s@.take(i as int)),
        decreases s@.len() - i,
    {
        proof {
            assert(s@.take(i + 1).drop_last() =~= s@.take(i as int));
            assert(s@.take(i + 1).last() == s@[i as int]);
            lemma_sum_bound(s@.take(i as int));
            assert((i as int) * (u64::MAX as int) + (u64::MAX as int) < u128::MAX as int)
                by (nonlinear_arith)
                requires
                    0 <= i <= usize::MAX,
            ;
        }
        total = total + s[i] as u128;
        i += 1;
    }
    proof {
        assert(s@.take(s@.len() as int) =~= s@);
    }
    total
}

} // verus!
