//! Contests: eligibility of jobs, the id-list codec of the record
//! store, and the decision behind contest creation.

use vstd::prelude::*;
use vstd::string::StringExecFns;
use crate::job::JobContent;
use crate::text::{
    dec_digit_char, dec_digits, dec_val, is_dec_str, lemma_first_sep_at, parse_u64_str, split_sep,
    split_str, usize_to_string,
};
use crate::timestamp::{ts_lt, Timestamp};
use crate::wire::JobState;
use crate::ApiError;

verus! {

/// A contest: its window, its eligible sets, and its submission cap.
pub struct Contest {
    pub id: usize,
    pub name: String,
    pub from: Timestamp,
    pub to: Timestamp,
    pub problem_ids: Vec<usize>,
    pub user_ids: Vec<usize>,
    /// 0 means no limit.
    pub submission_limit: u64,
}

/// A contest-creation request: a fresh contest, or a rewrite when an
/// id is given.
pub struct PostContest {
    pub id: Option<usize>,
    pub name: String,
    pub from: Timestamp,
    pub to: Timestamp,
    pub problem_ids: Vec<usize>,
    pub user_ids: Vec<usize>,
    pub submission_limit: u64,
}

/// Whether a job counts toward a contest: its ids in the eligible
/// sets, its creation inside the window, and judging done.
pub open spec fn job_in_contest(job: JobContent, c: Contest) -> bool {
    &&& job.submission.contest_id == c.id
    &&& c.user_ids@.contains(job.submission.user_id)
    &&& c.problem_ids@.contains(job.submission.problem_id)
    &&& !ts_lt(c.to, job.created_time)
    &&& !ts_lt(job.created_time, c.from)
    &&& job.state == JobState::Finished
}

/// Whether `v` holds `x`.
pub fn contains_usize(v: &Vec<usize>, x: usize) -> (r: bool)
    ensures
        r == v@.contains(x),
{
    let mut i: usize = 0;
    while i < v.len()
        invariant
            i <= v@.len(),
            forall|j: int| 0 <= j < i ==> v@[j] != x,
        decreases v@.len() - i,
    {
        if v[i] == x {
            return true;
        }
        i += 1;
    }
    false
}

/// Whether a job counts toward a contest.
pub fn check_job(job: &JobContent, contest: &Contest) -> (r: bool)
    ensures
        r == job_in_contest(*job, *contest),
{
    if contest.id != job.submission.contest_id {
        return false;
    }
    if !contains_usize(&contest.user_ids, job.submission.user_id) {
        return false;
    }
    if !contains_usize(&contest.problem_ids, job.submission.problem_id) {
        return false;
    }
    if crate::timestamp::ts_before(&contest.to, &job.created_time) {
        return false;
    }
    if crate::timestamp::ts_before(&job.created_time, &contest.from) {
        return false;
    }
    if job.state != JobState::Finished {
        return false;
    }
    true
}

/// The store's text for an id list: the decimal numerals joined by
/// commas.
pub open spec fn format_vec_spec(v: Seq<usize>) -> Seq<char>
    decreases v.len(),
{
    if v.len() == 0 {
        Seq::empty()
    } else if v.len() == 1 {
        dec_digits(v[0] as nat)
    } else {
        format_vec_spec(v.drop_last()) + seq![','] + dec_digits(v.last() as nat)
    }
}

/// Render an id list for the record store.
pub fn format_vec(v: &Vec<usize>) -> (s: String)
    ensures
        s@ == format_vec_spec(v@),
{
    proof {
        reveal_strlit(",");
    }
    let mut s = String::new();
    let mut i: usize = 0;
    proof {
        assert(s@ =~= format_vec_spec(v@.take(0)));
    }
    while i < v.len()
        invariant
            i <= v@.len(),
            s@ == format_vec_spec(v@.take(i as int)),
        decreases v@.len() - i,
    {
        proof {
            reveal_strlit(",");
            assert(","@ =~= seq![',']);
            assert(v@.take(i + 1).drop_last() =~= v@.take(i as int));
            assert(v@.take(i + 1).last() == v@[i as int]);
            assert(v@.take(i + 1).len() == i + 1);
        }
        if i > 0 {
            s.append(",");
        }
        let digits = usize_to_string(v[i]);
        s.append(digits.as_str());
        proof {
            if i == 0 {
                assert(format_vec_spec(v@.take(1)) == dec_digits(v@.take(1)[0] as nat));
                assert(v@.take(1)[0] == v@[0]);
                assert(s@ =~= format_vec_spec(v@.take(i + 1)));
            } else {
                assert(s@ =~= format_vec_spec(v@.take(i + 1)));
            }
        }
        i += 1;
    }
    proof {
        assert(v@.take(v@.len() as int) =~= v@);
    }
    s
}

/// Text that [`parse_vec`] accepts: comma-separated decimal fragments,
/// each nonempty, each of a value that fits.
pub open spec fn valid_vec_str(s: Seq<char>) -> bool {
    let parts = split_sep(s, ',');
    forall|i: int|
        0 <= i < parts.len() ==> is_dec_str(#[trigger] parts[i]) && dec_val(parts[i]) <= usize::MAX
}

/// Read an id list back from the record store's text.
pub fn parse_vec(s: String) -> (r: Vec<usize>)
    requires
        valid_vec_str(s@),
    ensures
        r@.len() == split_sep(s@, ',').len(),
        forall|i: int|
            0 <= i < r@.len() ==> r@[i] == dec_val(#[trigger] split_sep(s@, ',')[i]),
{
    let parts = split_str(s.as_str(), ',');
    let mut r: Vec<usize> = Vec::new();
    let mut i: usize = 0;
    while i < parts.len()
        invariant
            i <= parts@.len(),
            parts.deep_view() == split_sep(s@, ','),
            valid_vec_str(s@),
            r@.len() == i,
            forall|j: int| 0 <= j < i ==> r@[j] == dec_val(#[trigger] split_sep(s@, ',')[j]),
        decreases parts@.len() - i,
    {
        proof {
            assert(parts.deep_view()[i as int] == parts@[i as int]@);
        }
        let x = parse_u64_str(parts[i].as_str());
        r.push(x as usize);
        i += 1;
    }
    r
}

/// A numeral holds digits alone.
pub proof fn lemma_dec_digits_are_digits(n: nat)
    ensures
        is_dec_str(dec_digits(n)),
        !dec_digits(n).contains(','),
    decreases n,
{
    if n >= 10 {
        lemma_dec_digits_are_digits(n / 10);
        assert forall|i: int| 0 <= i < dec_digits(n).len() implies crate::text::is_dec_digit(
            #[trigger] dec_digits(n)[i],
        ) by {
            if i < dec_digits(n).len() - 1 {
                assert(dec_digits(n)[i] == dec_digits(n / 10)[i]);
            }
        }
        if dec_digits(n).contains(',') {
            let i = choose|i: int| 0 <= i < dec_digits(n).len() && dec_digits(n)[i] == ',';
        }
    } else {
        if dec_digits(n).contains(',') {
            let i = choose|i: int| 0 <= i < dec_digits(n).len() && dec_digits(n)[i] == ',';
        }
    }
}

/// A numeral reads back to its value.
pub proof fn lemma_dec_digits_val(n: nat)
    ensures
        dec_val(dec_digits(n)) == n,
    decreases n,
{
    if n < 10 {
        crate::text::lemma_digit_char_val(n);
        assert(dec_digits(n).drop_last() =~= Seq::<char>::empty());
        assert(dec_val(Seq::<char>::empty()) == 0);
        assert(dec_digits(n).last() == dec_digit_char(n));
        assert(dec_val(dec_digits(n)) == 10 * dec_val(Seq::<char>::empty()) + crate::text::dec_digit_val(dec_digit_char(n)));
    } else {
        lemma_dec_digits_val(n / 10);
        crate::text::lemma_digit_char_val(n % 10);
        assert(dec_digits(n).drop_last() =~= dec_digits(n / 10));
        assert(dec_digits(n).last() == dec_digit_char(n % 10));
        assert(dec_val(dec_digits(n)) == 10 * dec_val(dec_digits(n / 10))
            + crate::text::dec_digit_val(dec_digit_char(n % 10)));
    }
}

/// What a contest-creation request shall do to the stored contests.
pub enum PostContestPlan {
    /// Append this fresh contest, under the next free id.
    Insert(Contest),
    /// Replace the stored contest of the same id with this one.
    Update(Contest),
}

/// The planned contest carries the request's fields under the given id.
pub open spec fn contest_matches(c: Contest, body: PostContest, id: int) -> bool {
    &&& c.id == id
    &&& c.name@ == body.name@
    &&& c.from == body.from
    &&& c.to == body.to
    &&& c.problem_ids@ == body.problem_ids@
    &&& c.user_ids@ == body.user_ids@
    &&& c.submission_limit == body.submission_limit
}

/// Some declared problem id names no configured problem.
pub open spec fn has_unknown_problem(body: PostContest, problem_count: int) -> bool {
    exists|i: int| 0 <= i < body.problem_ids@.len() && #[trigger] body.problem_ids@[i] >= problem_count
}

/// Some declared user id names no registered user.
pub open spec fn has_unknown_user(body: PostContest, user_count: int) -> bool {
    exists|i: int| 0 <= i < body.user_ids@.len() && #[trigger] body.user_ids@[i] >= user_count
}

/// Some stored contest carries this id.
pub open spec fn contest_id_known(contests: Seq<Contest>, id: int) -> bool {
    exists|j: int| 0 <= j < contests.len() && (#[trigger] contests[j]).id == id
}

/// Decide a contest-creation request against the configuration and the
/// stored contests: every declared id must exist, id 0 is never a
/// contest, a given id must name a stored contest to rewrite, and a
/// fresh contest takes the next free id.
pub fn plan_post_contest(
    body: &PostContest,
    problem_count: usize,
    user_count: usize,
    contests: &Vec<Contest>,
) -> (r: Result<PostContestPlan, ApiError>)
    requires
        contests@.len() < usize::MAX,
    ensures
        match r {
            Ok(PostContestPlan::Insert(c)) => !has_unknown_problem(*body, problem_count as int)
                && !has_unknown_user(*body, user_count as int) && body.id is None
                && contest_matches(c, *body, contests@.len() as int + 1),
            Ok(PostContestPlan::Update(c)) => !has_unknown_problem(*body, problem_count as int)
                && !has_unknown_user(*body, user_count as int) && body.id == Some(c.id) && c.id != 0
                && contest_id_known(contests@, c.id as int) && contest_matches(
                c,
                *body,
                c.id as int,
            ),
            Err(e) => {
                if has_unknown_problem(*body, problem_count as int) || has_unknown_user(
                    *body,
                    user_count as int,
                ) {
                    e == ApiError::NotFound
                } else if body.id == Some(0usize) {
                    e == ApiError::InvalidArgument
                } else {
                    e == ApiError::NotFound && (body.id matches Some(id) && !contest_id_known(
                        contests@,
                        id as int,
                    ))
                }
            },
        },
{
    let mut i: usize = 0;
    while i < body.problem_ids.len()
        invariant
            i <= body.problem_ids@.len(),
            forall|j: int| 0 <= j < i ==> #[trigger] body.problem_ids@[j] < problem_count,
        decreases body.problem_ids@.len() - i,
    {
        if body.problem_ids[i] >= problem_count {
            return Err(ApiError::NotFound);
        }
        i += 1;
    }
    let mut i: usize = 0;
    while i < body.user_ids.len()
        invariant
            i <= body.user_ids@.len(),
            forall|j: int| 0 <= j < i ==> #[trigger] body.user_ids@[j] < user_count,
        decreases body.user_ids@.len() - i,
    {
        if body.user_ids[i] >= user_count {
            return Err(ApiError::NotFound);
        }
        i += 1;
    }
    match body.id {
        Some(id) => {
            if id == 0 {
                return Err(ApiError::InvalidArgument);
            }
            let mut j: usize = 0;
            while j < contests.len()
                invariant
                    j <= contests@.len(),
                    body.id == Some(id),
                    id != 0,
                    !has_unknown_problem(*body, problem_count as int),
                    !has_unknown_user(*body, user_count as int),
                    forall|k: int| 0 <= k < j ==> (#[trigger] contests@[k]).id != id,
                decreases contests@.len() - j,
            {
                if contests[j].id == id {
                    proof {
                        assert(0 <= j < contests@.len() && contests@[j as int].id == id);
                    }
                    return Ok(
                        PostContestPlan::Update(
                            Contest {
                                id,
                                name: body.name.clone(),
                                from: body.from,
                                to: body.to,
                                problem_ids: body.problem_ids.clone(),
                                user_ids: body.user_ids.clone(),
                                submission_limit: body.submission_limit,
                            },
                        ),
                    );
                }
                j += 1;
            }
            Err(ApiError::NotFound)
        },
        None => {
            Ok(
                PostContestPlan::Insert(
                    Contest {
                        id: contests.len() + 1,
                        name: body.name.clone(),
                        from: body.from,
                        to: body.to,
                        problem_ids: body.problem_ids.clone(),
                        user_ids: body.user_ids.clone(),
                        submission_limit: body.submission_limit,
                    },
                ),
            )
        },
    }
}

/// A one-fragment split: text with no separator at all.
proof fn lemma_split_sep_whole(a: Seq<char>, sep: char)
    requires
        !a.contains(sep),
    ensures
        split_sep(a, sep) == seq![a],
{
    assert forall|j: int| 0 <= j < a.len() implies a[j] != sep by {
        assert(!(exists|k: int| 0 <= k < a.len() && a[k] == sep));
    }
    lemma_first_sep_at(a, sep, a.len() as int);
}

/// Appending a separator and a separator-free fragment appends exactly
/// that fragment to the split.
proof fn lemma_split_sep_append(x: Seq<char>, t: Seq<char>, sep: char)
    requires
        !t.contains(sep),
    ensures
        split_sep(x + seq![sep] + t, sep) == split_sep(x, sep) + seq![t],
    decreases x.len(),
{
    let s = x + seq![sep] + t;
    crate::text::lemma_first_sep(x, sep);
    let i = crate::text::first_sep(x, sep) as int;
    assert forall|j: int| 0 <= j < i implies s[j] != sep by {
        assert(s[j] == x[j]);
    }
    if i == x.len() {
        assert(s[i] == sep);
        lemma_first_sep_at(s, sep, i);
        assert(s.take(i) =~= x);
        assert(s.skip(i + 1) =~= t);
        lemma_split_sep_whole(t, sep);
        assert(split_sep(x, sep) == seq![x]);
        assert(split_sep(s, sep) =~= split_sep(x, sep) + seq![t]);
    } else {
        assert(s[i] == x[i]);
        lemma_first_sep_at(s, sep, i);
        assert(s.take(i) =~= x.take(i));
        assert(s.skip(i + 1) =~= x.skip(i + 1) + seq![sep] + t);
        lemma_split_sep_append(x.skip(i + 1), t, sep);
        assert(split_sep(s, sep) =~= split_sep(x, sep) + seq![t]);
    }
}

/// The store's id-list text reads back to the ids it was rendered
/// from: the codec round-trips on every nonempty list.
pub proof fn lemma_vec_codec_roundtrip(v: Seq<usize>)
    requires
        v.len() >= 1,
    ensures
        valid_vec_str(format_vec_spec(v)),
        split_sep(format_vec_spec(v), ',').len() == v.len(),
        forall|i: int|
            0 <= i < v.len() ==> dec_val(#[trigger] split_sep(format_vec_spec(v), ',')[i])
                == v[i],
    decreases v.len(),
{
    if v.len() == 1 {
        lemma_dec_digits_are_digits(v[0] as nat);
        lemma_split_sep_whole(dec_digits(v[0] as nat), ',');
        lemma_dec_digits_val(v[0] as nat);
    } else {
        let w = v.drop_last();
        let tail = dec_digits(v.last() as nat);
        lemma_vec_codec_roundtrip(w);
        lemma_dec_digits_are_digits(v.last() as nat);
        lemma_dec_digits_val(v.last() as nat);
        lemma_split_sep_append(format_vec_spec(w), tail, ',');
        let parts = split_sep(format_vec_spec(v), ',');
        let wparts = split_sep(format_vec_spec(w), ',');
        assert(parts =~= wparts + seq![tail]);
        assert forall|i: int| 0 <= i < v.len() implies dec_val(#[trigger] parts[i]) == v[i] by {
            if i < v.len() - 1 {
                assert(parts[i] == wparts[i]);
                assert(w[i] == v[i]);
            } else {
                assert(parts[i] == tail);
            }
        }
        assert forall|i: int|
            0 <= i < parts.len() implies is_dec_str(#[trigger] parts[i]) && dec_val(parts[i])
            <= usize::MAX by {
            if i < v.len() - 1 {
                assert(parts[i] == wparts[i]);
            } else {
                assert(parts[i] == tail);
            }
        }
    }
}

} // verus!
