//! Users, and the per-user statistics the ranking tie-breakers read.

use vstd::prelude::*;
use vstd::string::StringExecFns;
use crate::job::JobContent;
use crate::timestamp::{ts_lt, Timestamp};
use crate::ApiError;

verus! {

/// A registered user.
pub struct User {
    pub id: usize,
    pub name: String,
}

/// A user-creation request: a fresh user, or a rename when an id is
/// given.
pub struct PostUser {
    pub id: Option<usize>,
    pub name: String,
}

/// The latest `created_time` among a user's jobs in the list, or
/// nothing when the user has none there.
pub open spec fn latest_submission_time(uid: int, jobs: Seq<JobContent>) -> Option<Timestamp>
    decreases jobs.len(),
{
    if jobs.len() == 0 {
        None
    } else {
        let rest = latest_submission_time(uid, jobs.drop_last());
        if jobs.last().submission.user_id == uid {
            match rest {
                None => Some(jobs.last().created_time),
                Some(t) => if ts_lt(t, jobs.last().created_time) {
                    Some(jobs.last().created_time)
                } else {
                    Some(t)
                },
            }
        } else {
            rest
        }
    }
}

/// How many jobs in the list are the user's.
pub open spec fn submission_count(uid: int, jobs: Seq<JobContent>) -> nat
    decreases jobs.len(),
{
    if jobs.len() == 0 {
        0
    } else {
        submission_count(uid, jobs.drop_last()) + if jobs.last().submission.user_id == uid {
            1nat
        } else {
            0nat
        }
    }
}

impl User {
    /// The time of this user's latest submission among the given jobs,
    /// or nothing when none there are theirs.
    pub fn get_submisson_time(&self, job_list: &Vec<JobContent>) -> (r: Option<Timestamp>)
        ensures
            r == latest_submission_time(self.id as int, job_list@),
    {
        let mut best: Option<Timestamp> = None;
        let mut i: usize = 0;
        proof {
            assert(job_list@.take(0) =~= Seq::<JobContent>::empty());
        }
        while i < job_list.len()
            invariant
                i <= job_list@.len(),
                best == latest_submission_time(self.id as int, job_list@.take(i as int)),
            decreases job_list@.len() - i,
        {
            proof {
                assert(job_list@.take(i + 1).drop_last() =~= job_list@.take(i as int));
                assert(job_list@.take(i + 1).last() == job_list@[i as int]);
            }
            let job = &job_list[i];
            if job.submission.user_id == self.id {
                best = match best {
                    None => Some(job.created_time),
                    Some(t) => {
                        if crate::timestamp::ts_before(&t, &job.created_time) {
                            Some(job.created_time)
                        } else {
                            Some(t)
                        }
                    },
                };
            }
            i += 1;
        }
        proof {
            assert(job_list@.take(job_list@.len() as int) =~= job_list@);
        }
        best
    }

    /// How many of the given jobs are this user's.
    pub fn get_submisson_count(&self, job_list: &Vec<JobContent>) -> (r: u64)
        ensures
            r == submission_count(self.id as int, job_list@),
    {
        let mut count: u64 = 0;
        let mut i: usize = 0;
        proof {
            assert(job_list@.take(0) =~= Seq::<JobContent>::empty());
        }
        while i < job_list.len()
            invariant
                i <= job_list@.len(),
                count == submission_count(self.id as int, job_list@.take(i as int)),
                count <= i,
            decreases job_list@.len() - i,
        {
            proof {
                assert(job_list@.take(i + 1).drop_last() =~= job_list@.take(i as int));
                assert(job_list@.take(i + 1).last() == job_list@[i as int]);
                assert(i < usize::MAX);
            }
            let job = &job_list[i];
            if job.submission.user_id == self.id {
                count += 1;
            }
            i += 1;
        }
        proof {
            assert(job_list@.take(job_list@.len() as int) =~= job_list@);
        }
        count
    }
}

/// What a user-creation request shall do to the stored user list.
pub enum PostUserPlan {
    /// Append this fresh user.
    Insert(User),
    /// Replace the stored user of the same id with this one.
    Update(User),
}

/// Decide a user-creation request against the stored users: a taken
/// name is refused, a given id must name an existing user to rename,
/// and a fresh user takes the next free id.
pub fn plan_post_user(body: &PostUser, users: &Vec<User>) -> (r: Result<PostUserPlan, ApiError>)
    ensures
        match r {
            Ok(PostUserPlan::Insert(u)) => body.id is None && u.id == users@.len() && u.name@
                == body.name@ && forall|i: int|
                0 <= i < users@.len() ==> (#[trigger] users@[i]).name@ != body.name@,
            Ok(PostUserPlan::Update(u)) => body.id == Some(u.id) && u.name@ == body.name@ && (
            exists|i: int| 0 <= i < users@.len() && (#[trigger] users@[i]).id == u.id) && forall|
                i: int,
            |
                0 <= i < users@.len() ==> (#[trigger] users@[i]).name@ != body.name@,
            Err(e) => {
                if exists|i: int| 0 <= i < users@.len() && (#[trigger] users@[i]).name@
                    == body.name@ {
                    e == ApiError::InvalidArgument
                } else {
                    e == ApiError::NotFound && (body.id matches Some(id) && forall|i: int|
                        0 <= i < users@.len() ==> (#[trigger] users@[i]).id != id)
                }
            },
        },
{
    let mut i: usize = 0;
    while i < users.len()
        invariant
            i <= users@.len(),
            forall|j: int| 0 <= j < i ==> (#[trigger] users@[j]).name@ != body.name@,
        decreases users@.len() - i,
    {
        if crate::compare::str_eq(users[i].name.as_str(), body.name.as_str()) {
            return Err(ApiError::InvalidArgument);
        }
        i += 1;
    }
    match body.id {
        Some(id) => {
            let mut j: usize = 0;
            while j < users.len()
                invariant
                    j <= users@.len(),
                    body.id == Some(id),
                    forall|k: int| 0 <= k < users@.len() ==> (#[trigger] users@[k]).name@ != body.name@,
                    forall|k: int| 0 <= k < j ==> (#[trigger] users@[k]).id != id,
                decreases users@.len() - j,
            {
                if users[j].id == id {
                    proof {
                        assert(0 <= j < users@.len() && users@[j as int].id == id);
                    }
                    return Ok(
                        PostUserPlan::Update(User { id, name: body.name.as_str().to_owned() }),
                    );
                }
                j += 1;
            }
            Err(ApiError::NotFound)
        },
        None => {
            Ok(PostUserPlan::Insert(User { id: users.len(), name: body.name.as_str().to_owned() }))
        },
    }
}

/// The user every fresh store starts with.
pub fn root_user() -> (u: User)
    ensures
        u.id == 0,
        u.name@ == "root"@,
{
    proof {
        reveal_strlit("root");
    }
    User { id: 0, name: String::from_str("root") }
}

} // verus!
