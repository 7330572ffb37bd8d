//! A plain registry of submitted jobs and their states.

use vstd::prelude::*;

use crate::job::{opt_copy, opt_view};
use crate::keyed;
use crate::keyed::{index_of, named, put, values, Keyed, Named};
use crate::text;

verus! {

/// What is registered of a job.
#[derive(Debug)]
pub struct JobInfo {
    pub job_id: String,
    pub job_name: String,
    pub state: String,
    pub parallelism: i32,
    pub start_time: i64,
    pub end_time: Option<i64>,
    pub error_message: Option<String>,
}

/// The mathematical value of a registered job.
#[verifier::ext_equal]
pub struct JobInfoV {
    pub job_id: Seq<char>,
    pub job_name: Seq<char>,
    pub state: Seq<char>,
    pub parallelism: i32,
    pub start_time: i64,
    pub end_time: Option<i64>,
    pub error_message: Option<Seq<char>>,
}

impl View for JobInfo {
    type V = JobInfoV;

    open spec fn view(&self) -> JobInfoV {
        JobInfoV {
            job_id: self.job_id@,
            job_name: self.job_name@,
            state: self.state@,
            parallelism: self.parallelism,
            start_time: self.start_time,
            end_time: self.end_time,
            error_message: opt_view(self.error_message),
        }
    }
}

impl Named for JobInfoV {
    open spec fn name(self) -> Seq<char> {
        self.job_id
    }
}

impl Keyed for JobInfo {
    fn is_named(&self, name: &str) -> (r: bool) {
        text::same(self.job_id.as_str(), name)
    }
}

impl JobInfo {
    /// A copy.
    pub fn copy(&self) -> (r: Self)
        ensures
            r@ == self@,
    {
        JobInfo {
            job_id: self.job_id.clone(),
            job_name: self.job_name.clone(),
            state: self.state.clone(),
            parallelism: self.parallelism,
            start_time: self.start_time,
            end_time: self.end_time,
            error_message: opt_copy(&self.error_message),
        }
    }
}

/// Whether a job in this state can be cancelled.
pub open spec fn cancellable(state: Seq<char>) -> bool {
    state == "RUNNING"@ || state == "SCHEDULED"@ || state == "CREATED"@
}

/// The number of running jobs.
pub open spec fn running_jobs(jobs: Seq<JobInfoV>) -> nat
    decreases jobs.len(),
{
    if jobs.len() == 0 {
        0
    } else {
        running_jobs(jobs.drop_last()) + if jobs.last().state == "RUNNING"@ { 1nat } else { 0nat }
    }
}

/// Registers all submitted jobs.
#[derive(Debug)]
pub struct JobManager {
    jobs: Vec<JobInfo>,
}

impl View for JobManager {
    type V = Seq<JobInfoV>;

    closed spec fn view(&self) -> Seq<JobInfoV> {
        values(self.jobs@)
    }
}

impl JobManager {
    /// No jobs.
    pub fn new() -> (r: Self)
        ensures
            r@ == Seq::<JobInfoV>::empty(),
    {
        let r = JobManager { jobs: Vec::new() };
        assert(r@ =~= Seq::empty());
        r
    }

    /// Registers a new job, in place of an earlier one with its id.
    pub fn submit_job(&mut self, job_id: String, job_name: String, parallelism: i32, start_time: i64)
        ensures
            final(self)@ == put(
                old(self)@,
                (JobInfoV {
                    job_id: job_id@,
                    job_name: job_name@,
                    state: "CREATED"@,
                    parallelism,
                    start_time,
                    end_time: None,
                    error_message: None,
                }),
            ),
    {
        let name = job_id.clone();
        keyed::put_item(
            &mut self.jobs,
            name.as_str(),
            JobInfo {
                job_id,
                job_name,
                state: text::owned("CREATED"),
                parallelism,
                start_time,
                end_time: None,
                error_message: None,
            },
        );
    }

    /// Sets a job's state.
    pub fn update_state(&mut self, job_id: &str, state: String)
        ensures
            final(self)@ == match index_of(old(self)@, job_id@) {
                Some(i) => old(self)@.update(i, JobInfoV { state: state@, ..old(self)@[i] }),
                None => old(self)@,
            },
    {
        let ghost j = self@;
        if let Some(i) = keyed::find(&self.jobs, job_id) {
            assert(j[i as int] == self.jobs@[i as int]@);
            self.jobs[i].state = state;
            assert(self@ =~= j.update(i as int, JobInfoV { state: state@, ..j[i as int] }));
        }
    }

    /// Cancels a job that is created, scheduled or running; returns whether there
    /// was one.
    pub fn cancel_job(&mut self, job_id: &str) -> (r: bool)
        ensures
            r == match named(old(self)@, job_id@) {
                Some(j) => cancellable(j.state),
                None => false,
            },
            final(self)@ == if r {
                let i = index_of(old(self)@, job_id@)->0;
                old(self)@.update(i, JobInfoV { state: "CANCELLED"@, ..old(self)@[i] })
            } else {
                old(self)@
            },
    {
        let ghost j = self@;
        if let Some(i) = keyed::find(&self.jobs, job_id) {
            assert(j[i as int] == self.jobs@[i as int]@);
            let can: bool = {
                let s = self.jobs[i].state.as_str();
                text::same(s, "RUNNING") || text::same(s, "SCHEDULED") || text::same(s, "CREATED")
            };
            if can {
                self.jobs[i].state = text::owned("CANCELLED");
                assert(self@ =~= j.update(i as int, JobInfoV { state: "CANCELLED"@, ..j[i as int] }));
                return true;
            }
        }
        false
    }

    /// A copy of a job.
    pub fn get_job(&self, job_id: &str) -> (r: Option<JobInfo>)
        ensures
            match r {
                Some(j) => named(self@, job_id@) == Some(j@),
                None => named(self@, job_id@) is None,
            },
    {
        match keyed::find(&self.jobs, job_id) {
            Some(i) => {
                assert(self@[i as int] == self.jobs@[i as int]@);
                Some(self.jobs[i].copy())
            },
            None => None,
        }
    }

    /// Copies of all jobs.
    pub fn list_jobs(&self) -> (r: Vec<JobInfo>)
        ensures
            values(r@) == self@,
    {
        let mut out: Vec<JobInfo> = Vec::new();
        let mut i: usize = 0;
        while i < self.jobs.len()
            invariant
                i <= self.jobs@.len(),
                out@.len() == i,
                forall|k: int| 0 <= k < i ==> #[trigger] out@[k]@ == self.jobs@[k]@,
            decreases self.jobs@.len() - i,
        {
            let j = self.jobs[i].copy();
            out.push(j);
            i += 1;
        }
        assert(values(out@) =~= self@);
        out
    }

    /// Removes a job.
    pub fn remove_job(&mut self, job_id: &str)
        ensures
            final(self)@ == match index_of(old(self)@, job_id@) {
                Some(i) => old(self)@.remove(i),
                None => old(self)@,
            },
    {
        let ghost j = self@;
        if let Some(i) = keyed::find(&self.jobs, job_id) {
            self.jobs.remove(i);
            assert(self@ =~= j.remove(i as int));
        }
    }

    /// The number of running jobs.
    pub fn running_count(&self) -> (r: usize)
        ensures
            r == running_jobs(self@),
    {
        let ghost j = self@;
        let mut n: usize = 0;
        let mut i: usize = 0;
        assert(j.take(0) =~= Seq::empty());
        while i < self.jobs.len()
            invariant
                i <= self.jobs@.len(),
                n <= i,
                j == values(self.jobs@),
                n == running_jobs(j.take(i as int)),
            decreases self.jobs@.len() - i,
        {
            proof {
                assert(j.take(i + 1).drop_last() =~= j.take(i as int));
                assert(j.take(i + 1).last() == self.jobs@[i as int]@);
            }
            if text::same(self.jobs[i].state.as_str(), "RUNNING") {
                n += 1;
            }
            i += 1;
        }
        assert(j.take(j.len() as int) =~= j);
        n
    }
}

} // verus!
