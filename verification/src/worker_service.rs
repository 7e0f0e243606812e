use vstd::prelude::*;

use crate::codec::{spec_decode_job, spec_encode_job};
use crate::errors::QueueError;
use crate::job_model::{JobData, JobView};
use crate::queue_service::{
    spec_failed_key, spec_progress_key, spec_score, QueueService, enqueued_at,
};
use crate::store::spec_pop_min;

verus! {

/// Whether a job's deadline has passed at time `now`.
pub open spec fn spec_expired(v: JobView, now: int) -> bool {
    match v.expires_in {
        Some(e) => now > e,
        None => false,
    }
}

/// The retry budget of the copy that a retry enqueues, if the job has
/// attempts left. A job with no budget, or none left, is not re-enqueued.
pub open spec fn spec_retry(v: JobView) -> Option<u32> {
    match v.retries {
        Some(rr) => if rr > 0 {
            Some((rr - 1) as u32)
        } else {
            None
        },
        None => None,
    }
}

/// The job as a retry re-enqueues it: the same fields with the new budget.
pub open spec fn retried_view(v: JobView, rr: u32) -> JobView {
    JobView { retries: Some(rr), ..v }
}

/// What the worker does with a job once its processing simulation finished.
pub enum JobPlan {
    /// The deadline passed: drop the job, neither re-enqueued nor failed.
    Abandon,
    /// Attempts are left: this copy goes back into the queue.
    Retry(JobData),
    /// No budget or none left: nothing more to do.
    Done,
}

/// Decides a processed job's fate at time `now`: abandoned when expired,
/// re-enqueued with one attempt less while any budget is left, and done
/// otherwise. The retry does not depend on the outcome of the processing;
/// every processed, unexpired job with budget is retried.
pub fn plan_after_processing(job: &JobData, now: i64) -> (r: JobPlan)
    ensures
        match r {
            JobPlan::Abandon => spec_expired(job@, now as int),
            JobPlan::Retry(j2) => !spec_expired(job@, now as int) && spec_retry(job@) is Some
                && j2@ == retried_view(job@, spec_retry(job@)->0),
            JobPlan::Done => !spec_expired(job@, now as int) && spec_retry(job@) is None,
        },
{
    let expired = match &job.expires_in {
        Option::Some(e) => now > *e,
        Option::None => false,
    };
    if expired {
        return JobPlan::Abandon;
    }
    match &job.retries {
        Option::Some(rr) => {
            if *rr > 0 {
                JobPlan::Retry(job.with_retries(*rr - 1))
            } else {
                JobPlan::Done
            }
        },
        Option::None => JobPlan::Done,
    }
}

/// The simulated processing of one job: progress written in steps of ten up
/// to one hundred. It stands in for caller-supplied work; a real worker
/// interleaves its own business logic with these updates.
pub fn run_progress_updates(qs: &mut QueueService, queue_name: &str, job_id: &str)
    requires
        old(qs).wf(),
    ensures
        final(qs).wf(),
        final(qs).progress(spec_progress_key(queue_name@, job_id@)) == Some(100u32),
        forall|k: Seq<char>|
            k != spec_progress_key(queue_name@, job_id@) ==> final(qs).progress(k) == old(
                qs,
            ).progress(k),
        forall|k: Seq<char>| final(qs).pending(k) == old(qs).pending(k),
        forall|k: Seq<char>| final(qs).log(k) == old(qs).log(k),
{
    let mut p: u32 = 0;
    while p <= 100
        invariant
            qs.wf(),
            p % 10 == 0,
            p <= 110,
            p > 0 ==> qs.progress(spec_progress_key(queue_name@, job_id@)) == Some(
                (p - 10) as u32,
            ),
            forall|k: Seq<char>|
                k != spec_progress_key(queue_name@, job_id@) ==> qs.progress(k) == old(
                    qs,
                ).progress(k),
            forall|k: Seq<char>| qs.pending(k) == old(qs).pending(k),
            forall|k: Seq<char>| qs.log(k) == old(qs).log(k),
        decreases 110 - p,
    {
        let _ = qs.update_job_progress(queue_name, job_id, p);
        p = p + 10;
    }
}

/// One worker loop per queue: each iteration dequeues one job, simulates its
/// processing with progress updates, applies the expiry and retry policy, and
/// finalizes the progress field. The polling loop itself, with its sleeps,
/// belongs to the caller.
pub struct WorkerService {
    queue_name: String,
}

impl WorkerService {
    /// The queue this worker drains.
    pub closed spec fn queue(self) -> Seq<char> {
        self.queue_name@
    }

    pub fn new(queue_name: String) -> (r: WorkerService)
        ensures
            r.queue() == queue_name@,
    {
        WorkerService { queue_name }
    }

    pub fn queue_name(&self) -> (r: &String)
        ensures
            r@ == self.queue(),
    {
        &self.queue_name
    }

    /// One full worker iteration at time `now`: dequeue the readiest job,
    /// simulate its processing, then abandon it when expired, or re-enqueue a
    /// copy with one attempt less while budget is left. The progress field of
    /// a processed job ends at one hundred either way; an expired job is
    /// neither re-enqueued nor moved to the failed collection.
    pub fn process_next_job(&self, qs: &mut QueueService, now: i64) -> (r: Result<
        Option<JobData>,
        QueueError,
    >)
        requires
            old(qs).wf(),
        ensures
            final(qs).wf(),
            forall|k: Seq<char>| final(qs).log(k) == old(qs).log(k),
            forall|k: Seq<char>|
                k != self.queue() ==> final(qs).pending(k) == old(qs).pending(k),
            match r {
                Ok(opt) => match spec_pop_min(old(qs).pending(self.queue())) {
                    None => opt is None && final(qs).pending(self.queue()) == old(qs).pending(
                        self.queue(),
                    ) && (forall|k: Seq<char>| final(qs).progress(k) == old(qs).progress(k)),
                    Some(er) => match spec_decode_job(er.0.1) {
                        Some(v) => opt matches Some(j) && j@ == v && final(qs).progress(
                            spec_progress_key(self.queue(), v.id),
                        ) == Some(100u32) && (forall|k: Seq<char>|
                            k != spec_progress_key(self.queue(), v.id) ==> final(qs).progress(k)
                                == old(qs).progress(k)) && if spec_expired(v, now as int) {
                            final(qs).pending(self.queue()) == er.1
                        } else {
                            match spec_retry(v) {
                                Some(rr) => final(qs).pending(self.queue()) == er.1.push(
                                    (
                                        spec_score(now as int, v.delay),
                                        spec_encode_job(retried_view(v, rr)),
                                    ),
                                ),
                                None => final(qs).pending(self.queue()) == er.1,
                            }
                        },
                        None => false,
                    },
                },
                Err(e) => e == QueueError::DecodeError && match spec_pop_min(
                    old(qs).pending(self.queue()),
                ) {
                    Some(er) => spec_decode_job(er.0.1) is None && final(qs).pending(self.queue())
                        == er.1 && (forall|k: Seq<char>|
                        final(qs).progress(k) == old(qs).progress(k)),
                    None => false,
                },
            },
    {
        let q = self.queue_name.as_str();
        match qs.get_next_job(q) {
            Err(e) => Err(e),
            Ok(Option::None) => Ok(None),
            Ok(Option::Some(job)) => {
                run_progress_updates(qs, q, job.id.as_str());
                match plan_after_processing(&job, now) {
                    JobPlan::Abandon => {},
                    JobPlan::Retry(copy) => {
                        let _ = qs.add_job_at(q, copy, now);
                        let _ = qs.update_job_progress(q, job.id.as_str(), 100);
                    },
                    JobPlan::Done => {
                        let _ = qs.update_job_progress(q, job.id.as_str(), 100);
                    },
                }
                Ok(Some(job))
            },
        }
    }

    /// One iteration of the second worker loop: move one job from the failed
    /// collection `<queue>:failed` back into the queue. An empty failed
    /// collection gives `Ok(None)`.
    pub fn retry_failed_step(&self, qs: &mut QueueService) -> (r: Result<
        Option<JobData>,
        QueueError,
    >)
        requires
            old(qs).wf(),
        ensures
            final(qs).wf(),
            forall|k: Seq<char>| final(qs).log(k) == old(qs).log(k),
            forall|k: Seq<char>| final(qs).progress(k) == old(qs).progress(k),
            forall|k: Seq<char>|
                k != self.queue() && k != spec_failed_key(self.queue()) ==> final(qs).pending(k)
                    == old(qs).pending(k),
            match r {
                Ok(opt) => match spec_pop_min(old(qs).pending(spec_failed_key(self.queue()))) {
                    None => opt is None && final(qs).pending(spec_failed_key(self.queue())) == old(
                        qs,
                    ).pending(spec_failed_key(self.queue())) && final(qs).pending(self.queue())
                        == old(qs).pending(self.queue()),
                    Some(er) => match spec_decode_job(er.0.1) {
                        Some(v) => opt matches Some(j) && j@ == v && final(qs).pending(
                            spec_failed_key(self.queue()),
                        ) == er.1 && exists|t: int|
                            #[trigger] enqueued_at(
                                old(qs).pending(self.queue()),
                                final(qs).pending(self.queue()),
                                v,
                                t,
                            ),
                        None => false,
                    },
                },
                Err(e) => e == QueueError::DecodeError && match spec_pop_min(
                    old(qs).pending(spec_failed_key(self.queue())),
                ) {
                    Some(er) => spec_decode_job(er.0.1) is None && final(qs).pending(
                        spec_failed_key(self.queue()),
                    ) == er.1 && final(qs).pending(self.queue()) == old(qs).pending(self.queue()),
                    None => false,
                },
            },
    {
        proof {
            reveal_strlit(":failed");
            assert(spec_failed_key(self.queue()).len() == self.queue().len() + 7);
        }
        let fk = crate::queue_service::failed_key(self.queue_name.as_str());
        match qs.get_next_job(fk.as_str()) {
            Err(e) => Err(e),
            Ok(Option::None) => Ok(None),
            Ok(Option::Some(job)) => {
                let copy = job.duplicate();
                let _ = qs.add_job(self.queue_name.as_str(), copy);
                Ok(Some(job))
            },
        }
    }
}

} // verus!
