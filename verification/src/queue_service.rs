use vstd::prelude::*;

use crate::clock::{now_epoch_seconds, now_rfc3339};
use crate::codec::{decode_job, encode_job, spec_decode_job, spec_encode_job};
use crate::errors::QueueError;
use crate::job_model::JobData;
use crate::store::{spec_pop_min, Store};

verus! {

/// The key of the failed collection derived from a queue name.
pub open spec fn spec_failed_key(q: Seq<char>) -> Seq<char> {
    q + ":failed"@
}

/// The key of the audit log derived from a queue name.
pub open spec fn spec_log_key(q: Seq<char>) -> Seq<char> {
    q + ":log"@
}

/// The key of a job's progress field set.
pub open spec fn spec_progress_key(q: Seq<char>, id: Seq<char>) -> Seq<char> {
    q + ":"@ + id
}

/// One audit line: `<timestamp> - <status>: <message>`.
pub open spec fn spec_log_line(ts: Seq<char>, status: Seq<char>, msg: Seq<char>) -> Seq<char> {
    ts + " - "@ + status + ": "@ + msg
}

/// One plain audit entry: `<timestamp> - <message>`.
pub open spec fn spec_log_entry(ts: Seq<char>, msg: Seq<char>) -> Seq<char> {
    ts + " - "@ + msg
}

/// The ordering score of a job enqueued now: the enqueue time plus the job's
/// delay, held at the integer bounds. Priority is not part of the score.
pub open spec fn spec_score(now: int, delay: Option<i64>) -> int {
    let d: int = match delay {
        Some(d) => d as int,
        None => 0,
    };
    if now + d > i64::MAX as int {
        i64::MAX as int
    } else if now + d < i64::MIN as int {
        i64::MIN as int
    } else {
        now + d
    }
}

/// The queue under `q` received exactly one new member: this job, scored at
/// time `now`.
pub open spec fn enqueued_at(
    pre: Seq<(int, Seq<char>)>,
    post: Seq<(int, Seq<char>)>,
    v: crate::job_model::JobView,
    now: int,
) -> bool {
    post == pre.push((spec_score(now, v.delay), spec_encode_job(v)))
}

pub fn failed_key(queue_name: &str) -> (r: String)
    ensures
        r@ == spec_failed_key(queue_name@),
{
    let mut s = String::from_str(queue_name);
    s.append(":failed");
    s
}

pub fn log_key(queue_name: &str) -> (r: String)
    ensures
        r@ == spec_log_key(queue_name@),
{
    let mut s = String::from_str(queue_name);
    s.append(":log");
    s
}

pub fn progress_key(queue_name: &str, job_id: &str) -> (r: String)
    ensures
        r@ == spec_progress_key(queue_name@, job_id@),
{
    let mut s = String::from_str(queue_name);
    s.append(":");
    s.append(job_id);
    s
}

fn format_log_line(ts: &str, status: &str, message: &str) -> (r: String)
    ensures
        r@ == spec_log_line(ts@, status@, message@),
{
    let mut s = String::from_str(ts);
    s.append(" - ");
    s.append(status);
    s.append(": ");
    s.append(message);
    s
}

fn compute_score(now: i64, delay: &Option<i64>) -> (r: i64)
    ensures
        r as int == spec_score(now as int, *delay),
{
    let d: i64 = match delay {
        Option::Some(d) => *d,
        Option::None => 0,
    };
    if d >= 0 {
        if now <= i64::MAX - d {
            now + d
        } else {
            i64::MAX
        }
    } else {
        if now >= i64::MIN - d {
            now + d
        } else {
            i64::MIN
        }
    }
}

/// The job store: every queue operation of the system goes through one value
/// of this type. Queues live in named scored collections, per-job progress in
/// a field set keyed `<queue>:<job_id>`, and audit lines in a list keyed
/// `<queue>:log`.
pub struct QueueService {
    store: Store,
}

impl QueueService {
    pub closed spec fn wf(self) -> bool {
        self.store.wf()
    }

    /// The pending members of the queue `q`: score and serialized payload,
    /// in insertion order.
    pub closed spec fn pending(self, q: Seq<char>) -> Seq<(int, Seq<char>)> {
        self.store.entries(q)
    }

    /// The progress field under a `<queue>:<job_id>` key, if ever written.
    pub closed spec fn progress(self, k: Seq<char>) -> Option<u32> {
        self.store.field(k)
    }

    /// The audit lines under a `<queue>:log` key, newest first.
    pub closed spec fn log(self, k: Seq<char>) -> Seq<Seq<char>> {
        self.store.list(k)
    }

    /// A store with no queues, no progress fields and no logs.
    pub fn new() -> (r: QueueService)
        ensures
            r.wf(),
            forall|k: Seq<char>| r.pending(k) == Seq::<(int, Seq<char>)>::empty(),
            forall|k: Seq<char>| r.progress(k) is None,
            forall|k: Seq<char>| r.log(k) == Seq::<Seq<char>>::empty(),
    {
        QueueService { store: Store::new() }
    }

    /// Serializes the job and inserts it into `queue_name` with the score
    /// `now + delay`; visible to any poller at once.
    pub fn add_job_at(&mut self, queue_name: &str, job: JobData, now: i64) -> (r: Result<
        (),
        QueueError,
    >)
        requires
            old(self).wf(),
        ensures
            final(self).wf(),
            r is Ok,
            enqueued_at(
                old(self).pending(queue_name@),
                final(self).pending(queue_name@),
                job@,
                now as int,
            ),
            forall|k: Seq<char>|
                k != queue_name@ ==> final(self).pending(k) == old(self).pending(k),
            forall|k: Seq<char>| final(self).progress(k) == old(self).progress(k),
            forall|k: Seq<char>| final(self).log(k) == old(self).log(k),
    {
        let payload = encode_job(&job);
        let score = compute_score(now, &job.delay);
        self.store.insert_scored(queue_name, score, payload);
        Ok(())
    }

    /// Enqueues the job at the current time.
    pub fn add_job(&mut self, queue_name: &str, job: JobData) -> (r: Result<(), QueueError>)
        requires
            old(self).wf(),
        ensures
            final(self).wf(),
            r is Ok,
            exists|t: int|
                #[trigger] enqueued_at(
                    old(self).pending(queue_name@),
                    final(self).pending(queue_name@),
                    job@,
                    t,
                ),
            forall|k: Seq<char>|
                k != queue_name@ ==> final(self).pending(k) == old(self).pending(k),
            forall|k: Seq<char>| final(self).progress(k) == old(self).progress(k),
            forall|k: Seq<char>| final(self).log(k) == old(self).log(k),
    {
        let ghost pre = self.pending(queue_name@);
        let now = now_epoch_seconds();
        let r = self.add_job_at(queue_name, job, now);
        proof {
            assert(enqueued_at(pre, self.pending(queue_name@), job@, now as int));
        }
        r
    }

    /// Atomically removes and returns the lowest-scored pending job of
    /// `queue_name`, deserialized. An empty queue gives `Ok(None)`, which is
    /// not an error; a payload that does not parse back into a job gives
    /// `DecodeError`, and that payload is gone.
    pub fn get_next_job(&mut self, queue_name: &str) -> (r: Result<Option<JobData>, QueueError>)
        requires
            old(self).wf(),
        ensures
            final(self).wf(),
            forall|k: Seq<char>|
                k != queue_name@ ==> final(self).pending(k) == old(self).pending(k),
            forall|k: Seq<char>| final(self).progress(k) == old(self).progress(k),
            forall|k: Seq<char>| final(self).log(k) == old(self).log(k),
            match r {
                Ok(opt) => match spec_pop_min(old(self).pending(queue_name@)) {
                    Some(er) => opt matches Some(j) && final(self).pending(queue_name@) == er.1
                        && spec_decode_job(er.0.1) == Some(j@),
                    None => opt is None && final(self).pending(queue_name@) == old(self).pending(
                        queue_name@,
                    ),
                },
                Err(e) => e == QueueError::DecodeError && match spec_pop_min(
                    old(self).pending(queue_name@),
                ) {
                    Some(er) => final(self).pending(queue_name@) == er.1 && spec_decode_job(
                        er.0.1,
                    ) is None,
                    None => false,
                },
            },
    {
        match self.store.pop_min(queue_name) {
            Option::None => Ok(None),
            Option::Some((_score, payload)) => {
                match decode_job(payload.as_str()) {
                    Option::Some(j) => Ok(Some(j)),
                    Option::None => Err(QueueError::DecodeError),
                }
            },
        }
    }

    /// The number of pending jobs in `queue_name`.
    pub fn count_jobs(&self, queue_name: &str) -> (r: Result<u64, QueueError>)
        ensures
            match r {
                Ok(c) => c as int == self.pending(queue_name@).len(),
                Err(_) => false,
            },
    {
        Ok(self.store.count(queue_name))
    }

    /// Enqueues the job into the failed collection `<queue_name>:failed`.
    pub fn move_to_failed(&mut self, queue_name: &str, job: JobData) -> (r: Result<
        (),
        QueueError,
    >)
        requires
            old(self).wf(),
        ensures
            final(self).wf(),
            r is Ok,
            exists|t: int|
                #[trigger] enqueued_at(
                    old(self).pending(spec_failed_key(queue_name@)),
                    final(self).pending(spec_failed_key(queue_name@)),
                    job@,
                    t,
                ),
            forall|k: Seq<char>|
                k != spec_failed_key(queue_name@) ==> final(self).pending(k) == old(self).pending(
                    k,
                ),
            forall|k: Seq<char>| final(self).progress(k) == old(self).progress(k),
            forall|k: Seq<char>| final(self).log(k) == old(self).log(k),
    {
        let fk = failed_key(queue_name);
        self.add_job(fk.as_str(), job)
    }

    /// Writes the progress field of `<queue_name>:<job_id>`.
    pub fn update_job_progress(&mut self, queue_name: &str, job_id: &str, progress: u32) -> (r:
        Result<(), QueueError>)
        requires
            old(self).wf(),
        ensures
            final(self).wf(),
            r is Ok,
            final(self).progress(spec_progress_key(queue_name@, job_id@)) == Some(progress),
            forall|k: Seq<char>|
                k != spec_progress_key(queue_name@, job_id@) ==> final(self).progress(k) == old(
                    self,
                ).progress(k),
            forall|k: Seq<char>| final(self).pending(k) == old(self).pending(k),
            forall|k: Seq<char>| final(self).log(k) == old(self).log(k),
    {
        let key = progress_key(queue_name, job_id);
        self.store.set_field(key.as_str(), progress);
        Ok(())
    }

    /// Reads the progress field of `<queue_name>:<job_id>`; `NotFoundError`
    /// exactly when it was never written.
    pub fn get_job_progress(&self, queue_name: &str, job_id: &str) -> (r: Result<u32, QueueError>)
        ensures
            match r {
                Ok(p) => self.progress(spec_progress_key(queue_name@, job_id@)) == Some(p),
                Err(e) => e == QueueError::NotFoundError && self.progress(
                    spec_progress_key(queue_name@, job_id@),
                ) is None,
            },
    {
        let key = progress_key(queue_name, job_id);
        match self.store.get_field(key.as_str()) {
            Option::Some(p) => Ok(p),
            Option::None => Err(QueueError::NotFoundError),
        }
    }

    /// Prepends `"<timestamp> - <status>: <message>"` to the audit log
    /// `<queue_name>:log`, with the current time as the timestamp.
    pub fn log_job_status(&mut self, queue_name: &str, job: &JobData, status: &str) -> (r: Result<
        (),
        QueueError,
    >)
        requires
            old(self).wf(),
        ensures
            final(self).wf(),
            r is Ok,
            exists|ts: Seq<char>|
                final(self).log(spec_log_key(queue_name@)) == seq![
                    #[trigger] spec_log_line(ts, status@, job.message@),
                ] + old(self).log(spec_log_key(queue_name@)),
            forall|k: Seq<char>|
                k != spec_log_key(queue_name@) ==> final(self).log(k) == old(self).log(k),
            forall|k: Seq<char>| final(self).pending(k) == old(self).pending(k),
            forall|k: Seq<char>| final(self).progress(k) == old(self).progress(k),
    {
        let ts = now_rfc3339();
        let line = format_log_line(ts.as_str(), status, job.message.as_str());
        let lk = log_key(queue_name);
        self.store.push_front(lk.as_str(), line);
        proof {
            assert(self.log(spec_log_key(queue_name@)) == seq![
                spec_log_line(ts@, status@, job.message@),
            ] + old(self).log(spec_log_key(queue_name@)));
        }
        Ok(())
    }

    /// Reads the audit log of `queue_name`, newest line first.
    pub fn log_lines(&self, queue_name: &str) -> (r: Vec<String>)
        ensures
            r@.map_values(|l: String| l@) == self.log(spec_log_key(queue_name@)),
    {
        let lk = log_key(queue_name);
        self.store.get_list(lk.as_str())
    }

    /// Prepends `"<timestamp> - <message>"` to the audit log
    /// `<queue_name>:log`, with the current time as the timestamp.
    pub fn append_log_entry(&mut self, queue_name: &str, message: &str) -> (r: Result<
        (),
        QueueError,
    >)
        requires
            old(self).wf(),
        ensures
            final(self).wf(),
            r is Ok,
            exists|ts: Seq<char>|
                final(self).log(spec_log_key(queue_name@)) == seq![
                    #[trigger] spec_log_entry(ts, message@),
                ] + old(self).log(spec_log_key(queue_name@)),
            forall|k: Seq<char>|
                k != spec_log_key(queue_name@) ==> final(self).log(k) == old(self).log(k),
            forall|k: Seq<char>| final(self).pending(k) == old(self).pending(k),
            forall|k: Seq<char>| final(self).progress(k) == old(self).progress(k),
    {
        let ts = now_rfc3339();
        let mut line = String::from_str(ts.as_str());
        line.append(" - ");
        line.append(message);
        let lk = log_key(queue_name);
        self.store.push_front(lk.as_str(), line);
        proof {
            assert(self.log(spec_log_key(queue_name@)) == seq![spec_log_entry(ts@, message@)]
                + old(self).log(spec_log_key(queue_name@)));
        }
        Ok(())
    }
}

} // verus!
