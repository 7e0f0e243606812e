use vstd::prelude::*;

use crate::codec::spec_decode_job;
use crate::errors::QueueError;
use crate::job_model::JobData;
use crate::queue_service::QueueService;
use crate::store::spec_pop_min;

verus! {

/// How a consumer reacts to a failed poll.
#[derive(Clone, Copy, Debug, PartialEq, Eq, Structural)]
pub enum RetryMethod {
    Reconnect,
    AskRedirect,
    MovedRedirect,
    WaitAndRetry,
    RetryImmediately,
}

/// The reaction to an error during a poll: a dropped connection, a refusal or
/// a timeout asks for a reconnect; anything else is logged and retried at
/// once. No error ends the loop.
pub open spec fn spec_retry_method(e: QueueError) -> RetryMethod {
    if e.spec_is_transport() {
        RetryMethod::Reconnect
    } else {
        RetryMethod::RetryImmediately
    }
}

pub fn retry_method_for(e: &QueueError) -> (r: RetryMethod)
    ensures
        r == spec_retry_method(*e),
{
    if e.is_transport() {
        RetryMethod::Reconnect
    } else {
        RetryMethod::RetryImmediately
    }
}

/// The text that the trigger emits for one observed job.
pub open spec fn spec_observation(
    q: Seq<char>,
    ts: Seq<char>,
    id: Seq<char>,
    msg: Seq<char>,
) -> Seq<char> {
    "queue:\t\t"@ + q + "\ntimestamp:\t"@ + ts + "\nid:\t\t"@ + id + "\nmessage:\t"@ + msg + "\n"@
}

/// A monitor over one queue. It observes by consuming: it polls the same
/// pending collection as the workers, so the two are competing consumers and
/// a job seen here is never processed, and the other way round.
pub struct QueueTriggerService {
    queue_name: String,
}

impl QueueTriggerService {
    /// The queue this trigger watches.
    pub closed spec fn queue(self) -> Seq<char> {
        self.queue_name@
    }

    pub fn new(queue_name: String) -> (r: Self)
        ensures
            r.queue() == queue_name@,
    {
        Self { queue_name }
    }

    /// One polling step: removes and returns the readiest pending job, which
    /// no other consumer will see again. `Ok(None)` reports an empty queue.
    pub fn observe_next(&self, qs: &mut QueueService) -> (r: Result<Option<JobData>, QueueError>)
        requires
            old(qs).wf(),
        ensures
            final(qs).wf(),
            forall|k: Seq<char>| k != self.queue() ==> final(qs).pending(k) == old(qs).pending(k),
            forall|k: Seq<char>| final(qs).progress(k) == old(qs).progress(k),
            forall|k: Seq<char>| final(qs).log(k) == old(qs).log(k),
            match r {
                Ok(opt) => match spec_pop_min(old(qs).pending(self.queue())) {
                    Some(er) => opt matches Some(j) && final(qs).pending(self.queue()) == er.1
                        && spec_decode_job(er.0.1) == Some(j@),
                    None => opt is None && final(qs).pending(self.queue()) == old(qs).pending(
                        self.queue(),
                    ),
                },
                Err(e) => e == QueueError::DecodeError && match spec_pop_min(
                    old(qs).pending(self.queue()),
                ) {
                    Some(er) => final(qs).pending(self.queue()) == er.1 && spec_decode_job(
                        er.0.1,
                    ) is None,
                    None => false,
                },
            },
    {
        qs.get_next_job(self.queue_name.as_str())
    }

    /// The observation text for one job seen on this trigger's queue.
    pub fn format_observation(&self, job: &JobData) -> (r: String)
        ensures
            r@ == spec_observation(self.queue(), job.timestamp@, job.id@, job.message@),
    {
        let mut s = String::from_str("queue:\t\t");
        s.append(self.queue_name.as_str());
        s.append("\ntimestamp:\t");
        s.append(job.timestamp.as_str());
        s.append("\nid:\t\t");
        s.append(job.id.as_str());
        s.append("\nmessage:\t");
        s.append(job.message.as_str());
        s.append("\n");
        s
    }
}

} // verus!
