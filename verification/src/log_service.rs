use vstd::prelude::*;

use crate::errors::QueueError;
use crate::queue_service::{spec_log_entry, spec_log_key, QueueService};

verus! {

/// An append-only textual audit sink, keyed by queue name. It writes the same
/// logical list as the store's own status logging, behind one interface.
pub struct LogService {}

impl LogService {
    pub fn new() -> (r: LogService)
        ensures
            true,
    {
        LogService {  }
    }

    /// Prepends `"<timestamp> - <message>"` to the log `<queue_name>:log`,
    /// with the current time as the timestamp.
    pub fn log(&self, qs: &mut QueueService, queue_name: &str, message: &str) -> (r: Result<
        (),
        QueueError,
    >)
        requires
            old(qs).wf(),
        ensures
            final(qs).wf(),
            r is Ok,
            exists|ts: Seq<char>|
                final(qs).log(spec_log_key(queue_name@)) == seq![
                    #[trigger] spec_log_entry(ts, message@),
                ] + old(qs).log(spec_log_key(queue_name@)),
            forall|k: Seq<char>|
                k != spec_log_key(queue_name@) ==> final(qs).log(k) == old(qs).log(k),
            forall|k: Seq<char>| final(qs).pending(k) == old(qs).pending(k),
            forall|k: Seq<char>| final(qs).progress(k) == old(qs).progress(k),
    {
        qs.append_log_entry(queue_name, message)
    }
}

} // verus!
