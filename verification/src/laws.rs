use vstd::prelude::*;

use crate::store::{lemma_min_idx_props, min_idx, spec_pop_min};

verus! {

/// The atomic pop returns a member whose score is lowest: no pending member
/// scores below it, so a job enqueued with delay `d` at time `t`, scored
/// `t + d`, is never popped while a readier job is present.
pub proof fn lemma_pop_returns_lowest_score(s: Seq<(int, Seq<char>)>)
    requires
        s.len() > 0,
    ensures
        match spec_pop_min(s) {
            Some(er) => {
                &&& 0 <= min_idx(s) < s.len()
                &&& er.0 == s[min_idx(s)]
                &&& er.1 == s.remove(min_idx(s))
                &&& er.1.len() == s.len() - 1
                &&& forall|j: int| 0 <= j < s.len() ==> (#[trigger] s[j]).0 >= er.0.0
            },
            None => false,
        },
{
    lemma_min_idx_props(s);
}

/// With exactly two jobs present, scored `s1 < s2`, the pop returns the one
/// with `s1` first, whichever was inserted first, and the next pop returns
/// the other.
pub proof fn lemma_two_jobs_in_score_order(e1: (int, Seq<char>), e2: (int, Seq<char>))
    requires
        e1.0 < e2.0,
    ensures
        spec_pop_min(seq![e1, e2]) == Some((e1, seq![e2])),
        spec_pop_min(seq![e2, e1]) == Some((e1, seq![e2])),
        spec_pop_min(seq![e2]) == Some((e2, Seq::<(int, Seq<char>)>::empty())),
{
    reveal_with_fuel(min_idx, 3);
    let a = seq![e1, e2];
    assert(a.drop_first() =~= seq![e2]);
    assert(min_idx(a) == 0);
    assert(a.remove(0) =~= seq![e2]);
    let b = seq![e2, e1];
    assert(b.drop_first() =~= seq![e1]);
    assert(min_idx(b) == 1);
    assert(b.remove(1) =~= seq![e2]);
    let c = seq![e2];
    assert(min_idx(c) == 0);
    assert(c.remove(0) =~= Seq::<(int, Seq<char>)>::empty());
}

/// Popping an empty queue returns no job and leaves nothing behind to appear
/// later: polling an empty queue any number of times keeps returning no job.
pub proof fn lemma_empty_queue_stays_empty(s: Seq<(int, Seq<char>)>, polls: nat)
    requires
        s.len() == 0,
    ensures
        spec_pop_min(s) is None,
        run_ops(s, Seq::new(polls, |i: int| QueueOp::Dequeue)) == s,
    decreases polls,
{
    let ops = Seq::new(polls, |i: int| QueueOp::Dequeue);
    if polls > 0 {
        lemma_empty_queue_stays_empty(s, (polls - 1) as nat);
        assert(ops.drop_first() =~= Seq::new((polls - 1) as nat, |i: int| QueueOp::Dequeue));
    }
}

/// With exactly one pending job, two pollers race for it: the pop is atomic,
/// so their calls happen in some order; the first gets the job and leaves the
/// queue empty, and the second gets none.
pub proof fn lemma_one_job_one_winner(s: Seq<(int, Seq<char>)>)
    requires
        s.len() == 1,
    ensures
        match spec_pop_min(s) {
            Some(er) => er.0 == s[0] && er.1.len() == 0 && spec_pop_min(er.1) is None,
            None => false,
        },
{
    assert(min_idx(s) == 0);
}

/// One step of a queue's history: a producer inserts one scored payload, or a
/// consumer pops the readiest one.
pub enum QueueOp {
    Enqueue(int, Seq<char>),
    Dequeue,
}

pub open spec fn apply_op(s: Seq<(int, Seq<char>)>, op: QueueOp) -> Seq<(int, Seq<char>)> {
    match op {
        QueueOp::Enqueue(sc, p) => s.push((sc, p)),
        QueueOp::Dequeue => match spec_pop_min(s) {
            Some(er) => er.1,
            None => s,
        },
    }
}

/// The queue after a history of operations, applied in order.
pub open spec fn run_ops(s: Seq<(int, Seq<char>)>, ops: Seq<QueueOp>) -> Seq<(int, Seq<char>)>
    decreases ops.len(),
{
    if ops.len() == 0 {
        s
    } else {
        run_ops(apply_op(s, ops[0]), ops.drop_first())
    }
}

pub open spec fn n_enqueues(ops: Seq<QueueOp>) -> int
    decreases ops.len(),
{
    if ops.len() == 0 {
        0
    } else {
        (if ops[0] is Enqueue {
            1int
        } else {
            0int
        }) + n_enqueues(ops.drop_first())
    }
}

pub open spec fn n_dequeues(ops: Seq<QueueOp>) -> int
    decreases ops.len(),
{
    if ops.len() == 0 {
        0
    } else {
        (if ops[0] is Dequeue {
            1int
        } else {
            0int
        }) + n_dequeues(ops.drop_first())
    }
}

/// No dequeue in the history falls on an empty queue.
pub open spec fn safe_ops(s: Seq<(int, Seq<char>)>, ops: Seq<QueueOp>) -> bool
    decreases ops.len(),
{
    if ops.len() == 0 {
        true
    } else {
        (ops[0] is Dequeue ==> s.len() > 0) && safe_ops(apply_op(s, ops[0]), ops.drop_first())
    }
}

/// Each enqueue grows the queue by one and each dequeue on a non-empty queue
/// shrinks it by one, whatever the interleaving.
pub proof fn lemma_run_ops_len(s: Seq<(int, Seq<char>)>, ops: Seq<QueueOp>)
    requires
        safe_ops(s, ops),
    ensures
        run_ops(s, ops).len() == s.len() + n_enqueues(ops) - n_dequeues(ops),
    decreases ops.len(),
{
    if ops.len() > 0 {
        let s2 = apply_op(s, ops[0]);
        match ops[0] {
            QueueOp::Enqueue(sc, p) => {
                assert(s2.len() == s.len() + 1);
            },
            QueueOp::Dequeue => {
                lemma_min_idx_props(s);
                assert(s2.len() == s.len() - 1);
            },
        }
        lemma_run_ops_len(s2, ops.drop_first());
    }
}

/// The count after N enqueues and M dequeues on one queue, starting empty and
/// never polling past empty, is exactly N - M.
pub proof fn lemma_count_after_enqueues_and_dequeues(ops: Seq<QueueOp>)
    requires
        safe_ops(Seq::empty(), ops),
    ensures
        run_ops(Seq::empty(), ops).len() == n_enqueues(ops) - n_dequeues(ops),
{
    lemma_run_ops_len(Seq::empty(), ops);
}

} // verus!
