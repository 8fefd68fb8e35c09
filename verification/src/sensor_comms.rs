//! The decision core of the callback-decoupling worker.
//!
//! One worker owns one inbound queue and one background thread. The thread
//! runs jobs strictly serially, in submission order, until it sees the
//! shutdown sentinel or the queue's sending side is gone. The functions here
//! decide, for every message and for the teardown, what the worker does; the
//! thread and channel plumbing around them lives outside the library.

use vstd::prelude::*;
use crate::sensors::SensorEvent;

verus! {

/// Something a typed handler can be bound to. Each implementor names the one
/// payload shape it delivers and narrows an untyped event against it: an
/// event of the expected shape yields its payload; any other event yields
/// nothing and is dropped without reaching the handler.
pub trait Listen {
    type Data;

    /// What an untyped event narrows to.
    spec fn narrows(event: SensorEvent) -> Option<Self::Data>;

    /// Narrows one untyped event to the expected shape.
    fn narrow(&self, event: SensorEvent) -> (r: Option<Self::Data>)
        ensures
            r == Self::narrows(event),
    ;
}

/// A message on a worker's inbound queue: either one job to run, or the
/// shutdown sentinel.
pub enum Message<J> {
    Job(J),
    Shutdown,
}

/// The two states of a worker's loop: it is either still consuming messages
/// or it has observed the shutdown sentinel (or the end of its queue) and
/// exited.
#[derive(Clone, Copy, PartialEq, Eq, Structural, Debug)]
pub enum WorkerState {
    Running,
    Terminated,
}

/// What the worker does with one message: run the job and keep consuming, or
/// stop.
pub enum Directive<J> {
    RunThenContinue(J),
    Stop,
}

/// The jobs a worker runs, in order: every job that precedes the first
/// shutdown sentinel, and no other.
pub open spec fn executed_prefix<J>(msgs: Seq<Message<J>>) -> Seq<J>
    decreases msgs.len(),
{
    if msgs.len() == 0 {
        Seq::empty()
    } else {
        match msgs[0] {
            Message::Job(j) => seq![j] + executed_prefix(msgs.drop_first()),
            Message::Shutdown => Seq::empty(),
        }
    }
}

/// Decides what the worker does with one received message: a job is run and
/// the loop continues; the shutdown sentinel stops the loop.
pub fn worker_step<J>(msg: Message<J>) -> (d: Directive<J>)
    ensures
        match msg {
            Message::Job(j) => d matches Directive::RunThenContinue(job) && job == j,
            Message::Shutdown => d matches Directive::Stop,
        },
{
    match msg {
        Message::Job(j) => Directive::RunThenContinue(j),
        Message::Shutdown => Directive::Stop,
    }
}

/// The worker's consuming loop over the messages its queue will ever carry:
/// runs every job submitted before the first shutdown sentinel, in submission
/// order, then terminates. A queue that ends without a sentinel (every sender
/// dropped) terminates the loop as well.
pub fn worker_loop<J>(inbox: Vec<Message<J>>) -> (r: (Vec<J>, WorkerState))
    ensures
        r.0@ == executed_prefix(inbox@),
        r.1 == WorkerState::Terminated,
{
    let mut pending = inbox;
    let ghost orig = pending@;
    let mut executed: Vec<J> = Vec::new();
    loop
        invariant_except_break
            executed_prefix(orig) =~= executed@ + executed_prefix(pending@),
        ensures
            executed@ =~= executed_prefix(orig),
        decreases pending.len(),
    {
        if pending.len() == 0 {
            proof {
                assert(executed_prefix(pending@) =~= Seq::empty());
                assert(executed@ =~= executed_prefix(orig));
            }
            break ;
        }
        let ghost pend0 = pending@;
        let msg = pending.remove(0);
        proof {
            assert(pending@ =~= pend0.drop_first());
            assert(msg == pend0[0]);
        }
        match worker_step(msg) {
            Directive::RunThenContinue(j) => {
                proof {
                    assert(executed_prefix(pend0) =~= seq![j] + executed_prefix(
                        pend0.drop_first(),
                    ));
                }
                executed.push(j);
                assert(executed_prefix(orig) =~= executed@ + executed_prefix(pending@));
            },
            Directive::Stop => {
                proof {
                    assert(executed_prefix(pend0) =~= Seq::empty());
                    assert(executed@ =~= executed_prefix(orig));
                }
                break ;
            },
        }
    }
    (executed, WorkerState::Terminated)
}

/// Whether a teardown that runs on `current_thread` may join the worker
/// thread: joining is skipped exactly when the teardown already runs on the
/// worker's own thread, where a join would deadlock on itself. Thread
/// identities are compared as opaque numbers.
pub fn should_join(current_thread: u64, worker_thread: u64) -> (r: bool)
    ensures
        r == (current_thread != worker_thread),
{
    current_thread != worker_thread
}

/// Whether a job may invoke its handler: a handler guard found poisoned (a
/// previous invocation failed while holding it) makes the job skip the
/// handler and the worker carry on, trading one lost event for a live worker.
pub fn handler_may_run(guard_poisoned: bool) -> (r: bool)
    ensures
        r == !guard_poisoned,
{
    !guard_poisoned
}

/// Submitting a run of jobs and then the shutdown sentinel makes the worker
/// run exactly those jobs, in submission order, before terminating.
pub proof fn lemma_jobs_run_in_order<J>(jobs: Seq<J>)
    ensures
        executed_prefix(jobs.map_values(|j: J| Message::Job(j)) + seq![Message::<J>::Shutdown])
            == jobs,
    decreases jobs.len(),
{
    let msgs = jobs.map_values(|j: J| Message::Job(j)) + seq![Message::<J>::Shutdown];
    if jobs.len() == 0 {
        assert(msgs[0] == Message::<J>::Shutdown);
        assert(executed_prefix(msgs) =~= jobs);
    } else {
        lemma_jobs_run_in_order(jobs.drop_first());
        let tail = jobs.drop_first().map_values(|j: J| Message::Job(j)) + seq![
            Message::<J>::Shutdown,
        ];
        assert(msgs.drop_first() =~= tail);
        assert(msgs[0] == Message::<J>::Job(jobs[0]));
        assert(executed_prefix(msgs) =~= seq![jobs[0]] + executed_prefix(tail));
        assert(executed_prefix(msgs) =~= jobs);
    }
}

} // verus!
