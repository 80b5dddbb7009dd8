//! Scheduling decisions of the worker pool that runs test jobs.
//!
//! The pool's threads, channels and locks live outside this module. What they decide lives
//! here, in `Scheduler`: which submissions are accepted, which job a free worker takes next,
//! when a worker has nothing left to do, and which replies a worker sends. A worker calls
//! `next_job` to take a job, sends the `Starting` reply it returns, runs the job, and hands
//! the outcome to `finish_job`, which frees the worker and returns the `Done` reply.

use crate::text::{decimal, push_decimal};
use std::collections::VecDeque;
use vstd::multiset::Multiset;
use vstd::prelude::*;

verus! {

/// The result of one test job: `Ok` on success, or a failure message.
pub type TestResult = Result<(), String>;

/// A job: its id and the path of the test file to run.
pub struct Request {
    pub jobid: usize,
    pub path: String,
}

/// A reply from the pool.
pub enum Reply {
    /// Worker `thread_num` started job `jobid`.
    Starting { jobid: usize, thread_num: usize },
    /// Job `jobid` finished with `result`.
    Done { jobid: usize, result: TestResult },
    /// Heartbeat, sent periodically whatever the workers do.
    Tick,
}

/// How the job-runner came back from a job.
pub enum JobOutcome {
    /// It returned this result.
    Finished(TestResult),
    /// It stopped abruptly, with this message if one could be read from the fault.
    Faulted(Option<String>),
}

/// What a worker does next.
pub enum Poll {
    /// Run this job, after sending the `Starting` reply.
    Run(Request, Reply),
    /// No job is queued yet: wait for one.
    Wait,
    /// Submissions are closed and the queue is empty: the worker is done.
    Exit,
}

/// Failure message of a job whose runner faulted in worker `thread_num`.
pub open spec fn fault_text(thread_num: nat, payload: Option<Seq<char>>) -> Seq<char> {
    match payload {
        Some(msg) => "panicked in worker #"@ + decimal(thread_num) + ": "@ + msg,
        None => "panicked in worker #"@ + decimal(thread_num),
    }
}

/// The view of a test result: `Ok`, or the failure message.
pub open spec fn result_view(r: TestResult) -> Result<(), Seq<char>> {
    match r {
        Ok(()) => Ok(()),
        Err(msg) => Err(msg@),
    }
}

/// The result reported for a job of worker `thread_num` that came back with `outcome`.
pub open spec fn outcome_result(thread_num: nat, outcome: JobOutcome) -> Result<(), Seq<char>> {
    match outcome {
        JobOutcome::Finished(r) => result_view(r),
        JobOutcome::Faulted(payload) => Err(
            fault_text(
                thread_num,
                match payload {
                    Some(m) => Some(m@),
                    None => None,
                },
            ),
        ),
    }
}

/// The failure message of a job that faulted in worker `thread_num`, with the fault's own
/// message when it has one.
pub fn fault_message(thread_num: usize, payload: Option<String>) -> (r: String)
    ensures
        r@ == fault_text(
            thread_num as nat,
            match payload {
                Some(m) => Some(m@),
                None => None,
            },
        ),
{
    let mut out = String::from_str("panicked in worker #");
    push_decimal(&mut out, thread_num as u128);
    match payload {
        Some(msg) => {
            out.append(": ");
            out.append(msg.as_str());
        },
        None => {},
    }
    out
}

/// The result to report for a job of worker `thread_num`: the runner's own result, or a
/// failure naming the worker when the runner faulted.
pub fn job_result(thread_num: usize, outcome: JobOutcome) -> (r: TestResult)
    ensures
        result_view(r) == outcome_result(thread_num as nat, outcome),
{
    match outcome {
        JobOutcome::Finished(r) => r,
        JobOutcome::Faulted(payload) => Err(fault_message(thread_num, payload)),
    }
}

/// An entry of the reply log: the worker that sent it, and the reply.
pub type LogEntry = (usize, Reply);

/// Ids of the `Starting` replies of a log, in order.
pub open spec fn started_ids(log: Seq<LogEntry>) -> Seq<usize>
    decreases log.len(),
{
    if log.len() == 0 {
        Seq::empty()
    } else {
        let rest = started_ids(log.drop_last());
        match log.last().1 {
            Reply::Starting { jobid, .. } => rest.push(jobid),
            _ => rest,
        }
    }
}

/// Ids of the `Done` replies of a log, in order.
pub open spec fn done_ids(log: Seq<LogEntry>) -> Seq<usize>
    decreases log.len(),
{
    if log.len() == 0 {
        Seq::empty()
    } else {
        let rest = done_ids(log.drop_last());
        match log.last().1 {
            Reply::Done { jobid, .. } => rest.push(jobid),
            _ => rest,
        }
    }
}

/// Every `Done` reply of a log follows a `Starting` reply of the same job from the same
/// worker.
pub open spec fn starts_precede_dones(log: Seq<LogEntry>) -> bool {
    forall|k: int|
        0 <= k < log.len() && (#[trigger] log[k]).1 is Done ==> exists|j: int|
            0 <= j < k && log[j] == (
            log[k].0,
            Reply::Starting { jobid: log[k].1->Done_jobid, thread_num: log[k].0 },
        )
}

/// The ids of a queue of requests, in order.
pub open spec fn queue_ids(q: Seq<Request>) -> Seq<usize> {
    q.map_values(|r: Request| r.jobid)
}

/// Number of workers that are running a job.
pub open spec fn busy_count(running: Seq<Option<usize>>) -> nat
    decreases running.len(),
{
    if running.len() == 0 {
        0
    } else {
        busy_count(running.drop_last()) + if running.last() is Some {
            1nat
        } else {
            0nat
        }
    }
}

/// The ids of the jobs the workers are running.
pub open spec fn busy_ids(running: Seq<Option<usize>>) -> Multiset<usize>
    decreases running.len(),
{
    if running.len() == 0 {
        Multiset::empty()
    } else {
        busy_ids(running.drop_last()).add(opt_ids(running.last()))
    }
}

/// The id an optional job slot holds, as a multiset.
pub open spec fn opt_ids(o: Option<usize>) -> Multiset<usize> {
    match o {
        Some(id) => Multiset::singleton(id),
        None => Multiset::empty(),
    }
}

proof fn lemma_busy_ids_update(running: Seq<Option<usize>>, w: int, v: Option<usize>)
    requires
        0 <= w < running.len(),
    ensures
        busy_ids(running.update(w, v)).add(opt_ids(running[w])) == busy_ids(running).add(
            opt_ids(v),
        ),
    decreases running.len(),
{
    broadcast use vstd::multiset::group_multiset_axioms;

    let u = running.update(w, v);
    let r1 = running.drop_last();
    if w == running.len() - 1 {
        assert(u.drop_last() =~= r1);
        assert(u.last() == v);
        assert(busy_ids(u) == busy_ids(r1).add(opt_ids(v)));
        assert(busy_ids(running) == busy_ids(r1).add(opt_ids(running[w])));
        assert(busy_ids(u).add(opt_ids(running[w])) =~= busy_ids(running).add(opt_ids(v)));
    } else {
        let u1 = r1.update(w, v);
        assert(u.drop_last() =~= u1);
        assert(u.last() == running.last());
        assert(r1[w] == running[w]);
        lemma_busy_ids_update(r1, w, v);
        assert(busy_ids(u) == busy_ids(u1).add(opt_ids(running.last())));
        assert(busy_ids(running) == busy_ids(r1).add(opt_ids(running.last())));
        assert(busy_ids(u1).add(opt_ids(running[w])) == busy_ids(r1).add(opt_ids(v)));
        assert forall|x: usize| #[trigger] busy_ids(u).add(opt_ids(running[w])).count(x) == busy_ids(
            running,
        ).add(opt_ids(v)).count(x) by {
            assert(busy_ids(u1).add(opt_ids(running[w])).count(x) == busy_ids(r1).add(
                opt_ids(v),
            ).count(x));
        }
        assert(busy_ids(u).add(opt_ids(running[w])) =~= busy_ids(running).add(opt_ids(v)));
    }
}

proof fn lemma_busy_ids_none(running: Seq<Option<usize>>)
    requires
        forall|w: int| 0 <= w < running.len() ==> (#[trigger] running[w]) is None,
    ensures
        busy_ids(running) == Multiset::<usize>::empty(),
    decreases running.len(),
{
    broadcast use vstd::multiset::group_multiset_axioms;

    if running.len() > 0 {
        lemma_busy_ids_none(running.drop_last());
        assert(busy_ids(running) =~= Multiset::<usize>::empty());
    }
}

proof fn lemma_busy_update(running: Seq<Option<usize>>, w: int, v: Option<usize>)
    requires
        0 <= w < running.len(),
    ensures
        busy_count(running.update(w, v)) + (if running[w] is Some {
            1nat
        } else {
            0nat
        }) == busy_count(running) + (if v is Some {
            1nat
        } else {
            0nat
        }),
    decreases running.len(),
{
    let u = running.update(w, v);
    if w == running.len() - 1 {
        assert(u.drop_last() =~= running.drop_last());
    } else {
        assert(u.drop_last() =~= running.drop_last().update(w, v));
        lemma_busy_update(running.drop_last(), w, v);
    }
}

proof fn lemma_busy_none(running: Seq<Option<usize>>)
    requires
        forall|w: int| 0 <= w < running.len() ==> (#[trigger] running[w]) is None,
    ensures
        busy_count(running) == 0,
    decreases running.len(),
{
    if running.len() > 0 {
        lemma_busy_none(running.drop_last());
    }
}

proof fn lemma_started_contains(log: Seq<LogEntry>, j: int)
    requires
        0 <= j < log.len(),
        log[j].1 is Starting,
    ensures
        started_ids(log).contains(log[j].1->Starting_jobid),
    decreases log.len(),
{
    let id = log[j].1->Starting_jobid;
    if j == log.len() - 1 {
        assert(started_ids(log).last() == id);
    } else {
        lemma_started_contains(log.drop_last(), j);
        let rest = started_ids(log.drop_last());
        let k = choose|k: int| 0 <= k < rest.len() && rest[k] == id;
        match log.last().1 {
            Reply::Starting { jobid, .. } => {
                assert(started_ids(log)[k] == id);
            },
            _ => {},
        }
    }
}

/// The number of workers for a machine with `cpus` logical CPUs: one per CPU, and at least
/// one.
pub fn worker_count(cpus: usize) -> (r: usize)
    ensures
        r == (if cpus == 0 {
            1
        } else {
            cpus
        }),
{
    if cpus == 0 {
        1
    } else {
        cpus
    }
}

/// The pool's default number of workers: `worker_count` of the logical CPUs of this machine.
pub fn default_workers() -> (r: usize)
    ensures
        r >= 1,
{
    worker_count(available_cpus())
}

/// Relies on num_cpus::get, which counts the logical CPUs that this process may use.
#[verifier::external_body]
fn available_cpus() -> usize {
    num_cpus::get()
}

/// The decisions of a pool of workers: the queue of submitted jobs, whether submissions are
/// still accepted, and the job each worker is running.
pub struct Scheduler {
    queue: VecDeque<Request>,
    accepting: bool,
    running: Vec<Option<usize>>,
    submitted: Ghost<Seq<usize>>,
    log: Ghost<Seq<LogEntry>>,
    since: Ghost<Seq<int>>,
}

impl Scheduler {
    /// Jobs submitted and not yet taken by a worker, oldest first.
    pub closed spec fn queue(&self) -> Seq<Request> {
        self.queue@
    }

    /// Whether submissions are accepted (the pool was not shut down).
    pub closed spec fn accepting(&self) -> bool {
        self.accepting
    }

    /// For each worker, the id of the job it is running, if any.
    pub closed spec fn running(&self) -> Seq<Option<usize>> {
        self.running@
    }

    /// Ids of every accepted submission, in order.
    pub closed spec fn submitted(&self) -> Seq<usize> {
        self.submitted@
    }

    /// Every `Starting` and `Done` reply handed out so far, with the worker it is for.
    pub closed spec fn log(&self) -> Seq<LogEntry> {
        self.log@
    }

    /// Consistency of the queue, the workers and the history.
    pub closed spec fn wf(&self) -> bool {
        &&& self.since@.len() == self.running@.len()
        &&& self.submitted@ == started_ids(self.log@) + queue_ids(self.queue@)
        &&& done_ids(self.log@).len() + busy_count(self.running@) == started_ids(self.log@).len()
        &&& done_ids(self.log@).to_multiset().add(busy_ids(self.running@)) == started_ids(
            self.log@,
        ).to_multiset()
        &&& starts_precede_dones(self.log@)
        &&& forall|w: int|
            0 <= w < self.running@.len() && (#[trigger] self.running@[w]) is Some ==> {
                &&& 0 <= self.since@[w] < self.log@.len()
                &&& self.log@[self.since@[w]] == (
                    w as usize,
                    Reply::Starting { jobid: self.running@[w]->Some_0, thread_num: w as usize },
                )
            }
    }

    /// A scheduler for `workers` workers, accepting submissions, with nothing queued.
    pub fn new(workers: usize) -> (r: Scheduler)
        ensures
            r.wf(),
            r.accepting(),
            r.queue() == Seq::<Request>::empty(),
            r.running() == Seq::new(workers as nat, |w: int| None::<usize>),
            r.submitted() == Seq::<usize>::empty(),
            r.log() == Seq::<LogEntry>::empty(),
    {
        let mut running: Vec<Option<usize>> = Vec::new();
        let mut i: usize = 0;
        while i < workers
            invariant
                i <= workers,
                running@ == Seq::new(i as nat, |w: int| None::<usize>),
            decreases workers - i,
        {
            running.push(None);
            i = i + 1;
            assert(running@ =~= Seq::new(i as nat, |w: int| None::<usize>));
        }
        proof {
            lemma_busy_none(running@);
            lemma_busy_ids_none(running@);
            broadcast use vstd::multiset::group_multiset_axioms;
            broadcast use vstd::seq_lib::group_to_multiset_ensures;
            assert(Seq::<usize>::empty().to_multiset().len() == 0);
            assert(Seq::<usize>::empty().to_multiset() =~= Multiset::<usize>::empty());
            assert(Seq::<usize>::empty().to_multiset().add(Multiset::<usize>::empty())
                =~= Seq::<usize>::empty().to_multiset());
        }
        let r = Scheduler {
            queue: VecDeque::new(),
            accepting: true,
            running,
            submitted: Ghost(Seq::empty()),
            log: Ghost(Seq::empty()),
            since: Ghost(Seq::new(workers as nat, |w: int| 0int)),
        };
        assert(r.submitted@ =~= started_ids(r.log@) + queue_ids(r.queue@));
        r
    }

    /// A scheduler with one worker per logical CPU.
    pub fn with_default_workers() -> (r: Scheduler)
        ensures
            r.wf(),
            r.accepting(),
            r.queue() == Seq::<Request>::empty(),
            r.running().len() >= 1,
            forall|w: int| 0 <= w < r.running().len() ==> (#[trigger] r.running()[w]) is None,
            r.submitted() == Seq::<usize>::empty(),
            r.log() == Seq::<LogEntry>::empty(),
    {
        Scheduler::new(default_workers())
    }

    /// Number of workers.
    pub fn workers(&self) -> (r: usize)
        ensures
            r == self.running().len(),
    {
        self.running.len()
    }

    /// Whether submissions are still accepted.
    pub fn is_accepting(&self) -> (r: bool)
        ensures
            r == self.accepting(),
    {
        self.accepting
    }

    /// Whether `worker` is free to take a job.
    pub fn is_idle(&self, worker: usize) -> (r: bool)
        requires
            worker < self.running().len(),
        ensures
            r == (self.running()[worker as int] is None),
    {
        self.running[worker].is_none()
    }

    /// Queues job `jobid` for `path`. Submitting after `shutdown` is a defect of the caller:
    /// `is_accepting` tells whether submissions are still taken.
    pub fn put(&mut self, jobid: usize, path: String)
        requires
            old(self).wf(),
            old(self).accepting(),
        ensures
            final(self).wf(),
            final(self).queue() == old(self).queue().push(Request { jobid, path }),
            final(self).submitted() == old(self).submitted().push(jobid),
            final(self).accepting(),
            final(self).running() == old(self).running(),
            final(self).log() == old(self).log(),
    {
        let ghost q0 = self.queue@;
        self.queue.push_back(Request { jobid, path });
        self.submitted = Ghost(self.submitted@.push(jobid));
        assert(queue_ids(self.queue@) =~= queue_ids(q0).push(jobid));
        assert(self.submitted@ =~= started_ids(self.log@) + queue_ids(self.queue@));
    }

    /// Closes submissions. Queued jobs are still handed out to the workers.
    pub fn shutdown(&mut self)
        requires
            old(self).wf(),
        ensures
            final(self).wf(),
            !final(self).accepting(),
            final(self).queue() == old(self).queue(),
            final(self).running() == old(self).running(),
            final(self).submitted() == old(self).submitted(),
            final(self).log() == old(self).log(),
    {
        self.accepting = false;
    }

    /// What the free worker `worker` does next: run the oldest queued job, wait for one, or
    /// stop once submissions are closed and nothing is queued.
    pub fn next_job(&mut self, worker: usize) -> (r: Poll)
        requires
            old(self).wf(),
            worker < old(self).running().len(),
            old(self).running()[worker as int] is None,
        ensures
            final(self).wf(),
            match r {
                Poll::Run(req, reply) => {
                    &&& old(self).queue().len() > 0
                    &&& req == old(self).queue()[0]
                    &&& reply == Reply::Starting { jobid: req.jobid, thread_num: worker }
                    &&& final(self).queue() == old(self).queue().drop_first()
                    &&& final(self).running() == old(self).running().update(
                        worker as int,
                        Some(req.jobid),
                    )
                    &&& final(self).log() == old(self).log().push((worker, reply))
                    &&& final(self).accepting() == old(self).accepting()
                    &&& final(self).submitted() == old(self).submitted()
                },
                Poll::Wait => old(self).queue().len() == 0 && old(self).accepting() && *final(self)
                    == *old(self),
                Poll::Exit => old(self).queue().len() == 0 && !old(self).accepting() && *final(self)
                    == *old(self),
            },
    {
        if self.queue.len() == 0 {
            return if self.accepting {
                Poll::Wait
            } else {
                Poll::Exit
            };
        }
        let req = self.queue.pop_front().unwrap();
        let jobid = req.jobid;
        let ghost log0 = self.log@;
        let ghost run0 = self.running@;
        let ghost q0 = old(self).queue@;
        let reply = Reply::Starting { jobid, thread_num: worker };
        let ghost entry = (worker, reply);
        self.running.set(worker, Some(jobid));
        self.log = Ghost(log0.push(entry));
        self.since = Ghost(self.since@.update(worker as int, log0.len() as int));
        proof {
            let log1 = self.log@;
            assert(log1.drop_last() =~= log0);
            assert(started_ids(log1) == started_ids(log0).push(jobid));
            assert(done_ids(log1) == done_ids(log0));
            lemma_busy_update(run0, worker as int, Some(jobid));
            lemma_busy_ids_update(run0, worker as int, Some(jobid));
            broadcast use vstd::multiset::group_multiset_axioms;
            broadcast use vstd::seq_lib::group_to_multiset_ensures;
            assert(started_ids(log1).to_multiset() == started_ids(log0).to_multiset().insert(jobid));
            assert(opt_ids(run0[worker as int]) =~= Multiset::<usize>::empty());
            assert(busy_ids(self.running@).add(Multiset::<usize>::empty()) =~= busy_ids(self.running@));
            assert(busy_ids(self.running@) == busy_ids(run0).add(opt_ids(Some(jobid))));
            assert(done_ids(log1).to_multiset().add(busy_ids(self.running@)) =~= started_ids(
                log1,
            ).to_multiset());
            assert(self.queue@ =~= q0.drop_first());
            assert(queue_ids(q0) =~= seq![jobid] + queue_ids(self.queue@));
            assert(self.submitted@ =~= started_ids(log1) + queue_ids(self.queue@));
            assert forall|k: int|
                0 <= k < log1.len() && (#[trigger] log1[k]).1 is Done implies exists|j: int|
                0 <= j < k && log1[j] == (
                log1[k].0,
                Reply::Starting { jobid: log1[k].1->Done_jobid, thread_num: log1[k].0 },
            ) by {
                assert(log1[k] == log0[k]);
                let j = choose|j: int|
                    0 <= j < k && log0[j] == (
                    log0[k].0,
                    Reply::Starting { jobid: log0[k].1->Done_jobid, thread_num: log0[k].0 },
                );
                assert(log1[j] == log0[j]);
            }
            assert forall|w: int|
                0 <= w < self.running@.len() && (#[trigger] self.running@[w]) is Some implies {
                &&& 0 <= self.since@[w] < self.log@.len()
                &&& self.log@[self.since@[w]] == (
                    w as usize,
                    Reply::Starting { jobid: self.running@[w]->Some_0, thread_num: w as usize },
                )
            } by {
                if w != worker {
                    assert(run0[w] is Some);
                    assert(self.log@[self.since@[w]] == log0[self.since@[w]]);
                }
            }
        }
        Poll::Run(req, reply)
    }

    /// Frees worker `worker` after its job came back with `outcome`, and returns the `Done`
    /// reply for that job.
    pub fn finish_job(&mut self, worker: usize, outcome: JobOutcome) -> (r: Reply)
        requires
            old(self).wf(),
            worker < old(self).running().len(),
            old(self).running()[worker as int] is Some,
        ensures
            final(self).wf(),
            match r {
                Reply::Done { jobid, result } => {
                    &&& jobid == old(self).running()[worker as int]->Some_0
                    &&& result_view(result) == outcome_result(worker as nat, outcome)
                },
                _ => false,
            },
            final(self).running() == old(self).running().update(worker as int, None),
            final(self).log() == old(self).log().push((worker, r)),
            final(self).queue() == old(self).queue(),
            final(self).accepting() == old(self).accepting(),
            final(self).submitted() == old(self).submitted(),
    {
        let jobid = self.running[worker].unwrap();
        let result = job_result(worker, outcome);
        let reply = Reply::Done { jobid, result };
        let ghost log0 = self.log@;
        let ghost run0 = self.running@;
        let ghost entry = (worker, reply);
        self.running.set(worker, None);
        self.log = Ghost(log0.push(entry));
        proof {
            let log1 = self.log@;
            assert(log1.drop_last() =~= log0);
            assert(started_ids(log1) == started_ids(log0));
            assert(done_ids(log1) == done_ids(log0).push(jobid));
            lemma_busy_update(run0, worker as int, None);
            lemma_busy_ids_update(run0, worker as int, None);
            broadcast use vstd::multiset::group_multiset_axioms;
            broadcast use vstd::seq_lib::group_to_multiset_ensures;
            assert(done_ids(log1).to_multiset() == done_ids(log0).to_multiset().insert(jobid));
            assert(opt_ids(None) =~= Multiset::<usize>::empty());
            assert(busy_ids(run0).add(Multiset::<usize>::empty()) =~= busy_ids(run0));
            assert(busy_ids(self.running@).add(opt_ids(Some(jobid))) == busy_ids(run0));
            assert(done_ids(log1).to_multiset().add(busy_ids(self.running@)) =~= started_ids(
                log1,
            ).to_multiset());
            assert forall|k: int|
                0 <= k < log1.len() && (#[trigger] log1[k]).1 is Done implies exists|j: int|
                0 <= j < k && log1[j] == (
                log1[k].0,
                Reply::Starting { jobid: log1[k].1->Done_jobid, thread_num: log1[k].0 },
            ) by {
                if k == log0.len() {
                    let j = self.since@[worker as int];
                    assert(log1[j] == log0[j]);
                } else {
                    assert(log1[k] == log0[k]);
                    let j = choose|j: int|
                        0 <= j < k && log0[j] == (
                        log0[k].0,
                        Reply::Starting { jobid: log0[k].1->Done_jobid, thread_num: log0[k].0 },
                    );
                    assert(log1[j] == log0[j]);
                }
            }
            assert forall|w: int|
                0 <= w < self.running@.len() && (#[trigger] self.running@[w]) is Some implies {
                &&& 0 <= self.since@[w] < self.log@.len()
                &&& self.log@[self.since@[w]] == (
                    w as usize,
                    Reply::Starting { jobid: self.running@[w]->Some_0, thread_num: w as usize },
                )
            } by {
                assert(run0[w] is Some);
                assert(self.log@[self.since@[w]] == log0[self.since@[w]]);
            }
        }
        reply
    }
}

} // verus!

verus! {

/// Once the scheduler is drained (nothing queued, no worker busy), every accepted job was
/// started exactly once, in submission order, and the `Done` replies name exactly the
/// submitted jobs, each as many times as it was submitted: with distinct ids, each job got
/// one `Done`. Each `Done` reply follows the `Starting` reply of the same job from the same
/// worker.
pub proof fn lemma_drained_all_replied(s: &Scheduler)
    requires
        s.wf(),
        s.queue().len() == 0,
        forall|w: int| 0 <= w < s.running().len() ==> (#[trigger] s.running()[w]) is None,
    ensures
        started_ids(s.log()) == s.submitted(),
        done_ids(s.log()).len() == s.submitted().len(),
        done_ids(s.log()).to_multiset() == s.submitted().to_multiset(),
        s.submitted().no_duplicates() ==> done_ids(s.log()).no_duplicates(),
        starts_precede_dones(s.log()),
{
    broadcast use vstd::multiset::group_multiset_axioms;

    assert forall|w: int| 0 <= w < s.running@.len() implies (#[trigger] s.running@[w]) is None by {
        assert(s.running()[w] == s.running@[w]);
    }
    lemma_busy_none(s.running@);
    lemma_busy_ids_none(s.running@);
    assert(queue_ids(s.queue@) =~= Seq::<usize>::empty());
    assert(s.submitted@ =~= started_ids(s.log@));
    let d = done_ids(s.log@);
    assert(d.to_multiset().add(Multiset::<usize>::empty()) =~= d.to_multiset());
    if s.submitted@.no_duplicates() {
        s.submitted@.lemma_multiset_has_no_duplicates();
        d.lemma_multiset_has_no_duplicates_conv();
    }
}

/// Only accepted jobs are ever reported done: the id of every `Done` reply was submitted.
/// With `put`, which changes nothing when it refuses a job, no `Done` reply comes for a job
/// submitted after shutdown under a fresh id.
pub proof fn lemma_done_only_submitted(s: &Scheduler, k: int)
    requires
        s.wf(),
        0 <= k < s.log().len(),
        s.log()[k].1 is Done,
    ensures
        s.submitted().contains(s.log()[k].1->Done_jobid),
{
    let log = s.log@;
    let id = log[k].1->Done_jobid;
    let j = choose|j: int|
        0 <= j < k && log[j] == (log[k].0, Reply::Starting { jobid: id, thread_num: log[k].0 });
    lemma_started_contains(log, j);
    let started = started_ids(log);
    let i = choose|i: int| 0 <= i < started.len() && started[i] == id;
    assert(s.submitted@[i] == id);
}

} // verus!
