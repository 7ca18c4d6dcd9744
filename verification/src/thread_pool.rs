//! The worker pool as a protocol: a fixed set of workers that take messages
//! from one shared first-in-first-out queue. A message is a job or the
//! signal to terminate. The pool here holds the queue and the state of each
//! worker; the threads that run the jobs are not its concern.
//!
//! The queue has no bound and there is no backpressure: a burst of
//! submissions grows it without limit.

use crate::text::{decimal, decimal_text};
use std::collections::VecDeque;
use vstd::prelude::*;

verus! {

/// The identity of a worker.
#[derive(PartialEq, Eq, Structural, Debug, Clone, Copy)]
pub struct Id {
    value: usize,
}

impl View for Id {
    type V = nat;

    closed spec fn view(&self) -> nat {
        self.value as nat
    }
}

impl Id {
    pub fn new(value: usize) -> (r: Id)
        ensures
            r@ == value,
    {
        Id { value }
    }

    /// The number that identifies the worker.
    pub fn value(&self) -> (r: usize)
        ensures
            r == self@,
    {
        self.value
    }

    /// The identity in decimal.
    pub fn to_string(&self) -> (r: String)
        ensures
            r@ == decimal(self@),
    {
        decimal_text(self.value)
    }
}

/// What travels through the queue of a pool.
#[derive(Debug)]
pub enum Message<J> {
    /// A job for the worker that takes the message.
    NewJob(J),
    /// The signal that ends the worker that takes the message.
    Terminate,
}

/// What a worker is doing.
#[derive(PartialEq, Eq, Structural, Debug, Clone, Copy)]
pub enum WorkerStatus {
    /// Waiting for its next message.
    Waiting,
    /// Running a job.
    Running,
    /// Ended by a `Terminate`; it takes no further message.
    Stopped,
}

/// What a worker is doing, and on which job: a job is named by its
/// position in the order of submission.
pub enum WorkerView {
    Waiting,
    Running(nat),
    Stopped,
}

/// How far a job has come; a worker is named by its number.
pub enum Progress {
    /// In the queue.
    Queued,
    /// Taken by this worker, which is running it.
    Running(nat),
    /// Run to completion.
    Finished,
}

/// What a pool holds.
pub struct PoolView<J> {
    /// The workers, by number.
    pub workers: Seq<WorkerView>,
    /// Every job that was submitted, in the order of submission.
    pub jobs: Seq<J>,
    /// How far each job has come.
    pub progress: Seq<Progress>,
    /// How many jobs have left the queue.
    pub received: nat,
    /// How many `Terminate` messages are in the queue.
    pub terminations: nat,
    /// Whether the pool has been disposed of.
    pub disposed: bool,
}

/// The number of workers that have stopped.
pub open spec fn stopped_count(workers: Seq<WorkerView>) -> nat
    decreases workers.len(),
{
    if workers.len() == 0 {
        0
    } else if workers.last() is Stopped {
        stopped_count(workers.drop_last()) + 1
    } else {
        stopped_count(workers.drop_last())
    }
}

/// The queue of a pool: the jobs that have not left it yet, in the order
/// of submission, and behind them the `Terminate` messages.
pub open spec fn queue_of<J>(v: PoolView<J>) -> Seq<Message<J>> {
    Seq::new(
        (v.jobs.len() - v.received + v.terminations) as nat,
        |k: int|
            if k < v.jobs.len() - v.received {
                Message::NewJob(v.jobs[v.received + k])
            } else {
                Message::Terminate
            },
    )
}

/// What holds of a pool at all times.
pub open spec fn pool_inv<J>(v: PoolView<J>) -> bool {
    &&& v.workers.len() >= 1
    &&& v.progress.len() == v.jobs.len()
    &&& v.received <= v.jobs.len()
    &&& forall|i: int|
        0 <= i < v.jobs.len() ==> ((#[trigger] v.progress[i]) is Queued <==> i >= v.received)
    &&& forall|i: int, w: int|
        0 <= i < v.jobs.len() && 0 <= w < v.workers.len() ==> ((#[trigger] v.progress[i])
            == Progress::Running(w as nat) <==> (#[trigger] v.workers[w]) == WorkerView::Running(
            i as nat,
        ))
    &&& forall|i: int|
        0 <= i < v.jobs.len() ==> ((#[trigger] v.progress[i]) matches Progress::Running(w) ==> w
            < v.workers.len())
    &&& forall|w: int|
        0 <= w < v.workers.len() ==> ((#[trigger] v.workers[w]) matches WorkerView::Running(i)
            ==> i < v.jobs.len())
    &&& !v.disposed ==> v.terminations == 0 && stopped_count(v.workers) == 0
    &&& v.disposed ==> v.terminations + stopped_count(v.workers) == v.workers.len()
    &&& stopped_count(v.workers) > 0 ==> v.received == v.jobs.len()
}

/// A new pool of `size` workers: all waiting, nothing submitted.
pub open spec fn pool_new<J>(size: nat) -> PoolView<J> {
    PoolView {
        workers: Seq::new(size, |w: int| WorkerView::Waiting),
        jobs: Seq::empty(),
        progress: Seq::empty(),
        received: 0,
        terminations: 0,
        disposed: false,
    }
}

/// The pool after `job` was submitted: the job is at the back of the
/// queue.
pub open spec fn pool_execute<J>(v: PoolView<J>, job: J) -> PoolView<J> {
    PoolView { jobs: v.jobs.push(job), progress: v.progress.push(Progress::Queued), ..v }
}

/// The pool after it was disposed of: one `Terminate` for each worker is
/// at the back of the queue.
pub open spec fn pool_dispose<J>(v: PoolView<J>) -> PoolView<J> {
    PoolView { terminations: v.workers.len(), disposed: true, ..v }
}

/// Worker `w` is waiting and the queue holds a message for it.
pub open spec fn can_receive<J>(v: PoolView<J>, w: int) -> bool {
    &&& 0 <= w < v.workers.len()
    &&& v.workers[w] is Waiting
    &&& (v.received < v.jobs.len() || v.terminations > 0)
}

/// The pool after worker `w` took the message at the front of the queue:
/// it runs the job that has waited longest or, where no job is left, it
/// stops.
pub open spec fn pool_receive<J>(v: PoolView<J>, w: int) -> PoolView<J> {
    if v.received < v.jobs.len() {
        PoolView {
            workers: v.workers.update(w, WorkerView::Running(v.received)),
            progress: v.progress.update(v.received as int, Progress::Running(w as nat)),
            received: v.received + 1,
            ..v
        }
    } else {
        PoolView {
            workers: v.workers.update(w, WorkerView::Stopped),
            terminations: (v.terminations - 1) as nat,
            ..v
        }
    }
}

/// The pool after worker `w` completed the job that it ran.
pub open spec fn pool_finish<J>(v: PoolView<J>, w: int) -> PoolView<J> {
    match v.workers[w] {
        WorkerView::Running(i) => PoolView {
            workers: v.workers.update(w, WorkerView::Waiting),
            progress: v.progress.update(i as int, Progress::Finished),
            ..v
        },
        _ => v,
    }
}

/// Every worker is running a job.
pub open spec fn saturated<J>(v: PoolView<J>) -> bool {
    forall|w: int| 0 <= w < v.workers.len() ==> (#[trigger] v.workers[w]) is Running
}

/// Every worker has stopped.
pub open spec fn all_stopped<J>(v: PoolView<J>) -> bool {
    forall|w: int| 0 <= w < v.workers.len() ==> (#[trigger] v.workers[w]) is Stopped
}

/// The number of stopped workers is the number of all workers exactly when
/// all have stopped, and zero exactly when none has.
proof fn lemma_stopped_count_bounds(workers: Seq<WorkerView>)
    ensures
        stopped_count(workers) <= workers.len(),
        stopped_count(workers) == workers.len() <==> (forall|w: int|
            0 <= w < workers.len() ==> (#[trigger] workers[w]) is Stopped),
        stopped_count(workers) == 0 <==> (forall|w: int|
            0 <= w < workers.len() ==> !((#[trigger] workers[w]) is Stopped)),
    decreases workers.len(),
{
    if workers.len() > 0 {
        let rest: Seq<WorkerView> = workers.drop_last();
        lemma_stopped_count_bounds(rest);
        assert forall|w: int| 0 <= w < rest.len() implies rest[w] == workers[w] by {}
        if stopped_count(workers) == workers.len() {
            assert forall|w: int| 0 <= w < workers.len() implies (#[trigger] workers[w])
                is Stopped by {
                if w < rest.len() {
                    assert(rest[w] is Stopped);
                }
            }
        }
        if stopped_count(workers) == 0 {
            assert forall|w: int| 0 <= w < workers.len() implies !((#[trigger] workers[w])
                is Stopped) by {
                if w < rest.len() {
                    assert(!(rest[w] is Stopped));
                }
            }
        }
        if forall|w: int| 0 <= w < workers.len() ==> (#[trigger] workers[w]) is Stopped {
            assert forall|w: int| 0 <= w < rest.len() implies (#[trigger] rest[w]) is Stopped by {
                assert(workers[w] is Stopped);
            }
            assert(workers[workers.len() - 1] is Stopped);
        }
        if forall|w: int| 0 <= w < workers.len() ==> !((#[trigger] workers[w]) is Stopped) {
            assert forall|w: int| 0 <= w < rest.len() implies !((#[trigger] rest[w])
                is Stopped) by {
                assert(!(workers[w] is Stopped));
            }
            assert(!(workers[workers.len() - 1] is Stopped));
        }
    }
}

/// How the number of stopped workers changes when one worker changes.
proof fn lemma_stopped_count_update(workers: Seq<WorkerView>, w: int, to: WorkerView)
    requires
        0 <= w < workers.len(),
    ensures
        stopped_count(workers.update(w, to)) == stopped_count(workers) + (if to is Stopped {
            1int
        } else {
            0int
        }) - (if workers[w] is Stopped {
            1int
        } else {
            0int
        }),
    decreases workers.len(),
{
    let after: Seq<WorkerView> = workers.update(w, to);
    if w == workers.len() - 1 {
        assert(after.drop_last() =~= workers.drop_last());
    } else {
        assert(after.drop_last() =~= workers.drop_last().update(w, to));
        lemma_stopped_count_update(workers.drop_last(), w, to);
    }
}

/// A new pool is in order.
pub proof fn lemma_new_inv<J>(size: nat)
    requires
        size >= 1,
    ensures
        pool_inv(pool_new::<J>(size)),
{
    lemma_stopped_count_bounds(pool_new::<J>(size).workers);
}

/// Submitting a job keeps a pool in order.
pub proof fn lemma_execute_inv<J>(v: PoolView<J>, job: J)
    requires
        pool_inv(v),
        !v.disposed,
    ensures
        pool_inv(pool_execute(v, job)),
{
}

/// Disposing of a pool keeps it in order.
pub proof fn lemma_dispose_inv<J>(v: PoolView<J>)
    requires
        pool_inv(v),
        !v.disposed,
    ensures
        pool_inv(pool_dispose(v)),
{
}

/// Taking a message keeps a pool in order.
pub proof fn lemma_receive_inv<J>(v: PoolView<J>, w: int)
    requires
        pool_inv(v),
        can_receive(v, w),
    ensures
        pool_inv(pool_receive(v, w)),
{
    let after: PoolView<J> = pool_receive(v, w);
    if v.received < v.jobs.len() {
        lemma_stopped_count_update(v.workers, w, WorkerView::Running(v.received));
        assert(v.progress[v.received as int] is Queued);
        assert forall|i: int, x: int|
            0 <= i < after.jobs.len() && 0 <= x < after.workers.len() implies ((
        #[trigger] after.progress[i]) == Progress::Running(x as nat) <==> (
        #[trigger] after.workers[x]) == WorkerView::Running(i as nat)) by {
            if i != v.received && x != w {
                assert(v.progress[i] == Progress::Running(x as nat) <==> v.workers[x]
                    == WorkerView::Running(i as nat));
            } else if i != v.received {
                assert(v.progress[i] == Progress::Running(w as nat) <==> v.workers[w]
                    == WorkerView::Running(i as nat));
            } else if x != w {
                assert(v.progress[i] == Progress::Running(x as nat) <==> v.workers[x]
                    == WorkerView::Running(i as nat));
            }
        }
    } else {
        lemma_stopped_count_update(v.workers, w, WorkerView::Stopped);
        assert forall|i: int, x: int|
            0 <= i < after.jobs.len() && 0 <= x < after.workers.len() implies ((
        #[trigger] after.progress[i]) == Progress::Running(x as nat) <==> (
        #[trigger] after.workers[x]) == WorkerView::Running(i as nat)) by {
            assert(v.progress[i] == Progress::Running(x as nat) <==> v.workers[x]
                == WorkerView::Running(i as nat));
        }
    }
}

/// Completing a job keeps a pool in order.
pub proof fn lemma_finish_inv<J>(v: PoolView<J>, w: int)
    requires
        pool_inv(v),
        0 <= w < v.workers.len(),
    ensures
        pool_inv(pool_finish(v, w)),
{
    let after: PoolView<J> = pool_finish(v, w);
    if let WorkerView::Running(job) = v.workers[w] {
        lemma_stopped_count_update(v.workers, w, WorkerView::Waiting);
        assert(v.progress[job as int] == Progress::Running(w as nat));
        assert forall|i: int, x: int|
            0 <= i < after.jobs.len() && 0 <= x < after.workers.len() implies ((
        #[trigger] after.progress[i]) == Progress::Running(x as nat) <==> (
        #[trigger] after.workers[x]) == WorkerView::Running(i as nat)) by {
            assert(v.progress[i] == Progress::Running(x as nat) <==> v.workers[x]
                == WorkerView::Running(i as nat));
            assert(v.progress[i] == Progress::Running(w as nat) <==> v.workers[w]
                == WorkerView::Running(i as nat));
            assert(v.progress[job as int] == Progress::Running(x as nat) <==> v.workers[x]
                == WorkerView::Running(job));
        }
        assert forall|i: int| 0 <= i < after.jobs.len() implies ((
        #[trigger] after.progress[i]) is Queued <==> i >= after.received) by {
            assert(v.progress[i] is Queued <==> i >= v.received);
        }
    }
}

/// The pool: its queue and what each of its workers is doing.
pub struct ThreadPool<J> {
    workers: Vec<WorkerStatus>,
    queue: VecDeque<Message<J>>,
    disposed: bool,
    jobs: Ghost<Seq<J>>,
    progress: Ghost<Seq<Progress>>,
    positions: Ghost<Seq<nat>>,
    received: Ghost<nat>,
}

impl<J> View for ThreadPool<J> {
    type V = PoolView<J>;

    closed spec fn view(&self) -> PoolView<J> {
        PoolView {
            workers: Seq::new(
                self.workers@.len(),
                |w: int|
                    match self.workers@[w] {
                        WorkerStatus::Waiting => WorkerView::Waiting,
                        WorkerStatus::Running => WorkerView::Running(self.positions@[w]),
                        WorkerStatus::Stopped => WorkerView::Stopped,
                    },
            ),
            jobs: self.jobs@,
            progress: self.progress@,
            received: self.received@,
            terminations: (self.queue@.len() - (self.jobs@.len() - self.received@)) as nat,
            disposed: self.disposed,
        }
    }
}

impl<J> ThreadPool<J> {
    /// The pool is in order, and its queue holds what its view says.
    pub closed spec fn wf(&self) -> bool {
        &&& pool_inv(self@)
        &&& self.queue@ == queue_of(self@)
        &&& self.positions@.len() == self.workers@.len()
        &&& self.jobs@.len() - self.received@ <= self.queue@.len()
    }

    /// A pool of `size` workers, which must be at least one.
    pub fn new(size: usize) -> (r: ThreadPool<J>)
        requires
            size > 0,
        ensures
            r.wf(),
            r@ == pool_new::<J>(size as nat),
    {
        let mut workers: Vec<WorkerStatus> = Vec::new();
        let mut i: usize = 0;
        while i < size
            invariant
                i <= size,
                workers@.len() == i,
                forall|w: int| 0 <= w < i ==> workers@[w] == WorkerStatus::Waiting,
            decreases size - i,
        {
            workers.push(WorkerStatus::Waiting);
            i += 1;
        }
        let r: ThreadPool<J> = ThreadPool {
            workers,
            queue: VecDeque::new(),
            disposed: false,
            jobs: Ghost(Seq::empty()),
            progress: Ghost(Seq::empty()),
            positions: Ghost(Seq::new(size as nat, |w: int| 0nat)),
            received: Ghost(0nat),
        };
        proof {
            assert(r@.workers =~= pool_new::<J>(size as nat).workers);
            lemma_new_inv::<J>(size as nat);
            assert(r.queue@ =~= queue_of(r@));
        }
        r
    }

    /// The number of workers.
    pub fn size(&self) -> (r: usize)
        ensures
            r == self@.workers.len(),
    {
        self.workers.len()
    }

    /// Whether the pool has been disposed of.
    pub fn is_disposed(&self) -> (r: bool)
        ensures
            r == self@.disposed,
    {
        self.disposed
    }

    /// The number of messages in the queue.
    pub fn queue_len(&self) -> (r: usize)
        requires
            self.wf(),
        ensures
            r == queue_of(self@).len(),
    {
        self.queue.len()
    }

    /// What worker `worker` is doing, or `None` where the pool has no such
    /// worker.
    pub fn status(&self, worker: usize) -> (r: Option<WorkerStatus>)
        ensures
            r is Some <==> worker < self@.workers.len(),
            r matches Some(status) ==> status == (match self@.workers[worker as int] {
                WorkerView::Waiting => WorkerStatus::Waiting,
                WorkerView::Running(_) => WorkerStatus::Running,
                WorkerView::Stopped => WorkerStatus::Stopped,
            }),
    {
        if worker < self.workers.len() {
            Some(self.workers[worker])
        } else {
            None
        }
    }

    /// Whether every worker has stopped, which is when the threads of the
    /// workers can all be joined.
    pub fn is_joined(&self) -> (r: bool)
        ensures
            r == all_stopped(self@),
    {
        let n: usize = self.workers.len();
        let mut w: usize = 0;
        while w < n
            invariant
                w <= n,
                n == self.workers@.len(),
                forall|x: int| 0 <= x < w ==> self@.workers[x] is Stopped,
            decreases n - w,
        {
            match self.workers[w] {
                WorkerStatus::Stopped => {},
                _ => {
                    assert(!(self@.workers[w as int] is Stopped));
                    return false;
                },
            }
            w += 1;
        }
        true
    }

    /// Submits a job: it goes to the back of the queue. The queue has no
    /// bound, so no job is ever refused.
    pub fn execute(&mut self, job: J)
        requires
            old(self).wf(),
            !old(self)@.disposed,
        ensures
            final(self).wf(),
            final(self)@ == pool_execute(old(self)@, job),
    {
        proof {
            lemma_execute_inv(self@, job);
            self.jobs@ = self.jobs@.push(job);
            self.progress@ = self.progress@.push(Progress::Queued);
        }
        self.queue.push_back(Message::NewJob(job));
        proof {
            assert(self@.workers =~= old(self)@.workers);
            assert(self@ == pool_execute(old(self)@, job));
            assert(self.queue@ =~= queue_of(self@));
        }
    }

    /// Disposes of the pool: one `Terminate` for each worker goes to the
    /// back of the queue, behind every job that was submitted.
    pub fn dispose(&mut self)
        requires
            old(self).wf(),
            !old(self)@.disposed,
        ensures
            final(self).wf(),
            final(self)@ == pool_dispose(old(self)@),
    {
        proof {
            lemma_dispose_inv(self@);
        }
        let n: usize = self.workers.len();
        let ghost pending: int = self.jobs@.len() - self.received@;
        let mut i: usize = 0;
        assert(self.queue@.len() == pending);
        while i < n
            invariant
                i <= n,
                0 <= pending,
                old(self).queue@.len() == pending,
                n == self.workers@.len(),
                self.workers == old(self).workers,
                self.jobs == old(self).jobs,
                self.progress == old(self).progress,
                self.positions == old(self).positions,
                self.received == old(self).received,
                self.disposed == old(self).disposed,
                pending == self.jobs@.len() - self.received@,
                self.queue@.len() == pending + i,
                forall|k: int| 0 <= k < pending ==> self.queue@[k] == old(self).queue@[k],
                forall|k: int| pending <= k < pending + i ==> self.queue@[k] == Message::<
                    J,
                >::Terminate,
            decreases n - i,
        {
            self.queue.push_back(Message::Terminate);
            i += 1;
        }
        self.disposed = true;
        proof {
            assert(self@.workers =~= old(self)@.workers);
            assert(self@ == pool_dispose(old(self)@));
            assert(self.queue@ =~= queue_of(self@));
        }
    }

    /// Worker `worker` asks for its next message. Where it is waiting and
    /// the queue is not empty, it takes the message at the front: for a
    /// job it is now running that job, for a `Terminate` it has stopped.
    /// Otherwise nothing changes and it gets `None`.
    pub fn receive(&mut self, worker: usize) -> (r: Option<Message<J>>)
        requires
            old(self).wf(),
        ensures
            final(self).wf(),
            can_receive(old(self)@, worker as int) ==> final(self)@ == pool_receive(
                old(self)@,
                worker as int,
            ) && r == Some(queue_of(old(self)@)[0]),
            !can_receive(old(self)@, worker as int) ==> final(self)@ == old(self)@ && r is None,
    {
        if worker >= self.workers.len() {
            return None;
        }
        match self.workers[worker] {
            WorkerStatus::Waiting => {},
            _ => {
                return None;
            },
        }
        let message: Option<Message<J>> = self.queue.pop_front();
        match message {
            Some(Message::NewJob(job)) => {
                proof {
                    assert(old(self).queue@[0] == queue_of(old(self)@)[0]);
                    assert(can_receive(old(self)@, worker as int));
                    assert(old(self)@.received < old(self)@.jobs.len());
                    lemma_receive_inv(old(self)@, worker as int);
                    self.progress@ = self.progress@.update(
                        self.received@ as int,
                        Progress::Running(worker as nat),
                    );
                    self.positions@ = self.positions@.update(worker as int, self.received@);
                    self.received@ = self.received@ + 1;
                }
                self.workers.set(worker, WorkerStatus::Running);
                proof {
                    assert(self@.workers =~= pool_receive(old(self)@, worker as int).workers);
                    assert(self@ == pool_receive(old(self)@, worker as int));
                    assert(self.queue@ =~= queue_of(self@));
                }
                Some(Message::NewJob(job))
            },
            Some(Message::Terminate) => {
                proof {
                    assert(old(self).queue@[0] == queue_of(old(self)@)[0]);
                    assert(can_receive(old(self)@, worker as int));
                    assert(old(self)@.received == old(self)@.jobs.len());
                    lemma_receive_inv(old(self)@, worker as int);
                }
                self.workers.set(worker, WorkerStatus::Stopped);
                proof {
                    assert(self@.workers =~= pool_receive(old(self)@, worker as int).workers);
                    assert(self@ == pool_receive(old(self)@, worker as int));
                    assert(self.queue@ =~= queue_of(self@));
                }
                Some(Message::Terminate)
            },
            None => {
                proof {
                    assert(self@.workers =~= old(self)@.workers);
                }
                None
            },
        }
    }

    /// Worker `worker` reports that the job it ran is complete: it waits
    /// for its next message. Tells whether the worker was running a job;
    /// where it was not, nothing changes.
    pub fn finish(&mut self, worker: usize) -> (r: bool)
        requires
            old(self).wf(),
        ensures
            final(self).wf(),
            r == (worker < old(self)@.workers.len() && old(self)@.workers[worker as int]
                is Running),
            r ==> final(self)@ == pool_finish(old(self)@, worker as int),
            !r ==> final(self)@ == old(self)@,
    {
        if worker >= self.workers.len() {
            return false;
        }
        match self.workers[worker] {
            WorkerStatus::Running => {},
            _ => {
                return false;
            },
        }
        proof {
            lemma_finish_inv(self@, worker as int);
            self.progress@ = self.progress@.update(
                self.positions@[worker as int] as int,
                Progress::Finished,
            );
        }
        self.workers.set(worker, WorkerStatus::Waiting);
        proof {
            assert(self@.workers =~= pool_finish(old(self)@, worker as int).workers);
            assert(self@ == pool_finish(old(self)@, worker as int));
            assert(self.queue@ =~= queue_of(self@));
        }
        true
    }
}

/// A job is run by one worker at most: two workers that run the same job
/// are the same worker, and the job knows it as its worker.
pub proof fn lemma_job_has_one_owner<J>(v: PoolView<J>, job: nat, w1: int, w2: int)
    requires
        pool_inv(v),
        0 <= w1 < v.workers.len(),
        0 <= w2 < v.workers.len(),
        v.workers[w1] == WorkerView::Running(job),
        v.workers[w2] == WorkerView::Running(job),
    ensures
        w1 == w2,
        job < v.jobs.len(),
        v.progress[job as int] == Progress::Running(w1 as nat),
{
    assert(v.progress[job as int] == Progress::Running(w1 as nat) <==> v.workers[w1]
        == WorkerView::Running(job));
    assert(v.progress[job as int] == Progress::Running(w2 as nat) <==> v.workers[w2]
        == WorkerView::Running(job));
}

/// A worker that takes a message while a job is waiting takes the job that
/// has waited longest, and it alone: the job leaves the queue, no other
/// worker and no other job is touched.
pub proof fn lemma_received_job_has_one_owner<J>(v: PoolView<J>, w: int)
    requires
        pool_inv(v),
        can_receive(v, w),
        v.received < v.jobs.len(),
    ensures
        ({
            let after: PoolView<J> = pool_receive(v, w);
            &&& queue_of(v)[0] == Message::NewJob(v.jobs[v.received as int])
            &&& queue_of(after) == queue_of(v).skip(1)
            &&& v.progress[v.received as int] is Queued
            &&& after.progress[v.received as int] == Progress::Running(w as nat)
            &&& after.workers[w] == WorkerView::Running(v.received)
            &&& forall|x: int|
                0 <= x < v.workers.len() && x != w ==> after.workers[x] == v.workers[x]
            &&& forall|i: int|
                0 <= i < v.jobs.len() && i != v.received ==> after.progress[i] == v.progress[i]
        }),
{
    assert(queue_of(pool_receive(v, w)) =~= queue_of(v).skip(1));
}

/// A worker is given `Terminate` only when no job is waiting: every job
/// that was submitted before the pool was disposed of is taken first.
pub proof fn lemma_terminate_comes_last<J>(v: PoolView<J>, w: int)
    requires
        pool_inv(v),
        can_receive(v, w),
    ensures
        queue_of(v)[0] is Terminate <==> v.received == v.jobs.len(),
        pool_receive(v, w).workers[w] is Stopped <==> v.received == v.jobs.len(),
        forall|k: int, m: int|
            0 <= k <= m < queue_of(v).len() && queue_of(v)[k] is Terminate ==> queue_of(
                v,
            )[m] is Terminate,
{
}

/// A pool whose workers are all running a job is saturated: a job that is
/// submitted now waits in the queue, which grows by one; no worker can
/// take it until one of them completes its job; and that worker can. No
/// job that was submitted before is touched.
pub proof fn lemma_saturated_pool_queues<J>(v: PoolView<J>, job: J)
    requires
        pool_inv(v),
        !v.disposed,
        saturated(v),
    ensures
        ({
            let after: PoolView<J> = pool_execute(v, job);
            &&& queue_of(after) == queue_of(v).push(Message::NewJob(job))
            &&& after.progress.last() is Queued
            &&& forall|w: int| !can_receive(after, w)
            &&& forall|w: int|
                0 <= w < v.workers.len() ==> #[trigger] can_receive(pool_finish(after, w), w)
            &&& forall|i: int|
                0 <= i < v.jobs.len() ==> after.jobs[i] == v.jobs[i] && after.progress[i]
                    == v.progress[i]
        }),
{
    let after: PoolView<J> = pool_execute(v, job);
    assert(queue_of(after) =~= queue_of(v).push(Message::NewJob(job)));
    assert forall|w: int| !can_receive(after, w) by {
        if 0 <= w < v.workers.len() {
            assert(v.workers[w] is Running);
        }
    }
    assert forall|w: int| 0 <= w < v.workers.len() implies #[trigger] can_receive(
        pool_finish(after, w),
        w,
    ) by {
        assert(v.workers[w] is Running);
    }
}

/// Disposing of a pool puts exactly one `Terminate` for each worker into
/// the queue, behind every job that waits there.
pub proof fn lemma_disposal_sends_one_terminate_for_each_worker<J>(v: PoolView<J>)
    requires
        pool_inv(v),
        !v.disposed,
    ensures
        pool_dispose(v).terminations == v.workers.len(),
        queue_of(pool_dispose(v)) == queue_of(v) + Seq::new(
            v.workers.len(),
            |k: int| Message::<J>::Terminate,
        ),
{
    assert(queue_of(pool_dispose(v)) =~= queue_of(v) + Seq::new(
        v.workers.len(),
        |k: int| Message::<J>::Terminate,
    ));
}

/// In a pool that was disposed of, as many `Terminate` messages are in the
/// queue as workers have not stopped yet: each worker gets exactly one.
pub proof fn lemma_one_terminate_is_left_for_each_worker<J>(v: PoolView<J>)
    requires
        pool_inv(v),
        v.disposed,
    ensures
        v.terminations + stopped_count(v.workers) == v.workers.len(),
{
}

/// When every worker has stopped, the pool has been disposed of, its queue
/// is empty, and every job that was ever submitted has run to completion.
pub proof fn lemma_stopped_pool_is_drained<J>(v: PoolView<J>)
    requires
        pool_inv(v),
        all_stopped(v),
    ensures
        v.disposed,
        queue_of(v).len() == 0,
        forall|i: int| 0 <= i < v.jobs.len() ==> (#[trigger] v.progress[i]) is Finished,
{
    lemma_stopped_count_bounds(v.workers);
    assert(v.workers[0] is Stopped);
    assert forall|i: int| 0 <= i < v.jobs.len() implies (#[trigger] v.progress[i])
        is Finished by {
        assert(!(v.progress[i] is Queued));
        if let Progress::Running(w) = v.progress[i] {
            assert(v.progress[i] == Progress::Running(w) <==> v.workers[w as int]
                == WorkerView::Running(i as nat));
            assert(v.workers[w as int] is Stopped);
        }
    }
}

/// A pool that was disposed of does not get stuck: as long as a worker has
/// not stopped, some worker is running a job or can take a message.
pub proof fn lemma_disposed_pool_can_move<J>(v: PoolView<J>)
    requires
        pool_inv(v),
        v.disposed,
        !all_stopped(v),
    ensures
        exists|w: int|
            0 <= w < v.workers.len() && (#[trigger] can_receive(v, w) || v.workers[w] is Running),
{
    lemma_stopped_count_bounds(v.workers);
    let w: int = choose|w: int| 0 <= w < v.workers.len() && !((#[trigger] v.workers[w]) is Stopped);
    assert(v.terminations > 0);
    assert(can_receive(v, w) || v.workers[w] is Running);
}

/// A worker that has stopped stays stopped: it can take no message, and
/// nothing that another worker does changes it. No worker is ever started
/// again.
pub proof fn lemma_stopped_worker_stays_stopped<J>(v: PoolView<J>, w: int, other: int)
    requires
        pool_inv(v),
        0 <= w < v.workers.len(),
        v.workers[w] is Stopped,
    ensures
        !can_receive(v, w),
        pool_finish(v, w) == v,
        can_receive(v, other) ==> pool_receive(v, other).workers[w] is Stopped,
        0 <= other < v.workers.len() ==> pool_finish(v, other).workers[w] is Stopped,
{
}

/// The number of workers that are running a job.
pub open spec fn running_count(workers: Seq<WorkerView>) -> nat
    decreases workers.len(),
{
    if workers.len() == 0 {
        0
    } else if workers.last() is Running {
        running_count(workers.drop_last()) + 1
    } else {
        running_count(workers.drop_last())
    }
}

/// What is left to do before a pool that was disposed of has drained: two
/// steps for each job in the queue, which must be taken and completed, and
/// one for each job that is running and for each `Terminate` in the queue.
pub open spec fn drain_measure<J>(v: PoolView<J>) -> nat {
    (2 * (v.jobs.len() - v.received) + running_count(v.workers) + v.terminations) as nat
}

/// How the number of running workers changes when one worker changes.
proof fn lemma_running_count_update(workers: Seq<WorkerView>, w: int, to: WorkerView)
    requires
        0 <= w < workers.len(),
    ensures
        running_count(workers.update(w, to)) == running_count(workers) + (if to is Running {
            1int
        } else {
            0int
        }) - (if workers[w] is Running {
            1int
        } else {
            0int
        }),
    decreases workers.len(),
{
    let after: Seq<WorkerView> = workers.update(w, to);
    if w == workers.len() - 1 {
        assert(after.drop_last() =~= workers.drop_last());
    } else {
        assert(after.drop_last() =~= workers.drop_last().update(w, to));
        lemma_running_count_update(workers.drop_last(), w, to);
    }
}

/// Disposal comes to an end: in a pool that was disposed of, every message
/// that a worker takes and every job that a worker completes brings the
/// pool one step closer to having drained, and nothing else can happen.
/// So after at most `drain_measure` steps no worker can move, which is
/// when all have stopped.
pub proof fn lemma_draining_comes_to_an_end<J>(v: PoolView<J>, w: int)
    requires
        pool_inv(v),
        v.disposed,
        0 <= w < v.workers.len(),
    ensures
        can_receive(v, w) ==> drain_measure(pool_receive(v, w)) == drain_measure(v) - 1,
        v.workers[w] is Running ==> drain_measure(pool_finish(v, w)) == drain_measure(v) - 1,
        drain_measure(v) == 0 ==> all_stopped(v),
{
    if can_receive(v, w) {
        if v.received < v.jobs.len() {
            lemma_running_count_update(v.workers, w, WorkerView::Running(v.received));
        } else {
            lemma_running_count_update(v.workers, w, WorkerView::Stopped);
        }
    }
    if v.workers[w] is Running {
        lemma_running_count_update(v.workers, w, WorkerView::Waiting);
    }
    if drain_measure(v) == 0 {
        lemma_stopped_count_bounds(v.workers);
    }
}

} // verus!
