use vstd::prelude::*;

verus! {

/// What a worker takes from the shared queue.
#[derive(Clone, Copy, PartialEq, Eq, Structural, Debug)]
pub enum Message {
    NewJob,
    Terminate,
}

/// What a worker does with a message.
#[derive(Clone, Copy, PartialEq, Eq, Structural, Debug)]
pub enum WorkerAction {
    RunJob,
    Exit,
}

/// Returned when a pool is asked for with no workers.
#[derive(Clone, Copy, PartialEq, Eq, Structural, Debug)]
pub struct InvalidPoolSize;

/// A worker runs each job it receives and stops at the first terminate signal.
pub fn on_message(m: Message) -> (r: WorkerAction)
    ensures
        m == Message::NewJob ==> r == WorkerAction::RunJob,
        m == Message::Terminate ==> r == WorkerAction::Exit,
{
    match m {
        Message::NewJob => WorkerAction::RunJob,
        Message::Terminate => WorkerAction::Exit,
    }
}

/// The bookkeeping of a pool: what waits in its queue, how many workers still
/// run, how many jobs have run. Jobs are queued only before shutdown, so
/// every queued job stands ahead of every terminate signal.
#[derive(Clone, Copy, PartialEq, Eq, Structural, Debug)]
pub struct PoolLedger {
    pub workers: u64,
    pub live: u64,
    pub queued_jobs: u64,
    pub queued_terminates: u64,
    pub completed: u64,
    pub shut_down: bool,
}

pub open spec fn ledger_ok(l: PoolLedger) -> bool {
    &&& l.workers > 0
    &&& l.live <= l.workers
    &&& !l.shut_down ==> l.queued_terminates == 0 && l.live == l.workers
    &&& l.shut_down ==> l.queued_terminates == l.live
}

pub open spec fn fresh(size: u64) -> PoolLedger {
    PoolLedger {
        workers: size,
        live: size,
        queued_jobs: 0,
        queued_terminates: 0,
        completed: 0,
        shut_down: false,
    }
}

pub open spec fn submitted(l: PoolLedger) -> PoolLedger {
    PoolLedger { queued_jobs: (l.queued_jobs + 1) as u64, ..l }
}

pub open spec fn shut(l: PoolLedger) -> PoolLedger {
    PoolLedger { queued_terminates: l.live, shut_down: true, ..l }
}

/// One worker takes the message at the front of the queue.
pub open spec fn taken(l: PoolLedger) -> PoolLedger {
    if l.queued_jobs > 0 {
        PoolLedger {
            queued_jobs: (l.queued_jobs - 1) as u64,
            completed: (l.completed + 1) as u64,
            ..l
        }
    } else if l.queued_terminates > 0 {
        PoolLedger {
            queued_terminates: (l.queued_terminates - 1) as u64,
            live: (l.live - 1) as u64,
            ..l
        }
    } else {
        l
    }
}

pub open spec fn submitted_n(l: PoolLedger, k: nat) -> PoolLedger
    decreases k,
{
    if k == 0 { l } else { submitted(submitted_n(l, (k - 1) as nat)) }
}

pub open spec fn taken_n(l: PoolLedger, m: nat) -> PoolLedger
    decreases m,
{
    if m == 0 { l } else { taken(taken_n(l, (m - 1) as nat)) }
}

impl PoolLedger {
    /// A pool of `size` running workers and an empty queue; no pool without
    /// workers.
    pub fn new(size: u64) -> (r: Result<PoolLedger, InvalidPoolSize>)
        ensures
            r is Err <==> size == 0,
            r is Ok ==> r->Ok_0 == fresh(size) && ledger_ok(r->Ok_0),
    {
        if size == 0 {
            Err(InvalidPoolSize)
        } else {
            Ok(
                PoolLedger {
                    workers: size,
                    live: size,
                    queued_jobs: 0,
                    queued_terminates: 0,
                    completed: 0,
                    shut_down: false,
                },
            )
        }
    }

    /// Queues one job; refused once the pool has been shut down.
    pub fn submit(&mut self) -> (r: bool)
        requires
            ledger_ok(*old(self)),
        ensures
            ledger_ok(*final(self)),
            r == (!old(self).shut_down && old(self).queued_jobs < u64::MAX),
            r ==> *final(self) == submitted(*old(self)),
            !r ==> *final(self) == *old(self),
    {
        if self.shut_down || self.queued_jobs == u64::MAX {
            false
        } else {
            self.queued_jobs = self.queued_jobs + 1;
            true
        }
    }

    /// Queues one terminate signal per live worker; returns how many.
    pub fn shutdown(&mut self) -> (r: u64)
        requires
            ledger_ok(*old(self)),
        ensures
            ledger_ok(*final(self)),
            !old(self).shut_down ==> *final(self) == shut(*old(self)) && r == old(self).live,
            old(self).shut_down ==> *final(self) == *old(self) && r == 0,
    {
        if self.shut_down {
            0
        } else {
            self.queued_terminates = self.live;
            self.shut_down = true;
            self.live
        }
    }

    /// A worker takes the front message: `None` when the queue is empty.
    pub fn take(&mut self) -> (r: Option<Message>)
        requires
            ledger_ok(*old(self)),
            old(self).completed < u64::MAX,
        ensures
            ledger_ok(*final(self)),
            *final(self) == taken(*old(self)),
            r == if old(self).queued_jobs > 0 {
                Some(Message::NewJob)
            } else if old(self).queued_terminates > 0 {
                Some(Message::Terminate)
            } else {
                None
            },
    {
        if self.queued_jobs > 0 {
            self.queued_jobs = self.queued_jobs - 1;
            self.completed = self.completed + 1;
            Some(Message::NewJob)
        } else if self.queued_terminates > 0 {
            self.queued_terminates = self.queued_terminates - 1;
            self.live = self.live - 1;
            Some(Message::Terminate)
        } else {
            None
        }
    }
}

proof fn lemma_submitted_n(size: u64, k: nat)
    requires
        size > 0,
        k <= u64::MAX,
    ensures
        submitted_n(fresh(size), k) == (PoolLedger { queued_jobs: k as u64, ..fresh(size) }),
    decreases k,
{
    if k > 0 {
        lemma_submitted_n(size, (k - 1) as nat);
    }
}

proof fn lemma_taken_jobs(l: PoolLedger, m: nat)
    requires
        m <= l.queued_jobs,
        l.completed + m <= u64::MAX,
    ensures
        taken_n(l, m) == (PoolLedger {
            queued_jobs: (l.queued_jobs - m) as u64,
            completed: (l.completed + m) as u64,
            ..l
        }),
    decreases m,
{
    if m > 0 {
        lemma_taken_jobs(l, (m - 1) as nat);
    }
}

proof fn lemma_taken_terminates(l: PoolLedger, m: nat)
    requires
        l.queued_jobs == 0,
        m <= l.queued_terminates,
        m <= l.live,
    ensures
        taken_n(l, m) == (PoolLedger {
            queued_terminates: (l.queued_terminates - m) as u64,
            live: (l.live - m) as u64,
            ..l
        }),
    decreases m,
{
    if m > 0 {
        lemma_taken_terminates(l, (m - 1) as nat);
    }
}

proof fn lemma_taken_split(l: PoolLedger, a: nat, b: nat)
    ensures
        taken_n(l, a + b) == taken_n(taken_n(l, a), b),
    decreases b,
{
    if b > 0 {
        lemma_taken_split(l, a, (b - 1) as nat);
        assert((a + b - 1) as nat == a + (b - 1) as nat);
    }
}

/// A pool of `size` workers given `k` jobs and then shut down: once the
/// workers have taken `k + size` messages, each job has run exactly once,
/// every worker has exited and the queue is empty, whether `size` is 1 or
/// any number below or above `k`.
pub proof fn lemma_shutdown_runs_every_job(size: u64, k: nat)
    requires
        size > 0,
        k <= u64::MAX,
    ensures
        ({
            let done = taken_n(shut(submitted_n(fresh(size), k)), k + size as nat);
            &&& done.completed == k
            &&& done.live == 0
            &&& done.queued_jobs == 0
            &&& done.queued_terminates == 0
        }),
{
    lemma_submitted_n(size, k);
    let s = shut(submitted_n(fresh(size), k));
    lemma_taken_split(s, k, size as nat);
    lemma_taken_jobs(s, k);
    lemma_taken_terminates(taken_n(s, k), size as nat);
}

} // verus!
