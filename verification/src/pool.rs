//! The bounded dispatch policy: a fixed number of workers, and a queue in
//! which accepted connections wait while every worker is busy.
//!
//! The pool decides; it does not run anything. Its owner tells it of each
//! accepted connection and of each worker that has finished, and hands the
//! connections on as the pool says. The queue has no bound.

use std::collections::VecDeque;
use vstd::prelude::*;

verus! {

/// Which workers are busy, and which connections wait for one.
pub struct WorkerPool<T> {
    busy: Vec<bool>,
    waiting: VecDeque<T>,
}

/// Every worker is busy.
pub open spec fn all_busy(busy: Seq<bool>) -> bool {
    forall|w: int| 0 <= w < busy.len() ==> busy[w]
}

impl<T> WorkerPool<T> {
    /// For each worker, whether it is serving a connection.
    pub closed spec fn busy(&self) -> Seq<bool> {
        self.busy@
    }

    /// The connections that no worker has taken yet, oldest first.
    pub closed spec fn waiting(&self) -> Seq<T> {
        self.waiting@
    }

    /// There is at least one worker, and no connection waits while a worker
    /// is idle. This holds of a new pool, and `accept` and `finished` keep it.
    pub open spec fn well_formed(&self) -> bool {
        &&& self.busy().len() > 0
        &&& self.waiting().len() > 0 ==> all_busy(self.busy())
    }

    /// A pool of `workers` idle workers with nothing waiting; none where
    /// `workers` is zero.
    pub fn new(workers: usize) -> (pool: Option<Self>)
        ensures
            match pool {
                Some(pool) => {
                    &&& workers > 0
                    &&& pool.busy() == Seq::new(workers as nat, |w: int| false)
                    &&& pool.waiting() == Seq::<T>::empty()
                    &&& pool.well_formed()
                },
                None => workers == 0,
            },
    {
        if workers == 0 {
            return None;
        }
        let mut busy: Vec<bool> = Vec::new();
        while busy.len() < workers
            invariant
                busy.len() <= workers,
                busy@ == Seq::new(busy.len() as nat, |w: int| false),
            decreases workers - busy.len(),
        {
            busy.push(false);
        }
        Some(WorkerPool { busy, waiting: VecDeque::new() })
    }

    /// The number of workers.
    pub fn workers(&self) -> (n: usize)
        ensures
            n == self.busy().len(),
    {
        self.busy.len()
    }

    /// The number of connections that wait for a worker.
    pub fn queued(&self) -> (n: usize)
        ensures
            n == self.waiting().len(),
    {
        self.waiting.len()
    }

    /// Whether `worker` is serving a connection; `false` where there is no
    /// such worker.
    pub fn is_busy(&self, worker: usize) -> (b: bool)
        ensures
            b == (worker < self.busy().len() && self.busy()[worker as int]),
    {
        worker < self.busy.len() && self.busy[worker]
    }

    /// Takes in an accepted connection. It goes to the idle worker with the
    /// lowest number, which the pool hands back together with it; where every
    /// worker is busy it waits, behind those that wait already.
    pub fn accept(&mut self, connection: T) -> (handed: Option<(usize, T)>)
        ensures
            match handed {
                Some((worker, given)) => {
                    &&& given == connection
                    &&& worker < old(self).busy().len()
                    &&& !old(self).busy()[worker as int]
                    &&& forall|w: int| 0 <= w < worker ==> old(self).busy()[w]
                    &&& final(self).busy() == old(self).busy().update(worker as int, true)
                    &&& final(self).waiting() == old(self).waiting()
                },
                None => {
                    &&& all_busy(old(self).busy())
                    &&& final(self).busy() == old(self).busy()
                    &&& final(self).waiting() == old(self).waiting().push(connection)
                },
            },
            old(self).well_formed() ==> final(self).well_formed(),
    {
        let mut worker: usize = 0;
        while worker < self.busy.len() && self.busy[worker]
            invariant
                worker <= self.busy@.len(),
                forall|w: int| 0 <= w < worker ==> self.busy@[w],
            decreases self.busy@.len() - worker,
        {
            worker += 1;
        }
        if worker < self.busy.len() {
            self.busy.set(worker, true);
            Some((worker, connection))
        } else {
            self.waiting.push_back(connection);
            None
        }
    }

    /// Takes note that `worker` has finished its connection. The worker gets
    /// the connection that has waited longest, which the pool hands back;
    /// where none waits the worker becomes idle. Of a worker that does not
    /// exist or is idle the pool takes no note.
    pub fn finished(&mut self, worker: usize) -> (next: Option<T>)
        ensures
            if worker < old(self).busy().len() && old(self).busy()[worker as int] {
                if old(self).waiting().len() > 0 {
                    &&& next == Some(old(self).waiting()[0])
                    &&& final(self).waiting() == old(self).waiting().drop_first()
                    &&& final(self).busy() == old(self).busy()
                } else {
                    &&& next is None
                    &&& final(self).waiting() == old(self).waiting()
                    &&& final(self).busy() == old(self).busy().update(worker as int, false)
                }
            } else {
                &&& next is None
                &&& final(self).waiting() == old(self).waiting()
                &&& final(self).busy() == old(self).busy()
            },
            old(self).well_formed() ==> final(self).well_formed(),
    {
        if worker >= self.busy.len() || !self.busy[worker] {
            return None;
        }
        match self.waiting.pop_front() {
            Some(connection) => Some(connection),
            None => {
                self.busy.set(worker, false);
                None
            },
        }
    }
}

} // verus!
