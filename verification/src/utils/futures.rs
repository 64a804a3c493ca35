//! What is remembered of futures between looking at them.
use vstd::prelude::*;

verus! {

/// Whether a stream has ended.
#[derive(Clone, Copy, Debug, PartialEq, Eq, Structural)]
pub struct Termination {
    terminated: bool,
}

impl Termination {
    /// Whether the stream has ended.
    pub closed spec fn ended(&self) -> bool {
        self.terminated
    }

    /// A stream that has not ended.
    pub fn new() -> (r: Termination)
        ensures
            !r.ended(),
    {
        Termination { terminated: false }
    }

    /// Takes what the stream gave: nothing yet, an item, or that there are no more.
    pub fn polled<T>(&mut self, item: &Option<Option<T>>)
        ensures
            final(self).ended() == (old(self).ended() || item == Some(None::<T>)),
    {
        if let Some(None) = item {
            self.terminated = true;
        }
    }

    /// Whether the stream has ended.
    pub fn is_terminated(&self) -> (r: bool)
        ensures
            r == self.ended(),
    {
        self.terminated
    }
}

/// What a task of a pool gave.
#[derive(Clone, Copy, Debug, PartialEq, Eq, Structural)]
pub enum Polled {
    Pending,
    Finished,
    Failed,
}

/// What a pool does after one of its tasks was looked at.
#[derive(Clone, Copy, Debug, PartialEq, Eq, Structural)]
pub enum PoolStep {
    /// It looks at the task with this number next.
    Poll(usize),
    /// It waits.
    Wait,
    /// All tasks have finished.
    Finished,
    /// A task has failed.
    Failed,
}

/// A pool of tasks, the last of which is looked at first.
#[derive(Clone, Copy, Debug, PartialEq, Eq, Structural)]
pub struct PoolState {
    pub tasks: usize,
}

impl PoolState {
    /// The task to look at first.
    pub fn next(&self) -> (r: PoolStep)
        ensures
            r == if self.tasks > 0 {
                PoolStep::Poll((self.tasks - 1) as usize)
            } else {
                PoolStep::Finished
            },
    {
        if self.tasks > 0 {
            PoolStep::Poll(self.tasks - 1)
        } else {
            PoolStep::Finished
        }
    }

    /// Takes what the last task gave. One that has finished or failed is no longer in the pool.
    pub fn polled(&mut self, polled: Polled) -> (r: PoolStep)
        requires
            old(self).tasks > 0,
        ensures
            final(self).tasks == if polled == Polled::Pending {
                old(self).tasks as int
            } else {
                old(self).tasks - 1
            },
            r == match polled {
                Polled::Pending => PoolStep::Wait,
                Polled::Failed => PoolStep::Failed,
                Polled::Finished => if old(self).tasks > 1 {
                    PoolStep::Poll((old(self).tasks - 2) as usize)
                } else {
                    PoolStep::Finished
                },
            },
    {
        match polled {
            Polled::Pending => PoolStep::Wait,
            Polled::Failed => {
                self.tasks = self.tasks - 1;
                PoolStep::Failed
            },
            Polled::Finished => {
                self.tasks = self.tasks - 1;
                self.next()
            },
        }
    }
}

} // verus!
