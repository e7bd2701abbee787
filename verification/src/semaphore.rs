//! How many tasks may serve static files at a time.

use vstd::prelude::*;

verus! {

/// How many permits a number stands for: a negative number stands for none.
pub open spec fn permits(count: int) -> nat {
    if count < 0 {
        0
    } else {
        count as nat
    }
}

/// A number of permits, and the tasks that wait for one.
pub struct Semaphore {
    capacity: usize,
    held: usize,
    waiting: Vec<u64>,
}

/// What a `Semaphore` stands for.
pub struct SemaphoreView {
    /// How many permits there are.
    pub capacity: nat,
    /// How many of them are held.
    pub held: nat,
    /// The tasks that wait, the first to come first.
    pub waiting: Seq<u64>,
}

impl SemaphoreView {
    /// No more permits are held than there are, and nobody waits while one is free.
    pub open spec fn wf(self) -> bool {
        &&& self.held <= self.capacity
        &&& self.waiting.len() > 0 ==> self.held == self.capacity
    }

    /// The semaphore after `task` has asked for a permit.
    pub open spec fn acquired(self, task: u64) -> SemaphoreView {
        if self.held < self.capacity {
            SemaphoreView { held: self.held + 1, ..self }
        } else {
            SemaphoreView { waiting: self.waiting.push(task), ..self }
        }
    }

    /// The semaphore after a permit was given back: the task that has waited longest takes it.
    pub open spec fn released(self) -> SemaphoreView {
        if self.waiting.len() > 0 {
            SemaphoreView { waiting: self.waiting.skip(1), ..self }
        } else {
            SemaphoreView { held: (self.held - 1) as nat, ..self }
        }
    }
}

impl View for Semaphore {
    type V = SemaphoreView;

    closed spec fn view(&self) -> SemaphoreView {
        SemaphoreView {
            capacity: self.capacity as nat,
            held: self.held as nat,
            waiting: self.waiting@,
        }
    }
}

impl Semaphore {
    /// A semaphore whose permits are all free.
    pub fn new(count: isize) -> (semaphore: Semaphore)
        ensures
            semaphore@ == (SemaphoreView {
                capacity: permits(count as int),
                held: 0,
                waiting: seq![],
            }),
            semaphore@.wf(),
    {
        let capacity: usize = if count < 0 { 0 } else { count as usize };
        Semaphore { capacity, held: 0, waiting: Vec::new() }
    }

    /// How many permits are held.
    pub fn held(&self) -> (n: usize)
        ensures
            n == self@.held,
    {
        self.held
    }

    /// Asks for a permit: the task has it now, or waits until `release` names it.
    pub fn acquire(&mut self, task: u64) -> (granted: bool)
        requires
            old(self)@.wf(),
        ensures
            final(self)@ == old(self)@.acquired(task),
            final(self)@.wf(),
            granted == (old(self)@.held < old(self)@.capacity),
    {
        if self.held < self.capacity {
            self.held = self.held + 1;
            true
        } else {
            self.waiting.push(task);
            false
        }
    }

    /// Gives a permit back, and names the task that has it from now on, if one waits.
    pub fn release(&mut self) -> (next: Option<u64>)
        requires
            old(self)@.wf(),
            old(self)@.held > 0,
        ensures
            final(self)@ == old(self)@.released(),
            final(self)@.wf(),
            next == (if old(self)@.waiting.len() > 0 {
                Some(old(self)@.waiting[0])
            } else {
                None
            }),
    {
        if self.waiting.len() > 0 {
            let next = self.waiting.remove(0);
            assert(self.waiting@ =~= old(self)@.waiting.skip(1));
            Some(next)
        } else {
            self.held = self.held - 1;
            None
        }
    }
}

} // verus!
