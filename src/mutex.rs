//! Fair mutual exclusion between cooperative tasks: one holder at a time, waiters
//! served first come, first served, and the guarded value reachable by the holder
//! only. Tasks are named by ids; waking one is the caller's part.
use vstd::prelude::*;

verus! {

/// Holder and waiters, oldest waiter first.
pub type MutexView = (Option<u64>, Seq<u64>);

/// The state after a release: the oldest waiter, if any, becomes the holder.
pub open spec fn released(m: MutexView) -> MutexView {
    if m.1.len() == 0 {
        (None, Seq::empty())
    } else {
        (Some(m.1[0]), m.1.drop_first())
    }
}

/// The state after `n` releases in a row.
pub open spec fn released_n(m: MutexView, n: nat) -> MutexView
    decreases n,
{
    if n == 0 {
        m
    } else {
        released_n(released(m), (n - 1) as nat)
    }
}

pub open spec fn mutex_wf(m: MutexView) -> bool {
    m.0 is None ==> m.1.len() == 0
}

#[derive(Debug, PartialEq, Eq, Clone, Copy, Structural)]
pub enum LockResult {
    /// The caller holds the lock now.
    Acquired,
    /// The caller waits; it is woken when the lock is handed to it.
    Queued,
}

pub struct Mutex<T> {
    value: T,
    holder: Option<u64>,
    waiters: Vec<u64>,
}

impl<T> View for Mutex<T> {
    type V = MutexView;

    closed spec fn view(&self) -> MutexView {
        (self.holder, self.waiters@)
    }
}

impl<T> Mutex<T> {
    /// The guarded value.
    pub closed spec fn value(&self) -> T {
        self.value
    }

    pub fn new(value: T) -> (r: Mutex<T>)
        ensures
            r@ == (None::<u64>, Seq::<u64>::empty()),
            mutex_wf(r@),
            r.value() == value,
    {
        Mutex { value, holder: None, waiters: Vec::new() }
    }

    /// The guarded value, for the task that holds the lock.
    pub fn get(&self, task: u64) -> (r: &T)
        requires
            self@.0 == Some(task),
        ensures
            *r == self.value(),
    {
        &self.value
    }

    /// The guarded value to change, for the task that holds the lock; the lock's
    /// state is unchanged.
    pub fn get_mut(&mut self, task: u64) -> (r: &mut T)
        requires
            old(self)@.0 == Some(task),
        ensures
            *r == old(self).value(),
            final(self).value() == *final(r),
            final(self)@ == old(self)@,
    {
        &mut self.value
    }

    pub fn holder(&self) -> (r: Option<u64>)
        ensures
            r == self@.0,
    {
        self.holder
    }

    /// Takes the lock for `task` if it is free; otherwise queues `task` last.
    pub fn lock(&mut self, task: u64) -> (r: LockResult)
        requires
            mutex_wf(old(self)@),
        ensures
            mutex_wf(final(self)@),
            final(self).value() == old(self).value(),
            r is Acquired <==> old(self)@.0 is None,
            r is Acquired ==> final(self)@ == (Some(task), Seq::<u64>::empty()),
            r is Queued ==> final(self)@ == (old(self)@.0, old(self)@.1.push(task)),
    {
        match self.holder {
            None => {
                self.holder = Some(task);
                LockResult::Acquired
            },
            Some(_) => {
                self.waiters.push(task);
                LockResult::Queued
            },
        }
    }

    /// Releases the lock and hands it to the oldest waiter, whose id is returned so
    /// that it can be woken.
    pub fn unlock(&mut self) -> (r: Option<u64>)
        requires
            mutex_wf(old(self)@),
            old(self)@.0 is Some,
        ensures
            mutex_wf(final(self)@),
            final(self).value() == old(self).value(),
            final(self)@ == released(old(self)@),
            r == final(self)@.0,
    {
        if self.waiters.len() == 0 {
            self.holder = None;
            proof {
                assert(self.waiters@ =~= Seq::<u64>::empty());
            }
            None
        } else {
            let next = self.waiters.remove(0);
            self.holder = Some(next);
            proof {
                assert(self.waiters@ =~= old(self)@.1.drop_first());
            }
            Some(next)
        }
    }

    /// Withdraws a waiter that was dropped before its turn; the others keep their order.
    pub fn cancel(&mut self, task: u64) -> (r: bool)
        requires
            mutex_wf(old(self)@),
        ensures
            mutex_wf(final(self)@),
            final(self).value() == old(self).value(),
            final(self)@.0 == old(self)@.0,
            r <==> old(self)@.1.contains(task),
            !r ==> final(self)@.1 == old(self)@.1,
            r ==> exists|i: int|
                0 <= i < old(self)@.1.len() && old(self)@.1[i] == task && final(self)@.1 == old(self)@.1.remove(i)
                    && !old(self)@.1.subrange(0, i).contains(task),
    {
        let ghost w = self.waiters@;
        let len = self.waiters.len();
        let mut i: usize = 0;
        while i < len && self.waiters[i] != task
            invariant
                len == w.len(),
                w == self.waiters@,
                i <= len,
                forall|k: int| 0 <= k < i ==> w[k] != task,
            decreases len - i,
        {
            i = i + 1;
        }
        if i == len {
            proof {
                assert(!w.contains(task));
            }
            return false;
        }
        self.waiters.remove(i);
        proof {
            assert(w[i as int] == task);
            assert(!w.subrange(0, i as int).contains(task));
        }
        true
    }
}

/// Mutual exclusion and fairness: from a well-formed state, the waiter at place `i`
/// holds the lock, alone, after exactly `i + 1` releases.
pub proof fn lemma_fifo_handoff(m: MutexView, i: int)
    requires
        mutex_wf(m),
        0 <= i < m.1.len(),
    ensures
        released_n(m, (i + 1) as nat).0 == Some(m.1[i]),
        mutex_wf(released_n(m, (i + 1) as nat)),
    decreases i,
{
    if i > 0 {
        let r = released(m);
        assert(r.1[i - 1] == m.1[i]);
        lemma_fifo_handoff(r, i - 1);
        assert(released_n(m, (i + 1) as nat) == released_n(r, i as nat));
    } else {
        assert(released_n(released(m), 0) == released(m));
    }
}


/// First come, first served: from a well-formed state, releases hand the lock to the
/// waiters one at a time in the order they queued, the `n`-th release to the `n`-th
/// waiter, so a waiter never overtakes one queued before it.
pub proof fn lemma_fifo_service(m: MutexView)
    requires
        mutex_wf(m),
    ensures
        forall|n: int| 1 <= n <= m.1.len() ==> #[trigger] released_n(m, n as nat).0 == Some(m.1[n - 1]),
{
    assert forall|n: int| 1 <= n <= m.1.len() implies #[trigger] released_n(m, n as nat).0 == Some(m.1[n - 1]) by {
        lemma_fifo_handoff(m, n - 1);
    }
}

} // verus!
