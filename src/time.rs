//! A monotonic tick counter driven by a periodic interrupt, and the deadline-ordered
//! list of wakers that the tick handler drains.
use vstd::prelude::*;

verus! {

/// The tick counter and the rate at which the interrupt advances it.
pub struct MonotonicTime {
    tick: u64,
    tick_freq: u64,
}

/// The counter moves from `a` to `b` in one of its own steps: it stays or advances by one.
pub open spec fn clock_step(a: u64, b: u64) -> bool {
    b == a || b == a + 1
}

impl MonotonicTime {
    pub closed spec fn spec_tick(&self) -> u64 {
        self.tick
    }

    pub closed spec fn spec_tick_freq(&self) -> u64 {
        self.tick_freq
    }

    /// A counter at zero advancing `tick_freq` times a second.
    pub fn new(tick_freq: u64) -> (r: MonotonicTime)
        ensures
            r.spec_tick() == 0,
            r.spec_tick_freq() == tick_freq,
    {
        MonotonicTime { tick: 0, tick_freq }
    }

    pub fn get(&self) -> (r: u64)
        ensures
            r == self.spec_tick(),
    {
        self.tick
    }

    pub fn tick_freq(&self) -> (r: u64)
        ensures
            r == self.spec_tick_freq(),
    {
        self.tick_freq
    }

    /// Advances the counter by one and returns the new value.
    pub fn increment(&mut self) -> (r: u64)
        requires
            old(self).spec_tick() < u64::MAX,
        ensures
            r == old(self).spec_tick() + 1,
            final(self).spec_tick() == r,
            final(self).spec_tick_freq() == old(self).spec_tick_freq(),
            clock_step(old(self).spec_tick(), final(self).spec_tick()),
    {
        self.tick = self.tick + 1;
        self.tick
    }
}

/// Reads of a counter that only moves by its own steps never decrease.
pub proof fn lemma_ticks_non_decreasing(reads: Seq<u64>, i: int, j: int)
    requires
        forall|k: int| 0 <= k < reads.len() - 1 ==> clock_step(#[trigger] reads[k], reads[k + 1]),
        0 <= i <= j < reads.len(),
    ensures
        reads[i] <= reads[j],
    decreases j - i,
{
    if i < j {
        lemma_ticks_non_decreasing(reads, i, j - 1);
        assert(clock_step(reads[j - 1], reads[j - 1 + 1]));
    }
}

/// The tick at which a sleep of `ms` milliseconds started at `now` ends, saturated.
pub open spec fn sleep_deadline_spec(now: u64, ms: u64, tick_freq: u64) -> u64 {
    if now + ms * tick_freq / 1000 > u64::MAX {
        u64::MAX
    } else {
        (now + ms * tick_freq / 1000) as u64
    }
}

pub fn sleep_deadline(now: u64, ms: u64, tick_freq: u64) -> (r: u64)
    ensures
        r == sleep_deadline_spec(now, ms, tick_freq),
{
    proof {
        assert(ms as int * tick_freq as int <= u64::MAX as int * u64::MAX as int) by (nonlinear_arith)
            requires
                ms <= u64::MAX,
                tick_freq <= u64::MAX,
        ;
    }
    let ticks: u128 = (ms as u128) * (tick_freq as u128) / 1000;
    let total: u128 = (now as u128) + ticks;
    if total > u64::MAX as u128 {
        u64::MAX
    } else {
        total as u64
    }
}

/// Deadlines do not decrease along the list.
pub open spec fn deadlines_sorted(s: Seq<(u64, u64)>) -> bool {
    forall|i: int, j: int| 0 <= i < j < s.len() ==> (#[trigger] s[i]).0 <= (#[trigger] s[j]).0
}

/// Registered wakers, as (deadline, waker id), in the order in which they fire.
pub struct WakeupList {
    entries: Vec<(u64, u64)>,
}

impl View for WakeupList {
    type V = Seq<(u64, u64)>;

    closed spec fn view(&self) -> Seq<(u64, u64)> {
        self.entries@
    }
}

impl WakeupList {
    pub open spec fn wf(&self) -> bool {
        deadlines_sorted(self@)
    }

    pub fn new() -> (r: WakeupList)
        ensures
            r.wf(),
            r@.len() == 0,
    {
        WakeupList { entries: Vec::new() }
    }

    /// Inserts `waker` after every entry whose deadline is not later than `deadline`:
    /// wakes go in deadline order, ties in order of registration.
    pub fn register_wakeup(&mut self, deadline: u64, waker: u64)
        requires
            old(self).wf(),
        ensures
            final(self).wf(),
            exists|pos: int|
                0 <= pos <= old(self)@.len() && final(self)@ == old(self)@.insert(pos, (deadline, waker))
                    && (forall|i: int| 0 <= i < pos ==> (#[trigger] old(self)@[i]).0 <= deadline) && (forall|i: int|
                    pos <= i < old(self)@.len() ==> (#[trigger] old(self)@[i]).0 > deadline),
    {
        let ghost s = self.entries@;
        let len = self.entries.len();
        let mut pos: usize = 0;
        while pos < len && self.entries[pos].0 <= deadline
            invariant
                len == s.len(),
                s == self.entries@,
                pos <= len,
                deadlines_sorted(s),
                forall|i: int| 0 <= i < pos ==> (#[trigger] s[i]).0 <= deadline,
            decreases len - pos,
        {
            pos = pos + 1;
        }
        proof {
            assert forall|i: int| pos <= i < s.len() implies (#[trigger] s[i]).0 > deadline by {
                assert(s[pos as int].0 <= s[i].0);
            }
            let t = s.insert(pos as int, (deadline, waker));
            assert forall|i: int, j: int| 0 <= i < j < t.len() implies (#[trigger] t[i]).0 <= (#[trigger] t[j]).0 by {
                if j < pos {
                } else if j == pos {
                    assert(s[i].0 <= deadline);
                } else if i == pos {
                    assert(t[j] == s[j - 1]);
                } else if i < pos {
                    assert(t[j] == s[j - 1]);
                    assert(s[i].0 <= deadline);
                } else {
                    assert(t[j] == s[j - 1] && t[i] == s[i - 1]);
                }
            }
        }
        self.entries.insert(pos, (deadline, waker));
    }

    /// Removes the entries whose deadline is not later than `tick` and returns their
    /// wakers in list order.
    pub fn wakeup_if_necessary(&mut self, tick: u64) -> (r: Vec<u64>)
        requires
            old(self).wf(),
        ensures
            final(self).wf(),
            r@ == fired(old(self)@, tick),
            final(self)@ == still_waiting(old(self)@, tick),
    {
        let ghost s = self.entries@;
        let len = self.entries.len();
        let mut k: usize = 0;
        let mut woken: Vec<u64> = Vec::new();
        while k < len && self.entries[k].0 <= tick
            invariant
                len == s.len(),
                s == self.entries@,
                k <= len,
                deadlines_sorted(s),
                woken@ == s.subrange(0, k as int).map_values(|e: (u64, u64)| e.1),
                forall|i: int| 0 <= i < k ==> (#[trigger] s[i]).0 <= tick,
            decreases len - k,
        {
            woken.push(self.entries[k].1);
            k = k + 1;
            proof {
                assert(woken@ =~= s.subrange(0, k as int).map_values(|e: (u64, u64)| e.1));
            }
        }
        proof {
            assert forall|i: int| k <= i < s.len() implies (#[trigger] s[i]).0 > tick by {
                assert(s[k as int].0 <= s[i].0);
            }
            lemma_due_count_is(s, tick, k as int);
        }
        let mut rest: Vec<(u64, u64)> = Vec::new();
        let mut i: usize = k;
        while i < len
            invariant
                len == s.len(),
                s == self.entries@,
                k <= i <= len,
                rest@ == s.subrange(k as int, i as int),
            decreases len - i,
        {
            rest.push(self.entries[i]);
            i = i + 1;
            proof {
                assert(rest@ =~= s.subrange(k as int, i as int));
            }
        }
        proof {
            assert forall|a: int, b: int| 0 <= a < b < rest@.len() implies (#[trigger] rest@[a]).0 <= (#[trigger] rest@[b]).0 by {
                assert(rest@[a] == s[k + a] && rest@[b] == s[k + b]);
            }
        }
        self.entries = rest;
        woken
    }
}

/// The first `k` entries are due at `tick` and the others are not.
pub open spec fn due_split(s: Seq<(u64, u64)>, tick: u64, k: int) -> bool {
    &&& 0 <= k <= s.len()
    &&& forall|i: int| 0 <= i < k ==> (#[trigger] s[i]).0 <= tick
    &&& forall|i: int| k <= i < s.len() ==> (#[trigger] s[i]).0 > tick
}

/// How many entries lead the list with a deadline not later than `tick`.
pub open spec fn due_count(s: Seq<(u64, u64)>, tick: u64) -> int {
    choose|k: int| due_split(s, tick, k)
}

/// The wakers that a drain at `tick` fires, in order.
pub open spec fn fired(s: Seq<(u64, u64)>, tick: u64) -> Seq<u64> {
    s.subrange(0, due_count(s, tick)).map_values(|e: (u64, u64)| e.1)
}

/// The entries that stay registered after a drain at `tick`.
pub open spec fn still_waiting(s: Seq<(u64, u64)>, tick: u64) -> Seq<(u64, u64)> {
    s.subrange(due_count(s, tick), s.len() as int)
}

/// A split, where there is one, is the only one.
pub proof fn lemma_due_count_is(s: Seq<(u64, u64)>, tick: u64, k: int)
    requires
        due_split(s, tick, k),
    ensures
        due_count(s, tick) == k,
{
    let k2 = due_count(s, tick);
    assert(due_split(s, tick, k2));
    if k2 < k {
        assert(s[k2].0 <= tick);
    } else if k < k2 {
        assert(s[k].0 <= tick);
    }
}

/// A sorted list splits into the due entries and the others.
pub proof fn lemma_due_split_exists(s: Seq<(u64, u64)>, tick: u64)
    requires
        deadlines_sorted(s),
    ensures
        due_split(s, tick, due_count(s, tick)),
    decreases s.len(),
{
    if s.len() == 0 {
        lemma_due_count_is(s, tick, 0);
    } else if s.last().0 <= tick {
        assert forall|i: int| 0 <= i < s.len() implies (#[trigger] s[i]).0 <= tick by {
            if i < s.len() - 1 {
                assert(s[i].0 <= s[s.len() - 1].0);
            }
        }
        lemma_due_count_is(s, tick, s.len() as int);
    } else {
        let t = s.drop_last();
        assert forall|a: int, b: int| 0 <= a < b < t.len() implies (#[trigger] t[a]).0 <= (#[trigger] t[b]).0 by {
            assert(t[a] == s[a] && t[b] == s[b]);
        }
        lemma_due_split_exists(t, tick);
        let k = due_count(t, tick);
        assert forall|i: int| 0 <= i < k implies (#[trigger] s[i]).0 <= tick by {
            assert(t[i] == s[i]);
        }
        assert forall|i: int| k <= i < s.len() implies (#[trigger] s[i]).0 > tick by {
            if i < s.len() - 1 {
                assert(t[i] == s[i]);
            }
        }
        lemma_due_count_is(s, tick, k);
    }
}

/// A registered waker is fired by the drain at `tick` exactly when its deadline is
/// not later than `tick`: at `tick == deadline` it fires, at any earlier tick it does
/// not. A fired entry leaves the list, so it fires once.
pub proof fn lemma_fires_at_deadline(s: Seq<(u64, u64)>, i: int, tick: u64)
    requires
        deadlines_sorted(s),
        0 <= i < s.len(),
    ensures
        (i < due_count(s, tick)) <==> s[i].0 <= tick,
        i < due_count(s, tick) ==> fired(s, tick)[i] == s[i].1,
        i >= due_count(s, tick) ==> still_waiting(s, tick)[i - due_count(s, tick)] == s[i],
{
    lemma_due_split_exists(s, tick);
}

/// Wake order: of two registered wakers, the one with the earlier deadline stands
/// earlier in the list, and whenever the drain at some tick fires the later one, it
/// fires the earlier one too, before it in the same drain. Equal deadlines keep
/// their order of registration, as `register_wakeup` states.
pub proof fn lemma_wake_order(s: Seq<(u64, u64)>, i: int, j: int, tick: u64)
    requires
        deadlines_sorted(s),
        0 <= i < s.len(),
        0 <= j < s.len(),
        s[i].0 < s[j].0,
    ensures
        i < j,
        j < due_count(s, tick) ==> i < due_count(s, tick) && fired(s, tick)[i] == s[i].1 && fired(s,
            tick)[j] == s[j].1,
{
    lemma_earlier_deadline_first(s, i, j);
    lemma_fires_at_deadline(s, i, tick);
    lemma_fires_at_deadline(s, j, tick);
}

/// A sleep of `ms` milliseconds begun at `now` registers `sleep_deadline_spec(now, ms,
/// tick_freq)`; the drain at tick `t` resumes it exactly when `t` has reached that
/// deadline. A sleep of 100 ms at tick 0 and 1000 Hz ends at tick 100, not 99.
pub proof fn lemma_sleep_resumes_at_deadline(s: Seq<(u64, u64)>, i: int, now: u64, ms: u64, tick_freq: u64, t: u64)
    requires
        deadlines_sorted(s),
        0 <= i < s.len(),
        s[i].0 == sleep_deadline_spec(now, ms, tick_freq),
    ensures
        (i < due_count(s, t)) <==> t >= sleep_deadline_spec(now, ms, tick_freq),
        sleep_deadline_spec(0, 100, 1000) == 100,
{
    lemma_fires_at_deadline(s, i, t);
}

/// Deadlines that differ fire in their order: in a sorted list the earlier deadline
/// stands first, and wakes go in list order.
pub proof fn lemma_earlier_deadline_first(s: Seq<(u64, u64)>, i: int, j: int)
    requires
        deadlines_sorted(s),
        0 <= i < s.len(),
        0 <= j < s.len(),
        s[i].0 < s[j].0,
    ensures
        i < j,
{
    if j <= i {
        if j < i {
            assert(s[j].0 <= s[i].0);
        }
    }
}

/// The tick handler: advances the counter, then takes out the wakers now due, in order.
pub fn on_tick(time: &mut MonotonicTime, list: &mut WakeupList) -> (r: Vec<u64>)
    requires
        old(time).spec_tick() < u64::MAX,
        old(list).wf(),
    ensures
        final(list).wf(),
        final(time).spec_tick() == old(time).spec_tick() + 1,
        final(time).spec_tick_freq() == old(time).spec_tick_freq(),
        clock_step(old(time).spec_tick(), final(time).spec_tick()),
        r@ == fired(old(list)@, final(time).spec_tick()),
        final(list)@ == still_waiting(old(list)@, final(time).spec_tick()),
{
    let tick = time.increment();
    list.wakeup_if_necessary(tick)
}

} // verus!
