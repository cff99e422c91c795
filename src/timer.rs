//! A deadline-ordered queue of cancellable timers with stable keys.
use vstd::prelude::*;
use slotmap::{DefaultKey, SlotMap};
use crate::queue::{DeadlineQueue, QueueEntry, entry_le};
use crate::time::Instant;

verus! {

/// Declares `slotmap::DefaultKey`, the key that a slot map hands out; it is
/// carried as an opaque value and compared only as a whole.
#[verifier::external_type_specification]
#[verifier::external_body]
pub struct ExDefaultKey(DefaultKey);

/// The key of a scheduled timer; it stays valid, and names that timer alone,
/// until the timer fires or is cancelled.
#[derive(Clone, Copy, Debug, PartialEq, Eq, Hash)]
pub struct TimerKey {
    key: DefaultKey,
}

/// The slot table of a wheel: each live timer's deadline in nanoseconds and
/// insertion number, under a key that stays valid until the timer is removed.
/// The slot map is held behind this struct because its key-trait bound cannot
/// be declared to the verifier.
#[verifier::external_body]
pub struct SlotTable {
    map: SlotMap<DefaultKey, (u64, u64)>,
}

/// What a slot table holds: for each live key, the deadline in nanoseconds
/// and the insertion number of its timer.
pub uninterp spec fn slot_entries(m: SlotTable) -> Map<DefaultKey, (u64, u64)>;

/// Relies on `SlotMap::new`: a new slot map holds nothing.
#[verifier::external_body]
fn slots_new() -> (r: SlotTable)
    ensures
        slot_entries(r).dom() == Set::<DefaultKey>::empty(),
        slot_entries(r).dom().finite(),
{
    SlotTable { map: SlotMap::new() }
}

/// Relies on `SlotMap::insert`: the value is stored under a key that was not
/// live before. It panics when no slot is free and `u32::MAX` slots exist,
/// which the bound on live keys rules out.
#[verifier::external_body]
fn slots_insert(m: &mut SlotTable, v: (u64, u64)) -> (r: DefaultKey)
    requires
        slot_entries(*old(m)).dom().finite(),
        slot_entries(*old(m)).len() + 2 < u32::MAX,
    ensures
        !slot_entries(*old(m)).contains_key(r),
        slot_entries(*final(m)) == slot_entries(*old(m)).insert(r, v),
        slot_entries(*final(m)).dom().finite(),
{
    m.map.insert(v)
}

/// Relies on `SlotMap::remove`: the value under a live key is taken out and
/// returned; a key that is not live changes nothing.
#[verifier::external_body]
fn slots_remove(m: &mut SlotTable, k: DefaultKey) -> (r: Option<(u64, u64)>)
    requires
        slot_entries(*old(m)).dom().finite(),
    ensures
        r == if slot_entries(*old(m)).contains_key(k) {
            Some(slot_entries(*old(m))[k])
        } else {
            None
        },
        slot_entries(*final(m)) == slot_entries(*old(m)).remove(k),
        slot_entries(*final(m)).dom().finite(),
{
    m.map.remove(k)
}

/// Relies on `SlotMap::get`: the value under a live key, none for another key.
#[verifier::external_body]
fn slots_get(m: &SlotTable, k: DefaultKey) -> (r: Option<(u64, u64)>)
    ensures
        r == if slot_entries(*m).contains_key(k) {
            Some(slot_entries(*m)[k])
        } else {
            None
        },
{
    m.map.get(k).copied()
}

/// Relies on `SlotMap::len`: the number of live keys.
#[verifier::external_body]
fn slots_len(m: &SlotTable) -> (r: usize)
    requires
        slot_entries(*m).dom().finite(),
    ensures
        r == slot_entries(*m).len(),
{
    m.map.len()
}

/// A scheduled timer: when it is due, and its insertion number, which breaks
/// ties between equal deadlines.
#[derive(Clone, Copy, Debug, PartialEq, Eq)]
pub struct Timer {
    pub deadline: Instant,
    pub seq: u64,
}

/// `a` fires strictly before `b`: an earlier deadline, or the same deadline
/// and an earlier insertion.
pub open spec fn fires_before(a: Timer, b: Timer) -> bool {
    a.deadline@ < b.deadline@ || (a.deadline@ == b.deadline@ && a.seq < b.seq)
}

/// A timer is due at `now` when its deadline is not after `now`.
pub open spec fn is_due(t: Timer, now: Instant) -> bool {
    t.deadline@ <= now@
}

/// The timers of `m` that are not due at `now`.
pub open spec fn not_due(m: Map<TimerKey, Timer>, now: Instant) -> Map<TimerKey, Timer> {
    Map::new(|k: TimerKey| m.contains_key(k) && !is_due(m[k], now), |k: TimerKey| m[k])
}

/// `r` lists each timer of `m` that is due at `now` exactly once, and nothing
/// else, in firing order.
pub open spec fn fired_in_order(m: Map<TimerKey, Timer>, now: Instant, r: Seq<TimerKey>) -> bool {
    &&& r.no_duplicates()
    &&& forall|k: TimerKey| #[trigger] r.contains(k) <==> (m.contains_key(k) && is_due(m[k], now))
    &&& forall|i: int, j: int| 0 <= i < j < r.len() ==> fires_before(#[trigger] m[r[i]], #[trigger] m[r[j]])
}

/// The timer that a slot table entry stands for.
pub open spec fn timer_of(v: (u64, u64)) -> Timer {
    Timer { deadline: Instant { nanos: v.0 }, seq: v.1 }
}

/// The queue entry of the timer under `k`.
spec fn entry_of(k: DefaultKey, v: (u64, u64)) -> QueueEntry {
    QueueEntry { deadline: v.0, seq: v.1, key: TimerKey { key: k } }
}

/// Pending timers under stable keys, with a queue that answers which fires
/// next. Cancelling leaves the timer's queue entry behind; such stale entries
/// are dropped when they reach the front.
pub struct TimerWheel {
    timers: SlotTable,
    queue: DeadlineQueue,
    next_seq: u64,
}

impl View for TimerWheel {
    type V = Map<TimerKey, Timer>;

    closed spec fn view(&self) -> Map<TimerKey, Timer> {
        Map::new(
            |k: TimerKey| slot_entries(self.timers).contains_key(k.key),
            |k: TimerKey| timer_of(slot_entries(self.timers)[k.key]),
        )
    }
}

impl TimerWheel {
    /// The insertion number that the next scheduled timer gets.
    pub closed spec fn next_order(&self) -> u64 {
        self.next_seq
    }

    /// Whether another timer can be scheduled: fewer than `u32::MAX - 2`
    /// timers are pending and insertion numbers are not used up.
    pub open spec fn has_room(&self) -> bool {
        &&& self@.dom().finite()
        &&& self@.len() + 2 < u32::MAX
        &&& self.next_order() < u64::MAX
    }

    /// The pending timers are as many as the live keys of the slot table.
    proof fn lemma_view_len(&self)
        requires
            slot_entries(self.timers).dom().finite(),
        ensures
            self@.dom().finite(),
            self@.len() == slot_entries(self.timers).len(),
    {
        let x = slot_entries(self.timers).dom();
        let f = |k: DefaultKey| TimerKey { key: k };
        assert(x.map(f) =~= self@.dom()) by {
            assert forall|t: TimerKey| #[trigger] self@.dom().contains(t) implies x.map(f).contains(t) by {
                assert(f(t.key) == t);
            }
        }
        assert(vstd::relations::injective_on(f, x));
        vstd::set_lib::lemma_map_size(x, self@.dom(), f);
    }

    /// An entry of the queue still stands for a live timer.
    closed spec fn is_live(&self, e: QueueEntry) -> bool {
        &&& slot_entries(self.timers).contains_key(e.key.key)
        &&& slot_entries(self.timers)[e.key.key].1 == e.seq
    }

    pub closed spec fn wf(&self) -> bool {
        let m = slot_entries(self.timers);
        &&& self.queue.wf()
        &&& m.dom().finite()
        &&& forall|k: DefaultKey| #[trigger] m.contains_key(k) ==> m[k].1 < self.next_seq
        &&& forall|k1: DefaultKey, k2: DefaultKey|
            #[trigger] m.contains_key(k1) && #[trigger] m.contains_key(k2) && m[k1].1 == m[k2].1
                ==> k1 == k2
        &&& forall|k: DefaultKey| #[trigger] m.contains_key(k) ==> self.queue@.contains(entry_of(k, m[k]))
        &&& forall|e: QueueEntry| #[trigger] self.queue@.contains(e) ==> e.seq < self.next_seq
        &&& forall|e: QueueEntry|
            #[trigger] self.queue@.contains(e) && self.is_live(e) ==> m[e.key.key].0 == e.deadline
    }

    /// An empty wheel.
    pub fn new() -> (r: TimerWheel)
        ensures
            r.wf(),
            r@ == Map::<TimerKey, Timer>::empty(),
            r@.dom().finite(),
            r.next_order() == 0,
    {
        let r = TimerWheel { timers: slots_new(), queue: DeadlineQueue::new(), next_seq: 0 };
        assert(r@ =~= Map::<TimerKey, Timer>::empty());
        r
    }

    /// Whether another timer can be scheduled.
    pub fn can_schedule(&self) -> (r: bool)
        requires
            self.wf(),
        ensures
            r == self.has_room(),
    {
        proof {
            self.lemma_view_len();
        }
        slots_len(&self.timers) < u32::MAX as usize - 2 && self.next_seq < u64::MAX
    }

    /// Whether the timer under `key` is still pending.
    pub fn is_pending(&self, key: TimerKey) -> (r: bool)
        ensures
            r == self@.contains_key(key),
    {
        slots_get(&self.timers, key.key).is_some()
    }

    /// Adds a timer due at `deadline` and returns its key. It fires after
    /// every timer already pending with the same deadline.
    pub fn schedule(&mut self, deadline: Instant) -> (r: TimerKey)
        requires
            old(self).wf(),
            old(self).has_room(),
        ensures
            final(self).wf(),
            !old(self)@.contains_key(r),
            final(self)@ == old(self)@.insert(r, Timer { deadline, seq: old(self).next_order() }),
            final(self)@.dom().finite(),
            final(self).next_order() == old(self).next_order() + 1,
            forall|k: TimerKey| #[trigger] old(self)@.contains_key(k) ==> old(self)@[k].seq < old(self).next_order(),
    {
        let ghost m0 = slot_entries(self.timers);
        proof {
            self.lemma_view_len();
        }
        let seq = self.next_seq;
        let k = slots_insert(&mut self.timers, (deadline.nanos, seq));
        let key = TimerKey { key: k };
        let ghost q0 = self.queue@;
        self.queue.push(QueueEntry { deadline: deadline.nanos, seq, key });
        self.next_seq = seq + 1;
        proof {
            let m = slot_entries(self.timers);
            assert forall|e: QueueEntry|
                #[trigger] self.queue@.contains(e) && self.is_live(e) implies m[e.key.key].0 == e.deadline by {
                if e.key.key != k {
                    assert(q0.contains(e));
                } else if e.seq != seq {
                } 
            }
            assert forall|k1: DefaultKey, k2: DefaultKey|
                #[trigger] m.contains_key(k1) && #[trigger] m.contains_key(k2) && m[k1].1 == m[k2].1 implies k1 == k2 by {
                if k1 != k && k2 != k {
                    assert(m0.contains_key(k1) && m0.contains_key(k2));
                }
            }
            assert forall|kk: DefaultKey| #[trigger] m.contains_key(kk) implies self.queue@.contains(entry_of(kk, m[kk])) by {
                if kk != k {
                    assert(q0.contains(entry_of(kk, m0[kk])));
                }
            }
            assert(self@ =~= old(self)@.insert(key, Timer { deadline, seq }));
            self.lemma_view_len();
        }
        key
    }

    /// Removes the timer under `key` if it is still pending, and says whether
    /// it was. A key that already fired or was cancelled changes nothing.
    pub fn cancel(&mut self, key: TimerKey) -> (r: bool)
        requires
            old(self).wf(),
        ensures
            final(self).wf(),
            r == old(self)@.contains_key(key),
            final(self)@ == old(self)@.remove(key),
            final(self)@.dom().finite(),
            final(self).next_order() == old(self).next_order(),
    {
        let ghost m0 = slot_entries(self.timers);
        let removed = slots_remove(&mut self.timers, key.key);
        proof {
            let m = slot_entries(self.timers);
            assert forall|e: QueueEntry|
                #[trigger] self.queue@.contains(e) && self.is_live(e) implies m[e.key.key].0 == e.deadline by {
                assert(m0.contains_key(e.key.key));
            }
            assert forall|k1: DefaultKey, k2: DefaultKey|
                #[trigger] m.contains_key(k1) && #[trigger] m.contains_key(k2) && m[k1].1 == m[k2].1 implies k1 == k2 by {
                assert(m0.contains_key(k1) && m0.contains_key(k2));
            }
            assert(self@ =~= old(self)@.remove(key));
            self.lemma_view_len();
        }
        removed.is_some()
    }
    /// The earliest deadline among the pending timers, if any. Stale queue
    /// entries met on the way are dropped; the pending timers stay as they are.
    pub fn next_deadline(&mut self) -> (r: Option<Instant>)
        requires
            old(self).wf(),
        ensures
            final(self).wf(),
            final(self)@ == old(self)@,
            final(self).next_order() == old(self).next_order(),
            r is None <==> old(self)@.dom() == Set::<TimerKey>::empty(),
            r matches Some(d) ==> {
                &&& exists|k: TimerKey| #[trigger] old(self)@.contains_key(k) && old(self)@[k].deadline == d
                &&& forall|k: TimerKey| #[trigger] old(self)@.contains_key(k) ==> d@ <= old(self)@[k].deadline@
            },
    {
        let ghost m0 = slot_entries(self.timers);
        loop
            invariant
                self.wf(),
                m0 == slot_entries(old(self).timers),
                slot_entries(self.timers) == m0,
                self.next_seq == old(self).next_seq,
            decreases self.queue@.len(),
        {
            match self.queue.peek() {
                None => {
                    proof {
                        assert forall|k: DefaultKey| !m0.contains_key(k) by {
                            if m0.contains_key(k) {
                                assert(self.queue@.contains(entry_of(k, m0[k])));
                            }
                        }
                        assert(self@ =~= old(self)@);
                        assert(old(self)@.dom() =~= Set::<TimerKey>::empty());
                    }
                    return None;
                },
                Some(e) => {
                    let live = match slots_get(&self.timers, e.key.key) {
                        Some(v) => v.1 == e.seq,
                        None => false,
                    };
                    if live {
                        let d = Instant { nanos: e.deadline };
                        proof {
                            assert(self@ =~= old(self)@);
                            let k = e.key;
                            assert(old(self)@.contains_key(k) && old(self)@[k].deadline == d);
                            assert forall|k2: TimerKey| #[trigger] old(self)@.contains_key(k2) implies d@ <= old(self)@[k2].deadline@ by {
                                assert(self.queue@.contains(entry_of(k2.key, m0[k2.key])));
                            }
                        }
                        return Some(d);
                    }
                    let ghost q = self.queue@;
                    self.queue.pop();
                    proof {
                        assert forall|k: DefaultKey| #[trigger] m0.contains_key(k) implies self.queue@.contains(entry_of(k, m0[k])) by {
                            assert(q.contains(entry_of(k, m0[k])));
                        }
                    }
                },
            }
        }
    }

    /// One poll of a sleep until `deadline`, whose timer is kept in `slot`
    /// once scheduled. The first poll schedules the timer; the sleep is over
    /// once that timer is no longer pending.
    pub fn poll_sleep(&mut self, slot: &mut Option<TimerKey>, deadline: Instant) -> (done: bool)
        requires
            old(self).wf(),
            *old(slot) is None ==> old(self).has_room(),
        ensures
            final(self).wf(),
            final(self)@.dom().finite(),
            *old(slot) matches Some(k) ==> {
                &&& done == !old(self)@.contains_key(k)
                &&& *final(slot) == *old(slot)
                &&& final(self)@ == old(self)@
                &&& final(self).next_order() == old(self).next_order()
            },
            *old(slot) is None ==> {
                &&& !done
                &&& *final(slot) matches Some(k)
                &&& !old(self)@.contains_key(k)
                &&& final(self)@ == old(self)@.insert(k, (Timer { deadline, seq: old(self).next_order() }))
                &&& final(self).next_order() == old(self).next_order() + 1
            },
    {
        proof {
            self.lemma_view_len();
        }
        match *slot {
            Some(k) => !self.is_pending(k),
            None => {
                let k = self.schedule(deadline);
                *slot = Some(k);
                false
            },
        }
    }

    /// Removes and returns the keys of the timers due at `now`, the earliest
    /// deadline first and, between equal deadlines, in the order they were
    /// scheduled.
    pub fn fire_due(&mut self, now: Instant) -> (r: Vec<TimerKey>)
        requires
            old(self).wf(),
        ensures
            final(self).wf(),
            final(self)@ == not_due(old(self)@, now),
            final(self)@.dom().finite(),
            fired_in_order(old(self)@, now, r@),
            final(self).next_order() == old(self).next_order(),
    {
        let ghost m0 = slot_entries(self.timers);
        let mut fired: Vec<TimerKey> = Vec::new();
        loop
            invariant
                self.wf(),
                self.next_seq == old(self).next_seq,
                m0 == slot_entries(old(self).timers),
                forall|k: DefaultKey|
                    #[trigger] slot_entries(self.timers).contains_key(k) ==> m0.contains_key(k)
                        && slot_entries(self.timers)[k] == m0[k],
                forall|k: DefaultKey|
                    #[trigger] m0.contains_key(k) && !slot_entries(self.timers).contains_key(k)
                        ==> fired@.contains(TimerKey { key: k }),
                forall|t: TimerKey|
                    #[trigger] fired@.contains(t) ==> m0.contains_key(t.key) && !slot_entries(
                        self.timers,
                    ).contains_key(t.key) && m0[t.key].0 <= now.nanos,
                fired@.no_duplicates(),
                forall|i: int, j: int|
                    0 <= i < j < fired@.len() ==> fires_before(
                        timer_of(#[trigger] m0[fired@[i].key]),
                        timer_of(#[trigger] m0[fired@[j].key]),
                    ),
                forall|i: int, k: DefaultKey|
                    0 <= i < fired@.len() && #[trigger] slot_entries(self.timers).contains_key(k)
                        ==> fires_before(timer_of(#[trigger] m0[fired@[i].key]), timer_of(m0[k])),
            ensures
                self.wf(),
                self.next_seq == old(self).next_seq,
                forall|k: DefaultKey|
                    #[trigger] slot_entries(self.timers).contains_key(k) ==> m0.contains_key(k)
                        && slot_entries(self.timers)[k] == m0[k] && m0[k].0 > now.nanos,
                forall|k: DefaultKey|
                    #[trigger] m0.contains_key(k) && !slot_entries(self.timers).contains_key(k)
                        ==> fired@.contains(TimerKey { key: k }),
                forall|t: TimerKey|
                    #[trigger] fired@.contains(t) ==> m0.contains_key(t.key) && m0[t.key].0
                        <= now.nanos,
                fired@.no_duplicates(),
                forall|i: int, j: int|
                    0 <= i < j < fired@.len() ==> fires_before(
                        timer_of(#[trigger] m0[fired@[i].key]),
                        timer_of(#[trigger] m0[fired@[j].key]),
                    ),
            decreases self.queue@.len(),
        {
            let ghost m = slot_entries(self.timers);
            let ghost q = self.queue@;
            match self.queue.peek() {
                None => {
                    proof {
                        assert forall|k: DefaultKey| !m.contains_key(k) by {
                            if m.contains_key(k) {
                                assert(q.contains(entry_of(k, m[k])));
                            }
                        }
                    }
                    break;
                },
                Some(e) => {
                    let live = match slots_get(&self.timers, e.key.key) {
                        Some(v) => v.1 == e.seq,
                        None => false,
                    };
                    if live && e.deadline > now.nanos {
                        proof {
                            assert forall|k: DefaultKey| #[trigger] m.contains_key(k) implies m0[k].0 > now.nanos by {
                                assert(q.contains(entry_of(k, m[k])));
                            }
                        }
                        break;
                    }
                    self.queue.pop();
                    if live {
                        let kk = e.key;
                        slots_remove(&mut self.timers, kk.key);
                        let ghost f = fired@;
                        fired.push(kk);
                        proof {
                            let m2 = slot_entries(self.timers);
                            assert(kk == TimerKey { key: kk.key });
                            assert(e == entry_of(kk.key, m[kk.key]));
                            assert forall|k: DefaultKey| #[trigger] m2.contains_key(k) implies self.queue@.contains(entry_of(k, m2[k])) by {
                                assert(q.contains(entry_of(k, m[k])));
                                assert(entry_of(k, m[k]) != e);
                            }
                            assert forall|x: QueueEntry| #[trigger] self.queue@.contains(x) && self.is_live(x) implies m2[x.key.key].0 == x.deadline by {
                                assert(q.contains(x));
                            }
                            assert forall|k1: DefaultKey, k2: DefaultKey|
                                #[trigger] m2.contains_key(k1) && #[trigger] m2.contains_key(k2) && m2[k1].1 == m2[k2].1 implies k1 == k2 by {
                                assert(m.contains_key(k1) && m.contains_key(k2));
                            }
                            assert forall|t: TimerKey| #[trigger] fired@.contains(t) implies m0.contains_key(t.key) && !m2.contains_key(t.key) && m0[t.key].0 <= now.nanos by {
                                if t != kk {
                                    assert(f.contains(t));
                                }
                            }
                            assert forall|k: DefaultKey| #[trigger] m0.contains_key(k) && !m2.contains_key(k) implies fired@.contains(TimerKey { key: k }) by {
                                if k == kk.key {
                                    assert(fired@[f.len() as int] == kk);
                                } else {
                                    assert(f.contains(TimerKey { key: k }));
                                    let i = choose|i: int| 0 <= i < f.len() && f[i] == TimerKey { key: k };
                                    assert(fired@[i] == f[i]);
                                }
                            }
                            assert(fired@.no_duplicates()) by {
                                assert forall|i: int, j: int| 0 <= i < j < fired@.len() implies fired@[i] != fired@[j] by {
                                    if j == f.len() {
                                        assert(f.contains(fired@[i]));
                                    }
                                }
                            }
                            assert forall|k: DefaultKey| #[trigger] m2.contains_key(k) implies fires_before(timer_of(m0[kk.key]), timer_of(m0[k])) by {
                                assert(q.contains(entry_of(k, m[k])));
                                assert(entry_le(e, entry_of(k, m[k])));
                            }
                            assert forall|i: int, j: int|
                                0 <= i < j < fired@.len() implies fires_before(
                                    timer_of(#[trigger] m0[fired@[i].key]),
                                    timer_of(#[trigger] m0[fired@[j].key]),
                                ) by {
                                if j == f.len() {
                                    assert(fired@[i] == f[i]);
                                } else {
                                    assert(fired@[i] == f[i] && fired@[j] == f[j]);
                                }
                            }
                            assert forall|i: int, k: DefaultKey|
                                0 <= i < fired@.len() && #[trigger] m2.contains_key(k) implies fires_before(
                                    timer_of(#[trigger] m0[fired@[i].key]),
                                    timer_of(m0[k]),
                                ) by {
                                if i < f.len() {
                                    assert(fired@[i] == f[i]);
                                }
                            }
                        }
                    } else {
                        proof {
                            assert forall|k: DefaultKey| #[trigger] m.contains_key(k) implies self.queue@.contains(entry_of(k, m[k])) by {
                                assert(q.contains(entry_of(k, m[k])));
                            }
                        }
                    }
                },
            }
        }
        proof {
            let m = slot_entries(self.timers);
            assert(self@ =~= not_due(old(self)@, now));
            self.lemma_view_len();
            assert forall|k: TimerKey| #[trigger] fired@.contains(k) <==> (old(self)@.contains_key(k) && is_due(old(self)@[k], now)) by {
                if old(self)@.contains_key(k) && is_due(old(self)@[k], now) {
                    assert(k == TimerKey { key: k.key });
                }
            }
            assert forall|i: int, j: int| 0 <= i < j < fired@.len() implies fires_before(
                #[trigger] old(self)@[fired@[i]],
                #[trigger] old(self)@[fired@[j]],
            ) by {
                assert(fired@.contains(fired@[i]));
                assert(fired@.contains(fired@[j]));
                assert(old(self)@[fired@[i]] == timer_of(m0[fired@[i].key]));
                assert(old(self)@[fired@[j]] == timer_of(m0[fired@[j].key]));
            }
        }
        fired
    }
}

/// Cancelling a timer that has fired finds nothing and changes nothing, and
/// no later firing lists it again.
pub proof fn lemma_cancel_after_fire(
    m: Map<TimerKey, Timer>,
    now: Instant,
    fired: Seq<TimerKey>,
    key: TimerKey,
    later: Instant,
    again: Seq<TimerKey>,
)
    requires
        fired_in_order(m, now, fired),
        fired.contains(key),
        fired_in_order(not_due(m, now), later, again),
    ensures
        !not_due(m, now).contains_key(key),
        not_due(m, now).remove(key) == not_due(m, now),
        !again.contains(key),
{
    assert(not_due(m, now).remove(key) =~= not_due(m, now));
}

/// Two sequences that hold the same keys, each once, and both list them in
/// firing order are equal.
proof fn lemma_firing_order_unique(m: Map<TimerKey, Timer>, r1: Seq<TimerKey>, r2: Seq<TimerKey>)
    requires
        r1.no_duplicates(),
        r2.no_duplicates(),
        forall|k: TimerKey| #![trigger r1.contains(k)] #![trigger r2.contains(k)] r1.contains(k) <==> r2.contains(k),
        forall|i: int, j: int| 0 <= i < j < r1.len() ==> fires_before(#[trigger] m[r1[i]], #[trigger] m[r1[j]]),
        forall|i: int, j: int| 0 <= i < j < r2.len() ==> fires_before(#[trigger] m[r2[i]], #[trigger] m[r2[j]]),
    ensures
        r1 == r2,
    decreases r1.len(),
{
    if r1.len() == 0 {
        if r2.len() > 0 {
            assert(r2.contains(r2[0]));
        }
        assert(r1 =~= r2);
    } else {
        assert(r1.contains(r1[0]));
        assert(r2.contains(r1[0]));
        if r1[0] != r2[0] {
            let j = choose|j: int| 0 <= j < r2.len() && r2[j] == r1[0];
            assert(r2.contains(r2[0]));
            let i = choose|i: int| 0 <= i < r1.len() && r1[i] == r2[0];
            assert(fires_before(m[r2[0]], m[r2[j]]));
            assert(fires_before(m[r1[0]], m[r1[i]]));
            assert(false);
        }
        let t1 = r1.drop_first();
        let t2 = r2.drop_first();
        assert forall|k: TimerKey| #![trigger t1.contains(k)] #![trigger t2.contains(k)] t1.contains(k) <==> t2.contains(k) by {
            if t1.contains(k) {
                let i = choose|i: int| 0 <= i < t1.len() && t1[i] == k;
                assert(r1[i + 1] == k);
                assert(r1.contains(k));
                let j = choose|j: int| 0 <= j < r2.len() && r2[j] == k;
                assert(j != 0);
                assert(t2[j - 1] == k);
            }
            if t2.contains(k) {
                let j = choose|j: int| 0 <= j < t2.len() && t2[j] == k;
                assert(r2[j + 1] == k);
                assert(r2.contains(k));
                let i = choose|i: int| 0 <= i < r1.len() && r1[i] == k;
                assert(i != 0);
                assert(t1[i - 1] == k);
            }
        }
        assert forall|i: int, j: int| 0 <= i < j < t1.len() implies fires_before(#[trigger] m[t1[i]], #[trigger] m[t1[j]]) by {
            assert(t1[i] == r1[i + 1] && t1[j] == r1[j + 1]);
        }
        assert forall|i: int, j: int| 0 <= i < j < t2.len() implies fires_before(#[trigger] m[t2[i]], #[trigger] m[t2[j]]) by {
            assert(t2[i] == r2[i + 1] && t2[j] == r2[j + 1]);
        }
        lemma_firing_order_unique(m, t1, t2);
        assert forall|i: int| 0 <= i < r1.len() implies r1[i] == r2[i] by {
            if i > 0 {
                assert(r1[i] == t1[i - 1]);
                assert(r2[i] == t2[i - 1]);
            }
        }
        assert(r1 =~= r2);
    }
}

/// What a firing returns is determined by the pending timers and the time:
/// any two lists that hold exactly the due timers, each once, in firing order
/// are the same list.
pub proof fn lemma_fired_list_is_unique(
    m: Map<TimerKey, Timer>,
    now: Instant,
    r1: Seq<TimerKey>,
    r2: Seq<TimerKey>,
)
    requires
        fired_in_order(m, now, r1),
        fired_in_order(m, now, r2),
    ensures
        r1 == r2,
{
    lemma_firing_order_unique(m, r1, r2);
}

} // verus!
