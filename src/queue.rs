//! A binary min-heap of timer wake-ups, ordered by deadline and then by
//! insertion number.
use vstd::prelude::*;
use crate::timer::TimerKey;

verus! {

/// One pending wake-up: the timer under `key` is due at `deadline`
/// nanoseconds; `seq` is its insertion number.
#[derive(Clone, Copy)]
pub struct QueueEntry {
    pub deadline: u64,
    pub seq: u64,
    pub key: TimerKey,
}

/// `a` comes out of the queue no later than `b`: an earlier deadline, or the
/// same deadline and an earlier insertion.
pub open spec fn entry_le(a: QueueEntry, b: QueueEntry) -> bool {
    a.deadline < b.deadline || (a.deadline == b.deadline && a.seq <= b.seq)
}

pub open spec fn parent(i: int) -> int {
    (i - 1) / 2
}

/// Every entry comes out no earlier than its parent.
pub open spec fn is_heap(s: Seq<QueueEntry>) -> bool {
    forall|i: int| #![trigger s[i]] 0 < i < s.len() ==> entry_le(s[parent(i)], s[i])
}

/// The first entry of a heap comes out no later than any other.
proof fn lemma_root_first(s: Seq<QueueEntry>, i: int)
    requires
        is_heap(s),
        0 <= i < s.len(),
    ensures
        entry_le(s[0], s[i]),
    decreases i,
{
    if i > 0 {
        lemma_root_first(s, parent(i));
        assert(entry_le(s[parent(i)], s[i]));
    }
}

/// Exchanging two positions keeps the same entries.
proof fn lemma_swap_keeps_entries(s: Seq<QueueEntry>, i: int, j: int)
    requires
        0 <= i < s.len(),
        0 <= j < s.len(),
    ensures
        forall|x: QueueEntry|
            #[trigger] s.update(i, s[j]).update(j, s[i]).contains(x) <==> s.contains(x),
{
    let t = s.update(i, s[j]).update(j, s[i]);
    assert forall|x: QueueEntry| t.contains(x) <==> s.contains(x) by {
        if s.contains(x) {
            let k = choose|k: int| 0 <= k < s.len() && s[k] == x;
            if k == i {
                assert(t[j] == x);
            } else if k == j {
                assert(t[i] == x);
            } else {
                assert(t[k] == x);
            }
        }
        if t.contains(x) {
            let k = choose|k: int| 0 <= k < t.len() && t[k] == x;
            if k == i {
                assert(s[j] == x);
            } else if k == j {
                assert(s[i] == x);
            } else {
                assert(s[k] == x);
            }
        }
    }
}

fn swap_entries(v: &mut Vec<QueueEntry>, i: usize, j: usize)
    requires
        i < old(v).len(),
        j < old(v).len(),
    ensures
        final(v)@ == old(v)@.update(i as int, old(v)@[j as int]).update(j as int, old(v)@[i as int]),
{
    let a = v[i];
    let b = v[j];
    v.set(i, b);
    v.set(j, a);
}

fn entry_before(a: &QueueEntry, b: &QueueEntry) -> (r: bool)
    ensures
        r == entry_le(*a, *b),
{
    a.deadline < b.deadline || (a.deadline == b.deadline && a.seq <= b.seq)
}

/// Pending wake-ups, the earliest at the front.
pub struct DeadlineQueue {
    items: Vec<QueueEntry>,
}

impl View for DeadlineQueue {
    type V = Seq<QueueEntry>;

    closed spec fn view(&self) -> Seq<QueueEntry> {
        self.items@
    }
}

impl DeadlineQueue {
    pub closed spec fn wf(&self) -> bool {
        is_heap(self.items@)
    }

    pub fn new() -> (r: DeadlineQueue)
        ensures
            r.wf(),
            r@.len() == 0,
    {
        DeadlineQueue { items: Vec::new() }
    }

    pub fn len(&self) -> (r: usize)
        ensures
            r == self@.len(),
    {
        self.items.len()
    }

    /// The entry that comes out first, if any.
    pub fn peek(&self) -> (r: Option<QueueEntry>)
        requires
            self.wf(),
        ensures
            r is None <==> self@.len() == 0,
            r matches Some(e) ==> e == self@[0] && self@.contains(e) && forall|x: QueueEntry|
                #[trigger] self@.contains(x) ==> entry_le(e, x),
    {
        if self.items.len() == 0 {
            None
        } else {
            let e = self.items[0];
            proof {
                assert(self@[0] == e);
                assert forall|x: QueueEntry| #[trigger] self@.contains(x) implies entry_le(e, x) by {
                    let k = choose|k: int| 0 <= k < self@.len() && self@[k] == x;
                    lemma_root_first(self@, k);
                }
            }
            Some(e)
        }
    }

    /// Adds `e`.
    pub fn push(&mut self, e: QueueEntry)
        requires
            old(self).wf(),
        ensures
            final(self).wf(),
            final(self)@.len() == old(self)@.len() + 1,
            forall|x: QueueEntry|
                #[trigger] final(self)@.contains(x) <==> (old(self)@.contains(x) || x == e),
    {
        let ghost s0 = self.items@;
        self.items.push(e);
        proof {
            assert forall|x: QueueEntry| #[trigger] self.items@.contains(x) <==> (s0.contains(x) || x == e) by {
                if s0.contains(x) {
                    let k = choose|k: int| 0 <= k < s0.len() && s0[k] == x;
                    assert(self.items@[k] == x);
                }
                if x == e {
                    assert(self.items@[s0.len() as int] == x);
                }
                if self.items@.contains(x) && x != e {
                    let k = choose|k: int| 0 <= k < self.items@.len() && self.items@[k] == x;
                    assert(s0[k] == x);
                }
            }
        }
        let mut k: usize = self.items.len() - 1;
        while k > 0
            invariant
                0 <= k < self.items@.len(),
                self.items@.len() == s0.len() + 1,
                forall|x: QueueEntry|
                    #[trigger] self.items@.contains(x) <==> (s0.contains(x) || x == e),
                forall|i: int|
                    #![trigger self.items@[i]]
                    0 < i < self.items@.len() && i != k ==> entry_le(
                        self.items@[parent(i)],
                        self.items@[i],
                    ),
                k > 0 ==> forall|c: int|
                    #![trigger self.items@[c]]
                    0 < c < self.items@.len() && parent(c) == k ==> entry_le(
                        self.items@[parent(k as int)],
                        self.items@[c],
                    ),
            ensures
                self.items@.len() == s0.len() + 1,
                forall|x: QueueEntry|
                    #[trigger] self.items@.contains(x) <==> (s0.contains(x) || x == e),
                is_heap(self.items@),
            decreases k,
        {
            let p: usize = (k - 1) / 2;
            if entry_before(&self.items[p], &self.items[k]) {
                proof {
                    let s = self.items@;
                    assert forall|i: int| #![trigger s[i]] 0 < i < s.len() implies entry_le(s[parent(i)], s[i]) by {
                        if i == k {
                            assert(parent(i) == p);
                        }
                    }
                }
                break;
            }
            let ghost s = self.items@;
            swap_entries(&mut self.items, p, k);
            proof {
                lemma_swap_keeps_entries(s, p as int, k as int);
                let t = self.items@;
                assert(t =~= s.update(p as int, s[k as int]).update(k as int, s[p as int]));
                assert forall|i: int|
                    #![trigger t[i]]
                    0 < i < t.len() && i != p ==> entry_le(t[parent(i)], t[i]) by {
                    if 0 < i < t.len() && i != p {
                        if i == k {
                        } else if parent(i) == k {
                            assert(s[i] == t[i]);
                        } else if parent(i) == p {
                            assert(entry_le(s[p as int], s[i]));
                        } else {
                            assert(s[i] == t[i]);
                            assert(entry_le(s[parent(i)], s[i]));
                        }
                    }
                }
                if p > 0 {
                    assert forall|c: int|
                        #![trigger t[c]]
                        0 < c < t.len() && parent(c) == p implies entry_le(
                            t[parent(p as int)],
                            t[c],
                        ) by {
                        assert(entry_le(s[parent(p as int)], s[p as int]));
                        if c != k {
                            assert(entry_le(s[p as int], s[c]));
                        }
                    }
                }
            }
            k = p;
        }
    }

    /// Removes and returns the entry that comes out first.
    pub fn pop(&mut self) -> (r: QueueEntry)
        requires
            old(self).wf(),
            old(self)@.len() > 0,
        ensures
            final(self).wf(),
            r == old(self)@[0],
            final(self)@.len() == old(self)@.len() - 1,
            forall|x: QueueEntry| #[trigger] final(self)@.contains(x) ==> old(self)@.contains(x),
            forall|x: QueueEntry|
                #[trigger] old(self)@.contains(x) && x != r ==> final(self)@.contains(x),
    {
        let ghost s0 = self.items@;
        let n = self.items.len();
        let top = self.items[0];
        swap_entries(&mut self.items, 0, n - 1);
        proof {
            lemma_swap_keeps_entries(s0, 0, n - 1);
        }
        let ghost s1 = self.items@;
        let last = self.items.pop();
        proof {
            assert(self.items@ =~= s1.drop_last());
            assert forall|x: QueueEntry|
                #[trigger] s0.contains(x) && x != top implies self.items@.contains(x) by {
                assert(s1.contains(x));
                let k = choose|k: int| 0 <= k < s1.len() && s1[k] == x;
                assert(k != n - 1);
                assert(self.items@[k] == x);
            }
            assert forall|x: QueueEntry| #[trigger] self.items@.contains(x) implies s0.contains(x) by {
                let k = choose|k: int| 0 <= k < self.items@.len() && self.items@[k] == x;
                assert(s1[k] == x);
                assert(s1.contains(x));
            }
        }
        let len = self.items.len();
        let mut k: usize = 0;
        while k < len
            invariant
                len == self.items@.len(),
                len == s0.len() - 1,
                forall|x: QueueEntry| #[trigger] self.items@.contains(x) ==> s0.contains(x),
                forall|x: QueueEntry|
                    #[trigger] s0.contains(x) && x != top ==> self.items@.contains(x),
                forall|i: int|
                    #![trigger self.items@[i]]
                    0 < i < len && parent(i) != k ==> entry_le(
                        self.items@[parent(i)],
                        self.items@[i],
                    ),
                k > 0 ==> forall|c: int|
                    #![trigger self.items@[c]]
                    0 < c < len && parent(c) == k ==> entry_le(
                        self.items@[parent(k as int)],
                        self.items@[c],
                    ),
            ensures
                len == self.items@.len(),
                forall|x: QueueEntry| #[trigger] self.items@.contains(x) ==> s0.contains(x),
                forall|x: QueueEntry|
                    #[trigger] s0.contains(x) && x != top ==> self.items@.contains(x),
                is_heap(self.items@),
            decreases len - k,
        {
            if k >= len / 2 {
                proof {
                    let s = self.items@;
                    assert forall|i: int| #![trigger s[i]] 0 < i < s.len() implies entry_le(s[parent(i)], s[i]) by {
                        if parent(i) == k {
                            assert(i >= 2 * k + 1);
                        }
                    }
                }
                break;
            }
            let l = 2 * k + 1;
            let rr = l + 1;
            let m = if rr < len && !entry_before(&self.items[l], &self.items[rr]) {
                rr
            } else {
                l
            };
            if entry_before(&self.items[k], &self.items[m]) {
                proof {
                    let s = self.items@;
                    assert forall|c: int|
                        #![trigger s[c]]
                        0 < c < len && parent(c) == k implies entry_le(s[k as int], s[c]) by {
                        assert(c == l || c == rr);
                    }
                    assert forall|i: int| #![trigger s[i]] 0 < i < s.len() implies entry_le(s[parent(i)], s[i]) by {
                        if parent(i) == k {
                            assert(i == l || i == rr);
                        }
                    }
                }
                break;
            }
            let ghost s = self.items@;
            swap_entries(&mut self.items, k, m);
            proof {
                lemma_swap_keeps_entries(s, k as int, m as int);
                let t = self.items@;
                assert(t =~= s.update(k as int, s[m as int]).update(m as int, s[k as int]));
                assert forall|i: int|
                    #![trigger t[i]]
                    0 < i < len && parent(i) != m ==> entry_le(t[parent(i)], t[i]) by {
                    if 0 < i < len && parent(i) != m {
                        if parent(i) == k {
                            assert(i == l || i == rr);
                        } else if i == k {
                        } else {
                            assert(s[i] == t[i]);
                            assert(entry_le(s[parent(i)], s[i]));
                        }
                    }
                }
                assert forall|c: int|
                    #![trigger t[c]]
                    0 < c < len && parent(c) == m implies entry_le(t[parent(m as int)], t[c]) by {
                    assert(entry_le(s[m as int], s[c]));
                }
            }
            k = m;
        }
        top
    }
}

} // verus!
