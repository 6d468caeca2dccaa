use vstd::prelude::*;

use crate::event::TimedEvent;
use vstd::multiset::Multiset;

verus! {

broadcast use vstd::seq_lib::group_to_multiset_ensures;

/// One slot of the deadline queue: an event and whether it still stands for
/// the current registration of its id. A superseded slot stays in the queue
/// until it reaches the front, where it is discarded.
#[derive(Clone, Copy)]
pub struct Entry<P> {
    pub live: bool,
    pub event: TimedEvent<P>,
}

/// Index of the parent of slot `i` in the implicit binary tree.
pub open spec fn parent(i: int) -> int {
    (i - 1) / 2
}

/// Every slot is due no earlier than its parent: the binary-heap order.
pub open spec fn heap_ordered<P>(s: Seq<Entry<P>>) -> bool {
    forall|i: int| 0 < i < s.len() ==> s[parent(i)].event.deadline <= #[trigger] s[i].event.deadline
}

/// The heap order holds at every slot but `k`.
pub open spec fn ordered_except<P>(s: Seq<Entry<P>>, k: int) -> bool {
    forall|i: int|
        0 < i < s.len() && i != k ==> s[parent(i)].event.deadline <= #[trigger] s[i].event.deadline
}

/// The heap order holds at every slot whose parent is not `k`.
pub open spec fn ordered_below_except<P>(s: Seq<Entry<P>>, k: int) -> bool {
    forall|i: int|
        0 < i < s.len() && parent(i) != k ==> s[parent(i)].event.deadline
            <= #[trigger] s[i].event.deadline
}

/// The children of `k` are due no earlier than the parent of `k`.
pub open spec fn bridged<P>(s: Seq<Entry<P>>, k: int) -> bool {
    forall|i: int|
        0 < i < s.len() && parent(i) == k && k > 0 ==> s[parent(k)].event.deadline
            <= #[trigger] s[i].event.deadline
}

/// `s` with slots `i` and `j` exchanged.
pub open spec fn swapped<A>(s: Seq<A>, i: int, j: int) -> Seq<A> {
    s.update(i, s[j]).update(j, s[i])
}

/// The root of a heap-ordered sequence is due no later than any slot.
pub proof fn lemma_root_is_min<P>(s: Seq<Entry<P>>, j: int)
    requires
        heap_ordered(s),
        0 <= j < s.len(),
    ensures
        s[0].event.deadline <= s[j].event.deadline,
    decreases j,
{
    if j > 0 {
        assert(s[parent(j)].event.deadline <= s[j].event.deadline);
        lemma_root_is_min(s, parent(j));
    }
}

/// One step of sifting up: exchanging slot `k` with its later-due parent
/// moves the single break in the heap order one level up.
pub proof fn lemma_sift_up_step<P>(s: Seq<Entry<P>>, k: int)
    requires
        0 < k < s.len(),
        s[parent(k)].event.deadline > s[k].event.deadline,
        ordered_except(s, k),
        bridged(s, k),
    ensures
        ordered_except(swapped(s, k, parent(k)), parent(k)),
        bridged(swapped(s, k, parent(k)), parent(k)),
{
    let p = parent(k);
    let t = swapped(s, k, p);
    assert(t[p] == s[k] && t[k] == s[p]);
    assert forall|i: int| 0 < i < t.len() && i != p implies t[parent(i)].event.deadline
        <= #[trigger] t[i].event.deadline by {
        if i == k {
        } else if parent(i) == k {
            assert(s[parent(k)].event.deadline <= s[i].event.deadline);
        } else if parent(i) == p {
            assert(s[parent(i)].event.deadline <= s[i].event.deadline);
        } else {
            assert(s[parent(i)].event.deadline <= s[i].event.deadline);
        }
    }
    assert forall|i: int| 0 < i < t.len() && parent(i) == p && p > 0 implies t[parent(
        p,
    )].event.deadline <= #[trigger] t[i].event.deadline by {
        assert(s[parent(p)].event.deadline <= s[p].event.deadline);
        if i != k {
            assert(s[parent(i)].event.deadline <= s[i].event.deadline);
        }
    }
}

/// One step of sifting down: exchanging slot `k` with its earlier-due child
/// `c`, the earlier of its children, moves the break one level down.
pub proof fn lemma_sift_down_step<P>(s: Seq<Entry<P>>, k: int, c: int)
    requires
        0 <= k < c < s.len(),
        parent(c) == k,
        s[c].event.deadline < s[k].event.deadline,
        forall|o: int| 0 < o < s.len() && parent(o) == k ==> s[c].event.deadline <= #[trigger] s[o].event.deadline,
        ordered_below_except(s, k),
        bridged(s, k),
    ensures
        ordered_below_except(swapped(s, k, c), c),
        bridged(swapped(s, k, c), c),
{
    let t = swapped(s, k, c);
    assert(t[k] == s[c] && t[c] == s[k]);
    assert forall|i: int| 0 < i < t.len() && parent(i) != c implies t[parent(i)].event.deadline
        <= #[trigger] t[i].event.deadline by {
        if i == c {
        } else if i == k {
            assert(s[parent(k)].event.deadline <= s[c].event.deadline);
        } else if parent(i) == k {
            assert(s[c].event.deadline <= s[i].event.deadline);
        } else {
            assert(s[parent(i)].event.deadline <= s[i].event.deadline);
        }
    }
    assert forall|i: int| 0 < i < t.len() && parent(i) == c && c > 0 implies t[parent(
        c,
    )].event.deadline <= #[trigger] t[i].event.deadline by {
        assert(s[parent(i)].event.deadline <= s[i].event.deadline);
    }
}

/// Replacing one slot replaces one element of the multiset.
pub proof fn lemma_update_to_multiset<A>(s: Seq<A>, i: int, x: A)
    requires
        0 <= i < s.len(),
    ensures
        s.update(i, x).to_multiset() == s.to_multiset().remove(s[i]).insert(x),
{
    assert(s.update(i, x) =~= s.remove(i).insert(i, x));
}

/// Exchanging two slots leaves the multiset unchanged.
pub proof fn lemma_swap_to_multiset<A>(s: Seq<A>, i: int, j: int)
    requires
        0 <= i < s.len(),
        0 <= j < s.len(),
    ensures
        s.update(i, s[j]).update(j, s[i]).to_multiset() == s.to_multiset(),
{
    broadcast use vstd::multiset::group_multiset_axioms;
    let s1 = s.update(i, s[j]);
    lemma_update_to_multiset(s, i, s[j]);
    lemma_update_to_multiset(s1, j, s[i]);
    if i != j {
        assert(s1[j] == s[j]);
        assert(s.to_multiset().count(s[i]) > 0);
        assert(s.to_multiset().remove(s[i]).insert(s[j]).remove(s[j]).insert(s[i])
            =~= s.to_multiset());
    } else {
        assert(s.update(i, s[j]).update(j, s[i]) =~= s);
    }
}

/// A min-queue of entries ordered by deadline, kept as a binary heap in a
/// vector.
pub struct DeadlineQueue<P> {
    items: Vec<Entry<P>>,
}

impl<P: Copy> View for DeadlineQueue<P> {
    type V = Seq<Entry<P>>;

    closed spec fn view(&self) -> Seq<Entry<P>> {
        self.items@
    }
}

impl<P: Copy> DeadlineQueue<P> {
    /// The heap order holds.
    pub closed spec fn wf(&self) -> bool {
        heap_ordered(self.items@)
    }

    /// The entries in the queue, in no particular order.
    pub open spec fn contents(&self) -> Multiset<Entry<P>> {
        self@.to_multiset()
    }

    pub fn new() -> (q: Self)
        ensures
            q.wf(),
            q@ == Seq::<Entry<P>>::empty(),
    {
        DeadlineQueue { items: Vec::new() }
    }

    pub fn len(&self) -> (n: usize)
        ensures
            n == self@.len(),
    {
        self.items.len()
    }

    /// The entry in slot `i`.
    pub fn entry(&self, i: usize) -> (e: Entry<P>)
        requires
            i < self@.len(),
        ensures
            e == self@[i as int],
    {
        self.items[i]
    }

    /// The earliest deadline in the queue.
    pub fn min_deadline(&self) -> (d: u64)
        requires
            self.wf(),
            self@.len() > 0,
        ensures
            self.contents().contains(self@[0]),
            d == self@[0].event.deadline,
            forall|e: Entry<P>| self.contents().contains(e) ==> d <= e.event.deadline,
    {
        proof {
            assert forall|e: Entry<P>| self.contents().contains(e) implies self@[0].event.deadline
                <= e.event.deadline by {
                let j = choose|j: int| 0 <= j < self@.len() && self@[j] == e;
                lemma_root_is_min(self@, j);
            }
        }
        self.items[0].event.deadline
    }

    /// Marks the entry in slot `i` as superseded.
    pub fn retire(&mut self, i: usize)
        requires
            old(self).wf(),
            i < old(self)@.len(),
        ensures
            final(self).wf(),
            final(self)@ == old(self)@.update(
                i as int,
                Entry { live: false, event: old(self)@[i as int].event },
            ),
    {
        let ghost s = self@;
        let ev = self.items[i].event;
        self.items.set(i, Entry { live: false, event: ev });
        assert forall|j: int| 0 < j < self@.len() implies self@[parent(j)].event.deadline
            <= #[trigger] self@[j].event.deadline by {
            assert(s[parent(j)].event.deadline <= s[j].event.deadline);
        }
    }

    /// Replaces the event in slot `i` by `ev`, which is due at the same time.
    pub fn replace_event(&mut self, i: usize, ev: TimedEvent<P>)
        requires
            old(self).wf(),
            i < old(self)@.len(),
            ev.deadline == old(self)@[i as int].event.deadline,
        ensures
            final(self).wf(),
            final(self)@ == old(self)@.update(
                i as int,
                Entry { live: old(self)@[i as int].live, event: ev },
            ),
    {
        let ghost s = self@;
        let live = self.items[i].live;
        self.items.set(i, Entry { live, event: ev });
        assert forall|j: int| 0 < j < self@.len() implies self@[parent(j)].event.deadline
            <= #[trigger] self@[j].event.deadline by {
            assert(s[parent(j)].event.deadline <= s[j].event.deadline);
        }
    }

    fn swap(&mut self, i: usize, j: usize)
        requires
            i < old(self)@.len(),
            j < old(self)@.len(),
        ensures
            final(self)@ == swapped(old(self)@, i as int, j as int),
            final(self).contents() == old(self).contents(),
    {
        proof {
            lemma_swap_to_multiset(self@, i as int, j as int);
        }
        let a = self.items[i];
        let b = self.items[j];
        self.items.set(i, b);
        self.items.set(j, a);
    }

    /// Adds an entry.
    pub fn push(&mut self, x: Entry<P>)
        requires
            old(self).wf(),
        ensures
            final(self).wf(),
            final(self).contents() == old(self).contents().insert(x),
            final(self)@.len() == old(self)@.len() + 1,
    {
        let ghost s0 = self@;
        let ghost m = self@.push(x).to_multiset();
        self.items.push(x);
        let mut k: usize = self.items.len() - 1;
        assert forall|i: int| 0 < i < self@.len() && i != k implies self@[parent(i)].event.deadline
            <= #[trigger] self@[i].event.deadline by {
            assert(s0[parent(i)].event.deadline <= s0[i].event.deadline);
        }
        while k > 0
            invariant
                0 <= k < self@.len(),
                self@.len() == s0.len() + 1,
                self.contents() == m,
                ordered_except(self@, k as int),
                bridged(self@, k as int),
            ensures
                heap_ordered(self@),
                self.contents() == m,
                self@.len() == s0.len() + 1,
            decreases k,
        {
            let p = (k - 1) / 2;
            if self.items[p].event.deadline <= self.items[k].event.deadline {
                break;
            }
            proof {
                lemma_sift_up_step(self@, k as int);
            }
            self.swap(k, p);
            k = p;
        }
    }

    /// Removes and returns an entry due no later than any other.
    pub fn pop_min(&mut self) -> (r: Entry<P>)
        requires
            old(self).wf(),
            old(self)@.len() > 0,
        ensures
            final(self).wf(),
            old(self).contents().contains(r),
            forall|e: Entry<P>|
                old(self).contents().contains(e) ==> r.event.deadline <= e.event.deadline,
            final(self).contents() == old(self).contents().remove(r),
            final(self)@.len() == old(self)@.len() - 1,
    {
        let _ = self.min_deadline();
        let r = self.items[0];
        let ghost s0 = self@;
        let ghost m = old(self).contents().remove(r);
        let last = self.items.pop().unwrap();
        proof {
            assert(s0 =~= self@.push(last));
        }
        if self.items.len() == 0 {
            assert(self.contents() =~= m) by {
                broadcast use vstd::multiset::group_multiset_axioms;
            }
            return last;
        }
        let ghost s1 = self@;
        proof {
            lemma_update_to_multiset(s1, 0, last);
            assert(s0.to_multiset() == s1.to_multiset().insert(last));
        }
        self.items.set(0, last);
        assert(self.contents() == m) by {
            broadcast use vstd::multiset::group_multiset_axioms;
            assert(self.contents() =~= m);
        }
        assert forall|i: int| 0 < i < self@.len() && parent(i) != 0 implies self@[parent(
            i,
        )].event.deadline <= #[trigger] self@[i].event.deadline by {
            assert(s0[parent(i)].event.deadline <= s0[i].event.deadline);
        }
        let n = self.items.len();
        let mut k: usize = 0;
        loop
            invariant
                0 <= k < self@.len(),
                self@.len() == n,
                self.contents() == m,
                ordered_below_except(self@, k as int),
                bridged(self@, k as int),
            ensures
                self.wf(),
                self.contents() == m,
                self@.len() == n,
            decreases n - k,
        {
            if k >= n / 2 {
                assert forall|i: int| 0 < i < self@.len() implies self@[parent(i)].event.deadline
                    <= #[trigger] self@[i].event.deadline by {
                    assert(parent(i) != k);
                }
                break;
            }
            let l = 2 * k + 1;
            let mut c = l;
            if l + 1 < n && self.items[l + 1].event.deadline < self.items[l].event.deadline {
                c = l + 1;
            }
            if self.items[k].event.deadline <= self.items[c].event.deadline {
                assert forall|i: int| 0 < i < self@.len() implies self@[parent(i)].event.deadline
                    <= #[trigger] self@[i].event.deadline by {
                    if parent(i) == k {
                        assert(i == l || i == l + 1);
                    }
                }
                break;
            }
            proof {
                assert forall|o: int| 0 < o < self@.len() && parent(o) == k implies self@[c as int].event.deadline
                    <= #[trigger] self@[o].event.deadline by {
                    assert(o == l || o == l + 1);
                }
                lemma_sift_down_step(self@, k as int, c as int);
            }
            self.swap(k, c);
            k = c;
        }
        r
    }
}

} // verus!
