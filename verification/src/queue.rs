//! A fixed-capacity circular buffer with strict first-in-first-out eviction.

use vstd::prelude::*;

verus! {

/// What one push does to the stored items `v` of a queue of capacity `cap`:
/// the new view and the evicted item, if any.
pub open spec fn queue_step<T>(cap: nat, v: Seq<T>, x: T) -> (Seq<T>, Option<T>) {
    if v.len() < cap {
        (v.push(x), None)
    } else {
        (v.subrange(1, v.len() as int).push(x), Some(v[0]))
    }
}

/// The stored items after pushing `xs`, in order, into an empty queue of
/// capacity `cap`.
pub open spec fn queue_run<T>(cap: nat, xs: Seq<T>) -> Seq<T>
    decreases xs.len(),
{
    if xs.len() == 0 {
        Seq::empty()
    } else {
        queue_step(cap, queue_run(cap, xs.drop_last()), xs.last()).0
    }
}

/// What the `i`-th push returns when `xs` is pushed, in order, into an empty
/// queue of capacity `cap`.
pub open spec fn queue_evicted_at<T>(cap: nat, xs: Seq<T>, i: int) -> Option<T> {
    queue_step(cap, queue_run(cap, xs.take(i)), xs[i]).1
}

/// A queue of capacity `cap` holds the last `cap` items pushed, in insertion
/// order.
pub proof fn lemma_queue_run_is_suffix<T>(cap: nat, xs: Seq<T>)
    requires
        cap >= 1,
    ensures
        queue_run(cap, xs) =~= xs.subrange(
            if xs.len() <= cap {
                0
            } else {
                xs.len() - cap
            },
            xs.len() as int,
        ),
    decreases xs.len(),
{
    if xs.len() > 0 {
        lemma_queue_run_is_suffix(cap, xs.drop_last());
        let prev = queue_run(cap, xs.drop_last());
        if prev.len() < cap {
            assert(queue_run(cap, xs) =~= prev.push(xs.last()));
        } else {
            assert(queue_run(cap, xs) =~= prev.subrange(1, prev.len() as int).push(xs.last()));
        }
    }
}

/// First-in-first-out eviction: when `xs` is pushed, in order, into an empty
/// queue of capacity `cap`, the first `cap` pushes evict nothing, and every
/// later push evicts exactly one item, in original insertion order — the
/// `i`-th push returns the value of the `(i - cap)`-th push.
pub proof fn lemma_queue_fifo<T>(cap: nat, xs: Seq<T>, i: int)
    requires
        cap >= 1,
        0 <= i < xs.len(),
    ensures
        queue_evicted_at(cap, xs, i) == if i < cap {
            None::<T>
        } else {
            Some(xs[i - cap])
        },
{
    lemma_queue_run_is_suffix(cap, xs.take(i));
}

/// A fixed-capacity circular buffer of size `cap` (at least one), indexed by
/// a rotating head pointer. Pushing into a full queue evicts and returns the
/// oldest stored item.
pub struct LimitedQueue<T> {
    buf: Vec<T>,
    head: usize,
    cap: usize,
}

impl<T> View for LimitedQueue<T> {
    type V = Seq<T>;

    /// The stored items, oldest first.
    closed spec fn view(&self) -> Seq<T> {
        if self.buf@.len() < self.cap {
            self.buf@
        } else {
            self.buf@.subrange(self.head as int, self.buf@.len() as int) + self.buf@.subrange(
                0,
                self.head as int,
            )
        }
    }
}

impl<T> LimitedQueue<T> {
    /// The fixed capacity the queue was created with.
    pub closed spec fn capacity(&self) -> nat {
        self.cap as nat
    }

    /// Structural invariant: the buffer never outgrows the capacity and the
    /// head pointer rotates only once the buffer is full.
    pub closed spec fn wf(&self) -> bool {
        &&& self.cap >= 1
        &&& self.buf@.len() <= self.cap
        &&& self.buf@.len() < self.cap ==> self.head == 0
        &&& self.buf@.len() == self.cap ==> self.head < self.buf@.len()
    }

    /// A well-formed queue never stores more than its capacity.
    pub proof fn lemma_len_within_capacity(&self)
        requires
            self.wf(),
        ensures
            self@.len() <= self.capacity(),
    {
    }

    /// An empty queue of capacity `cap`.
    pub fn new(cap: usize) -> (r: Self)
        requires
            cap >= 1,
        ensures
            r.wf(),
            r@ =~= Seq::<T>::empty(),
            r.capacity() == cap,
    {
        LimitedQueue { buf: Vec::new(), head: 0, cap }
    }

    /// Pushes `x`; while a slot is unfilled nothing is returned, and once the
    /// queue is full the oldest stored item is evicted and returned.
    pub fn push(&mut self, x: T) -> (evicted: Option<T>)
        requires
            old(self).wf(),
        ensures
            final(self).wf(),
            final(self).capacity() == old(self).capacity(),
            (final(self)@, evicted) == queue_step(old(self).capacity(), old(self)@, x),
    {
        if self.buf.len() < self.cap {
            self.buf.push(x);
            proof {
                assert(final(self)@ =~= old(self)@.push(x));
            }
            None
        } else {
            let oldest = self.buf.remove(self.head);
            self.buf.insert(self.head, x);
            proof {
                assert(self.buf@ =~= old(self).buf@.update(old(self).head as int, x));
            }
            let ghost mid = *self;
            self.head = if self.head + 1 == self.cap {
                0
            } else {
                self.head + 1
            };
            proof {
                assert(final(self)@ =~= old(self)@.subrange(1, old(self)@.len() as int).push(x));
                assert(old(self)@[0] == old(self).buf@[old(self).head as int]);
            }
            Some(oldest)
        }
    }
}

/// Model of one channel's queue: its fixed capacity and its stored message
/// identifiers, oldest first.
#[verifier::ext_equal]
pub ghost struct QueueModel {
    pub cap: nat,
    pub items: Seq<u64>,
}

/// The shared state of the in-memory history window: a mapping from channel
/// to that channel's bounded queue of message identifiers.
pub struct ChannelQueues {
    entries: Vec<(u64, LimitedQueue<u64>)>,
}

/// The mapping a sequence of channel-queue pairs denotes.
pub open spec fn queues_map(s: Seq<(u64, LimitedQueue<u64>)>) -> Map<u64, QueueModel>
    decreases s.len(),
{
    if s.len() == 0 {
        Map::empty()
    } else {
        queues_map(s.drop_last()).insert(
            s.last().0,
            QueueModel { cap: s.last().1.capacity(), items: s.last().1@ },
        )
    }
}

/// Whether a sequence of channel-queue pairs has pairwise distinct channels.
pub open spec fn queues_keys_unique(s: Seq<(u64, LimitedQueue<u64>)>) -> bool {
    forall|i: int, j: int| 0 <= i < j < s.len() ==> s[i].0 != s[j].0
}

proof fn lemma_queues_map_props(s: Seq<(u64, LimitedQueue<u64>)>)
    requires
        queues_keys_unique(s),
    ensures
        forall|c: u64|
            #[trigger] queues_map(s).contains_key(c) <==> exists|i: int|
                0 <= i < s.len() && s[i].0 == c,
        forall|i: int|
            0 <= i < s.len() ==> queues_map(s).contains_key(#[trigger] s[i].0) && queues_map(
                s,
            )[s[i].0] == (QueueModel { cap: s[i].1.capacity(), items: s[i].1@ }),
    decreases s.len(),
{
    if s.len() > 0 {
        lemma_queues_map_props(s.drop_last());
        assert forall|i: int| 0 <= i < s.len() implies queues_map(s).contains_key(
            #[trigger] s[i].0,
        ) && queues_map(s)[s[i].0] == (QueueModel {
            cap: s[i].1.capacity(),
            items: s[i].1@,
        }) by {
            if i < s.len() - 1 {
                assert(s.drop_last()[i] == s[i]);
                assert(s[i].0 != s.last().0);
            }
        }
        assert forall|c: u64| #[trigger] queues_map(s).contains_key(c) implies exists|i: int|
            0 <= i < s.len() && s[i].0 == c by {
            if c != s.last().0 {
                assert(queues_map(s.drop_last()).contains_key(c));
                let i = choose|i: int| 0 <= i < s.drop_last().len() && s.drop_last()[i].0 == c;
                assert(s.drop_last()[i] == s[i]);
                assert(s[i].0 == c);
            } else {
                assert(s[s.len() - 1].0 == c);
            }
        }
        assert forall|c: u64| (exists|i: int| 0 <= i < s.len() && s[i].0 == c)
            implies #[trigger] queues_map(s).contains_key(c) by {
            let i = choose|i: int| 0 <= i < s.len() && s[i].0 == c;
            if i < s.len() - 1 {
                assert(s.drop_last()[i].0 == c);
            }
        }
    }
}

proof fn lemma_queues_map_remove(s: Seq<(u64, LimitedQueue<u64>)>, i: int)
    requires
        queues_keys_unique(s),
        0 <= i < s.len(),
    ensures
        queues_map(s.remove(i)) == queues_map(s).remove(s[i].0),
    decreases s.len(),
{
    lemma_queues_map_props(s);
    if i == s.len() - 1 {
        assert(s.remove(i) =~= s.drop_last());
        lemma_queues_map_props(s.drop_last());
        assert(!queues_map(s.drop_last()).contains_key(s[i].0));
        assert(queues_map(s.drop_last()) =~= queues_map(s).remove(s[i].0));
    } else {
        let t = s.drop_last();
        lemma_queues_map_remove(t, i);
        assert(s.remove(i).drop_last() =~= t.remove(i));
        assert(s.remove(i).last() == s.last());
        assert(queues_map(s.remove(i)) == queues_map(t.remove(i)).insert(
            s.last().0,
            QueueModel { cap: s.last().1.capacity(), items: s.last().1@ },
        ));
        assert(queues_map(t.remove(i)).insert(
            s.last().0,
            QueueModel { cap: s.last().1.capacity(), items: s.last().1@ },
        ) =~= queues_map(s).remove(s[i].0));
    }
}

impl View for ChannelQueues {
    type V = Map<u64, QueueModel>;

    closed spec fn view(&self) -> Map<u64, QueueModel> {
        queues_map(self.entries@)
    }
}

impl ChannelQueues {
    /// Structural invariant: each channel appears at most once and every
    /// queue is well formed.
    pub closed spec fn wf(&self) -> bool {
        &&& queues_keys_unique(self.entries@)
        &&& forall|i: int| 0 <= i < self.entries@.len() ==> (#[trigger] self.entries@[i].1).wf()
    }

    /// A mapping with no channel configured.
    pub fn new() -> (r: Self)
        ensures
            r.wf(),
            r@ =~= Map::<u64, QueueModel>::empty(),
    {
        ChannelQueues { entries: Vec::new() }
    }

    /// Pushes a message identifier into the queue of its channel. Returns
    /// nothing when the channel has no queue; otherwise returns what the push
    /// evicted, if anything.
    pub fn push_message(&mut self, channel_id: u64, message_id: u64) -> (r: Option<Option<u64>>)
        requires
            old(self).wf(),
        ensures
            final(self).wf(),
            match r {
                None => !old(self)@.contains_key(channel_id) && final(self)@ == old(self)@,
                Some(evicted) => {
                    &&& old(self)@.contains_key(channel_id)
                    &&& ({
                        let m = old(self)@[channel_id];
                        let st = queue_step(m.cap, m.items, message_id);
                        evicted == st.1 && final(self)@ == old(self)@.insert(
                            channel_id,
                            QueueModel { cap: m.cap, items: st.0 },
                        )
                    })
                },
            },
    {
        let ghost orig = self.entries@;
        proof {
            lemma_queues_map_props(orig);
        }
        let mut i: usize = 0;
        while i < self.entries.len()
            invariant
                i <= orig.len(),
                *self == *old(self),
                orig == old(self).entries@,
                old(self).wf(),
                forall|j: int| 0 <= j < i ==> orig[j].0 != channel_id,
            decreases orig.len() - i,
        {
            if self.entries[i].0 == channel_id {
                proof {
                    lemma_queues_map_props(orig);
                    lemma_queues_map_remove(orig, i as int);
                }
                let entry = self.entries.remove(i);
                let c = entry.0;
                let mut q = entry.1;
                let evicted = q.push(message_id);
                self.entries.push((c, q));
                proof {
                    let pruned = orig.remove(i as int);
                    assert(self.entries@.drop_last() =~= pruned);
                    assert(queues_map(self.entries@) =~= queues_map(orig).insert(
                        channel_id,
                        QueueModel { cap: q.capacity(), items: q@ },
                    ));
                    assert forall|a: int, b: int|
                        0 <= a < b < self.entries@.len() implies self.entries@[a].0
                        != self.entries@[b].0 by {
                        if b < self.entries@.len() - 1 {
                            assert(self.entries@[a] == pruned[a]);
                            assert(self.entries@[b] == pruned[b]);
                        } else {
                            assert(self.entries@[a] == pruned[a]);
                            if a < i {
                                assert(pruned[a] == orig[a]);
                            } else {
                                assert(pruned[a] == orig[a + 1]);
                            }
                        }
                    }
                    assert forall|j: int|
                        0 <= j < self.entries@.len() implies (
                        #[trigger] self.entries@[j].1).wf() by {
                        if j < self.entries@.len() - 1 {
                            assert(self.entries@[j] == pruned[j]);
                            if j < i {
                                assert(pruned[j] == orig[j]);
                            } else {
                                assert(pruned[j] == orig[j + 1]);
                            }
                        }
                    }
                }
                return Some(evicted);
            }
            i = i + 1;
        }
        proof {
            lemma_queues_map_props(orig);
            if queues_map(orig).contains_key(channel_id) {
                let k = choose|k: int| 0 <= k < orig.len() && orig[k].0 == channel_id;
                assert(false);
            }
        }
        None
    }

    /// Installs a fresh, empty queue of capacity `cap` for a channel,
    /// replacing any prior queue: switching window size forgets prior
    /// history state.
    pub fn install(&mut self, channel_id: u64, cap: usize)
        requires
            old(self).wf(),
            cap >= 1,
        ensures
            final(self).wf(),
            final(self)@ == old(self)@.insert(
                channel_id,
                QueueModel { cap: cap as nat, items: Seq::<u64>::empty() },
            ),
    {
        let ghost orig = self.entries@;
        let mut i: usize = 0;
        while i < self.entries.len()
            invariant
                i <= orig.len(),
                *self == *old(self),
                orig == old(self).entries@,
                old(self).wf(),
                cap >= 1,
                forall|j: int| 0 <= j < i ==> orig[j].0 != channel_id,
            decreases orig.len() - i,
        {
            if self.entries[i].0 == channel_id {
                proof {
                    lemma_queues_map_remove(orig, i as int);
                }
                let _ = self.entries.remove(i);
                let q: LimitedQueue<u64> = LimitedQueue::new(cap);
                self.entries.push((channel_id, q));
                proof {
                    let pruned = orig.remove(i as int);
                    assert(self.entries@.drop_last() =~= pruned);
                    assert(queues_map(self.entries@) =~= queues_map(orig).insert(
                        channel_id,
                        QueueModel { cap: cap as nat, items: Seq::<u64>::empty() },
                    ));
                    assert forall|a: int, b: int|
                        0 <= a < b < self.entries@.len() implies self.entries@[a].0
                        != self.entries@[b].0 by {
                        if b < self.entries@.len() - 1 {
                            assert(self.entries@[a] == pruned[a]);
                            assert(self.entries@[b] == pruned[b]);
                        } else {
                            assert(self.entries@[a] == pruned[a]);
                            if a < i {
                                assert(pruned[a] == orig[a]);
                            } else {
                                assert(pruned[a] == orig[a + 1]);
                            }
                        }
                    }
                    assert forall|j: int|
                        0 <= j < self.entries@.len() implies (
                        #[trigger] self.entries@[j].1).wf() by {
                        if j < self.entries@.len() - 1 {
                            assert(self.entries@[j] == pruned[j]);
                            if j < i {
                                assert(pruned[j] == orig[j]);
                            } else {
                                assert(pruned[j] == orig[j + 1]);
                            }
                        }
                    }
                }
                return ;
            }
            i = i + 1;
        }
        let q: LimitedQueue<u64> = LimitedQueue::new(cap);
        self.entries.push((channel_id, q));
        proof {
            assert(self.entries@.drop_last() =~= orig);
            assert(queues_map(self.entries@) == queues_map(orig).insert(
                channel_id,
                QueueModel { cap: cap as nat, items: Seq::<u64>::empty() },
            ));
            assert forall|a: int, b: int|
                0 <= a < b < self.entries@.len() implies self.entries@[a].0
                != self.entries@[b].0 by {
                if b == self.entries@.len() - 1 {
                    assert(self.entries@[a] == orig[a]);
                } else {
                    assert(self.entries@[a] == orig[a]);
                    assert(self.entries@[b] == orig[b]);
                }
            }
            assert forall|j: int|
                0 <= j < self.entries@.len() implies (#[trigger] self.entries@[j].1).wf() by {
                if j < self.entries@.len() - 1 {
                    assert(self.entries@[j] == orig[j]);
                }
            }
        }
    }
}

} // verus!
