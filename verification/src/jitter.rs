//! Per-stream reorder buffer with a playout deadline.
//!
//! Packets are held by sequence number. Popping releases every packet that
//! is next in line; when the packet next in line is missing, the buffer
//! jumps to its smallest held sequence number once that packet has waited
//! past the hold time or the buffer holds more packets than its depth.
//! Arrival times are kept in nanoseconds since the buffer was created, and
//! a packet's wait counts in whole milliseconds, as `Duration::as_millis`
//! counts it.

use std::collections::BTreeMap;
use crate::clock::Clock;
use vstd::prelude::*;

verus! {

broadcast use vstd::std_specs::btree::group_btree_axioms;

/// Whether `k` is the smallest key of `m`.
pub open spec fn is_min_key<V>(m: Map<u16, V>, k: u16) -> bool {
    m.contains_key(k) && forall|j: u16| #[trigger] m.contains_key(j) ==> k <= j
}

/// The smallest key of `m` (meaningful when `m` is finite and not empty).
pub open spec fn min_key<V>(m: Map<u16, V>) -> u16 {
    choose|k: u16| is_min_key(m, k)
}

/// A finite, non-empty map keyed by `u16` has a smallest key.
pub proof fn lemma_min_key_exists<V>(m: Map<u16, V>)
    requires
        m.dom().finite(),
        m.dom().len() > 0,
    ensures
        is_min_key(m, min_key(m)),
    decreases m.dom().len(),
{
    let x = m.dom().choose();
    let rest = m.remove(x);
    assert(rest.dom() =~= m.dom().remove(x));
    if rest.dom().len() == 0 {
        assert forall|j: u16| #[trigger] m.contains_key(j) implies x <= j by {
            if j != x {
                assert(rest.dom().contains(j));
            }
        }
        assert(is_min_key(m, x));
    } else {
        lemma_min_key_exists(rest);
        let y = min_key(rest);
        let k = if x <= y { x } else { y };
        assert forall|j: u16| #[trigger] m.contains_key(j) implies k <= j by {
            if j != x {
                assert(rest.contains_key(j));
            }
        }
        assert(is_min_key(m, k));
    }
}

fn first_key<V>(m: &BTreeMap<u16, V>) -> (r: Option<u16>)
    ensures
        match r {
            None => m@.dom().is_empty(),
            Some(k) => is_min_key(m@, k),
        },
{
    let keys = m.keys();
    proof {
        vstd::std_specs::btree::axiom_spec_keys_iter(m);
    }
    let ghost all = vstd::std_specs::iter::IteratorSpec::remaining(&keys).unref();
    assert(all.to_set() == m@.dom());
    let mut best: Option<u16> = None;
    for k in iter: keys
        invariant
            iter.seq().unref() == all,
            all.to_set() == m@.dom(),
            match best {
                None => iter.index() == 0,
                Some(b) => m@.contains_key(b) && forall|i: int| 0 <= i < iter.index() ==> b <= #[trigger] all[i],
            },
    {
        let ghost i = iter.index();
        assert(all[i] == *k);
        assert(all.to_set().contains(*k));
        match best {
            None => {
                best = Some(*k);
            },
            Some(b) => {
                if *k < b {
                    best = Some(*k);
                }
            },
        }
    }
    proof {
        match best {
            None => {
                assert forall|j: u16| !m@.dom().contains(j) by {
                    if m@.dom().contains(j) {
                        assert(all.contains(j));
                    }
                }
                assert(m@.dom() =~= Set::empty());
            },
            Some(b) => {
                assert forall|j: u16| #[trigger] m@.contains_key(j) implies b <= j by {
                    assert(all.to_set().contains(j));
                    assert(all.contains(j));
                    let idx = all.index_of(j);
                }
            },
        }
    }
    best
}


/// Time in ns that a packet stamped `stamp` has waited at time `now`
/// (zero when the stamp lies in the future).
pub open spec fn waited(stamp: u64, now: u64) -> u64 {
    if now >= stamp {
        (now - stamp) as u64
    } else {
        0
    }
}

/// Whether the buffer, missing its next packet, jumps ahead to its
/// smallest held sequence number: it holds packets, and it holds more than
/// `depth` of them or the smallest one has waited at least `hold_ms` whole
/// milliseconds.
pub open spec fn forces_skip(m: Map<u16, (Seq<u8>, u64)>, depth: nat, hold_ms: u64, now: u64) -> bool {
    m.dom().len() > 0 && (m.dom().len() > depth || waited(m[min_key(m)].1, now) / 1_000_000 >= hold_ms)
}

/// What popping the buffer `m` at time `now` gives, when `next` is the
/// sequence number next in line: the released payloads in order, the
/// packets left, and the new next sequence number.
pub open spec fn release(
    m: Map<u16, (Seq<u8>, u64)>,
    next: u16,
    depth: nat,
    hold_ms: u64,
    now: u64,
) -> (Seq<Seq<u8>>, Map<u16, (Seq<u8>, u64)>, u16)
    decreases m.dom().len(),
{
    if !m.dom().finite() {
        (Seq::empty(), m, next)
    } else if m.contains_key(next) {
        let r = release(m.remove(next), next.wrapping_add(1), depth, hold_ms, now);
        (seq![m[next].0] + r.0, r.1, r.2)
    } else if forces_skip(m, depth, hold_ms, now) {
        let k = min_key(m);
        proof {
            lemma_min_key_exists(m);
        }
        let r = release(m.remove(k), k.wrapping_add(1), depth, hold_ms, now);
        (seq![m[k].0] + r.0, r.1, r.2)
    } else {
        (Seq::empty(), m, next)
    }
}

/// Popping leaves the buffer settled: nothing is held at the next sequence
/// number, no jump ahead is due, and every released or remaining packet
/// comes from the buffer, each exactly once.
pub proof fn lemma_release_settles(
    m: Map<u16, (Seq<u8>, u64)>,
    next: u16,
    depth: nat,
    hold_ms: u64,
    now: u64,
)
    requires
        m.dom().finite(),
    ensures
        ({
            let (out, rest, n2) = release(m, next, depth, hold_ms, now);
            &&& !rest.contains_key(n2)
            &&& !forces_skip(rest, depth, hold_ms, now)
            &&& rest.dom().finite()
            &&& rest.submap_of(m)
            &&& out.len() + rest.dom().len() == m.dom().len()
        }),
    decreases m.dom().len(),
{
    if m.contains_key(next) {
        release_step(m, next);
        lemma_release_settles(m.remove(next), next.wrapping_add(1), depth, hold_ms, now);
        let r = release(m.remove(next), next.wrapping_add(1), depth, hold_ms, now);
        assert(r.1.submap_of(m.remove(next)));
        assert(r.1.submap_of(m)) by {
            assert forall|j: u16| #[trigger] r.1.contains_key(j) implies m.contains_key(j) && r.1[j] == m[j] by {
                assert(m.remove(next).contains_key(j));
            }
        }
    } else if forces_skip(m, depth, hold_ms, now) {
        lemma_min_key_exists(m);
        let k = min_key(m);
        release_step(m, k);
        lemma_release_settles(m.remove(k), k.wrapping_add(1), depth, hold_ms, now);
        let r = release(m.remove(k), k.wrapping_add(1), depth, hold_ms, now);
        assert(r.1.submap_of(m.remove(k)));
        assert(r.1.submap_of(m)) by {
            assert forall|j: u16| #[trigger] r.1.contains_key(j) implies m.contains_key(j) && r.1[j] == m[j] by {
                assert(m.remove(k).contains_key(j));
            }
        }
    }
}

/// Popping again at the same time releases nothing and changes nothing.
pub proof fn lemma_release_idempotent(
    m: Map<u16, (Seq<u8>, u64)>,
    next: u16,
    depth: nat,
    hold_ms: u64,
    now: u64,
)
    requires
        m.dom().finite(),
    ensures
        ({
            let (out, rest, n2) = release(m, next, depth, hold_ms, now);
            release(rest, n2, depth, hold_ms, now) == (Seq::<Seq<u8>>::empty(), rest, n2)
        }),
{
    lemma_release_settles(m, next, depth, hold_ms, now);
}

/// A packet that arrives while the one next in line is missing is held,
/// not released: popping releases nothing and changes nothing as long as
/// the buffer holds at most `depth` packets and every held packet,
/// the new one included, arrived less than `hold_ms` ms before `now`
/// (a positive hold time).
pub proof fn lemma_young_packets_held(
    m: Map<u16, (Seq<u8>, u64)>,
    next: u16,
    seq: u16,
    data: Seq<u8>,
    stamp: u64,
    depth: nat,
    hold_ms: u64,
    now: u64,
)
    requires
        m.dom().finite(),
        !m.contains_key(next),
        seq != next,
        hold_ms > 0,
        m.insert(seq, (data, stamp)).dom().len() <= depth,
        now < stamp + hold_ms * 1_000_000,
        forall|k: u16| #[trigger] m.contains_key(k) ==> now < m[k].1 + hold_ms * 1_000_000,
    ensures
        release(m.insert(seq, (data, stamp)), next, depth, hold_ms, now)
            == (Seq::<Seq<u8>>::empty(), m.insert(seq, (data, stamp)), next),
{
    let m2 = m.insert(seq, (data, stamp));
    assert(m2.dom().finite());
    assert(!m2.contains_key(next));
    if m2.dom().len() > 0 {
        lemma_min_key_exists(m2);
        let k = min_key(m2);
        let s = m2[k].1;
        assert(now < s + hold_ms * 1_000_000);
        assert(waited(s, now) < hold_ms * 1_000_000);
        assert(waited(s, now) / 1_000_000 < hold_ms);
    }
    assert(!forces_skip(m2, depth, hold_ms, now));
}

proof fn release_step(m: Map<u16, (Seq<u8>, u64)>, k: u16)
    requires
        m.dom().finite(),
        m.contains_key(k),
    ensures
        m.remove(k).dom().finite(),
        m.remove(k).dom().len() + 1 == m.dom().len(),
        forall|j: u16| #[trigger] m.remove(k).contains_key(j) ==> m.contains_key(j) && m.remove(k)[j] == m[j],
{
}

/// Reorder buffer of one stream.
pub struct JitterBuffer {
    buf: BTreeMap<u16, (Vec<u8>, u64)>,
    next_seq: u16,
    depth: usize,
    hold_ms: u64,
    clock: Clock,
}

impl JitterBuffer {
    /// Held packets: sequence number to payload and arrival time (ns since
    /// the buffer was created).
    pub closed spec fn entries(&self) -> Map<u16, (Seq<u8>, u64)> {
        self.buf@.map_values(|v: (Vec<u8>, u64)| (v.0@, v.1))
    }

    /// Sequence number next in line.
    pub closed spec fn next_expected(&self) -> u16 {
        self.next_seq
    }

    /// Largest number of packets held without forcing a jump ahead.
    pub closed spec fn depth_limit(&self) -> nat {
        self.depth as nat
    }

    /// Longest wait in ms before the smallest held packet forces a jump.
    pub closed spec fn hold_limit(&self) -> u64 {
        self.hold_ms
    }

    /// The readings taken so far from the clock that stamps and ages the
    /// held packets, oldest first.
    pub closed spec fn clock_readings(&self) -> Seq<u64> {
        self.clock.readings()
    }

    /// A buffer holds finitely many packets.
    pub proof fn lemma_entries_finite(&self)
        ensures
            self.entries().dom().finite(),
    {
        self.lemma_entries();
    }

    proof fn lemma_entries(&self)
        ensures
            self.entries().dom() == self.buf@.dom(),
            self.entries().dom().finite(),
            forall|k: u16| #[trigger] self.buf@.contains_key(k) ==> self.entries()[k] == (self.buf@[k].0@, self.buf@[k].1),
    {
        assert(self.entries().dom() =~= self.buf@.dom());
        assert(self.buf@.dom().finite());
    }

    /// An empty buffer expecting sequence number 0.
    pub fn new(depth: usize, hold_ms: u64) -> (r: Self)
        ensures
            r.entries() == Map::<u16, (Seq<u8>, u64)>::empty(),
            r.entries().dom().finite(),
            r.next_expected() == 0,
            r.depth_limit() == depth,
            r.hold_limit() == hold_ms,
            r.clock_readings() == Seq::<u64>::empty(),
    {
        let r = JitterBuffer { buf: BTreeMap::new(), next_seq: 0, depth, hold_ms, clock: Clock::start() };
        assert(r.entries() =~= Map::<u16, (Seq<u8>, u64)>::empty());
        r
    }

    /// Holds `data` under `seq`, stamped with arrival time `now_ns`,
    /// replacing any packet held under `seq`.
    pub fn push_at(&mut self, seq: u16, data: Vec<u8>, now_ns: u64)
        ensures
            final(self).entries() == old(self).entries().insert(seq, (data@, now_ns)),
            final(self).next_expected() == old(self).next_expected(),
            final(self).depth_limit() == old(self).depth_limit(),
            final(self).hold_limit() == old(self).hold_limit(),
            final(self).entries().dom().finite(),
            final(self).clock_readings() == old(self).clock_readings(),
    {
        self.buf.insert(seq, (data, now_ns));
        assert(self.entries() =~= old(self).entries().insert(seq, (data@, now_ns)));
        proof {
            self.lemma_entries();
        }
    }

    /// Holds `data` under `seq`, stamped with the current time: the
    /// buffer's clock is read once, and that reading is the stamp.
    pub fn push(&mut self, seq: u16, data: Vec<u8>)
        ensures
            exists|t: u64| final(self).entries() == old(self).entries().insert(seq, (data@, t)),
            final(self).next_expected() == old(self).next_expected(),
            final(self).depth_limit() == old(self).depth_limit(),
            final(self).hold_limit() == old(self).hold_limit(),
            final(self).entries().dom().finite(),
            final(self).clock_readings().len() == old(self).clock_readings().len() + 1,
            final(self).clock_readings().drop_last() == old(self).clock_readings(),
            final(self).entries() == old(self).entries().insert(seq, (data@, final(self).clock_readings().last())),
    {
        let now = self.clock.read();
        let ghost d = data@;
        self.push_at(seq, data, now);
        assert(self.entries() == old(self).entries().insert(seq, (d, now)));
    }

    /// Releases, in order, every packet that is next in line, jumping ahead
    /// to the smallest held sequence number whenever the next one is
    /// missing and the smallest held packet has waited `hold_ms` whole
    /// milliseconds (at time `now_ns`) or more than `depth` packets are held.
    pub fn pop_ready_at(&mut self, now_ns: u64) -> (r: Vec<Vec<u8>>)
        ensures
            ({
                let (out, rest, next) = release(old(self).entries(), old(self).next_expected(),
                    old(self).depth_limit(), old(self).hold_limit(), now_ns);
                &&& r.deep_view() == out
                &&& final(self).entries() == rest
                &&& final(self).next_expected() == next
            }),
            final(self).depth_limit() == old(self).depth_limit(),
            final(self).hold_limit() == old(self).hold_limit(),
            final(self).entries().dom().finite(),
            !final(self).entries().contains_key(final(self).next_expected()),
            !forces_skip(final(self).entries(), final(self).depth_limit(), final(self).hold_limit(), now_ns),
            final(self).clock_readings() == old(self).clock_readings(),
            final(self).entries().submap_of(old(self).entries()),
            r@.len() + final(self).entries().dom().len() == old(self).entries().dom().len(),
    {
        let ghost depth = self.depth as nat;
        let ghost hold = self.hold_ms;
        let ghost goal = release(self.entries(), self.next_seq, depth, hold, now_ns);
        proof {
            self.lemma_entries();
            lemma_release_settles(self.entries(), self.next_seq, depth, hold, now_ns);
        }
        let mut out: Vec<Vec<u8>> = Vec::new();
        loop
            invariant
                depth == self.depth,
                hold == self.hold_ms,
                self.depth == old(self).depth,
                self.hold_ms == old(self).hold_ms,
                self.clock.readings() == old(self).clock.readings(),
                self.entries().dom().finite(),
                goal == release(old(self).entries(), old(self).next_seq, depth, hold, now_ns),
                ({
                    let cur = release(self.entries(), self.next_seq, depth, hold, now_ns);
                    &&& goal.0 == out.deep_view() + cur.0
                    &&& goal.1 == cur.1
                    &&& goal.2 == cur.2
                }),
            ensures
                self.depth == old(self).depth,
                self.hold_ms == old(self).hold_ms,
                self.clock.readings() == old(self).clock.readings(),
                goal.0 == out.deep_view(),
                goal.1 == self.entries(),
                goal.2 == self.next_seq,
            decreases 2 * self.entries().dom().len() + if self.entries().contains_key(self.next_seq) {
                0int
            } else {
                1int
            },
        {
            let ghost m = self.entries();
            let ghost next = self.next_seq;
            proof {
                self.lemma_entries();
            }
            let key = self.next_seq;
            match self.buf.remove(&key) {
                Some((data, _)) => {
                    proof {
                        self.lemma_entries();
                        assert(m.contains_key(next));
                        assert(data@ == m[next].0);
                        assert(self.entries() =~= m.remove(next));
                        assert(data.deep_view() =~= data@);
                        release_step(m, next);
                    }
                    let ghost before = out.deep_view();
                    out.push(data);
                    assert(out.deep_view() =~= before.push(m[next].0));
                    self.next_seq = self.next_seq.wrapping_add(1);
                    proof {
                        let cur = release(m, next, depth, hold, now_ns);
                        let r = release(m.remove(next), next.wrapping_add(1), depth, hold, now_ns);
                        assert(cur.0 == seq![m[next].0] + r.0);
                        assert(goal.0 =~= out.deep_view() + r.0);
                    }
                    continue;
                },
                None => {
                    proof {
                        self.lemma_entries();
                    }
                    assert(self.entries() =~= m);
                    assert(!m.contains_key(next));
                },
            }
            match first_key(&self.buf) {
                Some(s) => {
                    proof {
                        lemma_min_key_exists(self.buf@);
                        assert(s == min_key(self.buf@));
                        assert(self.entries().dom() =~= self.buf@.dom());
                        assert(min_key(m) == s) by {
                            lemma_min_key_exists(m);
                            assert(is_min_key(m, s));
                            assert(is_min_key(m, min_key(m)));
                        }
                    }
                    let stamp = self.buf.get(&s).unwrap().1;
                    let waited_ms = now_ns.saturating_sub(stamp) / 1_000_000;
                    if self.buf.len() > self.depth || waited_ms >= self.hold_ms {
                        proof {
                            assert(forces_skip(m, depth, hold, now_ns));
                            lemma_min_key_exists(m);
                            release_step(m, s);
                        }
                        self.next_seq = s;
                        proof {
                            let cur = release(m, next, depth, hold, now_ns);
                            let r = release(m.remove(s), s.wrapping_add(1), depth, hold, now_ns);
                            assert(cur.0 == seq![m[s].0] + r.0);
                            let cur2 = release(m, s, depth, hold, now_ns);
                            assert(cur2.0 == seq![m[s].0] + r.0);
                        }
                    } else {
                        proof {
                            assert(!forces_skip(m, depth, hold, now_ns));
                            assert(goal.0 =~= out.deep_view() + Seq::<Seq<u8>>::empty());
                            assert(goal.0 =~= out.deep_view());
                        }
                        break;
                    }
                },
                None => {
                    proof {
                        assert(m.dom() =~= Set::<u16>::empty());
                        assert(!forces_skip(m, depth, hold, now_ns));
                        assert(goal.0 =~= out.deep_view() + Seq::<Seq<u8>>::empty());
                        assert(goal.0 =~= out.deep_view());
                    }
                    break;
                },
            }
        }
        out
    }

    /// Releases every packet that is ready at the current time, as
    /// `pop_ready_at` does at the reading of the buffer's clock taken by
    /// this call.
    pub fn pop_ready(&mut self) -> (r: Vec<Vec<u8>>)
        ensures
            exists|now: u64|
                #![trigger release(old(self).entries(), old(self).next_expected(), old(self).depth_limit(), old(self).hold_limit(), now)]
                {
                let (out, rest, next) = release(old(self).entries(), old(self).next_expected(),
                    old(self).depth_limit(), old(self).hold_limit(), now);
                &&& r.deep_view() == out
                &&& final(self).entries() == rest
                &&& final(self).next_expected() == next
                &&& !forces_skip(rest, old(self).depth_limit(), old(self).hold_limit(), now)
            },
            final(self).depth_limit() == old(self).depth_limit(),
            final(self).hold_limit() == old(self).hold_limit(),
            final(self).entries().dom().finite(),
            !final(self).entries().contains_key(final(self).next_expected()),
            final(self).entries().submap_of(old(self).entries()),
            r@.len() + final(self).entries().dom().len() == old(self).entries().dom().len(),
            final(self).clock_readings().len() == old(self).clock_readings().len() + 1,
            final(self).clock_readings().drop_last() == old(self).clock_readings(),
            ({
                let (out, rest, next) = release(old(self).entries(), old(self).next_expected(),
                    old(self).depth_limit(), old(self).hold_limit(), final(self).clock_readings().last());
                &&& r.deep_view() == out
                &&& final(self).entries() == rest
                &&& final(self).next_expected() == next
            }),
    {
        let now = self.clock.read();
        let r = self.pop_ready_at(now);
        assert(release(old(self).entries(), old(self).next_expected(), old(self).depth_limit(),
            old(self).hold_limit(), now).1 == self.entries());
        r
    }
}

} // verus!
