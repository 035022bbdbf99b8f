//! Counting connections and requests.
//!
//! Each count changes in exactly two places, where its object is acquired and
//! where it is released, so the two cannot drift apart.
use vstd::prelude::*;

use crate::encoding::NodeId;
use crate::stats::ConnectionEvent;

verus! {

/// Whether two keys are the same.
pub fn same_key(a: &NodeId, b: &NodeId) -> (r: bool)
    ensures
        r == (a.bytes@ == b.bytes@),
{
    let mut i: usize = 0;
    while i < 32
        invariant
            i <= 32,
            forall|j: int| 0 <= j < i ==> #[trigger] a.bytes@[j] == b.bytes@[j],
        decreases 32 - i,
    {
        if a.bytes[i] != b.bytes[i] {
            return false;
        }
        i = i + 1;
    }
    proof {
        assert(a.bytes@ =~= b.bytes@);
    }
    true
}

/// The number of live connections of each peer.
pub struct PeerCounts {
    entries: Vec<(NodeId, usize)>,
}

/// The count under a key.
pub open spec fn count_in(entries: Seq<(NodeId, usize)>, peer: Seq<u8>) -> nat
    decreases entries.len(),
{
    if entries.len() == 0 {
        0
    } else if entries.last().0.bytes@ == peer {
        entries.last().1 as nat
    } else {
        count_in(entries.drop_last(), peer)
    }
}

/// All counts together.
pub open spec fn sum_in(entries: Seq<(NodeId, usize)>) -> nat
    decreases entries.len(),
{
    if entries.len() == 0 {
        0
    } else {
        sum_in(entries.drop_last()) + entries.last().1 as nat
    }
}

/// No two entries have the same key, and none counts nothing.
pub open spec fn proper_entries(entries: Seq<(NodeId, usize)>) -> bool {
    &&& forall|i: int, j: int|
        0 <= i < j < entries.len() ==> (#[trigger] entries[i]).0.bytes@ != (
        #[trigger] entries[j]).0.bytes@
    &&& forall|i: int| 0 <= i < entries.len() ==> (#[trigger] entries[i]).1 > 0
}

proof fn count_at(entries: Seq<(NodeId, usize)>, i: int)
    requires
        proper_entries(entries),
        0 <= i < entries.len(),
    ensures
        count_in(entries, entries[i].0.bytes@) == entries[i].1,
    decreases entries.len(),
{
    if i < entries.len() - 1 {
        let init = entries.drop_last();
        assert(entries[i].0.bytes@ != entries[entries.len() - 1].0.bytes@);
        assert(proper_entries(init)) by {
            assert forall|a: int, b: int| 0 <= a < b < init.len() implies (
            #[trigger] init[a]).0.bytes@ != (#[trigger] init[b]).0.bytes@ by {
                assert(entries[a] == init[a] && entries[b] == init[b]);
            }
            assert forall|a: int| 0 <= a < init.len() implies (#[trigger] init[a]).1 > 0 by {
                assert(entries[a] == init[a]);
            }
        }
        count_at(init, i);
    }
}

proof fn count_absent(entries: Seq<(NodeId, usize)>, peer: Seq<u8>)
    requires
        forall|i: int| 0 <= i < entries.len() ==> (#[trigger] entries[i]).0.bytes@ != peer,
    ensures
        count_in(entries, peer) == 0,
    decreases entries.len(),
{
    if entries.len() > 0 {
        let init = entries.drop_last();
        assert forall|i: int| 0 <= i < init.len() implies (#[trigger] init[i]).0.bytes@ != peer by {
            assert(entries[i] == init[i]);
        }
        count_absent(init, peer);
        assert(entries[entries.len() - 1].0.bytes@ != peer);
    }
}

/// A new count under a key leaves the other keys as they are.
proof fn count_after_update(entries: Seq<(NodeId, usize)>, i: int, n: usize, peer: Seq<u8>)
    requires
        0 <= i < entries.len(),
        peer != entries[i].0.bytes@,
    ensures
        count_in(entries.update(i, (entries[i].0, n)), peer) == count_in(entries, peer),
    decreases entries.len(),
{
    let after = entries.update(i, (entries[i].0, n));
    if i < entries.len() - 1 {
        count_after_update(entries.drop_last(), i, n, peer);
        assert(after.drop_last() =~= entries.drop_last().update(i, (entries[i].0, n)));
    } else {
        assert(after.drop_last() =~= entries.drop_last());
    }
}

/// Taking a key out leaves the other keys as they are.
proof fn count_after_remove(entries: Seq<(NodeId, usize)>, i: int, peer: Seq<u8>)
    requires
        0 <= i < entries.len(),
        peer != entries[i].0.bytes@,
    ensures
        count_in(entries.remove(i), peer) == count_in(entries, peer),
    decreases entries.len(),
{
    if i < entries.len() - 1 {
        count_after_remove(entries.drop_last(), i, peer);
        assert(entries.remove(i).drop_last() =~= entries.drop_last().remove(i));
        assert(entries.remove(i).last() == entries.last());
    } else {
        assert(entries.remove(i) =~= entries.drop_last());
    }
}

proof fn sum_after_update(entries: Seq<(NodeId, usize)>, i: int, n: usize)
    requires
        0 <= i < entries.len(),
    ensures
        sum_in(entries.update(i, (entries[i].0, n))) == sum_in(entries) - entries[i].1 + n,
    decreases entries.len(),
{
    let after = entries.update(i, (entries[i].0, n));
    if i < entries.len() - 1 {
        sum_after_update(entries.drop_last(), i, n);
        assert(after.drop_last() =~= entries.drop_last().update(i, (entries[i].0, n)));
    } else {
        assert(after.drop_last() =~= entries.drop_last());
    }
}

proof fn sum_after_remove(entries: Seq<(NodeId, usize)>, i: int)
    requires
        0 <= i < entries.len(),
    ensures
        sum_in(entries.remove(i)) == sum_in(entries) - entries[i].1,
    decreases entries.len(),
{
    if i < entries.len() - 1 {
        sum_after_remove(entries.drop_last(), i);
        assert(entries.remove(i).drop_last() =~= entries.drop_last().remove(i));
        assert(entries.remove(i).last() == entries.last());
    } else {
        assert(entries.remove(i) =~= entries.drop_last());
    }
}

/// Adding a key leaves the other keys as they are.
proof fn count_after_push(entries: Seq<(NodeId, usize)>, peer: NodeId, n: usize, p: Seq<u8>)
    ensures
        count_in(entries.push((peer, n)), p) == if p == peer.bytes@ {
            n as nat
        } else {
            count_in(entries, p)
        },
{
    assert(entries.push((peer, n)).drop_last() =~= entries);
}

proof fn proper_after_update(entries: Seq<(NodeId, usize)>, i: int, n: usize)
    requires
        proper_entries(entries),
        0 <= i < entries.len(),
        n > 0,
    ensures
        proper_entries(entries.update(i, (entries[i].0, n))),
{
    let after = entries.update(i, (entries[i].0, n));
    assert forall|a: int, b: int| 0 <= a < b < after.len() implies (
    #[trigger] after[a]).0.bytes@ != (#[trigger] after[b]).0.bytes@ by {
        assert(after[a].0 == entries[a].0 && after[b].0 == entries[b].0);
    }
    assert forall|a: int| 0 <= a < after.len() implies (#[trigger] after[a]).1 > 0 by {
        assert(a != i ==> after[a] == entries[a]);
    }
}

proof fn proper_after_remove(entries: Seq<(NodeId, usize)>, i: int)
    requires
        proper_entries(entries),
        0 <= i < entries.len(),
    ensures
        proper_entries(entries.remove(i)),
        count_in(entries.remove(i), entries[i].0.bytes@) == 0,
{
    let after = entries.remove(i);
    assert forall|a: int, b: int| 0 <= a < b < after.len() implies (
    #[trigger] after[a]).0.bytes@ != (#[trigger] after[b]).0.bytes@ by {
        let a0 = if a < i { a } else { a + 1 };
        let b0 = if b < i { b } else { b + 1 };
        assert(after[a] == entries[a0] && after[b] == entries[b0]);
    }
    assert forall|a: int| 0 <= a < after.len() implies (#[trigger] after[a]).1 > 0 by {
        let a0 = if a < i { a } else { a + 1 };
        assert(after[a] == entries[a0]);
    }
    assert forall|a: int| 0 <= a < after.len() implies (#[trigger] after[a]).0.bytes@
        != entries[i].0.bytes@ by {
        let a0 = if a < i { a } else { a + 1 };
        assert(after[a] == entries[a0]);
    }
    count_absent(after, entries[i].0.bytes@);
}

impl PeerCounts {
    /// The number of live connections of a peer.
    pub closed spec fn count(&self, peer: Seq<u8>) -> nat {
        count_in(self.entries@, peer)
    }

    /// The number of live connections of all peers.
    pub closed spec fn total(&self) -> nat {
        sum_in(self.entries@)
    }

    /// The number of peers with a live connection.
    pub closed spec fn peers(&self) -> nat {
        self.entries@.len()
    }

    /// Every peer stands in one entry, and no entry counts nothing.
    pub closed spec fn wf(&self) -> bool {
        proper_entries(self.entries@)
    }

    /// No connections.
    pub fn new() -> (r: Self)
        ensures
            r.wf(),
            r.peers() == 0,
            r.total() == 0,
            forall|p: Seq<u8>| #[trigger] r.count(p) == 0,
    {
        let r = PeerCounts { entries: Vec::new() };
        proof {
            assert forall|p: Seq<u8>| #[trigger] r.count(p) == 0 by {
                count_absent(r.entries@, p);
            }
        }
        r
    }

    /// Whether no peer has a live connection.
    pub fn is_empty(&self) -> (r: bool)
        requires
            self.wf(),
        ensures
            r == (self.peers() == 0),
            r == (forall|p: Seq<u8>| #[trigger] self.count(p) == 0),
    {
        let r = self.entries.len() == 0;
        proof {
            if r {
                assert forall|p: Seq<u8>| #[trigger] self.count(p) == 0 by {
                    count_absent(self.entries@, p);
                }
            } else {
                count_at(self.entries@, 0);
                assert(self.count(self.entries@[0].0.bytes@) > 0);
            }
        }
        r
    }

    /// The number of live connections of a peer.
    pub fn get(&self, peer: &NodeId) -> (r: usize)
        requires
            self.wf(),
        ensures
            r == self.count(peer.bytes@),
    {
        match self.find(peer) {
            Some(i) => {
                proof {
                    count_at(self.entries@, i as int);
                }
                self.entries[i].1
            },
            None => {
                proof {
                    count_absent(self.entries@, peer.bytes@);
                }
                0
            },
        }
    }

    /// Where a peer stands.
    fn find(&self, peer: &NodeId) -> (r: Option<usize>)
        ensures
            match r {
                Some(i) => i < self.entries@.len() && self.entries@[i as int].0.bytes@
                    == peer.bytes@,
                None => forall|i: int|
                    0 <= i < self.entries@.len() ==> (#[trigger] self.entries@[i]).0.bytes@
                        != peer.bytes@,
            },
    {
        let mut i: usize = 0;
        while i < self.entries.len()
            invariant
                i <= self.entries@.len(),
                forall|j: int|
                    0 <= j < i ==> (#[trigger] self.entries@[j]).0.bytes@ != peer.bytes@,
            decreases self.entries@.len() - i,
        {
            if same_key(&self.entries[i].0, peer) {
                return Some(i);
            }
            i = i + 1;
        }
        None
    }

    /// Counts one connection more, unless the peer has `max` already. Gives the
    /// count before.
    fn increment(&mut self, peer: NodeId, max: usize) -> (r: Option<usize>)
        requires
            old(self).wf(),
        ensures
            final(self).wf(),
            match r {
                None => old(self).count(peer.bytes@) >= max && *final(self) == *old(self),
                Some(before) => {
                    &&& before == old(self).count(peer.bytes@)
                    &&& before < max
                    &&& final(self).count(peer.bytes@) == before + 1
                    &&& final(self).total() == old(self).total() + 1
                    &&& forall|p: Seq<u8>|
                        p != peer.bytes@ ==> #[trigger] final(self).count(p) == old(self).count(p)
                },
            },
    {
        match self.find(&peer) {
            Some(i) => {
                let before: usize = self.entries[i].1;
                proof {
                    count_at(self.entries@, i as int);
                }
                if before >= max {
                    return None;
                }
                let key: NodeId = self.entries[i].0;
                let ghost a = self.entries@;
                self.entries.set(i, (key, before + 1));
                proof {
                    proper_after_update(a, i as int, (before + 1) as usize);
                    sum_after_update(a, i as int, (before + 1) as usize);
                    count_at(self.entries@, i as int);
                    assert forall|p: Seq<u8>| p != peer.bytes@ implies #[trigger] self.count(p)
                        == old(self).count(p) by {
                        count_after_update(a, i as int, (before + 1) as usize, p);
                    }
                }
                Some(before)
            },
            None => {
                proof {
                    count_absent(self.entries@, peer.bytes@);
                }
                if max == 0 {
                    return None;
                }
                let ghost a = self.entries@;
                self.entries.push((peer, 1));
                proof {
                    assert(proper_entries(self.entries@));
                    assert(self.entries@.drop_last() =~= a);
                    assert forall|p: Seq<u8>| #[trigger]
                        self.count(p) == if p == peer.bytes@ { 1 } else { old(self).count(p) } by {
                        count_after_push(a, peer, 1, p);
                    }
                }
                Some(0)
            },
        }
    }

    /// Counts one connection less, where there is one. Says whether it was the
    /// peer's last.
    fn decrement(&mut self, peer: &NodeId) -> (r: bool)
        requires
            old(self).wf(),
        ensures
            final(self).wf(),
            r == (old(self).count(peer.bytes@) == 1),
            old(self).count(peer.bytes@) > 0 ==> final(self).total() == old(self).total() - 1,
            old(self).count(peer.bytes@) == 0 ==> final(self).total() == old(self).total(),
            old(self).count(peer.bytes@) > 0 ==> final(self).count(peer.bytes@) == old(self).count(
                peer.bytes@,
            ) - 1,
            old(self).count(peer.bytes@) == 0 ==> final(self).count(peer.bytes@) == 0,
            forall|p: Seq<u8>|
                p != peer.bytes@ ==> #[trigger] final(self).count(p) == old(self).count(p),
    {
        match self.find(peer) {
            None => {
                proof {
                    count_absent(self.entries@, peer.bytes@);
                }
                false
            },
            Some(i) => {
                let n: usize = self.entries[i].1;
                let key: NodeId = self.entries[i].0;
                let ghost a = self.entries@;
                proof {
                    count_at(a, i as int);
                }
                if n == 1 {
                    self.entries.remove(i);
                    proof {
                        proper_after_remove(a, i as int);
                        sum_after_remove(a, i as int);
                        assert forall|p: Seq<u8>| p != peer.bytes@ implies #[trigger] self.count(p)
                            == old(self).count(p) by {
                            count_after_remove(a, i as int, p);
                        }
                    }
                    true
                } else {
                    self.entries.set(i, (key, n - 1));
                    proof {
                        proper_after_update(a, i as int, (n - 1) as usize);
                        sum_after_update(a, i as int, (n - 1) as usize);
                        count_at(self.entries@, i as int);
                        assert forall|p: Seq<u8>| p != peer.bytes@ implies #[trigger] self.count(p)
                            == old(self).count(p) by {
                            count_after_update(a, i as int, (n - 1) as usize, p);
                        }
                    }
                    false
                }
            },
        }
    }
}

// ── Connections ──────────────────────────────────────────────────────────────

/// A connection of a peer opens or closes.
pub enum PeerOp {
    Open,
    Close,
}

/// What a peer's count becomes, and which event comes with it: `true` for a peer
/// that has connected, `false` for one that has disconnected.
pub open spec fn peer_step(count: nat, op: PeerOp, max: nat) -> (nat, Option<bool>) {
    match op {
        PeerOp::Open => if count >= max {
            (count, None)
        } else {
            (count + 1, if count == 0 { Some(true) } else { None })
        },
        PeerOp::Close => if count == 0 {
            (count, None)
        } else {
            ((count - 1) as nat, if count == 1 { Some(false) } else { None })
        },
    }
}

/// A peer's count after its connections opened and closed in this order, and the
/// last event that came.
pub open spec fn peer_run(ops: Seq<PeerOp>, max: nat) -> (nat, Option<bool>)
    decreases ops.len(),
{
    if ops.len() == 0 {
        (0, None)
    } else {
        let (count, last) = peer_run(ops.drop_last(), max);
        let (next, event) = peer_step(count, ops.last(), max);
        (next, if event is Some { event } else { last })
    }
}

/// What an event says, if there is one.
pub open spec fn opt_connected(event: Option<ConnectionEvent>) -> Option<bool> {
    match event {
        Some(e) => Some(e.connected),
        None => None,
    }
}

/// Whatever connections of a peer open and close: it never has more than allowed,
/// the last event said that it is connected exactly when it is, and no event says
/// what the one before it said.
pub proof fn events_follow_presence(ops: Seq<PeerOp>, max: nat, next: PeerOp)
    ensures
        peer_run(ops, max).0 <= max,
        peer_run(ops, max).0 > 0 <==> peer_run(ops, max).1 == Some(true),
        peer_step(peer_run(ops, max).0, next, max).1 is Some ==> peer_step(
            peer_run(ops, max).0,
            next,
            max,
        ).1 != peer_run(ops, max).1,
    decreases ops.len(),
{
    if ops.len() > 0 {
        events_follow_presence(ops.drop_last(), max, ops.last());
    }
}

/// One counted connection of a peer.
#[derive(Debug)]
pub struct ConnectionTracker {
    pub peer: NodeId,
    pub peer_id: String,
}

impl ConnectionTracker {
    /// Counts a new connection of `peer`, unless the peer has `max_per_peer`
    /// already. The first connection of a peer comes with an event.
    pub fn acquire(
        counts: &mut PeerCounts,
        peer: NodeId,
        peer_id: String,
        max_per_peer: usize,
        total: &mut usize,
    ) -> (r: Option<(ConnectionTracker, Option<ConnectionEvent>)>)
        requires
            old(counts).wf(),
            *old(total) < usize::MAX,
        ensures
            final(counts).wf(),
            (final(counts).count(peer.bytes@), opt_connected(match r {
                Some((_, event)) => event,
                None => None,
            })) == peer_step(old(counts).count(peer.bytes@), PeerOp::Open, max_per_peer as nat),
            match r {
                None => {
                    &&& old(counts).count(peer.bytes@) >= max_per_peer
                    &&& *final(counts) == *old(counts)
                    &&& *final(total) == *old(total)
                },
                Some((tracker, event)) => {
                    let before = old(counts).count(peer.bytes@);
                    &&& before < max_per_peer
                    &&& final(counts).count(peer.bytes@) == before + 1
                    &&& final(counts).total() == old(counts).total() + 1
                    &&& forall|p: Seq<u8>|
                        p != peer.bytes@ ==> #[trigger] final(counts).count(p) == old(
                            counts).count(p)
                    &&& *final(total) == *old(total) + 1
                    &&& tracker.peer.bytes@ == peer.bytes@
                    &&& tracker.peer_id@ == peer_id@
                    &&& event is Some <==> before == 0
                    &&& event is Some ==> event->Some_0.connected && event->Some_0.peer_id@
                        == peer_id@
                },
            },
    {
        match counts.increment(peer, max_per_peer) {
            None => None,
            Some(before) => {
                *total = *total + 1;
                let event: Option<ConnectionEvent> = if before == 0 {
                    Some(ConnectionEvent { peer_id: peer_id.clone(), connected: true })
                } else {
                    None
                };
                Some((ConnectionTracker { peer, peer_id }, event))
            },
        }
    }

    /// Ends a counted connection. The last connection of a peer comes with an
    /// event.
    pub fn release(self, counts: &mut PeerCounts, total: &mut usize) -> (r: Option<
        ConnectionEvent,
    >)
        requires
            old(counts).wf(),
            *old(total) > 0,
        ensures
            final(counts).wf(),
            forall|max: nat|
                (final(counts).count(self.peer.bytes@), opt_connected(r)) == #[trigger] peer_step(
                    old(counts).count(self.peer.bytes@),
                    PeerOp::Close,
                    max,
                ),
            *final(total) == *old(total) - 1,
            old(counts).count(self.peer.bytes@) > 0 ==> final(counts).total() == old(
                counts).total() - 1,
            old(counts).count(self.peer.bytes@) == 0 ==> final(counts).total() == old(
                counts).total(),
            old(counts).count(self.peer.bytes@) > 0 ==> final(counts).count(self.peer.bytes@)
                == old(counts).count(self.peer.bytes@) - 1,
            old(counts).count(self.peer.bytes@) == 0 ==> final(counts).count(self.peer.bytes@)
                == 0,
            forall|p: Seq<u8>|
                p != self.peer.bytes@ ==> #[trigger] final(counts).count(p) == old(counts).count(p),
            r is Some <==> old(counts).count(self.peer.bytes@) == 1,
            r is Some ==> !r->Some_0.connected && r->Some_0.peer_id@ == self.peer_id@,
    {
        *total = *total - 1;
        if counts.decrement(&self.peer) {
            Some(ConnectionEvent { peer_id: self.peer_id, connected: false })
        } else {
            None
        }
    }
}

// ── Requests ─────────────────────────────────────────────────────────────────

/// One request that counts as being processed.
#[derive(Debug)]
pub struct RequestTracker {
    _private: (),
}

impl RequestTracker {
    /// Counts a request that was just accepted.
    pub fn new(active: &mut usize) -> (r: Self)
        requires
            *old(active) < usize::MAX,
        ensures
            *final(active) == *old(active) + 1,
    {
        *active = *active + 1;
        RequestTracker { _private: () }
    }

    /// Ends the processing of the request.
    pub fn finish(self, active: &mut usize)
        requires
            *old(active) > 0,
        ensures
            *final(active) == *old(active) - 1,
    {
        *active = *active - 1;
    }
}

/// One response that is not yet known to have reached the peer.
#[derive(Debug)]
pub struct DeliveryTracker {
    _private: (),
}

impl DeliveryTracker {
    /// Counts a delivery that has begun.
    pub fn new(in_flight: &mut usize) -> (r: Self)
        requires
            *old(in_flight) < usize::MAX,
        ensures
            *final(in_flight) == *old(in_flight) + 1,
    {
        *in_flight = *in_flight + 1;
        DeliveryTracker { _private: () }
    }

    /// Ends a delivery; says whether whoever waits for the last one is to be
    /// woken.
    pub fn finish(self, in_flight: &mut usize) -> (r: bool)
        requires
            *old(in_flight) > 0,
        ensures
            *final(in_flight) == *old(in_flight) - 1,
            r == (*final(in_flight) == 0),
    {
        *in_flight = *in_flight - 1;
        *in_flight == 0
    }
}

// ── Laws of counting ─────────────────────────────────────────────────────────

/// What a peer's entry says is its count, a peer without one has none, and all counts
/// together make up the sum.
pub proof fn counts_are_what_entries_say(
    entries: Seq<(NodeId, usize)>,
    e: (NodeId, usize),
    peer: Seq<u8>,
)
    ensures
        count_in(Seq::empty(), peer) == 0,
        sum_in(Seq::empty()) == 0,
        count_in(entries.push(e), e.0.bytes@) == e.1,
        peer != e.0.bytes@ ==> count_in(entries.push(e), peer) == count_in(entries, peer),
        sum_in(entries.push(e)) == sum_in(entries) + e.1,
{
    assert(entries.push(e).drop_last() =~= entries);
}

/// A connection is counted unless the peer has as many as allowed, and one that ended is
/// counted no more. The first comes with the event that the peer is connected, the last
/// with the one that it is not, and no other with any.
pub proof fn connections_are_counted(count: nat, max: nat)
    ensures
        count >= max ==> peer_step(count, PeerOp::Open, max) == (count, None::<bool>),
        0 < count < max ==> peer_step(count, PeerOp::Open, max) == ((count + 1) as nat, None::<
            bool,
        >),
        0 < max ==> peer_step(0, PeerOp::Open, max) == (1nat, Some(true)),
        count > 1 ==> peer_step(count, PeerOp::Close, max) == ((count - 1) as nat, None::<bool>),
        peer_step(1, PeerOp::Close, max) == (0nat, Some(false)),
        peer_step(0, PeerOp::Close, max) == (0nat, None::<bool>),
{
}

/// An event is seen as what it says.
pub proof fn events_are_seen(e: ConnectionEvent)
    ensures
        opt_connected(Some(e)) == Some(e.connected),
        opt_connected(None) is None,
{
}

/// A history of connections is taken one by one, in its order: each changes the count that
/// those before it led to, and the last event is that of the last one that gave any.
pub proof fn histories_go_one_by_one(ops: Seq<PeerOp>, next: PeerOp, max: nat)
    ensures
        peer_run(Seq::empty(), max) == (0nat, None::<bool>),
        peer_run(ops.push(next), max).0 == peer_step(peer_run(ops, max).0, next, max).0,
        peer_run(ops.push(next), max).1 == (match peer_step(peer_run(ops, max).0, next, max).1 {
            Some(e) => Some(e),
            None => peer_run(ops, max).1,
        }),
{
    assert(ops.push(next).drop_last() =~= ops);
}

} // verus!
