//! Reusing connections.
//!
//! [`ConnectionPool`] holds one slot for each peer and protocol. Of many callers
//! that want the same peer at once, one dials and the others wait.
use vstd::prelude::*;

use crate::encoding::{base32_encode, base32_text, NodeId};
use crate::events::{EventView, TransportEvent};
use crate::lifecycle::same_key;

verus! {

/// A protocol that connections are made for.
#[derive(Debug, Clone, Copy, PartialEq, Eq, Structural)]
pub enum Protocol {
    /// [`crate::ALPN`].
    Http,
    /// [`crate::ALPN_DUPLEX`].
    Duplex,
}

/// What a connection is kept under.
#[derive(Debug, Clone, Copy)]
pub struct PoolKey {
    pub node_id: NodeId,
    pub protocol: Protocol,
}

impl View for PoolKey {
    type V = (Seq<u8>, Protocol);

    open spec fn view(&self) -> (Seq<u8>, Protocol) {
        (self.node_id.bytes@, self.protocol)
    }
}

/// A connection that is kept.
#[derive(Debug, Clone, Copy, PartialEq, Eq, Structural)]
pub struct Pooled {
    /// The connection.
    pub conn: u64,
    /// The number under which it was dialled. No two connections share one.
    pub dial_seq: u64,
    /// Whether it was seen to be closed.
    pub closed: bool,
}

/// What a slot holds.
#[derive(Debug, Clone, Copy, PartialEq, Eq, Structural)]
pub enum Slot {
    /// A connection.
    Ready(Pooled),
    /// A connection is being dialled.
    Connecting,
}

/// A slot with its key.
#[derive(Debug, Clone, Copy)]
pub struct PoolEntry {
    pub key: PoolKey,
    pub slot: Slot,
}

/// A connection pool.
#[derive(Debug)]
pub struct ConnectionPool {
    /// The slots, oldest first.
    pub entries: Vec<PoolEntry>,
    /// How many connections are kept. `None` means any number.
    pub max_idle: Option<usize>,
    /// The number that the next connection is dialled under.
    pub dialled: u64,
}

/// What a caller that wants a connection does.
#[derive(Debug, Clone, Copy, PartialEq, Eq, Structural)]
pub enum PoolAction {
    /// Use this connection.
    Hit(Pooled),
    /// Wait for another caller that is dialling.
    Wait,
    /// Dial.
    Connect,
}

// ── Slots ────────────────────────────────────────────────────────────────────

/// Where a key first stands; the number of slots where it does not.
pub open spec fn key_index(entries: Seq<PoolEntry>, key: (Seq<u8>, Protocol)) -> int
    decreases entries.len(),
{
    if entries.len() == 0 {
        0
    } else if entries[0].key@ == key {
        0
    } else {
        1 + key_index(entries.drop_first(), key)
    }
}

/// What stands under a key.
pub open spec fn slot_at(entries: Seq<PoolEntry>, key: (Seq<u8>, Protocol)) -> Option<Slot> {
    if key_index(entries, key) < entries.len() {
        Some(entries[key_index(entries, key)].slot)
    } else {
        None
    }
}

/// The slots with another content under a key.
pub open spec fn with_slot(entries: Seq<PoolEntry>, key: PoolKey, slot: Slot) -> Seq<PoolEntry> {
    let i = key_index(entries, key@);
    if i < entries.len() {
        entries.update(i, PoolEntry { slot, ..entries[i] })
    } else {
        entries.push(PoolEntry { key, slot })
    }
}

/// The slots without a key.
pub open spec fn without_key(entries: Seq<PoolEntry>, key: (Seq<u8>, Protocol)) -> Seq<PoolEntry> {
    let i = key_index(entries, key);
    if i < entries.len() {
        entries.remove(i)
    } else {
        entries
    }
}

/// No key stands twice. Where `given` says how many numbers were given out to connections
/// that were dialled, each connection has one of them, and no two have the same.
pub open spec fn proper_entries(entries: Seq<PoolEntry>, given: Option<nat>) -> bool {
    &&& forall|i: int, j: int|
        0 <= i < j < entries.len() ==> (#[trigger] entries[i]).key@ != (#[trigger] entries[j]).key@
    &&& given matches Some(n) ==> forall|i: int|
        0 <= i < entries.len() ==> ((#[trigger] entries[i]).slot matches Slot::Ready(p)
            ==> p.dial_seq < n)
    &&& given is Some ==> forall|i: int, j: int|
        0 <= i < j < entries.len() && (#[trigger] entries[i]).slot is Ready && (
        #[trigger] entries[j]).slot is Ready ==> entries[i].slot->Ready_0.dial_seq
            != entries[j].slot->Ready_0.dial_seq
}

/// What a caller that wants a connection does.
pub open spec fn begin_action(entries: Seq<PoolEntry>, key: (Seq<u8>, Protocol)) -> PoolAction {
    match slot_at(entries, key) {
        Some(Slot::Ready(p)) => if p.closed {
            PoolAction::Connect
        } else {
            PoolAction::Hit(p)
        },
        Some(Slot::Connecting) => PoolAction::Wait,
        None => PoolAction::Connect,
    }
}

/// The slots once a caller has begun to get a connection.
pub open spec fn begin_entries(entries: Seq<PoolEntry>, key: PoolKey) -> Seq<PoolEntry> {
    if begin_action(entries, key@) == PoolAction::Connect {
        with_slot(entries, key, Slot::Connecting)
    } else {
        entries
    }
}

/// The slots once a connection was dialled for a key.
pub open spec fn dialled_entries(
    entries: Seq<PoolEntry>,
    max_idle: Option<usize>,
    key: PoolKey,
    p: Pooled,
) -> Seq<PoolEntry> {
    let roomy = match max_idle {
        Some(max) => evicted(entries, max as nat),
        None => entries,
    };
    with_slot(roomy, key, Slot::Ready(p))
}

/// The slots once the connection under a key was seen to be closed.
pub open spec fn closed_entries(entries: Seq<PoolEntry>, key: PoolKey) -> Seq<PoolEntry> {
    match slot_at(entries, key@) {
        Some(Slot::Ready(p)) => with_slot(entries, key, Slot::Ready(Pooled { closed: true, ..p })),
        _ => entries,
    }
}

/// The slots once the connection that was dialled under a number was given up.
pub open spec fn failed_entries(
    entries: Seq<PoolEntry>,
    key: (Seq<u8>, Protocol),
    failed: Option<u64>,
) -> Seq<PoolEntry> {
    match slot_at(entries, key) {
        Some(Slot::Ready(p)) => if failed == Some(p.dial_seq) {
            without_key(entries, key)
        } else {
            entries
        },
        _ => entries,
    }
}

/// Where `key_index` points.
pub proof fn key_index_points(entries: Seq<PoolEntry>, key: (Seq<u8>, Protocol))
    ensures
        0 <= key_index(entries, key) <= entries.len(),
        key_index(entries, key) < entries.len() ==> entries[key_index(entries, key)].key@ == key,
        forall|i: int| 0 <= i < key_index(entries, key) ==> (#[trigger] entries[i]).key@ != key,
    decreases entries.len(),
{
    if entries.len() > 0 && entries[0].key@ != key {
        let rest = entries.drop_first();
        key_index_points(rest, key);
        assert forall|i: int| 0 <= i < key_index(entries, key) implies (
        #[trigger] entries[i]).key@ != key by {
            if i > 0 {
                assert(rest[i - 1] == entries[i]);
            }
        }
        if key_index(entries, key) < entries.len() {
            assert(rest[key_index(rest, key)] == entries[key_index(entries, key)]);
        }
    }
}

proof fn key_index_is(entries: Seq<PoolEntry>, key: (Seq<u8>, Protocol), k: int)
    requires
        0 <= k <= entries.len(),
        k < entries.len() ==> entries[k].key@ == key,
        forall|i: int| 0 <= i < k ==> (#[trigger] entries[i]).key@ != key,
    ensures
        key_index(entries, key) == k,
{
    key_index_points(entries, key);
    let f = key_index(entries, key);
    if f < k {
        assert(entries[f].key@ != key);
    } else if k < f {
        assert(entries[k].key@ != key);
    }
}

/// Whether two keys are the same.
pub fn same_pool_key(a: &PoolKey, b: &PoolKey) -> (r: bool)
    ensures
        r == (a@ == b@),
{
    same_key(&a.node_id, &b.node_id) && a.protocol == b.protocol
}

/// Where a key stands, or the number of slots.
fn find_key(entries: &Vec<PoolEntry>, key: &PoolKey) -> (r: usize)
    ensures
        r == key_index(entries@, key@),
        r <= entries@.len(),
{
    let mut i: usize = 0;
    while i < entries.len()
        invariant
            i <= entries@.len(),
            forall|j: int| 0 <= j < i ==> (#[trigger] entries@[j]).key@ != key@,
        decreases entries@.len() - i,
    {
        if same_pool_key(&entries[i].key, key) {
            proof {
                key_index_is(entries@, key@, i as int);
            }
            return i;
        }
        i = i + 1;
    }
    proof {
        key_index_is(entries@, key@, i as int);
    }
    i
}

// ── Eviction ─────────────────────────────────────────────────────────────────

/// The number of connections that are kept.
pub open spec fn ready_count(entries: Seq<PoolEntry>) -> nat
    decreases entries.len(),
{
    if entries.len() == 0 {
        0
    } else {
        ready_count(entries.drop_last()) + (if entries.last().slot is Ready {
            1nat
        } else {
            0
        })
    }
}

/// Whether a slot holds a connection that was seen to be closed.
pub open spec fn is_stale(e: PoolEntry) -> bool {
    e.slot matches Slot::Ready(p) && p.closed
}

/// The slots without closed connections.
pub open spec fn without_stale(entries: Seq<PoolEntry>) -> Seq<PoolEntry>
    decreases entries.len(),
{
    if entries.len() == 0 {
        Seq::empty()
    } else {
        let init = without_stale(entries.drop_last());
        if is_stale(entries.last()) {
            init
        } else {
            init.push(entries.last())
        }
    }
}

/// The slots without the `n` oldest connections.
pub open spec fn without_oldest(entries: Seq<PoolEntry>, n: nat) -> Seq<PoolEntry>
    decreases entries.len(),
{
    if entries.len() == 0 {
        Seq::empty()
    } else if entries.last().slot is Ready && ready_count(entries.drop_last()) < n {
        without_oldest(entries.drop_last(), n)
    } else {
        without_oldest(entries.drop_last(), n).push(entries.last())
    }
}

/// How many connections too many there are, if one more is to be kept.
pub open spec fn surplus(ready: nat, max: nat) -> nat {
    if ready < max {
        0
    } else if max == 0 {
        ready
    } else {
        (ready - max + 1) as nat
    }
}

/// The slots once there is room for one more connection.
pub open spec fn evicted(entries: Seq<PoolEntry>, max: nat) -> Seq<PoolEntry> {
    if ready_count(entries) < max {
        entries
    } else {
        without_oldest(
            without_stale(entries),
            surplus(ready_count(without_stale(entries)), max),
        )
    }
}

proof fn ready_count_bound(entries: Seq<PoolEntry>)
    ensures
        ready_count(entries) <= entries.len(),
    decreases entries.len(),
{
    if entries.len() > 0 {
        ready_count_bound(entries.drop_last());
    }
}

fn count_ready(entries: &Vec<PoolEntry>) -> (r: usize)
    ensures
        r == ready_count(entries@),
{
    let mut n: usize = 0;
    let mut i: usize = 0;
    while i < entries.len()
        invariant
            i <= entries@.len(),
            n == ready_count(entries@.take(i as int)),
            n <= i,
        decreases entries@.len() - i,
    {
        proof {
            assert(entries@.take(i + 1).drop_last() =~= entries@.take(i as int));
        }
        if let Slot::Ready(_) = entries[i].slot {
            n = n + 1;
        }
        i = i + 1;
    }
    proof {
        assert(entries@.take(i as int) =~= entries@);
    }
    n
}

/// Makes room for one more connection, if `max` are kept already: closed ones go
/// first, then the oldest. Slots in which a connection is being dialled stay.
pub fn evict_if_needed(entries: &mut Vec<PoolEntry>, max: usize)
    ensures
        final(entries)@ == evicted(old(entries)@, max as nat),
{
    let ready: usize = count_ready(entries);
    if ready < max {
        return;
    }
    let ghost start = entries@;
    let mut fresh: Vec<PoolEntry> = Vec::new();
    let mut i: usize = 0;
    while i < entries.len()
        invariant
            i <= entries@.len(),
            entries@ == start,
            fresh@ == without_stale(start.take(i as int)),
        decreases entries@.len() - i,
    {
        proof {
            assert(start.take(i + 1).drop_last() =~= start.take(i as int));
        }
        let e: PoolEntry = entries[i];
        let stale: bool = match e.slot {
            Slot::Ready(p) => p.closed,
            Slot::Connecting => false,
        };
        if !stale {
            fresh.push(e);
        }
        i = i + 1;
    }
    proof {
        assert(start.take(i as int) =~= start);
    }
    let live: usize = count_ready(&fresh);
    let surplus: usize = if live < max {
        0
    } else if max == 0 {
        live
    } else {
        live - max + 1
    };
    let mut kept: Vec<PoolEntry> = Vec::new();
    let mut seen: usize = 0;
    let mut k: usize = 0;
    while k < fresh.len()
        invariant
            k <= fresh@.len(),
            seen == ready_count(fresh@.take(k as int)),
            seen <= k,
            kept@ == without_oldest(fresh@.take(k as int), surplus as nat),
        decreases fresh@.len() - k,
    {
        proof {
            assert(fresh@.take(k + 1).drop_last() =~= fresh@.take(k as int));
        }
        let e: PoolEntry = fresh[k];
        let is_ready: bool = match e.slot {
            Slot::Ready(_) => true,
            Slot::Connecting => false,
        };
        if !(is_ready && seen < surplus) {
            kept.push(e);
        }
        if is_ready {
            seen = seen + 1;
        }
        k = k + 1;
    }
    proof {
        assert(fresh@.take(k as int) =~= fresh@);
    }
    *entries = kept;
}

proof fn count_without_oldest(entries: Seq<PoolEntry>, n: nat)
    ensures
        ready_count(without_oldest(entries, n)) == (if ready_count(entries) <= n {
            0
        } else {
            ready_count(entries) - n
        }),
    decreases entries.len(),
{
    if entries.len() > 0 {
        count_without_oldest(entries.drop_last(), n);
        let init = without_oldest(entries.drop_last(), n);
        assert(init.push(entries.last()).drop_last() =~= init);
    }
}

/// After making room, fewer than `max` connections are kept; none where `max` is 0.
pub proof fn eviction_makes_room(entries: Seq<PoolEntry>, max: nat)
    ensures
        max > 0 ==> ready_count(evicted(entries, max)) < max,
        max == 0 ==> ready_count(evicted(entries, max)) == 0,
{
    count_without_oldest(
        without_stale(entries),
        surplus(ready_count(without_stale(entries)), max),
    );
}

proof fn connecting_without_stale(entries: Seq<PoolEntry>, e: PoolEntry)
    requires
        e.slot is Connecting,
    ensures
        entries.contains(e) ==> without_stale(entries).contains(e),
    decreases entries.len(),
{
    if entries.contains(e) {
        let i = choose|i: int| 0 <= i < entries.len() && entries[i] == e;
        let init = without_stale(entries.drop_last());
        if i < entries.len() - 1 {
            assert(entries.drop_last()[i] == e);
            connecting_without_stale(entries.drop_last(), e);
            let j = choose|j: int| 0 <= j < init.len() && init[j] == e;
            assert(init.push(entries.last())[j] == e);
        } else {
            assert(init.push(entries.last())[init.len() as int] == e);
        }
    }
}

proof fn connecting_without_oldest(entries: Seq<PoolEntry>, n: nat, e: PoolEntry)
    requires
        e.slot is Connecting,
    ensures
        entries.contains(e) ==> without_oldest(entries, n).contains(e),
    decreases entries.len(),
{
    if entries.contains(e) {
        let i = choose|i: int| 0 <= i < entries.len() && entries[i] == e;
        let init = without_oldest(entries.drop_last(), n);
        if i < entries.len() - 1 {
            assert(entries.drop_last()[i] == e);
            connecting_without_oldest(entries.drop_last(), n, e);
            let j = choose|j: int| 0 <= j < init.len() && init[j] == e;
            assert(init.push(entries.last())[j] == e);
        } else {
            assert(init.push(entries.last())[init.len() as int] == e);
        }
    }
}

/// Making room never gives up a slot in which a connection is being dialled.
pub proof fn eviction_keeps_dialling(entries: Seq<PoolEntry>, max: nat, e: PoolEntry)
    requires
        entries.contains(e),
        e.slot is Connecting,
    ensures
        evicted(entries, max).contains(e),
{
    connecting_without_stale(entries, e);
    connecting_without_oldest(
        without_stale(entries),
        surplus(ready_count(without_stale(entries)), max),
        e,
    );
}

/// What is left out of slots that are proper leaves them proper.
proof fn proper_after_push(
    kept: Seq<PoolEntry>,
    init: Seq<PoolEntry>,
    last: PoolEntry,
    n: Option<nat>,
)
    requires
        proper_entries(init.push(last), n),
        proper_entries(kept, n),
        forall|i: int| 0 <= i < kept.len() ==> init.contains(#[trigger] kept[i]),
    ensures
        proper_entries(kept.push(last), n),
{
    let all = init.push(last);
    assert forall|i: int| 0 <= i < kept.len() implies ({
        &&& (#[trigger] kept[i]).key@ != last.key@
        &&& n is Some && kept[i].slot is Ready && last.slot is Ready
            ==> kept[i].slot->Ready_0.dial_seq != last.slot->Ready_0.dial_seq
    }) by {
        let j = choose|j: int| 0 <= j < init.len() && init[j] == kept[i];
        assert(all[j] == kept[i]);
        assert(all[init.len() as int] == last);
    }
    let after = kept.push(last);
    assert(all[init.len() as int] == last);
    assert forall|i: int, j: int| 0 <= i < j < after.len() implies ({
        &&& (#[trigger] after[i]).key@ != (#[trigger] after[j]).key@
        &&& n is Some && after[i].slot is Ready && after[j].slot is Ready
            ==> after[i].slot->Ready_0.dial_seq != after[j].slot->Ready_0.dial_seq
    }) by {
        assert(after[i] == kept[i]);
        if j < kept.len() {
            assert(after[j] == kept[j]);
        }
    }
    assert forall|i: int| n is Some && 0 <= i < after.len() implies ((
    #[trigger] after[i]).slot matches Slot::Ready(p) ==> p.dial_seq < n->Some_0) by {
        if i < kept.len() {
            assert(after[i] == kept[i]);
        }
    }
}

proof fn proper_prefix(entries: Seq<PoolEntry>, n: Option<nat>)
    requires
        entries.len() > 0,
        proper_entries(entries, n),
    ensures
        proper_entries(entries.drop_last(), n),
{
    let init = entries.drop_last();
    assert forall|i: int| 0 <= i < init.len() implies #[trigger] init[i] == entries[i] by {}
}

proof fn proper_without_stale(entries: Seq<PoolEntry>, n: Option<nat>)
    requires
        proper_entries(entries, n),
    ensures
        proper_entries(without_stale(entries), n),
        forall|i: int|
            0 <= i < without_stale(entries).len() ==> entries.contains(
                #[trigger] without_stale(entries)[i],
            ),
    decreases entries.len(),
{
    if entries.len() > 0 {
        let init = entries.drop_last();
        proper_prefix(entries, n);
        proper_without_stale(init, n);
        assert(init.push(entries.last()) =~= entries);
        proper_after_push(without_stale(init), init, entries.last(), n);
        let kept = without_stale(entries);
        assert forall|i: int| 0 <= i < kept.len() implies entries.contains(#[trigger] kept[i]) by {
            if i < without_stale(init).len() {
                assert(kept[i] == without_stale(init)[i]);
                let j = choose|j: int| 0 <= j < init.len() && init[j] == kept[i];
                assert(entries[j] == kept[i]);
            } else {
                assert(entries[entries.len() - 1] == kept[i]);
            }
        }
    }
}

proof fn proper_without_oldest(entries: Seq<PoolEntry>, k: nat, n: Option<nat>)
    requires
        proper_entries(entries, n),
    ensures
        proper_entries(without_oldest(entries, k), n),
        forall|i: int|
            0 <= i < without_oldest(entries, k).len() ==> entries.contains(
                #[trigger] without_oldest(entries, k)[i],
            ),
    decreases entries.len(),
{
    if entries.len() > 0 {
        let init = entries.drop_last();
        proper_prefix(entries, n);
        proper_without_oldest(init, k, n);
        assert(init.push(entries.last()) =~= entries);
        proper_after_push(without_oldest(init, k), init, entries.last(), n);
        let kept = without_oldest(entries, k);
        assert forall|i: int| 0 <= i < kept.len() implies entries.contains(#[trigger] kept[i]) by {
            if i < without_oldest(init, k).len() {
                assert(kept[i] == without_oldest(init, k)[i]);
                let j = choose|j: int| 0 <= j < init.len() && init[j] == kept[i];
                assert(entries[j] == kept[i]);
            } else {
                assert(entries[entries.len() - 1] == kept[i]);
            }
        }
    }
}

/// Making room keeps the slots proper, and adds none.
proof fn proper_evicted(entries: Seq<PoolEntry>, max: nat, n: Option<nat>)
    requires
        proper_entries(entries, n),
    ensures
        proper_entries(evicted(entries, max), n),
        forall|i: int|
            0 <= i < evicted(entries, max).len() ==> entries.contains(
                #[trigger] evicted(entries, max)[i],
            ),
{
    let fresh = without_stale(entries);
    let k = surplus(ready_count(fresh), max);
    proper_without_stale(entries, n);
    proper_without_oldest(fresh, k, n);
    let kept = evicted(entries, max);
    assert forall|i: int| 0 <= i < kept.len() implies entries.contains(#[trigger] kept[i]) by {
        if ready_count(entries) < max {
            assert(entries[i] == kept[i]);
        } else {
            let j = choose|j: int| 0 <= j < fresh.len() && fresh[j] == kept[i];
            assert(entries.contains(fresh[j]));
        }
    }
}

/// A slot that is there stands under its key.
proof fn slot_of_entry(entries: Seq<PoolEntry>, n: Option<nat>, e: PoolEntry)
    requires
        proper_entries(entries, n),
        entries.contains(e),
    ensures
        slot_at(entries, e.key@) == Some(e.slot),
{
    let i = choose|i: int| 0 <= i < entries.len() && entries[i] == e;
    key_index_points(entries, e.key@);
    let f = key_index(entries, e.key@);
    if f < i {
        assert(entries[f].key@ != entries[i].key@);
    } else if i < f {
        assert(entries[i].key@ != e.key@);
    }
}

/// Making room leaves what stands under a key, or takes a connection out; a slot in which
/// one is being dialled stays.
proof fn slot_after_eviction(
    entries: Seq<PoolEntry>,
    max: nat,
    n: Option<nat>,
    key: (Seq<u8>, Protocol),
)
    requires
        proper_entries(entries, n),
    ensures
        ({
            let before = slot_at(entries, key);
            let after = slot_at(evicted(entries, max), key);
            after == before || (after is None && before is Some && before->Some_0 is Ready)
        }),
{
    let roomy = evicted(entries, max);
    proper_evicted(entries, max, n);
    key_index_points(roomy, key);
    key_index_points(entries, key);
    let k = key_index(roomy, key);
    if k < roomy.len() {
        slot_of_entry(entries, n, roomy[k]);
    } else {
        let i = key_index(entries, key);
        if i < entries.len() && entries[i].slot is Connecting {
            assert(entries.contains(entries[i]));
            eviction_keeps_dialling(entries, max, entries[i]);
            slot_of_entry(roomy, n, entries[i]);
        }
    }
}

proof fn slot_after_put(entries: Seq<PoolEntry>, key: PoolKey, slot: Slot)
    ensures
        slot_at(with_slot(entries, key, slot), key@) == Some(slot),
{
    key_index_points(entries, key@);
    let i = key_index(entries, key@);
    let after = with_slot(entries, key, slot);
    assert forall|j: int| 0 <= j < i implies (#[trigger] after[j]).key@ != key@ by {
        assert(after[j] == entries[j]);
    }
    key_index_is(after, key@, i);
}

proof fn other_slot_after_put(
    entries: Seq<PoolEntry>,
    key: PoolKey,
    slot: Slot,
    other: (Seq<u8>, Protocol),
)
    requires
        key@ != other,
    ensures
        slot_at(with_slot(entries, key, slot), other) == slot_at(entries, other),
{
    key_index_points(entries, key@);
    key_index_points(entries, other);
    let i = key_index(entries, key@);
    let k = key_index(entries, other);
    let after = with_slot(entries, key, slot);
    assert forall|j: int| 0 <= j < entries.len() implies (#[trigger] after[j]).key@
        == entries[j].key@ by {}
    if k < entries.len() {
        assert forall|j: int| 0 <= j < k implies (#[trigger] after[j]).key@ != other by {
            assert(entries[j].key@ != other);
        }
        key_index_is(after, other, k);
        if i == k {
            assert(entries[k].key@ == key@);
        }
    } else {
        assert forall|j: int| 0 <= j < after.len() implies (#[trigger] after[j]).key@ != other by {
            if j < entries.len() {
                assert(entries[j].key@ != other);
            }
        }
        key_index_is(after, other, after.len() as int);
    }
}

proof fn slots_after_removal(
    entries: Seq<PoolEntry>,
    n: Option<nat>,
    key: (Seq<u8>, Protocol),
    other: (Seq<u8>, Protocol),
)
    requires
        proper_entries(entries, n),
    ensures
        proper_entries(without_key(entries, key), n),
        slot_at(without_key(entries, key), key) is None,
        key != other ==> slot_at(without_key(entries, key), other) == slot_at(entries, other),
{
    key_index_points(entries, key);
    key_index_points(entries, other);
    let i = key_index(entries, key);
    let after = without_key(entries, key);
    if i < entries.len() {
        assert forall|j: int| 0 <= j < after.len() implies #[trigger] after[j] == entries[if j < i {
            j
        } else {
            j + 1
        }] by {}
        assert forall|j: int| 0 <= j < after.len() implies (#[trigger] after[j]).key@ != key by {
            let j0 = if j < i {
                j
            } else {
                j + 1
            };
            assert(after[j] == entries[j0]);
            if j0 < i {
                assert(entries[j0].key@ != entries[i].key@);
            } else {
                assert(entries[i].key@ != entries[j0].key@);
            }
        }
        key_index_is(after, key, after.len() as int);
        assert forall|a: int, b: int| 0 <= a < b < after.len() implies ({
            &&& (#[trigger] after[a]).key@ != (#[trigger] after[b]).key@
            &&& n is Some && after[a].slot is Ready && after[b].slot is Ready
                ==> after[a].slot->Ready_0.dial_seq != after[b].slot->Ready_0.dial_seq
        }) by {
            let a0 = if a < i {
                a
            } else {
                a + 1
            };
            let b0 = if b < i {
                b
            } else {
                b + 1
            };
            assert(after[a] == entries[a0] && after[b] == entries[b0]);
        }
        assert forall|a: int| n is Some && 0 <= a < after.len() implies ((
        #[trigger] after[a]).slot matches Slot::Ready(p) ==> p.dial_seq < n->Some_0) by {
            let a0 = if a < i {
                a
            } else {
                a + 1
            };
            assert(after[a] == entries[a0]);
        }
        if key != other {
            let k = key_index(entries, other);
            let k1 = if k < i {
                k
            } else {
                k - 1
            };
            assert(k != i);
            assert forall|j: int| 0 <= j < k1 implies (#[trigger] after[j]).key@ != other by {
                let j0 = if j < i {
                    j
                } else {
                    j + 1
                };
                assert(after[j] == entries[j0]);
                assert(entries[j0].key@ != other);
            }
            key_index_is(after, other, k1);
        }
    }
}

/// Slots stay proper with another content under a key, if a connection that is put there
/// has a number of its own.
proof fn proper_after_put(
    entries: Seq<PoolEntry>,
    n: Option<nat>,
    key: PoolKey,
    slot: Slot,
    m: Option<nat>,
)
    requires
        proper_entries(entries, n),
        n is None == m is None,
        n is Some ==> n->Some_0 <= m->Some_0 && (slot matches Slot::Ready(p) ==> p.dial_seq
            < m->Some_0 && (p.dial_seq >= n->Some_0 || (slot_at(
            entries,
            key@,
        ) matches Some(Slot::Ready(q)) && q.dial_seq == p.dial_seq))),
    ensures
        proper_entries(with_slot(entries, key, slot), m),
{
    key_index_points(entries, key@);
    let i = key_index(entries, key@);
    let after = with_slot(entries, key, slot);
    assert forall|j: int| 0 <= j < entries.len() && j != i implies #[trigger] after[j]
        == entries[j] by {}
    assert forall|a: int, b: int| 0 <= a < b < after.len() implies ({
        &&& (#[trigger] after[a]).key@ != (#[trigger] after[b]).key@
        &&& n is Some && after[a].slot is Ready && after[b].slot is Ready
            ==> after[a].slot->Ready_0.dial_seq != after[b].slot->Ready_0.dial_seq
    }) by {
        if a < entries.len() {
            let ea = entries[a];
            assert(after[a].key@ == ea.key@);
        }
        if b < entries.len() {
            let eb = entries[b];
            assert(after[b].key@ == eb.key@);
            assert(entries[a].key@ != entries[b].key@);
        } else {
            assert(entries[a].key@ != key@);
        }
    }
    assert forall|a: int| n is Some && 0 <= a < after.len() implies ((
    #[trigger] after[a]).slot matches Slot::Ready(p) ==> p.dial_seq < m->Some_0) by {
        if a < entries.len() && a != i {
            assert(after[a] == entries[a]);
        }
    }
}

// ── The pool ─────────────────────────────────────────────────────────────────

/// What a pool holds.
pub struct PoolState {
    pub entries: Seq<PoolEntry>,
    pub max_idle: Option<usize>,
    /// The number that the next connection is dialled under.
    pub dialled: u64,
}

/// What is done to a pool.
pub enum PoolOp {
    /// A caller begins to get a connection.
    Begin(PoolKey),
    /// A connection was dialled.
    Dialled(PoolKey, u64),
    /// What stands under a key is taken out, as where dialling failed.
    Remove(PoolKey),
    /// A connection was seen to be closed.
    MarkClosed(PoolKey),
    /// A connection is taken out, if it was dialled under this number.
    Evict(PoolKey, Option<u64>),
}

/// The key that an operation is about.
pub open spec fn op_key(op: PoolOp) -> (Seq<u8>, Protocol) {
    match op {
        PoolOp::Begin(k) => k@,
        PoolOp::Dialled(k, _) => k@,
        PoolOp::Remove(k) => k@,
        PoolOp::MarkClosed(k) => k@,
        PoolOp::Evict(k, _) => k@,
    }
}

/// The connection that is kept where dialling gave one.
pub open spec fn dialled_one(s: PoolState, conn: u64) -> Pooled {
    Pooled { conn, dial_seq: s.dialled, closed: false }
}

/// The number after a number; after the last one they start over.
pub open spec fn next_number(n: u64) -> u64 {
    if n == u64::MAX {
        0
    } else {
        (n + 1) as u64
    }
}

/// What a pool holds after an operation.
pub open spec fn pool_step(s: PoolState, op: PoolOp) -> PoolState {
    match op {
        PoolOp::Begin(k) => PoolState { entries: begin_entries(s.entries, k), ..s },
        PoolOp::Dialled(k, conn) => PoolState {
            entries: dialled_entries(s.entries, s.max_idle, k, dialled_one(s, conn)),
            dialled: next_number(s.dialled),
            ..s
        },
        PoolOp::Remove(k) => PoolState { entries: without_key(s.entries, k@), ..s },
        PoolOp::MarkClosed(k) => PoolState { entries: closed_entries(s.entries, k), ..s },
        PoolOp::Evict(k, failed) => PoolState {
            entries: failed_entries(s.entries, k@, failed),
            ..s
        },
    }
}

/// What a pool holds after operations in this order.
pub open spec fn pool_run(s: PoolState, ops: Seq<PoolOp>) -> PoolState
    decreases ops.len(),
{
    if ops.len() == 0 {
        s
    } else {
        pool_step(pool_run(s, ops.drop_last()), ops.last())
    }
}

/// Whether no key stands twice in a pool.
pub open spec fn proper_pool(s: PoolState) -> bool {
    proper_entries(s.entries, None)
}

/// Whether no key stands twice in a pool, and no two of its connections have the same
/// number: each has one below the next that is given out.
pub open spec fn numbered_pool(s: PoolState) -> bool {
    proper_entries(s.entries, Some(s.dialled as nat))
}

proof fn proper_after_step(s: PoolState, op: PoolOp, n: Option<nat>, m: Option<nat>)
    requires
        proper_entries(s.entries, n),
        n is None == m is None,
        n matches Some(n) ==> n == s.dialled && m == Some(
            (if op is Dialled {
                n + 1
            } else {
                n
            }),
        ),
    ensures
        proper_entries(pool_step(s, op).entries, m),
{
    match op {
        PoolOp::Begin(k) => {
            proper_after_put(s.entries, n, k, Slot::Connecting, m);
        },
        PoolOp::Dialled(k, conn) => {
            let roomy = match s.max_idle {
                Some(max) => evicted(s.entries, max as nat),
                None => s.entries,
            };
            if let Some(max) = s.max_idle {
                proper_evicted(s.entries, max as nat, n);
            }
            proper_after_put(roomy, n, k, Slot::Ready(dialled_one(s, conn)), m);
        },
        PoolOp::Remove(k) => {
            slots_after_removal(s.entries, n, k@, k@);
        },
        PoolOp::MarkClosed(k) => {
            if let Some(Slot::Ready(p)) = slot_at(s.entries, k@) {
                key_index_points(s.entries, k@);
                proper_after_put(s.entries, n, k, Slot::Ready(Pooled { closed: true, ..p }), m);
            }
        },
        PoolOp::Evict(k, failed) => {
            slots_after_removal(s.entries, n, k@, k@);
        },
    }
}

/// Whatever is done to a pool, no key stands twice in it.
pub proof fn step_keeps_proper(s: PoolState, op: PoolOp)
    requires
        proper_pool(s),
    ensures
        proper_pool(pool_step(s, op)),
{
    proper_after_step(s, op, None, None);
}

/// Whatever is done to a pool, no two of its connections have the same number, as long as
/// the numbers do not start over.
pub proof fn numbers_stay_apart(s: PoolState, op: PoolOp)
    requires
        numbered_pool(s),
        op is Dialled ==> s.dialled < u64::MAX,
    ensures
        numbered_pool(pool_step(s, op)),
{
    let m: nat = if op is Dialled {
        s.dialled as nat + 1
    } else {
        s.dialled as nat
    };
    proper_after_step(s, op, Some(s.dialled as nat), Some(m));
}

/// What is done for one peer and protocol leaves what stands under every other key, or
/// makes room by giving up a connection there. It never puts anything under it.
pub proof fn keys_stay_apart(s: PoolState, op: PoolOp, key: (Seq<u8>, Protocol))
    requires
        proper_pool(s),
        op_key(op) != key,
    ensures
        ({
            let before = slot_at(s.entries, key);
            let after = slot_at(pool_step(s, op).entries, key);
            after == before || (op is Dialled && after is None && before is Some
                && before->Some_0 is Ready)
        }),
{
    match op {
        PoolOp::Begin(k) => {
            other_slot_after_put(s.entries, k, Slot::Connecting, key);
        },
        PoolOp::Dialled(k, conn) => {
            let p = Slot::Ready(dialled_one(s, conn));
            match s.max_idle {
                Some(max) => {
                    slot_after_eviction(s.entries, max as nat, None, key);
                    other_slot_after_put(evicted(s.entries, max as nat), k, p, key);
                },
                None => {
                    other_slot_after_put(s.entries, k, p, key);
                },
            }
        },
        PoolOp::Remove(k) => {
            slots_after_removal(s.entries, None, k@, key);
        },
        PoolOp::MarkClosed(k) => {
            if let Some(Slot::Ready(p)) = slot_at(s.entries, k@) {
                other_slot_after_put(
                    s.entries,
                    k,
                    Slot::Ready(Pooled { closed: true, ..p }),
                    key,
                );
            }
        },
        PoolOp::Evict(k, failed) => {
            slots_after_removal(s.entries, None, k@, key);
        },
    }
}

/// Whether an operation ends the dialling for a key.
pub open spec fn ends_dialling(op: PoolOp, key: (Seq<u8>, Protocol)) -> bool {
    op_key(op) == key && (op is Dialled || op is Remove)
}

/// While a connection is being dialled for a key, whatever else happens, every caller for
/// that key waits.
pub proof fn callers_wait_for_the_dialling(s: PoolState, key: (Seq<u8>, Protocol), ops: Seq<PoolOp>)
    requires
        proper_pool(s),
        slot_at(s.entries, key) == Some(Slot::Connecting),
        forall|i: int| 0 <= i < ops.len() ==> !ends_dialling(#[trigger] ops[i], key),
    ensures
        proper_pool(pool_run(s, ops)),
        slot_at(pool_run(s, ops).entries, key) == Some(Slot::Connecting),
        begin_action(pool_run(s, ops).entries, key) == PoolAction::Wait,
    decreases ops.len(),
{
    if ops.len() > 0 {
        let init = ops.drop_last();
        let op = ops.last();
        assert forall|i: int| 0 <= i < init.len() implies !ends_dialling(
            #[trigger] init[i],
            key,
        ) by {
            assert(init[i] == ops[i]);
        }
        callers_wait_for_the_dialling(s, key, init);
        let mid = pool_run(s, init);
        assert(!ends_dialling(ops[ops.len() - 1], key));
        step_keeps_proper(mid, op);
        if op_key(op) != key {
            keys_stay_apart(mid, op, key);
        }
    }
}

/// Of all callers that want a connection for a key at once, one dials, where no open one
/// is kept: the first. Whatever happens meanwhile to other keys and by other callers,
/// every other caller for the key waits until the dialling has ended. Then a connection
/// that was dialled is what every further caller gets; a failure is not kept: the next
/// caller dials anew.
pub proof fn a_batch_dials_once(
    s: PoolState,
    key: PoolKey,
    during: Seq<PoolOp>,
    k: int,
    outcome: Option<u64>,
)
    requires
        proper_pool(s),
        begin_action(s.entries, key@) == PoolAction::Connect,
        forall|i: int| 0 <= i < during.len() ==> !ends_dialling(#[trigger] during[i], key@),
        0 <= k <= during.len(),
    ensures
        ({
            let begun = pool_step(s, PoolOp::Begin(key));
            let ended = pool_run(begun, during);
            &&& begin_action(pool_run(begun, during.take(k)).entries, key@) == PoolAction::Wait
            &&& match outcome {
                Some(conn) => begin_action(
                    pool_step(ended, PoolOp::Dialled(key, conn)).entries,
                    key@,
                ) == PoolAction::Hit(dialled_one(ended, conn)),
                None => begin_action(pool_step(ended, PoolOp::Remove(key)).entries, key@)
                    == PoolAction::Connect,
            }
        }),
{
    let begun = pool_step(s, PoolOp::Begin(key));
    step_keeps_proper(s, PoolOp::Begin(key));
    slot_after_put(s.entries, key, Slot::Connecting);
    let part = during.take(k);
    assert forall|i: int| 0 <= i < part.len() implies !ends_dialling(#[trigger] part[i], key@) by {
        assert(part[i] == during[i]);
    }
    callers_wait_for_the_dialling(begun, key@, part);
    callers_wait_for_the_dialling(begun, key@, during);
    let ended = pool_run(begun, during);
    match outcome {
        Some(conn) => {
            let roomy = match ended.max_idle {
                Some(max) => evicted(ended.entries, max as nat),
                None => ended.entries,
            };
            slot_after_put(roomy, key, Slot::Ready(dialled_one(ended, conn)));
        },
        None => {
            slots_after_removal(ended.entries, None, key@, key@);
        },
    }
}

/// An open connection that is kept for a key is what every caller for it gets, however
/// many begin, and nothing is dialled for them.
pub proof fn an_open_connection_is_shared(
    s: PoolState,
    key: (Seq<u8>, Protocol),
    p: Pooled,
    begins: Seq<PoolKey>,
)
    requires
        proper_pool(s),
        slot_at(s.entries, key) == Some(Slot::Ready(p)),
        !p.closed,
    ensures
        ({
            let after = pool_run(s, begins.map_values(|k: PoolKey| PoolOp::Begin(k)));
            &&& proper_pool(after)
            &&& slot_at(after.entries, key) == Some(Slot::Ready(p))
            &&& begin_action(after.entries, key) == PoolAction::Hit(p)
        }),
    decreases begins.len(),
{
    let ops = begins.map_values(|k: PoolKey| PoolOp::Begin(k));
    if begins.len() > 0 {
        an_open_connection_is_shared(s, key, p, begins.drop_last());
        assert(ops.drop_last() =~= begins.drop_last().map_values(|k: PoolKey| PoolOp::Begin(k)));
        let mid = pool_run(s, ops.drop_last());
        step_keeps_proper(mid, ops.last());
        if op_key(ops.last()) != key {
            keys_stay_apart(mid, ops.last(), key);
        }
    }
}

impl ConnectionPool {
    /// No key stands twice.
    pub open spec fn wf(&self) -> bool {
        proper_pool(self.state())
    }

    /// What the pool holds.
    pub open spec fn state(&self) -> PoolState {
        PoolState {
            entries: self.entries@,
            max_idle: self.max_idle,
            dialled: self.dialled,
        }
    }

    /// An empty pool.
    pub fn new(max_idle: Option<usize>) -> (r: Self)
        ensures
            r.wf(),
            numbered_pool(r.state()),
            r.entries@.len() == 0,
            r.max_idle == max_idle,
            r.dialled == 0,
    {
        ConnectionPool { entries: Vec::new(), max_idle, dialled: 0 }
    }

    /// The number of connections that are kept.
    pub fn len(&self) -> (r: usize)
        ensures
            r == ready_count(self.entries@),
    {
        count_ready(&self.entries)
    }

    /// The connection that is kept under a key, whether it is closed or not.
    pub fn peek(&self, key: &PoolKey) -> (r: Option<Pooled>)
        ensures
            match slot_at(self.entries@, key@) {
                Some(Slot::Ready(p)) => r == Some(p),
                _ => r is None,
            },
    {
        let i: usize = find_key(&self.entries, key);
        if i < self.entries.len() {
            if let Slot::Ready(p) = self.entries[i].slot {
                return Some(p);
            }
        }
        None
    }

    /// The connection that is kept under a key, unless it is closed.
    pub fn get_existing(&self, key: &PoolKey) -> (r: Option<Pooled>)
        ensures
            match slot_at(self.entries@, key@) {
                Some(Slot::Ready(p)) => r == (if p.closed {
                    None
                } else {
                    Some(p)
                }),
                _ => r is None,
            },
    {
        match self.peek(key) {
            Some(p) => if p.closed {
                None
            } else {
                Some(p)
            },
            None => None,
        }
    }

    /// Notes that a connection was seen to be closed.
    pub fn mark_closed(&mut self, key: &PoolKey)
        requires
            old(self).wf(),
        ensures
            final(self).wf(),
            final(self).state() == pool_step(old(self).state(), PoolOp::MarkClosed(*key)),
    {
        proof {
            step_keeps_proper(self.state(), PoolOp::MarkClosed(*key));
        }
        let i: usize = find_key(&self.entries, key);
        if i < self.entries.len() {
            let e: PoolEntry = self.entries[i];
            if let Slot::Ready(p) = e.slot {
                self.entries.set(
                    i,
                    PoolEntry { key: e.key, slot: Slot::Ready(Pooled { closed: true, ..p }) },
                );
            }
        }
    }

    /// Begins to get a connection: an open one that is kept is used; where another
    /// caller is dialling, this one waits; else this one dials, and others wait.
    pub fn begin_connect(&mut self, key: PoolKey) -> (r: PoolAction)
        requires
            old(self).wf(),
        ensures
            final(self).wf(),
            r == begin_action(old(self).entries@, key@),
            final(self).state() == pool_step(old(self).state(), PoolOp::Begin(key)),
    {
        proof {
            step_keeps_proper(self.state(), PoolOp::Begin(key));
        }
        let i: usize = find_key(&self.entries, &key);
        if i < self.entries.len() {
            let e: PoolEntry = self.entries[i];
            match e.slot {
                Slot::Ready(p) => if p.closed {
                    self.entries.set(i, PoolEntry { key: e.key, slot: Slot::Connecting });
                    PoolAction::Connect
                } else {
                    PoolAction::Hit(p)
                },
                Slot::Connecting => PoolAction::Wait,
            }
        } else {
            self.entries.push(PoolEntry { key, slot: Slot::Connecting });
            PoolAction::Connect
        }
    }

    /// Ends dialling. A new connection is kept, after room was made for it; where
    /// dialling failed, the slot is given up, so the next caller dials again.
    pub fn finish_connect(&mut self, key: PoolKey, dialled: Result<u64, String>) -> (r: Result<
        Pooled,
        String,
    >)
        requires
            old(self).wf(),
        ensures
            final(self).wf(),
            match dialled {
                Ok(conn) => {
                    &&& r == Ok::<Pooled, String>(
                        Pooled { conn, dial_seq: old(self).dialled, closed: false },
                    )
                    &&& final(self).state() == pool_step(
                        old(self).state(),
                        PoolOp::Dialled(key, conn),
                    )
                },
                Err(m) => {
                    &&& r == Err::<Pooled, String>(m)
                    &&& final(self).state() == pool_step(old(self).state(), PoolOp::Remove(key))
                },
            },
    {
        proof {
            if dialled is Ok {
                step_keeps_proper(self.state(), PoolOp::Dialled(key, dialled->Ok_0));
            }
        }
        match dialled {
            Ok(conn) => {
                if let Some(max) = self.max_idle {
                    evict_if_needed(&mut self.entries, max);
                }
                let p = Pooled { conn, dial_seq: self.dialled, closed: false };
                self.dialled = self.dialled.wrapping_add(1);
                let i: usize = find_key(&self.entries, &key);
                if i < self.entries.len() {
                    let e: PoolEntry = self.entries[i];
                    self.entries.set(i, PoolEntry { key: e.key, slot: Slot::Ready(p) });
                } else {
                    self.entries.push(PoolEntry { key, slot: Slot::Ready(p) });
                }
                Ok(p)
            },
            Err(m) => {
                self.remove(&key);
                Err(m)
            },
        }
    }

    /// Takes what stands under a key out of the pool.
    pub fn remove(&mut self, key: &PoolKey)
        requires
            old(self).wf(),
        ensures
            final(self).wf(),
            final(self).state() == pool_step(old(self).state(), PoolOp::Remove(*key)),
    {
        proof {
            step_keeps_proper(self.state(), PoolOp::Remove(*key));
        }
        let i: usize = find_key(&self.entries, key);
        if i < self.entries.len() {
            self.entries.remove(i);
        }
    }

    /// Takes a connection out of the pool, if it is the one that was dialled under
    /// this number, and gives it to be closed. A connection that has taken its place
    /// stays.
    pub fn evict(&mut self, key: &PoolKey, failed: Option<u64>) -> (r: Option<Pooled>)
        requires
            old(self).wf(),
        ensures
            final(self).wf(),
            final(self).state() == pool_step(old(self).state(), PoolOp::Evict(*key, failed)),
            match slot_at(old(self).entries@, key@) {
                Some(Slot::Ready(p)) => r == (if failed == Some(p.dial_seq) {
                    Some(p)
                } else {
                    None
                }),
                _ => r is None,
            },
    {
        match self.peek(key) {
            Some(p) => {
                let hit: bool = match failed {
                    Some(n) => n == p.dial_seq,
                    None => false,
                };
                if hit {
                    self.remove(key);
                    Some(p)
                } else {
                    None
                }
            },
            None => None,
        }
    }
}

proof fn count_after_put(entries: Seq<PoolEntry>, i: int, e: PoolEntry)
    requires
        0 <= i < entries.len(),
    ensures
        ready_count(entries.update(i, e)) <= ready_count(entries) + 1,
    decreases entries.len(),
{
    let after = entries.update(i, e);
    if i < entries.len() - 1 {
        count_after_put(entries.drop_last(), i, e);
        assert(after.drop_last() =~= entries.drop_last().update(i, e));
    } else {
        assert(after.drop_last() =~= entries.drop_last());
    }
}

/// When a connection was just kept, there are at most `max` of them; one where
/// `max` is 0.
pub proof fn pool_respects_max(entries: Seq<PoolEntry>, key: PoolKey, p: Pooled, max: nat)
    ensures
        ready_count(with_slot(evicted(entries, max), key, Slot::Ready(p))) <= if max == 0 {
            1
        } else {
            max
        },
{
    eviction_makes_room(entries, max);
    let roomy = evicted(entries, max);
    key_index_points(roomy, key@);
    let i = key_index(roomy, key@);
    if i < roomy.len() {
        count_after_put(roomy, i, PoolEntry { slot: Slot::Ready(p), ..roomy[i] });
    } else {
        assert(roomy.push(PoolEntry { key, slot: Slot::Ready(p) }).drop_last() =~= roomy);
    }
}

// ── Pools that a cache keeps ─────────────────────────────────────────────────

/// The number of connections that a cache keeps where no number is set.
pub const DEFAULT_CACHE_CAPACITY: u64 = 512;

/// The capacity of a cache.
pub fn cache_capacity(max_idle: Option<usize>) -> (r: u64)
    ensures
        r == (match max_idle {
            Some(n) => n as int,
            None => 512,
        }),
{
    match max_idle {
        Some(n) => n as u64,
        None => DEFAULT_CACHE_CAPACITY,
    }
}

/// What a cache has for a key.
#[derive(Debug)]
pub enum Cached {
    Nothing,
    /// A connection, and the peer's name.
    Connection { peer_id: String, closed: bool },
}

/// What a caller does with what a cache has.
#[derive(Debug)]
pub struct CacheStep {
    /// What is reported, in order.
    pub events: Vec<TransportEvent>,
    /// Whether the cached connection is given up.
    pub invalidate: bool,
    /// Whether a connection is dialled; else the cached one is used.
    pub dial: bool,
}

/// The views of a list of events.
pub open spec fn event_views(events: Seq<TransportEvent>) -> Seq<EventView> {
    events.map_values(|e: TransportEvent| e@)
}

/// Decides what a caller does with what a cache has at a time: an open connection is
/// used; a closed one is given up, and another is dialled.
pub fn on_cached(cached: &Cached, node_id: &NodeId, now_ms: u64) -> (r: CacheStep)
    ensures
        match *cached {
            Cached::Connection { peer_id, closed } => if closed {
                &&& event_views(r.events@) == seq![
                    EventView::PoolEvict(peer_id@, now_ms),
                    EventView::PoolMiss(base32_text(node_id.bytes@), now_ms),
                ]
                &&& r.invalidate
                &&& r.dial
            } else {
                &&& event_views(r.events@) == seq![EventView::PoolHit(peer_id@, now_ms)]
                &&& !r.invalidate
                &&& !r.dial
            },
            Cached::Nothing => {
                &&& event_views(r.events@) == seq![
                    EventView::PoolMiss(base32_text(node_id.bytes@), now_ms),
                ]
                &&& !r.invalidate
                &&& r.dial
            },
        },
{
    let mut events: Vec<TransportEvent> = Vec::new();
    let mut invalidate: bool = false;
    if let Cached::Connection { peer_id, closed } = cached {
        if !*closed {
            events.push(TransportEvent::pool_hit_at(peer_id, now_ms));
            proof {
                assert(event_views(events@) =~= seq![EventView::PoolHit(peer_id@, now_ms)]);
            }
            return CacheStep { events, invalidate: false, dial: false };
        }
        events.push(TransportEvent::pool_evict_at(peer_id, now_ms));
        invalidate = true;
    }
    let name: String = base32_encode(node_id.bytes.as_slice());
    let ghost before = event_views(events@);
    events.push(TransportEvent::pool_miss_at(&name, now_ms));
    proof {
        assert(event_views(events@) =~= before.push(EventView::PoolMiss(name@, now_ms)));
        match cached {
            Cached::Connection { peer_id, closed } => {
                assert(event_views(events@) =~= seq![
                    EventView::PoolEvict(peer_id@, now_ms),
                    EventView::PoolMiss(name@, now_ms),
                ]);
            },
            Cached::Nothing => {
                assert(event_views(events@) =~= seq![EventView::PoolMiss(name@, now_ms)]);
            },
        }
    }
    CacheStep { events, invalidate, dial: true }
}

/// Decides about a connection that was just dialled: one that is closed already is
/// given up.
pub fn on_dialled(closed: bool) -> (r: Result<(), String>)
    ensures
        match r {
            Ok(_) => !closed,
            Err(m) => closed && m@ == "pooled connection closed immediately after connect"@,
        },
{
    if closed {
        Err(String::from_str("pooled connection closed immediately after connect"))
    } else {
        Ok(())
    }
}

/// Whether a cached connection is the one to give up: the one that failed, not one
/// that has taken its place.
pub fn is_failed_one(cached_seq: Option<u64>, failed: Option<u64>) -> (r: bool)
    ensures
        r == (cached_seq is Some && cached_seq == failed),
{
    match cached_seq {
        Some(c) => match failed {
            Some(f) => c == f,
            None => false,
        },
        None => false,
    }
}

/// What a caller that waited for another one's dialling gets: its result, or that
/// the other one went away.
pub fn wait_for_connection(outcome: Option<Result<u64, String>>) -> (r: Result<u64, String>)
    ensures
        match outcome {
            Some(o) => r == o,
            None => r matches Err(m) && m@ == "connection attempt dropped"@,
        },
{
    match outcome {
        Some(o) => o,
        None => Err(String::from_str("connection attempt dropped")),
    }
}

// ── Laws of making room ──────────────────────────────────────────────────────

/// The connections that are kept are counted one by one; slots in which one is being
/// dialled do not count.
pub proof fn kept_connections_are_counted(entries: Seq<PoolEntry>, e: PoolEntry)
    ensures
        ready_count(Seq::empty()) == 0,
        e.slot is Ready ==> ready_count(entries.push(e)) == ready_count(entries) + 1,
        e.slot is Connecting ==> ready_count(entries.push(e)) == ready_count(entries),
{
    assert(entries.push(e).drop_last() =~= entries);
}

/// Closed connections are taken out, all of them and nothing else; the rest stays in order.
pub proof fn closed_connections_go(entries: Seq<PoolEntry>)
    ensures
        without_stale(entries) == entries.filter(
            |e: PoolEntry| !(e.slot is Ready && e.slot->Ready_0.closed),
        ),
    decreases entries.len(),
{
    reveal(Seq::filter);
    if entries.len() > 0 {
        closed_connections_go(entries.drop_last());
    } else {
        assert(without_stale(entries) =~= entries.filter(
            |e: PoolEntry| !(e.slot is Ready && e.slot->Ready_0.closed),
        ));
    }
}

/// Of connections in the order of their age, the first `n` go and the others stay in
/// order; slots in which one is being dialled stay.
pub proof fn the_oldest_go(entries: Seq<PoolEntry>, e: PoolEntry, n: nat)
    ensures
        without_oldest(Seq::empty(), n) == Seq::<PoolEntry>::empty(),
        without_oldest(entries.push(e), n) == (if e.slot is Ready && ready_count(entries) < n {
            without_oldest(entries, n)
        } else {
            without_oldest(entries, n).push(e)
        }),
        without_oldest(entries, 0) == entries,
{
    assert(entries.push(e).drop_last() =~= entries);
    nothing_goes(entries);
}

proof fn nothing_goes(entries: Seq<PoolEntry>)
    ensures
        without_oldest(entries, 0) == entries,
    decreases entries.len(),
{
    if entries.len() > 0 {
        nothing_goes(entries.drop_last());
        assert(entries.drop_last().push(entries.last()) =~= entries);
    } else {
        assert(without_oldest(entries, 0) =~= entries);
    }
}

/// Nothing goes where there is room for one more. Else closed connections go, and of the
/// others as many of the oldest as make room for one more, and no more than that; all go
/// where none is to be kept.
pub proof fn no_more_go_than_must(entries: Seq<PoolEntry>, max: nat)
    ensures
        ({
            let open = entries.filter(
                |e: PoolEntry| !(e.slot is Ready && e.slot->Ready_0.closed),
            );
            let n = ready_count(open);
            &&& ready_count(entries) < max ==> evicted(entries, max) == entries
            &&& ready_count(entries) >= max && n < max ==> evicted(entries, max) == open
            &&& n >= max && max > 0 ==> ready_count(entries) < max || evicted(entries, max)
                == without_oldest(open, (n - max + 1) as nat)
            &&& max == 0 ==> evicted(entries, max) == without_oldest(open, n)
        }),
{
    closed_connections_go(entries);
    let open = entries.filter(|e: PoolEntry| !(e.slot is Ready && e.slot->Ready_0.closed));
    nothing_goes(open);
}

/// Keys and events are seen as they are.
pub proof fn keys_are_seen_whole(k: PoolKey, events: Seq<TransportEvent>)
    ensures
        k@.0 == k.node_id.bytes@,
        k@.1 == k.protocol,
        event_views(events).len() == events.len(),
        forall|i: int| 0 <= i < events.len() ==> #[trigger] event_views(events)[i] == events[i]@,
{
}

/// What a caller does for what stands under its key: an open connection is used, a dialling
/// is waited for, and else it dials.
pub proof fn callers_use_what_stands(entries: Seq<PoolEntry>, key: (Seq<u8>, Protocol), i: int)
    requires
        proper_entries(entries, None),
        0 <= i < entries.len(),
        entries[i].key@ == key,
    ensures
        slot_at(entries, key) == Some(entries[i].slot),
        entries[i].slot is Connecting ==> begin_action(entries, key) == PoolAction::Wait,
        entries[i].slot matches Slot::Ready(p) ==> begin_action(entries, key) == (if p.closed {
            PoolAction::Connect
        } else {
            PoolAction::Hit(p)
        }),
{
    slot_of_entry(entries, None, entries[i]);
}

/// A caller whose key stands nowhere dials.
pub proof fn callers_dial_where_nothing_stands(entries: Seq<PoolEntry>, key: (Seq<u8>, Protocol))
    requires
        forall|i: int| 0 <= i < entries.len() ==> (#[trigger] entries[i]).key@ != key,
    ensures
        slot_at(entries, key) is None,
        begin_action(entries, key) == PoolAction::Connect,
{
    key_index_points(entries, key);
}

/// What an operation leaves under its own key: a caller that dials leaves its dialling, a
/// dialled connection stands there open under the next number, a removal leaves nothing, a
/// connection that was seen to be closed is marked, and only the connection of the number
/// that failed is given up.
pub proof fn operations_do_their_part(s: PoolState, key: PoolKey, conn: u64, failed: Option<u64>)
    requires
        proper_pool(s),
    ensures
        begin_action(s.entries, key@) == PoolAction::Connect ==> slot_at(
            pool_step(s, PoolOp::Begin(key)).entries,
            key@,
        ) == Some(Slot::Connecting),
        begin_action(s.entries, key@) != PoolAction::Connect ==> pool_step(s, PoolOp::Begin(key))
            == s,
        slot_at(pool_step(s, PoolOp::Dialled(key, conn)).entries, key@) == Some(
            Slot::Ready(Pooled { conn, dial_seq: s.dialled, closed: false }),
        ),
        s.dialled < u64::MAX ==> pool_step(s, PoolOp::Dialled(key, conn)).dialled == s.dialled + 1,
        slot_at(pool_step(s, PoolOp::Remove(key)).entries, key@) is None,
        slot_at(s.entries, key@) matches Some(Slot::Ready(p)) ==> {
            &&& slot_at(pool_step(s, PoolOp::MarkClosed(key)).entries, key@) == Some(
                Slot::Ready(Pooled { conn: p.conn, dial_seq: p.dial_seq, closed: true }),
            )
            &&& failed == Some(p.dial_seq) ==> slot_at(
                pool_step(s, PoolOp::Evict(key, failed)).entries,
                key@,
            ) is None
            &&& failed != Some(p.dial_seq) ==> pool_step(s, PoolOp::Evict(key, failed)) == s
        },
{
    slot_after_put(s.entries, key, Slot::Connecting);
    let roomy = match s.max_idle {
        Some(max) => evicted(s.entries, max as nat),
        None => s.entries,
    };
    slot_after_put(roomy, key, Slot::Ready(dialled_one(s, conn)));
    slots_after_removal(s.entries, None, key@, key@);
    if let Some(Slot::Ready(p)) = slot_at(s.entries, key@) {
        slot_after_put(s.entries, key, Slot::Ready(Pooled { closed: true, ..p }));
    }
}

/// What stands in a slot is put in its place, or behind all where its key stands nowhere;
/// every other slot stays where it is.
pub proof fn slots_are_put_in_place(entries: Seq<PoolEntry>, key: PoolKey, slot: Slot)
    ensures
        ({
            let after = with_slot(entries, key, slot);
            let i = key_index(entries, key@);
            &&& i < entries.len() ==> after.len() == entries.len() && after[i].slot == slot
                && after[i].key@ == key@
            &&& i >= entries.len() ==> after.len() == entries.len() + 1 && after.last()
                == (PoolEntry { key, slot })
            &&& forall|j: int| 0 <= j < entries.len() && j != i ==> #[trigger] after[j] == entries[j]
        }),
{
    key_index_points(entries, key@);
}

/// A connection that was dialled is kept after room was made for it, where there is a
/// limit; no more are kept than the limit then. Without one nothing goes.
pub proof fn dialled_connections_are_kept(s: PoolState, key: PoolKey, conn: u64)
    ensures
        ({
            let after = pool_step(s, PoolOp::Dialled(key, conn));
            let p = Slot::Ready(Pooled { conn, dial_seq: s.dialled, closed: false });
            &&& after.max_idle == s.max_idle
            &&& s.max_idle is None ==> after.entries == with_slot(s.entries, key, p)
            &&& s.max_idle matches Some(max) ==> after.entries == with_slot(
                evicted(s.entries, max as nat),
                key,
                p,
            ) && (max > 0 ==> ready_count(after.entries) <= max) && (max == 0 ==> ready_count(
                after.entries,
            ) <= 1)
        }),
{
    if let Some(max) = s.max_idle {
        pool_respects_max(
            s.entries,
            key,
            Pooled { conn, dial_seq: s.dialled, closed: false },
            max as nat,
        );
    }
}

/// The numbers of connections go up by one, and start over behind the last.
pub proof fn numbers_go_round(n: u64)
    ensures
        next_number(n) as int == (n + 1) % 0x1_0000_0000_0000_0000,
{
}

/// What is done to a pool is done one by one, in its order.
pub proof fn operations_go_one_by_one(s: PoolState, ops: Seq<PoolOp>, next: PoolOp)
    ensures
        pool_run(s, Seq::empty()) == s,
        pool_run(s, ops.push(next)) == pool_step(pool_run(s, ops), next),
{
    assert(ops.push(next).drop_last() =~= ops);
}

} // verus!
