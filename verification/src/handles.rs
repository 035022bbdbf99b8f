//! The handle store: every body reader, body writer, session, response slot and
//! fetch token that a foreign caller may name by a 64-bit handle.
//!
//! The store decides which handles are live, how many there may be and when they
//! expire; what stands behind a handle is kept beside it, under the same number.
//! Times are milliseconds of one steady clock.
use vstd::prelude::*;

use crate::error::{unknown_handle, CoreError, ErrorCode};
use crate::slots::{
    canonical, slot_contents, slot_issued, table_capacity, table_entries, table_get, table_insert,
    table_len, table_new, table_remove, table_set, well_formed_handle, SlotTable, GENERATION_LIMIT,
    MAX_LIVE,
};

verus! {

pub const DEFAULT_CHANNEL_CAPACITY: usize = 32;

pub const DEFAULT_MAX_CHUNK_SIZE: usize = 64 * 1024;

pub const DEFAULT_DRAIN_TIMEOUT_MS: u64 = 30_000;

pub const DEFAULT_SLAB_TTL_MS: u64 = 300_000;

pub const DEFAULT_SWEEP_INTERVAL_MS: u64 = 60_000;

pub const DEFAULT_MAX_HANDLES: usize = 65_536;

/// A registry that is empty after a sweep is replaced where it has room for more
/// than this many entries.
pub const COMPACT_ABOVE: usize = 128;

// ── Times ────────────────────────────────────────────────────────────────────

/// The time of an entry's last use.
#[derive(Debug, Clone, Copy)]
pub struct Timed {
    pub last_accessed_ms: u64,
}

/// The time that has passed since `then`; none where the clock reads less.
pub open spec fn elapsed(then: u64, now: u64) -> int {
    if then <= now {
        now - then
    } else {
        0
    }
}

/// Whether more than `ttl` has passed since `last`.
pub open spec fn expired(last: u64, now: u64, ttl: u64) -> bool {
    elapsed(last, now) > ttl
}

impl Timed {
    /// An entry that is used for the first time.
    pub fn new(now_ms: u64) -> (r: Self)
        ensures
            r.last_accessed_ms == now_ms,
    {
        Timed { last_accessed_ms: now_ms }
    }

    /// Refreshes the time of last use.
    pub fn touch(&mut self, now_ms: u64)
        ensures
            final(self).last_accessed_ms == now_ms,
    {
        self.last_accessed_ms = now_ms;
    }

    /// Whether more than `ttl_ms` has passed since the last use.
    pub fn is_expired(&self, now_ms: u64, ttl_ms: u64) -> (r: bool)
        ensures
            r == expired(self.last_accessed_ms, now_ms, ttl_ms),
    {
        now_ms.saturating_sub(self.last_accessed_ms) > ttl_ms
    }
}

// ── Registry ─────────────────────────────────────────────────────────────────

/// Handles of one kind, each with the time of its last use.
pub struct Registry {
    table: SlotTable,
}

/// The entries that a sweep keeps.
pub open spec fn survivors(live: Map<u64, u64>, now: u64, ttl: u64) -> Map<u64, u64> {
    live.restrict(Set::new(|h: u64| live.contains_key(h) && !expired(live[h], now, ttl)))
}

/// What is said where a registry is full.
pub open spec fn at_capacity() -> (ErrorCode, Seq<char>) {
    (ErrorCode::Internal, "handle registry at capacity"@)
}

/// The live handles of a registry and the handles it has given out.
pub struct RegistryState {
    pub live: Map<u64, u64>,
    pub issued: Set<u64>,
}

/// What one operation may do to a registry that has not started over: give out a
/// handle that was never given out, or keep the names it has given out while no
/// handle that was not live becomes live.
pub open spec fn registry_step(a: RegistryState, b: RegistryState) -> bool {
    ||| exists|h: u64|
        !a.issued.contains(h) && b.issued == a.issued.insert(h) && b.live.dom()
            == #[trigger] a.live.dom().insert(h)
    ||| b.issued == a.issued && b.live.dom().subset_of(a.live.dom())
}

impl Registry {
    /// The live handles and the handles given out.
    pub open spec fn state(&self) -> RegistryState {
        RegistryState { live: self.live(), issued: self.issued() }
    }

    /// The live handles and the time of each one's last use.
    pub closed spec fn live(&self) -> Map<u64, u64> {
        slot_contents(self.table)
    }

    /// The handles given out so far.
    pub closed spec fn issued(&self) -> Set<u64> {
        slot_issued(self.table)
    }

    /// Every live handle was given out, and all have the form of handles.
    pub open spec fn wf(&self) -> bool {
        &&& self.live().dom().finite()
        &&& self.issued().finite()
        &&& self.live().dom().subset_of(self.issued())
        &&& forall|h: u64| #[trigger] self.issued().contains(h) ==> well_formed_handle(h)
    }

    /// An empty registry.
    pub fn new() -> (r: Self)
        ensures
            r.wf(),
            r.live() == Map::<u64, u64>::empty(),
            r.issued() == Set::<u64>::empty(),
    {
        Registry { table: table_new() }
    }

    /// The number of live handles.
    pub fn len(&self) -> (n: usize)
        ensures
            n == self.live().len(),
    {
        table_len(&self.table)
    }

    /// Gives out a handle, unless `max` are live. The handle was never given out
    /// before.
    pub fn insert_checked(&mut self, max: usize, now_ms: u64) -> (r: Result<u64, CoreError>)
        requires
            old(self).wf(),
            old(self).live().len() < MAX_LIVE,
        ensures
            final(self).wf(),
            match r {
                Ok(h) => {
                    &&& old(self).live().len() < max
                    &&& well_formed_handle(h)
                    &&& !old(self).issued().contains(h)
                    &&& final(self).issued() == old(self).issued().insert(h)
                    &&& final(self).live() == old(self).live().insert(h, now_ms)
                },
                Err(e) => {
                    &&& old(self).live().len() >= max
                    &&& e@ == at_capacity()
                    &&& *final(self) == *old(self)
                },
            },
            registry_step(old(self).state(), final(self).state()),
    {
        if table_len(&self.table) >= max {
            return Err(CoreError::internal("handle registry at capacity"));
        }
        let stamp = Timed::new(now_ms);
        let h = table_insert(&mut self.table, stamp.last_accessed_ms);
        proof {
            assert(self.state().live.dom() =~= old(self).state().live.dom().insert(h));
        }
        Ok(h)
    }

    /// Whether a handle is live.
    pub fn contains(&self, handle: u64) -> (r: bool)
        ensures
            r == self.live().contains_key(canonical(handle)),
    {
        table_get(&self.table, handle).is_some()
    }

    /// Refreshes a handle's time of last use; says whether the handle is live.
    pub fn touch(&mut self, handle: u64, now_ms: u64) -> (r: bool)
        requires
            old(self).wf(),
        ensures
            final(self).wf(),
            r == old(self).live().contains_key(canonical(handle)),
            final(self).issued() == old(self).issued(),
            r ==> final(self).live() == old(self).live().insert(canonical(handle), now_ms),
            !r ==> final(self).live() == old(self).live(),
            registry_step(old(self).state(), final(self).state()),
    {
        let r = table_set(&mut self.table, handle, now_ms);
        proof {
            if r {
                assert(self.live().dom() =~= old(self).live().dom());
            }
        }
        r
    }

    /// Takes a handle out; says whether it was live.
    pub fn remove(&mut self, handle: u64) -> (r: bool)
        requires
            old(self).wf(),
        ensures
            final(self).wf(),
            r == old(self).live().contains_key(canonical(handle)),
            final(self).live() == old(self).live().remove(canonical(handle)),
            old(self).issued().len() < GENERATION_LIMIT ==> final(self).issued() == old(self).issued(),
            old(self).issued().len() < GENERATION_LIMIT ==> registry_step(
                old(self).state(),
                final(self).state(),
            ),
    {
        let r = table_remove(&mut self.table, handle).is_some();
        proof {
            assert(self.issued().subset_of(old(self).issued()));
            vstd::set_lib::lemma_set_subset_finite(old(self).issued(), self.issued());
            assert forall|k: u64| self.live().dom().contains(k) implies self.issued().contains(
                k,
            ) by {
                assert(old(self).live().dom().contains(k));
            }
        }
        r
    }

    /// Takes out every handle that was not used for more than `ttl_ms`, and says
    /// which. Where that empties a registry with much room, the registry starts
    /// over.
    pub fn sweep(&mut self, now_ms: u64, ttl_ms: u64) -> (r: Vec<u64>)
        requires
            old(self).wf(),
        ensures
            final(self).wf(),
            final(self).live() == survivors(old(self).live(), now_ms, ttl_ms),
            forall|h: u64|
                #![trigger r@.contains(h)]
                r@.contains(h) <==> old(self).live().contains_key(h) && expired(
                    old(self).live()[h],
                    now_ms,
                    ttl_ms,
                ),
            r@.no_duplicates(),
            r@.len() == 0 ==> final(self).issued() == old(self).issued(),
            final(self).live().len() > 0 && old(self).issued().len() < GENERATION_LIMIT ==> final(self).issued() == old(self).issued(),
            final(self).live().len() > 0 && old(self).issued().len() < GENERATION_LIMIT
                ==> registry_step(old(self).state(), final(self).state()),
    {
        let entries = table_entries(&self.table);
        let ghost start = self.live();
        let ghost names = self.issued();
        let mut gone: Vec<u64> = Vec::new();
        let mut i: usize = 0;
        while i < entries.len()
            invariant
                i <= entries.len(),
                self.wf(),
                start.dom().finite(),
                forall|k: int|
                    0 <= k < entries@.len() ==> start.contains_key((#[trigger] entries@[k]).0)
                        && start[entries@[k].0] == entries@[k].1 && well_formed_handle(
                        entries@[k].0,
                    ),
                forall|k: int, j: int|
                    0 <= k < j < entries@.len() ==> (#[trigger] entries@[k]).0 != (
                    #[trigger] entries@[j]).0,
                forall|h: u64|
                    #![trigger gone@.contains(h)]
                    gone@.contains(h) <==> exists|k: int|
                        0 <= k < i && (#[trigger] entries@[k]).0 == h && expired(
                            entries@[k].1,
                            now_ms,
                            ttl_ms,
                        ),
                gone@.no_duplicates(),
                self.live() == start.remove_keys(gone@.to_set()),
                gone@.len() == 0 ==> self.issued() == names,
                names.len() < GENERATION_LIMIT ==> self.issued() == names,
            decreases entries.len() - i,
        {
            let (h, last) = entries[i];
            let stamp = Timed { last_accessed_ms: last };
            if stamp.is_expired(now_ms, ttl_ms) {
                let ghost before = gone@;
                let ghost live_before = self.live();
                let was = self.remove(h);
                gone.push(h);
                proof {
                    assert(canonical(h) == h);
                    assert(!before.contains(h)) by {
                        if before.contains(h) {
                            let k = choose|k: int|
                                0 <= k < i && (#[trigger] entries@[k]).0 == h && expired(
                                    entries@[k].1,
                                    now_ms,
                                    ttl_ms,
                                );
                            assert(entries@[k].0 != entries@[i as int].0);
                        }
                    }
                    assert(gone@.to_set() =~= before.to_set().insert(h)) by {
                        assert forall|x: u64| gone@.contains(x) == (before.contains(x) || x
                            == h) by {
                            if before.contains(x) {
                                let n = choose|n: int| 0 <= n < before.len() && before[n] == x;
                                assert(gone@[n] == x);
                            }
                            if x == h {
                                assert(gone@[before.len() as int] == x);
                            }
                        }
                    }
                    assert(self.live() =~= start.remove_keys(gone@.to_set()));
                    assert forall|x: u64| gone@.contains(x) <==> exists|k: int|
                        0 <= k < i + 1 && (#[trigger] entries@[k]).0 == x && expired(
                            entries@[k].1,
                            now_ms,
                            ttl_ms,
                        ) by {
                        if gone@.contains(x) && x == h {
                            assert(entries@[i as int].0 == x);
                        }
                        if before.contains(x) {
                            assert(gone@.to_set().contains(x));
                        }
                        if exists|k: int|
                            0 <= k < i + 1 && (#[trigger] entries@[k]).0 == x && expired(
                                entries@[k].1,
                                now_ms,
                                ttl_ms,
                            ) {
                            assert(gone@.to_set().contains(x));
                        }
                    }
                }
            }
            i = i + 1;
        }
        proof {
            assert forall|h: u64| #[trigger] gone@.contains(h) <==> start.contains_key(h)
                && expired(start[h], now_ms, ttl_ms) by {
                if start.contains_key(h) && expired(start[h], now_ms, ttl_ms) {
                    let k = choose|k: int| 0 <= k < entries@.len() && (#[trigger] entries@[k]).0
                        == h;
                    assert(entries@[k].1 == start[h]);
                }
            }
            assert(self.live() =~= survivors(start, now_ms, ttl_ms)) by {
                assert forall|h: u64| self.live().contains_key(h) == survivors(
                    start,
                    now_ms,
                    ttl_ms,
                ).contains_key(h) by {
                    assert(gone@.to_set().contains(h) == gone@.contains(h));
                }
            }
        }
        if gone.len() > 0 && table_len(&self.table) == 0 && table_capacity(&self.table)
            > COMPACT_ABOVE {
            proof {
                assert(self.live() =~= Map::empty()) by {
                    assert(self.live().dom() =~= Set::empty());
                }
            }
            self.table = table_new();
        }
        gone
    }
}

/// The states of a registry, one operation apart each.
pub open spec fn registry_run(states: Seq<RegistryState>) -> bool {
    forall|i: int|
        #![trigger states[i]]
        0 <= i && i + 1 < states.len() ==> registry_step(states[i], states[i + 1])
}

/// A handle that was given out and is no longer live never becomes live again:
/// whatever is inserted later has another handle. This holds over every run of
/// operations without a sweep that makes the registry start over, and as long as
/// fewer than [`GENERATION_LIMIT`] handles have been given out.
pub proof fn stale_handle_stays_dead(states: Seq<RegistryState>, h: u64)
    requires
        states.len() > 0,
        registry_run(states),
        states[0].issued.contains(h),
        !states[0].live.contains_key(h),
    ensures
        states.last().issued.contains(h),
        !states.last().live.contains_key(h),
    decreases states.len(),
{
    if states.len() > 1 {
        let a = states[0];
        let b = states[1];
        assert(registry_step(a, b));
        if b.issued == a.issued && b.live.dom().subset_of(a.live.dom()) {
            assert(!b.live.dom().contains(h));
        } else {
            let g = choose|g: u64|
                !a.issued.contains(g) && b.issued == a.issued.insert(g) && b.live.dom()
                    == #[trigger] a.live.dom().insert(g);
            assert(g != h);
            assert(!b.live.dom().contains(h));
        }
        let rest = states.drop_first();
        assert forall|i: int|
            #![trigger rest[i]]
            0 <= i && i + 1 < rest.len() implies registry_step(rest[i], rest[i + 1]) by {
            assert(rest[i] == states[i + 1]);
            assert(rest[i + 1] == states[i + 2]);
        }
        stale_handle_stays_dead(rest, h);
        assert(rest.last() == states.last());
    }
}

/// The number zero, which stands for "no handle", never names an entry.
pub proof fn zero_names_nothing(r: &Registry)
    requires
        r.wf(),
    ensures
        !r.live().contains_key(canonical(0)),
{
    assert(canonical(0) == 0x1_0000_0000);
    if r.live().dom().contains(canonical(0)) {
        assert(r.issued().contains(canonical(0)));
    }
}

/// A handle that was used within the time to live outlives a sweep, and a sweep
/// after a sweep at the same time takes nothing more.
pub proof fn used_handles_outlive_sweeps(live: Map<u64, u64>, h: u64, now: u64, ttl: u64)
    requires
        live.contains_key(h),
        elapsed(live[h], now) <= ttl,
    ensures
        survivors(live, now, ttl).contains_key(h),
        survivors(live, now, ttl)[h] == live[h],
        survivors(survivors(live, now, ttl), now, ttl) == survivors(live, now, ttl),
{
    assert(survivors(survivors(live, now, ttl), now, ttl) =~= survivors(live, now, ttl));
}

// ── Configuration ────────────────────────────────────────────────────────────

/// Configuration of a [`HandleStore`].
#[derive(Debug, Clone, Copy)]
pub struct StoreConfig {
    /// Body-channel capacity (in chunks).  Minimum 1.
    pub channel_capacity: usize,
    /// Maximum byte length of a single chunk in `send_chunk`.  Minimum 1.
    pub max_chunk_size: usize,
    /// Milliseconds to wait for a slow body reader before dropping.
    pub drain_timeout_ms: u64,
    /// Maximum handle slots per registry.  Prevents unbounded growth.
    pub max_handles: usize,
    /// Time to live of handle entries; expired entries are swept periodically.
    /// Zero disables sweeping.
    pub ttl_ms: u64,
}

impl Default for StoreConfig {
    fn default() -> (r: Self)
        ensures
            r.channel_capacity == DEFAULT_CHANNEL_CAPACITY,
            r.max_chunk_size == DEFAULT_MAX_CHUNK_SIZE,
            r.drain_timeout_ms == DEFAULT_DRAIN_TIMEOUT_MS,
            r.max_handles == DEFAULT_MAX_HANDLES,
            r.ttl_ms == DEFAULT_SLAB_TTL_MS,
    {
        StoreConfig {
            channel_capacity: DEFAULT_CHANNEL_CAPACITY,
            max_chunk_size: DEFAULT_MAX_CHUNK_SIZE,
            drain_timeout_ms: DEFAULT_DRAIN_TIMEOUT_MS,
            max_handles: DEFAULT_MAX_HANDLES,
            ttl_ms: DEFAULT_SLAB_TTL_MS,
        }
    }
}

/// The head of a response that a handler answers with.
#[derive(Debug, Clone)]
pub struct ResponseHeadEntry {
    pub status: u16,
    pub headers: Vec<(String, String)>,
}

// ── Chunks ───────────────────────────────────────────────────────────────────

/// The pieces in which a chunk travels: the chunk itself where it is at most
/// `max` long, else pieces of `max` bytes and a last one with the rest.
pub open spec fn pieces(chunk: Seq<u8>, max: nat) -> Seq<Seq<u8>>
    decreases chunk.len(),
{
    if max == 0 || chunk.len() <= max {
        seq![chunk]
    } else {
        seq![chunk.take(max as int)] + pieces(chunk.skip(max as int), max)
    }
}

/// The bytes of a list of pieces, in order.
pub open spec fn joined(parts: Seq<Seq<u8>>) -> Seq<u8>
    decreases parts.len(),
{
    if parts.len() == 0 {
        Seq::empty()
    } else {
        parts[0] + joined(parts.drop_first())
    }
}

/// The pieces of a chunk hold its bytes in order, none is longer than `max`, and
/// none but that of an empty chunk is empty.
pub proof fn pieces_hold_the_chunk(chunk: Seq<u8>, max: nat)
    requires
        max > 0,
    ensures
        joined(pieces(chunk, max)) == chunk,
        forall|i: int|
            0 <= i < pieces(chunk, max).len() ==> (#[trigger] pieces(chunk, max)[i]).len() <= max,
        chunk.len() > 0 ==> forall|i: int|
            0 <= i < pieces(chunk, max).len() ==> (#[trigger] pieces(chunk, max)[i]).len() > 0,
    decreases chunk.len(),
{
    if chunk.len() <= max {
        assert(pieces(chunk, max).drop_first() =~= Seq::empty());
        assert(joined(pieces(chunk, max).drop_first()) =~= Seq::empty());
        assert(joined(pieces(chunk, max)) =~= chunk);
    } else {
        let rest = chunk.skip(max as int);
        pieces_hold_the_chunk(rest, max);
        let all = pieces(chunk, max);
        assert(all.drop_first() =~= pieces(rest, max));
        assert(joined(all) =~= chunk);
        assert forall|i: int| 0 <= i < all.len() implies (#[trigger] all[i]).len() <= max
            && all[i].len() > 0 by {
            if i > 0 {
                assert(all[i] == pieces(rest, max)[i - 1]);
            }
        }
    }
}

/// A copy of the bytes from `from` up to `to`.
pub fn copy_range(v: &[u8], from: usize, to: usize) -> (r: Vec<u8>)
    requires
        from <= to <= v@.len(),
    ensures
        r@ == v@.subrange(from as int, to as int),
{
    let mut out: Vec<u8> = Vec::new();
    let mut i: usize = from;
    while i < to
        invariant
            from <= i <= to <= v@.len(),
            out@ == v@.subrange(from as int, i as int),
        decreases to - i,
    {
        out.push(v[i]);
        i = i + 1;
        proof {
            assert(out@ =~= v@.subrange(from as int, i as int));
        }
    }
    out
}

/// The bytes of a list of byte vectors.
pub open spec fn parts_view(parts: Seq<Vec<u8>>) -> Seq<Seq<u8>> {
    parts.map_values(|p: Vec<u8>| p@)
}

/// The pieces in which a chunk is sent.
pub fn split_chunk(chunk: &[u8], max: usize) -> (r: Vec<Vec<u8>>)
    requires
        max > 0,
    ensures
        parts_view(r@) == pieces(chunk@, max as nat),
{
    let mut out: Vec<Vec<u8>> = Vec::new();
    let mut offset: usize = 0;
    proof {
        assert(chunk@.skip(0) =~= chunk@);
        assert(parts_view(out@) + pieces(chunk@.skip(0), max as nat) =~= pieces(
            chunk@,
            max as nat,
        ));
    }
    while chunk.len() - offset > max
        invariant
            offset <= chunk@.len(),
            max > 0,
            parts_view(out@) + pieces(chunk@.skip(offset as int), max as nat) == pieces(
                chunk@,
                max as nat,
            ),
        decreases chunk.len() - offset,
    {
        let ghost before = out@;
        out.push(copy_range(chunk, offset, offset + max));
        proof {
            let rest = chunk@.skip(offset as int);
            assert(out@.last()@ =~= rest.take(max as int));
            assert(rest.skip(max as int) =~= chunk@.skip(offset + max));
            assert(parts_view(out@) =~= parts_view(before).push(rest.take(max as int)));
            assert(parts_view(out@) + pieces(chunk@.skip(offset + max), max as nat)
                =~= parts_view(before) + pieces(rest, max as nat));
        }
        offset = offset + max;
    }
    let ghost before = out@;
    out.push(copy_range(chunk, offset, chunk.len()));
    proof {
        let rest = chunk@.skip(offset as int);
        assert(out@.last()@ =~= rest);
        assert(parts_view(out@) =~= parts_view(before) + pieces(rest, max as nat));
    }
    out
}

/// How one send into a body channel ended.
#[derive(Debug, Clone, Copy, PartialEq, Eq, Structural)]
pub enum SendOutcome {
    /// The chunk is in the channel.
    Sent,
    /// The drain timeout passed before the channel had room.
    TimedOut,
    /// The reading end is gone.
    ReaderGone,
}

/// What a failed send is answered with.
pub open spec fn send_fault(outcome: SendOutcome) -> Option<(ErrorCode, Seq<char>)> {
    match outcome {
        SendOutcome::Sent => None,
        SendOutcome::TimedOut => Some(
            (ErrorCode::Timeout, "drain timeout: body reader is too slow"@),
        ),
        SendOutcome::ReaderGone => Some((ErrorCode::Internal, "body reader dropped"@)),
    }
}

/// Turns the outcome of one send into a result.
pub fn send_result(outcome: SendOutcome) -> (r: Result<(), CoreError>)
    ensures
        match r {
            Ok(_) => send_fault(outcome) is None,
            Err(e) => send_fault(outcome) == Some(e@),
        },
{
    match outcome {
        SendOutcome::Sent => Ok(()),
        SendOutcome::TimedOut => Err(CoreError::timeout("drain timeout: body reader is too slow")),
        SendOutcome::ReaderGone => Err(CoreError::internal("body reader dropped")),
    }
}

/// How a read that does not wait ended.
#[derive(Debug)]
pub enum TryReceive {
    /// Another read holds the channel.
    Contended,
    /// Nothing is in the channel yet.
    Empty,
    /// A chunk was in the channel.
    Chunk(Vec<u8>),
    /// The channel is empty and its writing end is gone.
    Disconnected,
}

// ── Store ────────────────────────────────────────────────────────────────────

/// Per-endpoint handle registry.
pub struct HandleStore {
    pub readers: Registry,
    pub writers: Registry,
    pub sessions: Registry,
    pub request_heads: Registry,
    pub fetch_cancels: Registry,
    /// Readers that wait to be claimed, under the handle of their writer, with
    /// the time at which each was stored.
    pub pending_readers: std::collections::HashMap<u64, u64>,
    pub config: StoreConfig,
}

/// What a sweep took out of each registry.
#[derive(Debug)]
pub struct SweepReport {
    pub readers: Vec<u64>,
    pub writers: Vec<u64>,
    pub request_heads: Vec<u64>,
    pub sessions: Vec<u64>,
    pub fetch_cancels: Vec<u64>,
    pub pending_readers: Vec<u64>,
}

/// The live handles that a guarded allocation touches.
#[verifier::ext_equal]
pub struct Guarded {
    pub readers: Map<u64, u64>,
    pub writers: Map<u64, u64>,
    pub request_heads: Map<u64, u64>,
}

/// The sum of two counts, or the largest count where the sum does not fit.
pub open spec fn saturating(a: int, b: int) -> int {
    if a + b > usize::MAX {
        usize::MAX as int
    } else {
        a + b
    }
}

/// The number of all live handles, or the largest count where it does not fit.
pub open spec fn total_live(store: &HandleStore) -> int {
    saturating(
        saturating(
            saturating(
                saturating(
                    store.readers.live().len() as int,
                    store.writers.live().len() as int,
                ),
                store.sessions.live().len() as int,
            ),
            store.request_heads.live().len() as int,
        ),
        store.fetch_cancels.live().len() as int,
    )
}

impl HandleStore {
    /// Every registry is well-formed.
    pub open spec fn wf(&self) -> bool {
        &&& self.readers.wf()
        &&& self.writers.wf()
        &&& self.sessions.wf()
        &&& self.request_heads.wf()
        &&& self.fetch_cancels.wf()
    }

    /// The live handles that a guarded allocation touches.
    pub open spec fn guarded(&self) -> Guarded {
        Guarded {
            readers: self.readers.live(),
            writers: self.writers.live(),
            request_heads: self.request_heads.live(),
        }
    }

    /// Everything but the readers is as in `other`.
    pub open spec fn same_but_readers(&self, other: &HandleStore) -> bool {
        &&& self.writers == other.writers
        &&& self.sessions == other.sessions
        &&& self.request_heads == other.request_heads
        &&& self.fetch_cancels == other.fetch_cancels
        &&& self.pending_readers == other.pending_readers
        &&& self.config == other.config
    }

    /// Everything but the writers is as in `other`.
    pub open spec fn same_but_writers(&self, other: &HandleStore) -> bool {
        &&& self.readers == other.readers
        &&& self.sessions == other.sessions
        &&& self.request_heads == other.request_heads
        &&& self.fetch_cancels == other.fetch_cancels
        &&& self.pending_readers == other.pending_readers
        &&& self.config == other.config
    }

    /// Everything but the sessions is as in `other`.
    pub open spec fn same_but_sessions(&self, other: &HandleStore) -> bool {
        &&& self.readers == other.readers
        &&& self.writers == other.writers
        &&& self.request_heads == other.request_heads
        &&& self.fetch_cancels == other.fetch_cancels
        &&& self.pending_readers == other.pending_readers
        &&& self.config == other.config
    }

    /// Everything but the response slots is as in `other`.
    pub open spec fn same_but_heads(&self, other: &HandleStore) -> bool {
        &&& self.readers == other.readers
        &&& self.writers == other.writers
        &&& self.sessions == other.sessions
        &&& self.fetch_cancels == other.fetch_cancels
        &&& self.pending_readers == other.pending_readers
        &&& self.config == other.config
    }

    /// Everything but the fetch tokens is as in `other`.
    pub open spec fn same_but_tokens(&self, other: &HandleStore) -> bool {
        &&& self.readers == other.readers
        &&& self.writers == other.writers
        &&& self.sessions == other.sessions
        &&& self.request_heads == other.request_heads
        &&& self.pending_readers == other.pending_readers
        &&& self.config == other.config
    }

    /// A new handle store with the given configuration.
    pub fn new(config: StoreConfig) -> (r: Self)
        ensures
            r.wf(),
            r.config == config,
            r.readers.live() == Map::<u64, u64>::empty(),
            r.writers.live() == Map::<u64, u64>::empty(),
            r.sessions.live() == Map::<u64, u64>::empty(),
            r.request_heads.live() == Map::<u64, u64>::empty(),
            r.fetch_cancels.live() == Map::<u64, u64>::empty(),
            r.pending_readers@ == Map::<u64, u64>::empty(),
    {
        HandleStore {
            readers: Registry::new(),
            writers: Registry::new(),
            sessions: Registry::new(),
            request_heads: Registry::new(),
            fetch_cancels: Registry::new(),
            pending_readers: std::collections::HashMap::new(),
            config,
        }
    }

    /// The configured drain timeout.
    pub fn drain_timeout(&self) -> (r: u64)
        ensures
            r == self.config.drain_timeout_ms,
    {
        self.config.drain_timeout_ms
    }

    /// The configured maximum chunk size.
    pub fn max_chunk_size(&self) -> (r: usize)
        ensures
            r == self.config.max_chunk_size,
    {
        self.config.max_chunk_size
    }

    /// The number of live readers, writers and sessions, and of all live handles.
    pub fn count_handles(&self) -> (r: (usize, usize, usize, usize))
        ensures
            r.0 == self.readers.live().len(),
            r.1 == self.writers.live().len(),
            r.2 == self.sessions.live().len(),
            r.3 == total_live(self),
    {
        let readers: usize = self.readers.len();
        let writers: usize = self.writers.len();
        let sessions: usize = self.sessions.len();
        let heads: usize = self.request_heads.len();
        let tokens: usize = self.fetch_cancels.len();
        let total: usize = readers.saturating_add(writers).saturating_add(
            sessions,
        ).saturating_add(heads).saturating_add(tokens);
        (readers, writers, sessions, total)
    }

    // ── Readers and writers ──────────────────────────────────────────────────

    /// Gives out a reader handle.
    pub fn insert_reader(&mut self, now_ms: u64) -> (r: Result<u64, CoreError>)
        requires
            old(self).wf(),
            old(self).readers.live().len() < MAX_LIVE,
        ensures
            final(self).wf(),
            final(self).same_but_readers(old(self)),
            match r {
                Ok(h) => {
                    &&& old(self).readers.live().len() < old(self).config.max_handles
                    &&& well_formed_handle(h)
                    &&& !old(self).readers.issued().contains(h)
                    &&& final(self).readers.issued() == old(self).readers.issued().insert(h)
                    &&& final(self).readers.live() == old(self).readers.live().insert(h, now_ms)
                },
                Err(e) => {
                    &&& old(self).readers.live().len() >= old(self).config.max_handles
                    &&& e@ == at_capacity()
                    &&& final(self).readers == old(self).readers
                },
            },
            old(self).readers.issued().len() < GENERATION_LIMIT ==> registry_step(
                old(self).readers.state(),
                final(self).readers.state(),
            ),
    {
        self.readers.insert_checked(self.config.max_handles, now_ms)
    }

    /// Gives out a writer handle.
    pub fn insert_writer(&mut self, now_ms: u64) -> (r: Result<u64, CoreError>)
        requires
            old(self).wf(),
            old(self).writers.live().len() < MAX_LIVE,
        ensures
            final(self).wf(),
            final(self).same_but_writers(old(self)),
            match r {
                Ok(h) => {
                    &&& old(self).writers.live().len() < old(self).config.max_handles
                    &&& well_formed_handle(h)
                    &&& !old(self).writers.issued().contains(h)
                    &&& final(self).writers.issued() == old(self).writers.issued().insert(h)
                    &&& final(self).writers.live() == old(self).writers.live().insert(h, now_ms)
                },
                Err(e) => {
                    &&& old(self).writers.live().len() >= old(self).config.max_handles
                    &&& e@ == at_capacity()
                    &&& final(self).writers == old(self).writers
                },
            },
            old(self).writers.issued().len() < GENERATION_LIMIT ==> registry_step(
                old(self).writers.state(),
                final(self).writers.state(),
            ),
    {
        self.writers.insert_checked(self.config.max_handles, now_ms)
    }

    /// Keeps the reading end of a channel under the handle of its writer, until it
    /// is claimed.
    pub fn store_pending_reader(&mut self, writer_handle: u64, now_ms: u64)
        requires
            old(self).wf(),
        ensures
            final(self).wf(),
            final(self).pending_readers@ == old(self).pending_readers@.insert(
                writer_handle,
                now_ms,
            ),
            final(self).readers == old(self).readers,
            final(self).writers == old(self).writers,
            final(self).sessions == old(self).sessions,
            final(self).request_heads == old(self).request_heads,
            final(self).fetch_cancels == old(self).fetch_cancels,
            final(self).config == old(self).config,
    {
        self.pending_readers.insert(writer_handle, now_ms);
    }

    /// Claims the reading end that was stored under a writer's handle; says
    /// whether there was one. It can be claimed once.
    pub fn claim_pending_reader(&mut self, writer_handle: u64) -> (r: bool)
        requires
            old(self).wf(),
        ensures
            final(self).wf(),
            r == old(self).pending_readers@.contains_key(writer_handle),
            final(self).pending_readers@ == old(self).pending_readers@.remove(writer_handle),
            final(self).readers == old(self).readers,
            final(self).writers == old(self).writers,
            final(self).sessions == old(self).sessions,
            final(self).request_heads == old(self).request_heads,
            final(self).fetch_cancels == old(self).fetch_cancels,
            final(self).config == old(self).config,
    {
        let r = self.pending_readers.remove(&writer_handle).is_some();
        proof {
            if !r {
                assert(self.pending_readers@ =~= old(self).pending_readers@.remove(writer_handle));
            }
        }
        r
    }

    /// Begins a read: the handle must be live, and counts as used.
    pub fn begin_read(&mut self, handle: u64, now_ms: u64) -> (r: Result<(), CoreError>)
        requires
            old(self).wf(),
        ensures
            final(self).wf(),
            final(self).same_but_readers(old(self)),
            final(self).readers.issued() == old(self).readers.issued(),
            match r {
                Ok(_) => {
                    &&& old(self).readers.live().contains_key(canonical(handle))
                    &&& final(self).readers.live() == old(self).readers.live().insert(
                        canonical(handle),
                        now_ms,
                    )
                },
                Err(e) => {
                    &&& !old(self).readers.live().contains_key(canonical(handle))
                    &&& e@ == unknown_handle(handle)
                    &&& final(self).readers.live() == old(self).readers.live()
                },
            },
            old(self).readers.issued().len() < GENERATION_LIMIT ==> registry_step(
                old(self).readers.state(),
                final(self).readers.state(),
            ),
    {
        if self.readers.touch(handle, now_ms) {
            Ok(())
        } else {
            Err(CoreError::invalid_handle(handle))
        }
    }

    /// Ends a read that waited: at the end of the body, or when the read was
    /// cancelled, the handle is given up.
    pub fn next_chunk(&mut self, handle: u64, received: Option<Vec<u8>>) -> (r: Option<Vec<u8>>)
        requires
            old(self).wf(),
        ensures
            final(self).wf(),
            final(self).same_but_readers(old(self)),
            r == received,
            received is Some ==> final(self).readers == old(self).readers,
            received is None ==> final(self).readers.live() == old(self).readers.live().remove(
                canonical(handle),
            ),
            old(self).readers.issued().len() < GENERATION_LIMIT ==> registry_step(
                old(self).readers.state(),
                final(self).readers.state(),
            ),
    {
        if received.is_none() {
            self.readers.remove(handle);
        }
        received
    }

    /// Ends a read that did not wait. At the end of the body the handle is given
    /// up; where nothing was to be had, the caller has to try again.
    pub fn try_next_chunk(&mut self, handle: u64, received: TryReceive) -> (r: Result<
        Option<Vec<u8>>,
        CoreError,
    >)
        requires
            old(self).wf(),
        ensures
            final(self).wf(),
            final(self).same_but_readers(old(self)),
            received !is Disconnected ==> final(self).readers == old(self).readers,
            match received {
                TryReceive::Chunk(c) => r matches Ok(Some(got)) && got == c,
                TryReceive::Disconnected => {
                    &&& r matches Ok(None)
                    &&& final(self).readers.live() == old(self).readers.live().remove(
                        canonical(handle),
                    )
                },
                TryReceive::Contended => r matches Err(e) && e@ == (
                    ErrorCode::Internal,
                    "try_next_chunk: lock contended"@,
                ),
                TryReceive::Empty => r matches Err(e) && e@ == (
                    ErrorCode::Internal,
                    "try_next_chunk: channel empty"@,
                ),
            },
            old(self).readers.issued().len() < GENERATION_LIMIT ==> registry_step(
                old(self).readers.state(),
                final(self).readers.state(),
            ),
    {
        match received {
            TryReceive::Contended => Err(CoreError::internal("try_next_chunk: lock contended")),
            TryReceive::Empty => Err(CoreError::internal("try_next_chunk: channel empty")),
            TryReceive::Chunk(c) => Ok(Some(c)),
            TryReceive::Disconnected => {
                self.readers.remove(handle);
                Ok(None)
            },
        }
    }

    /// Begins a send: the handle must be live, and counts as used. Gives the
    /// pieces in which the chunk is to be sent, in order.
    pub fn send_chunk(&mut self, handle: u64, chunk: &[u8], now_ms: u64) -> (r: Result<
        Vec<Vec<u8>>,
        CoreError,
    >)
        requires
            old(self).wf(),
            old(self).config.max_chunk_size > 0,
        ensures
            final(self).wf(),
            final(self).same_but_writers(old(self)),
            final(self).writers.issued() == old(self).writers.issued(),
            match r {
                Ok(parts) => {
                    &&& old(self).writers.live().contains_key(canonical(handle))
                    &&& final(self).writers.live() == old(self).writers.live().insert(
                        canonical(handle),
                        now_ms,
                    )
                    &&& parts_view(parts@) == pieces(
                        chunk@,
                        old(self).config.max_chunk_size as nat,
                    )
                },
                Err(e) => {
                    &&& !old(self).writers.live().contains_key(canonical(handle))
                    &&& e@ == unknown_handle(handle)
                    &&& final(self).writers.live() == old(self).writers.live()
                },
            },
            old(self).writers.issued().len() < GENERATION_LIMIT ==> registry_step(
                old(self).writers.state(),
                final(self).writers.state(),
            ),
    {
        if self.writers.touch(handle, now_ms) {
            Ok(split_chunk(chunk, self.config.max_chunk_size))
        } else {
            Err(CoreError::invalid_handle(handle))
        }
    }

    /// Signals the end of a body by giving its writer up.
    pub fn finish_body(&mut self, handle: u64) -> (r: Result<(), CoreError>)
        requires
            old(self).wf(),
        ensures
            final(self).wf(),
            final(self).same_but_writers(old(self)),
            final(self).writers.live() == old(self).writers.live().remove(canonical(handle)),
            match r {
                Ok(_) => old(self).writers.live().contains_key(canonical(handle)),
                Err(e) => !old(self).writers.live().contains_key(canonical(handle)) && e@
                    == unknown_handle(handle),
            },
            old(self).writers.issued().len() < GENERATION_LIMIT ==> registry_step(
                old(self).writers.state(),
                final(self).writers.state(),
            ),
    {
        if self.writers.remove(handle) {
            Ok(())
        } else {
            Err(CoreError::invalid_handle(handle))
        }
    }

    /// Gives a reader up; says whether reads in flight have to be cancelled.
    pub fn cancel_reader(&mut self, handle: u64) -> (r: bool)
        requires
            old(self).wf(),
        ensures
            final(self).wf(),
            final(self).same_but_readers(old(self)),
            r == old(self).readers.live().contains_key(canonical(handle)),
            final(self).readers.live() == old(self).readers.live().remove(canonical(handle)),
            old(self).readers.issued().len() < GENERATION_LIMIT ==> registry_step(
                old(self).readers.state(),
                final(self).readers.state(),
            ),
    {
        self.readers.remove(handle)
    }

    // ── Sessions ─────────────────────────────────────────────────────────────

    /// Gives out a session handle.
    pub fn insert_session(&mut self, now_ms: u64) -> (r: Result<u64, CoreError>)
        requires
            old(self).wf(),
            old(self).sessions.live().len() < MAX_LIVE,
        ensures
            final(self).wf(),
            final(self).same_but_sessions(old(self)),
            match r {
                Ok(h) => {
                    &&& old(self).sessions.live().len() < old(self).config.max_handles
                    &&& well_formed_handle(h)
                    &&& !old(self).sessions.issued().contains(h)
                    &&& final(self).sessions.issued() == old(self).sessions.issued().insert(h)
                    &&& final(self).sessions.live() == old(self).sessions.live().insert(h, now_ms)
                },
                Err(e) => {
                    &&& old(self).sessions.live().len() >= old(self).config.max_handles
                    &&& e@ == at_capacity()
                    &&& final(self).sessions == old(self).sessions
                },
            },
            old(self).sessions.issued().len() < GENERATION_LIMIT ==> registry_step(
                old(self).sessions.state(),
                final(self).sessions.state(),
            ),
    {
        self.sessions.insert_checked(self.config.max_handles, now_ms)
    }

    /// Whether a session handle is live. A lookup does not count as a use.
    pub fn lookup_session(&self, handle: u64) -> (r: bool)
        ensures
            r == self.sessions.live().contains_key(canonical(handle)),
    {
        self.sessions.contains(handle)
    }

    /// Gives a session up; says whether it was live.
    pub fn remove_session(&mut self, handle: u64) -> (r: bool)
        requires
            old(self).wf(),
        ensures
            final(self).wf(),
            final(self).same_but_sessions(old(self)),
            r == old(self).sessions.live().contains_key(canonical(handle)),
            final(self).sessions.live() == old(self).sessions.live().remove(canonical(handle)),
            old(self).sessions.issued().len() < GENERATION_LIMIT ==> registry_step(
                old(self).sessions.state(),
                final(self).sessions.state(),
            ),
    {
        self.sessions.remove(handle)
    }

    // ── Response slots ───────────────────────────────────────────────────────

    /// Gives out the handle of a response slot.
    pub fn allocate_req_handle(&mut self, now_ms: u64) -> (r: Result<u64, CoreError>)
        requires
            old(self).wf(),
            old(self).request_heads.live().len() < MAX_LIVE,
        ensures
            final(self).wf(),
            final(self).same_but_heads(old(self)),
            match r {
                Ok(h) => {
                    &&& old(self).request_heads.live().len() < old(self).config.max_handles
                    &&& well_formed_handle(h)
                    &&& !old(self).request_heads.issued().contains(h)
                    &&& final(self).request_heads.issued() == old(
                        self).request_heads.issued().insert(h)
                    &&& final(self).request_heads.live() == old(self).request_heads.live().insert(
                        h,
                        now_ms,
                    )
                },
                Err(e) => {
                    &&& old(self).request_heads.live().len() >= old(self).config.max_handles
                    &&& e@ == at_capacity()
                    &&& final(self).request_heads == old(self).request_heads
                },
            },
            old(self).request_heads.issued().len() < GENERATION_LIMIT ==> registry_step(
                old(self).request_heads.state(),
                final(self).request_heads.state(),
            ),
    {
        self.request_heads.insert_checked(self.config.max_handles, now_ms)
    }

    /// Takes a response slot; says whether it was there. It can be taken once.
    pub fn take_req_sender(&mut self, handle: u64) -> (r: bool)
        requires
            old(self).wf(),
        ensures
            final(self).wf(),
            final(self).same_but_heads(old(self)),
            r == old(self).request_heads.live().contains_key(canonical(handle)),
            final(self).request_heads.live() == old(self).request_heads.live().remove(
                canonical(handle),
            ),
            old(self).request_heads.issued().len() < GENERATION_LIMIT ==> registry_step(
                old(self).request_heads.state(),
                final(self).request_heads.state(),
            ),
    {
        self.request_heads.remove(handle)
    }

    // ── Fetch tokens ─────────────────────────────────────────────────────────

    /// Gives out a cancellation token for an upcoming fetch.
    pub fn alloc_fetch_token(&mut self, now_ms: u64) -> (r: Result<u64, CoreError>)
        requires
            old(self).wf(),
            old(self).fetch_cancels.live().len() < MAX_LIVE,
        ensures
            final(self).wf(),
            final(self).same_but_tokens(old(self)),
            match r {
                Ok(h) => {
                    &&& old(self).fetch_cancels.live().len() < old(self).config.max_handles
                    &&& well_formed_handle(h)
                    &&& !old(self).fetch_cancels.issued().contains(h)
                    &&& final(self).fetch_cancels.issued() == old(
                        self).fetch_cancels.issued().insert(h)
                    &&& final(self).fetch_cancels.live() == old(self).fetch_cancels.live().insert(
                        h,
                        now_ms,
                    )
                },
                Err(e) => {
                    &&& old(self).fetch_cancels.live().len() >= old(self).config.max_handles
                    &&& e@ == at_capacity()
                    &&& final(self).fetch_cancels == old(self).fetch_cancels
                },
            },
            old(self).fetch_cancels.issued().len() < GENERATION_LIMIT ==> registry_step(
                old(self).fetch_cancels.state(),
                final(self).fetch_cancels.state(),
            ),
    {
        self.fetch_cancels.insert_checked(self.config.max_handles, now_ms)
    }

    /// Whether a token names a fetch that can be called off.
    pub fn cancel_in_flight(&self, token: u64) -> (r: bool)
        ensures
            r == self.fetch_cancels.live().contains_key(canonical(token)),
    {
        self.fetch_cancels.contains(token)
    }

    /// Gives a token up after its fetch.
    pub fn remove_fetch_token(&mut self, token: u64) -> (r: bool)
        requires
            old(self).wf(),
        ensures
            final(self).wf(),
            final(self).same_but_tokens(old(self)),
            r == old(self).fetch_cancels.live().contains_key(canonical(token)),
            final(self).fetch_cancels.live() == old(self).fetch_cancels.live().remove(
                canonical(token),
            ),
            old(self).fetch_cancels.issued().len() < GENERATION_LIMIT ==> registry_step(
                old(self).fetch_cancels.state(),
                final(self).fetch_cancels.state(),
            ),
    {
        self.fetch_cancels.remove(token)
    }

    // ── Sweep ────────────────────────────────────────────────────────────────

    /// Takes every expired entry out of every registry, and says which.
    pub fn sweep(&mut self, now_ms: u64, ttl_ms: u64) -> (r: SweepReport)
        requires
            old(self).wf(),
        ensures
            final(self).wf(),
            swept(old(self), final(self), r, now_ms, ttl_ms),
    {
        let readers = self.readers.sweep(now_ms, ttl_ms);
        let writers = self.writers.sweep(now_ms, ttl_ms);
        let request_heads = self.request_heads.sweep(now_ms, ttl_ms);
        let sessions = self.sessions.sweep(now_ms, ttl_ms);
        let fetch_cancels = self.fetch_cancels.sweep(now_ms, ttl_ms);
        let pending_readers = sweep_pending(&mut self.pending_readers, now_ms, ttl_ms);
        SweepReport { readers, writers, request_heads, sessions, fetch_cancels, pending_readers }
    }

    /// Sweeps with the configured time to live; a time of zero means that nothing ever
    /// expires.
    pub fn sweep_now(&mut self, now_ms: u64) -> (r: Option<SweepReport>)
        requires
            old(self).wf(),
        ensures
            final(self).wf(),
            match r {
                Some(report) => {
                    &&& old(self).config.ttl_ms != 0
                    &&& swept(old(self), final(self), report, now_ms, old(self).config.ttl_ms)
                },
                None => old(self).config.ttl_ms == 0 && *final(self) == *old(self),
            },
    {
        let ttl: u64 = self.config.ttl_ms;
        if ttl == 0 {
            None
        } else {
            Some(self.sweep(now_ms, ttl))
        }
    }
}

/// Whether a store is what a sweep leaves of another, and the report says what it took.
pub open spec fn swept(
    before: &HandleStore,
    after: &HandleStore,
    report: SweepReport,
    now: u64,
    ttl: u64,
) -> bool {
    &&& after.config == before.config
    &&& after.readers.live() == survivors(before.readers.live(), now, ttl)
    &&& after.writers.live() == survivors(before.writers.live(), now, ttl)
    &&& after.request_heads.live() == survivors(before.request_heads.live(), now, ttl)
    &&& after.sessions.live() == survivors(before.sessions.live(), now, ttl)
    &&& after.fetch_cancels.live() == survivors(before.fetch_cancels.live(), now, ttl)
    &&& after.pending_readers@ == pending_survivors(before.pending_readers@, now, ttl)
    &&& takes_expired(report.readers@, before.readers.live(), now, ttl)
    &&& takes_expired(report.writers@, before.writers.live(), now, ttl)
    &&& takes_expired(report.request_heads@, before.request_heads.live(), now, ttl)
    &&& takes_expired(report.sessions@, before.sessions.live(), now, ttl)
    &&& takes_expired(report.fetch_cancels@, before.fetch_cancels.live(), now, ttl)
    &&& report.pending_readers@.no_duplicates()
    &&& forall|h: u64|
        #![trigger report.pending_readers@.contains(h)]
        report.pending_readers@.contains(h) <==> before.pending_readers@.contains_key(h)
            && elapsed(before.pending_readers@[h], now) >= ttl
}

/// Whether a list holds exactly the expired handles, each once.
pub open spec fn takes_expired(taken: Seq<u64>, live: Map<u64, u64>, now: u64, ttl: u64) -> bool {
    &&& taken.no_duplicates()
    &&& forall|h: u64|
        #![trigger taken.contains(h)]
        taken.contains(h) <==> live.contains_key(h) && expired(live[h], now, ttl)
}

/// The waiting readers that a sweep keeps: those stored less than `ttl` ago.
pub open spec fn pending_survivors(pending: Map<u64, u64>, now: u64, ttl: u64) -> Map<u64, u64> {
    pending.restrict(
        Set::new(|h: u64| pending.contains_key(h) && elapsed(pending[h], now) < ttl),
    )
}

/// The keys of a map, in any order.
fn keys_of(m: &std::collections::HashMap<u64, u64>) -> (r: Vec<u64>)
    ensures
        forall|h: u64| #![trigger r@.contains(h)] r@.contains(h) <==> m@.contains_key(h),
        r@.no_duplicates(),
{
    broadcast use vstd::std_specs::hash::group_hash_axioms;

    let mut keys: Vec<u64> = Vec::new();
    for k in it: m.keys()
        invariant
            it.seq() == vstd::std_specs::iter::IteratorSpec::remaining(&vstd::std_specs::hash::spec_keys_iter(m)),
            keys@ == it.seq().take(it.index() as int).unref(),
    {
        keys.push(*k);
        proof {
            assert(keys@ =~= it.seq().take(it.index() as int + 1).unref());
        }
    }
    proof {
        let all = vstd::std_specs::iter::IteratorSpec::remaining(&vstd::std_specs::hash::spec_keys_iter(m));
        assert(all.take(all.len() as int) =~= all);
        assert(keys@ == all.unref());
        assert forall|h: u64| #[trigger] keys@.contains(h) <==> m@.contains_key(h) by {
            assert(keys@.to_set().contains(h) == m@.dom().contains(h));
        }
        assert(keys@.no_duplicates()) by {
            assert forall|i: int, j: int| 0 <= i < j < keys@.len() implies keys@[i] != keys@[j] by {
                assert(all[i] != all[j]);
            }
        }
    }
    keys
}

/// Takes out every waiting reader that was stored at least `ttl_ms` ago.
fn sweep_pending(
    pending: &mut std::collections::HashMap<u64, u64>,
    now_ms: u64,
    ttl_ms: u64,
) -> (r: Vec<u64>)
    ensures
        final(pending)@ == pending_survivors(old(pending)@, now_ms, ttl_ms),
        forall|h: u64|
            #![trigger r@.contains(h)]
            r@.contains(h) <==> old(pending)@.contains_key(h) && elapsed(
                old(pending)@[h],
                now_ms,
            ) >= ttl_ms,
        r@.no_duplicates(),
{
    broadcast use vstd::std_specs::hash::group_hash_axioms;

    let ghost start = pending@;
    let keys = keys_of(pending);
    let mut gone: Vec<u64> = Vec::new();
    let mut i: usize = 0;
    proof {
        assert(keys@.skip(0) =~= keys@);
        assert forall|h: u64| #[trigger] start.contains_key(h) implies keys@.skip(0).contains(h) by {
            assert(keys@.contains(h));
        }
    }
    while i < keys.len()
        invariant
            i <= keys.len(),
            start == old(pending)@,
            keys@.no_duplicates(),
            gone@.no_duplicates(),
            forall|h: u64| #![trigger keys@.contains(h)] keys@.contains(h) <==> start.contains_key(h),
            forall|h: u64|
                #![trigger pending@.contains_key(h)]
                pending@.contains_key(h) <==> start.contains_key(h) && (keys@.skip(
                    i as int,
                ).contains(h) || elapsed(start[h], now_ms) < ttl_ms),
            forall|h: u64| #[trigger] pending@.contains_key(h) ==> pending@[h] == start[h],
            forall|h: u64|
                #![trigger gone@.contains(h)]
                gone@.contains(h) <==> start.contains_key(h) && !keys@.skip(i as int).contains(h)
                    && elapsed(start[h], now_ms) >= ttl_ms,
        decreases keys.len() - i,
    {
        let k: u64 = keys[i];
        let ghost before = pending@;
        let ghost gone_before = gone@;
        proof {
            let rest = keys@.skip(i as int);
            let next = keys@.skip(i + 1);
            assert(rest[0] == k);
            assert(rest.contains(k));
            assert(keys@.contains(k));
            assert(next =~= rest.skip(1));
            assert(!next.contains(k)) by {
                if next.contains(k) {
                    let n = choose|n: int|
                        0 <= n < next.len() && next[n] == k;
                    assert(keys@[i + 1 + n] == k);
                }
            }
            assert forall|h: u64| h != k implies rest.contains(h) == next.contains(
                h,
            ) by {
                if rest.contains(h) {
                    let n = choose|n: int| 0 <= n < rest.len() && rest[n] == h;
                    assert(next[n - 1] == h);
                }
                if next.contains(h) {
                    let n = choose|n: int|
                        0 <= n < next.len() && next[n] == h;
                    assert(rest[n + 1] == h);
                }
            }
            assert(pending@.contains_key(k));
        }
        let created: u64 = *pending.get(&k).unwrap();
        if now_ms.saturating_sub(created) >= ttl_ms {
            pending.remove(&k);
            gone.push(k);
            proof {
                assert(!gone_before.contains(k));
                assert forall|a: int, b: int| 0 <= a < b < gone@.len() implies gone@[a]
                    != gone@[b] by {
                    assert(gone@[a] == gone_before[a]);
                    assert(gone_before.contains(gone_before[a]));
                }
                assert forall|h: u64| gone@.contains(h) == (gone_before.contains(h) || h == k) by {
                    if gone_before.contains(h) {
                        let n = choose|n: int| 0 <= n < gone_before.len() && gone_before[n] == h;
                        assert(gone@[n] == h);
                    }
                    if h == k {
                        assert(gone@[gone_before.len() as int] == h);
                    }
                }
            }
        }
        proof {
            let rest = keys@.skip(i as int);
            let next = keys@.skip(i + 1);
            assert forall|h: u64| #[trigger] gone@.contains(h) <==> start.contains_key(h)
                && !next.contains(h) && elapsed(start[h], now_ms) >= ttl_ms by {
                assert(gone_before.contains(h) <==> start.contains_key(h) && !rest.contains(h)
                    && elapsed(start[h], now_ms) >= ttl_ms);
            }
        }
        i = i + 1;
    }
    proof {
        assert(keys@.skip(i as int) =~= Seq::empty());
        assert(pending@ =~= pending_survivors(start, now_ms, ttl_ms));
    }
    gone
}

// ── Laws of what is kept ─────────────────────────────────────────────────────

/// A handle has expired once more than the time to live has gone by since its last use,
/// and no time has gone by where the clock stands before that.
pub proof fn handles_expire(last: u64, now: u64, ttl: u64)
    ensures
        expired(last, now, ttl) <==> now > last + ttl,
        elapsed(last, now) == (if now >= last {
            now - last
        } else {
            0
        }),
{
}

/// A sweep keeps exactly the handles that have not expired, with their last use.
pub proof fn sweeps_keep_the_rest(live: Map<u64, u64>, now: u64, ttl: u64, h: u64)
    ensures
        survivors(live, now, ttl).contains_key(h) <==> live.contains_key(h) && now <= live[h] + ttl,
        survivors(live, now, ttl).contains_key(h) ==> survivors(live, now, ttl)[h] == live[h],
{
}

/// A sweep keeps exactly the waiting readers that have waited for less than the time to
/// live.
pub proof fn sweeps_keep_waiting_readers(pending: Map<u64, u64>, now: u64, ttl: u64, h: u64)
    ensures
        pending_survivors(pending, now, ttl).contains_key(h) <==> pending.contains_key(h) && (if now
            >= pending[h] {
            now < pending[h] + ttl
        } else {
            ttl > 0
        }),
        pending_survivors(pending, now, ttl).contains_key(h) ==> pending_survivors(
            pending,
            now,
            ttl,
        )[h] == pending[h],
{
}

/// What a sweep reports is exactly what it took, each once.
pub proof fn sweeps_report_what_they_take(
    taken: Seq<u64>,
    live: Map<u64, u64>,
    now: u64,
    ttl: u64,
    h: u64,
)
    requires
        takes_expired(taken, live, now, ttl),
    ensures
        taken.contains(h) <==> live.contains_key(h) && now > live[h] + ttl,
        live.contains_key(h) ==> (taken.contains(h) <==> !survivors(live, now, ttl).contains_key(
            h,
        )),
        forall|i: int, j: int| 0 <= i < j < taken.len() ==> taken[i] != taken[j],
{
}

/// A chunk is cut into full pieces, and only the last may be shorter.
pub proof fn pieces_are_full(chunk: Seq<u8>, max: nat, i: int)
    requires
        max > 0,
        0 <= i < pieces(chunk, max).len(),
    ensures
        i < pieces(chunk, max).len() - 1 ==> pieces(chunk, max)[i].len() == max,
        pieces(chunk, max)[i] == chunk.subrange(
            i * max,
            if i < pieces(chunk, max).len() - 1 {
                (i + 1) * max
            } else {
                chunk.len() as int
            },
        ),
    decreases chunk.len(),
{
    if chunk.len() > max {
        let rest = chunk.skip(max as int);
        let tail = pieces(rest, max);
        if i > 0 {
            pieces_are_full(rest, max, i - 1);
            assert(pieces(chunk, max)[i] == tail[i - 1]);
            let a = (i - 1) * max;
            assert(i * max == a + max) by (nonlinear_arith)
                requires
                    a == (i - 1) * max,
            ;
            assert((i + 1) * max == i * max + max) by (nonlinear_arith);
            pieces_hold_the_chunk(rest, max);
            let to = if i - 1 < tail.len() - 1 {
                i * max
            } else {
                rest.len() as int
            };
            piece_bounds(rest, max, i - 1);
            assert(rest.subrange(a, to) =~= chunk.subrange(a + max, to + max));
        } else {
            assert(0 * max == 0 && 1 * max == max);
            assert(pieces(chunk, max)[0] == chunk.take(max as int));
            assert(chunk.take(max as int) =~= chunk.subrange(0, max as int));
            assert(tail.len() > 0);
        }
    } else {
        assert(0 * max == 0);
        assert(chunk.subrange(0, chunk.len() as int) =~= chunk);
    }
}

proof fn piece_bounds(chunk: Seq<u8>, max: nat, i: int)
    requires
        max > 0,
        0 <= i < pieces(chunk, max).len(),
    ensures
        0 <= i * max <= chunk.len(),
        i < pieces(chunk, max).len() - 1 ==> (i + 1) * max <= chunk.len(),
    decreases chunk.len(),
{
    assert(0 <= i * max) by (nonlinear_arith)
        requires
            i >= 0,
            max > 0,
    ;
    if chunk.len() > max {
        let rest = chunk.skip(max as int);
        if i > 0 {
            piece_bounds(rest, max, i - 1);
            assert(i * max == (i - 1) * max + max) by (nonlinear_arith);
            assert((i + 1) * max == i * max + max) by (nonlinear_arith);
            assert((i - 1 + 1) * max == i * max);
        } else {
            assert(0 * max == 0 && 1 * max == max);
        }
    } else {
        assert(i == 0);
        assert(0 * max == 0);
    }
}

/// Parts are put together in order, and are seen as they are.
pub proof fn parts_are_put_together(a: Seq<u8>, parts: Seq<Seq<u8>>, v: Seq<Vec<u8>>)
    ensures
        joined(Seq::empty()) == Seq::<u8>::empty(),
        joined(seq![a] + parts) == a + joined(parts),
        parts_view(v).len() == v.len(),
        forall|i: int| 0 <= i < v.len() ==> #[trigger] parts_view(v)[i] == v[i]@,
{
    assert((seq![a] + parts).drop_first() =~= parts);
}

/// What is said of a chunk that was not sent, and that a registry is full.
pub proof fn failed_sends_are_told()
    ensures
        send_fault(SendOutcome::Sent) is None,
        send_fault(SendOutcome::TimedOut) == Some(
            (ErrorCode::Timeout, "drain timeout: body reader is too slow"@),
        ),
        send_fault(SendOutcome::ReaderGone) == Some((ErrorCode::Internal, "body reader dropped"@)),
        at_capacity() == (ErrorCode::Internal, "handle registry at capacity"@),
{
}

/// All live handles are counted: those of every registry together, as far as the number
/// fits.
pub proof fn all_handles_are_counted(store: &HandleStore)
    ensures
        ({
            let all = store.readers.live().len() + store.writers.live().len()
                + store.sessions.live().len() + store.request_heads.live().len()
                + store.fetch_cancels.live().len();
            total_live(store) == (if all <= usize::MAX {
                all as int
            } else {
                usize::MAX as int
            })
        }),
{
}

/// What a store that differs in one kind of handle has in common with another.
pub proof fn the_rest_of_a_store_stays(a: &HandleStore, b: &HandleStore)
    ensures
        a.same_but_readers(b) ==> a.writers == b.writers && a.sessions == b.sessions
            && a.request_heads == b.request_heads && a.fetch_cancels == b.fetch_cancels
            && a.pending_readers == b.pending_readers && a.config == b.config,
        a.same_but_writers(b) ==> a.readers == b.readers && a.sessions == b.sessions
            && a.request_heads == b.request_heads && a.fetch_cancels == b.fetch_cancels
            && a.pending_readers == b.pending_readers && a.config == b.config,
        a.same_but_sessions(b) ==> a.readers == b.readers && a.writers == b.writers
            && a.request_heads == b.request_heads && a.fetch_cancels == b.fetch_cancels
            && a.pending_readers == b.pending_readers && a.config == b.config,
        a.same_but_heads(b) ==> a.readers == b.readers && a.writers == b.writers && a.sessions
            == b.sessions && a.fetch_cancels == b.fetch_cancels && a.pending_readers
            == b.pending_readers && a.config == b.config,
        a.same_but_tokens(b) ==> a.readers == b.readers && a.writers == b.writers && a.sessions
            == b.sessions && a.request_heads == b.request_heads && a.pending_readers
            == b.pending_readers && a.config == b.config,
        a.guarded() == b.guarded() ==> a.readers.live() == b.readers.live() && a.writers.live()
            == b.writers.live() && a.request_heads.live() == b.request_heads.live(),
{
}

/// A sweep leaves in every registry what has not expired, and reports what it took of each.
pub proof fn sweeps_touch_every_registry(
    before: &HandleStore,
    after: &HandleStore,
    report: SweepReport,
    now: u64,
    ttl: u64,
    h: u64,
)
    requires
        swept(before, after, report, now, ttl),
    ensures
        after.config == before.config,
        after.readers.live().contains_key(h) <==> before.readers.live().contains_key(h) && now
            <= before.readers.live()[h] + ttl,
        after.writers.live().contains_key(h) <==> before.writers.live().contains_key(h) && now
            <= before.writers.live()[h] + ttl,
        after.sessions.live().contains_key(h) <==> before.sessions.live().contains_key(h) && now
            <= before.sessions.live()[h] + ttl,
        after.request_heads.live().contains_key(h) <==> before.request_heads.live().contains_key(h)
            && now <= before.request_heads.live()[h] + ttl,
        after.fetch_cancels.live().contains_key(h) <==> before.fetch_cancels.live().contains_key(h)
            && now <= before.fetch_cancels.live()[h] + ttl,
        report.readers@.contains(h) <==> before.readers.live().contains_key(h) && now
            > before.readers.live()[h] + ttl,
        report.writers@.contains(h) <==> before.writers.live().contains_key(h) && now
            > before.writers.live()[h] + ttl,
        report.sessions@.contains(h) <==> before.sessions.live().contains_key(h) && now
            > before.sessions.live()[h] + ttl,
        report.request_heads@.contains(h) <==> before.request_heads.live().contains_key(h) && now
            > before.request_heads.live()[h] + ttl,
        report.fetch_cancels@.contains(h) <==> before.fetch_cancels.live().contains_key(h) && now
            > before.fetch_cancels.live()[h] + ttl,
        before.pending_readers@.contains_key(h) ==> (report.pending_readers@.contains(h)
            <==> !after.pending_readers@.contains_key(h)),
{
}

} // verus!
