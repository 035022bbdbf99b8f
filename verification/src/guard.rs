//! Allocating several handles as one: all of them, or none.
use vstd::prelude::*;

use crate::error::CoreError;
use crate::handles::{at_capacity, Guarded, HandleStore};
use crate::slots::{canonical, well_formed_handle, MAX_LIVE};

verus! {

/// A handle that has to be given up if a later allocation fails.
#[derive(Debug, Clone, Copy)]
pub enum TrackedHandle {
    Reader(u64),
    Writer(u64),
    ReqHead(u64),
}

/// Tracks the handles of one allocation sequence. Where the sequence fails half
/// way, [`InsertGuard::rollback`] gives up what it has held; after
/// [`InsertGuard::commit`] the handles stay.
pub struct InsertGuard {
    pub held: Vec<TrackedHandle>,
}

/// Live handles with one more, used at `now`.
pub open spec fn with_handle(g: Guarded, t: TrackedHandle, now: u64) -> Guarded {
    match t {
        TrackedHandle::Reader(h) => Guarded { readers: g.readers.insert(h, now), ..g },
        TrackedHandle::Writer(h) => Guarded { writers: g.writers.insert(h, now), ..g },
        TrackedHandle::ReqHead(h) => Guarded { request_heads: g.request_heads.insert(h, now), ..g },
    }
}

/// Live handles without one of them.
pub open spec fn without_handle(g: Guarded, t: TrackedHandle) -> Guarded {
    match t {
        TrackedHandle::Reader(h) => Guarded { readers: g.readers.remove(canonical(h)), ..g },
        TrackedHandle::Writer(h) => Guarded { writers: g.writers.remove(canonical(h)), ..g },
        TrackedHandle::ReqHead(h) => Guarded {
            request_heads: g.request_heads.remove(canonical(h)),
            ..g
        },
    }
}

/// Whether a held handle is live.
pub open spec fn is_live(g: Guarded, t: TrackedHandle) -> bool {
    match t {
        TrackedHandle::Reader(h) => g.readers.contains_key(h),
        TrackedHandle::Writer(h) => g.writers.contains_key(h),
        TrackedHandle::ReqHead(h) => g.request_heads.contains_key(h),
    }
}

/// The number of a held handle.
pub open spec fn handle_of(t: TrackedHandle) -> u64 {
    match t {
        TrackedHandle::Reader(h) => h,
        TrackedHandle::Writer(h) => h,
        TrackedHandle::ReqHead(h) => h,
    }
}

/// Live handles with a sequence of others, each with its time.
pub open spec fn with_handles(g: Guarded, ts: Seq<TrackedHandle>, now: Seq<u64>) -> Guarded
    decreases ts.len(),
{
    if ts.len() == 0 {
        g
    } else {
        with_handle(with_handles(g, ts.drop_last(), now), ts.last(), now[ts.len() - 1])
    }
}

/// Live handles without any of a sequence of handles.
pub open spec fn without_handles(g: Guarded, ts: Seq<TrackedHandle>) -> Guarded
    decreases ts.len(),
{
    if ts.len() == 0 {
        g
    } else {
        without_handle(without_handles(g, ts.drop_last()), ts.last())
    }
}

impl InsertGuard {
    /// A guard that tracks nothing yet.
    pub fn new() -> (r: Self)
        ensures
            r.held@ == Seq::<TrackedHandle>::empty(),
    {
        InsertGuard { held: Vec::new() }
    }

    /// Gives out a reader handle and tracks it.
    pub fn insert_reader(&mut self, store: &mut HandleStore, now_ms: u64) -> (r: Result<
        u64,
        CoreError,
    >)
        requires
            old(store).wf(),
            old(store).readers.live().len() < MAX_LIVE,
        ensures
            final(store).wf(),
            final(store).same_but_readers(old(store)),
            match r {
                Ok(h) => {
                    &&& old(store).readers.live().len() < old(store).config.max_handles
                    &&& well_formed_handle(h)
                    &&& !old(store).readers.live().contains_key(h)
                    &&& final(store).readers.live() == old(store).readers.live().insert(h, now_ms)
                    &&& final(self).held@ == old(self).held@.push(TrackedHandle::Reader(h))
                },
                Err(e) => {
                    &&& old(store).readers.live().len() >= old(store).config.max_handles
                    &&& e@ == at_capacity()
                    &&& final(store).readers == old(store).readers
                    &&& final(self).held@ == old(self).held@
                },
            },
    {
        match store.insert_reader(now_ms) {
            Ok(h) => {
                self.held.push(TrackedHandle::Reader(h));
                Ok(h)
            },
            Err(e) => Err(e),
        }
    }

    /// Gives out a writer handle and tracks it.
    pub fn insert_writer(&mut self, store: &mut HandleStore, now_ms: u64) -> (r: Result<
        u64,
        CoreError,
    >)
        requires
            old(store).wf(),
            old(store).writers.live().len() < MAX_LIVE,
        ensures
            final(store).wf(),
            final(store).same_but_writers(old(store)),
            match r {
                Ok(h) => {
                    &&& old(store).writers.live().len() < old(store).config.max_handles
                    &&& well_formed_handle(h)
                    &&& !old(store).writers.live().contains_key(h)
                    &&& final(store).writers.live() == old(store).writers.live().insert(h, now_ms)
                    &&& final(self).held@ == old(self).held@.push(TrackedHandle::Writer(h))
                },
                Err(e) => {
                    &&& old(store).writers.live().len() >= old(store).config.max_handles
                    &&& e@ == at_capacity()
                    &&& final(store).writers == old(store).writers
                    &&& final(self).held@ == old(self).held@
                },
            },
    {
        match store.insert_writer(now_ms) {
            Ok(h) => {
                self.held.push(TrackedHandle::Writer(h));
                Ok(h)
            },
            Err(e) => Err(e),
        }
    }

    /// Gives out the handle of a response slot and tracks it.
    pub fn allocate_req_handle(&mut self, store: &mut HandleStore, now_ms: u64) -> (r: Result<
        u64,
        CoreError,
    >)
        requires
            old(store).wf(),
            old(store).request_heads.live().len() < MAX_LIVE,
        ensures
            final(store).wf(),
            final(store).same_but_heads(old(store)),
            match r {
                Ok(h) => {
                    &&& old(store).request_heads.live().len() < old(store).config.max_handles
                    &&& well_formed_handle(h)
                    &&& !old(store).request_heads.live().contains_key(h)
                    &&& final(store).request_heads.live() == old(store).request_heads.live().insert(
                        h,
                        now_ms,
                    )
                    &&& final(self).held@ == old(self).held@.push(TrackedHandle::ReqHead(h))
                },
                Err(e) => {
                    &&& old(store).request_heads.live().len() >= old(store).config.max_handles
                    &&& e@ == at_capacity()
                    &&& final(store).request_heads == old(store).request_heads
                    &&& final(self).held@ == old(self).held@
                },
            },
    {
        match store.allocate_req_handle(now_ms) {
            Ok(h) => {
                self.held.push(TrackedHandle::ReqHead(h));
                Ok(h)
            },
            Err(e) => Err(e),
        }
    }

    /// Ends the sequence and keeps its handles.
    pub fn commit(self) -> (kept: Vec<TrackedHandle>)
        ensures
            kept@ == self.held@,
    {
        self.held
    }

    /// Ends the sequence and gives up every handle it has held.
    pub fn rollback(self, store: &mut HandleStore)
        requires
            old(store).wf(),
        ensures
            final(store).wf(),
            final(store).guarded() == without_handles(old(store).guarded(), self.held@),
            final(store).sessions == old(store).sessions,
            final(store).fetch_cancels == old(store).fetch_cancels,
            final(store).pending_readers == old(store).pending_readers,
            final(store).config == old(store).config,
    {
        let mut i: usize = 0;
        while i < self.held.len()
            invariant
                i <= self.held@.len(),
                store.wf(),
                store.guarded() == without_handles(
                    old(store).guarded(),
                    self.held@.take(i as int),
                ),
                store.sessions == old(store).sessions,
                store.fetch_cancels == old(store).fetch_cancels,
                store.pending_readers == old(store).pending_readers,
                store.config == old(store).config,
            decreases self.held@.len() - i,
        {
            let ghost before = store.guarded();
            let t: TrackedHandle = self.held[i];
            match t {
                TrackedHandle::Reader(h) => {
                    store.cancel_reader(h);
                },
                TrackedHandle::Writer(h) => {
                    let _ = store.finish_body(h);
                },
                TrackedHandle::ReqHead(h) => {
                    store.take_req_sender(h);
                },
            }
            proof {
                assert(self.held@.take(i + 1).drop_last() =~= self.held@.take(i as int));
                assert(store.guarded() == without_handle(before, t));
            }
            i = i + 1;
        }
        proof {
            assert(self.held@.take(i as int) =~= self.held@);
        }
    }
}

// ── Nothing is left of a sequence that is rolled back ────────────────────────

/// Giving up handles that do not hold `t` commutes with adding `t`.
proof fn adding_commutes(g: Guarded, t: TrackedHandle, now: u64, ts: Seq<TrackedHandle>)
    requires
        !ts.contains(t),
        forall|i: int| 0 <= i < ts.len() ==> well_formed_handle(handle_of(#[trigger] ts[i])),
        well_formed_handle(handle_of(t)),
    ensures
        without_handles(with_handle(g, t, now), ts) == with_handle(
            without_handles(g, ts),
            t,
            now,
        ),
    decreases ts.len(),
{
    if ts.len() > 0 {
        let init = ts.drop_last();
        assert(!init.contains(t)) by {
            if init.contains(t) {
                let n = choose|n: int| 0 <= n < init.len() && init[n] == t;
                assert(ts[n] == t);
            }
        }
        assert forall|i: int| 0 <= i < init.len() implies well_formed_handle(
            handle_of(#[trigger] init[i]),
        ) by {
            assert(ts[i] == init[i]);
        }
        adding_commutes(g, t, now, init);
        let last = ts.last();
        assert(ts[ts.len() - 1] == last);
        assert(last != t);
        let base = without_handles(g, init);
        assert(without_handle(with_handle(base, t, now), last) =~= with_handle(
            without_handle(base, last),
            t,
            now,
        ));
    }
}

/// A sequence of fresh, distinct handles that is allocated and rolled back
/// leaves the live handles as they were.
pub proof fn rollback_restores(g: Guarded, ts: Seq<TrackedHandle>, now: Seq<u64>)
    requires
        now.len() >= ts.len(),
        ts.no_duplicates(),
        forall|i: int|
            0 <= i < ts.len() ==> !is_live(g, #[trigger] ts[i]) && well_formed_handle(
                handle_of(ts[i]),
            ),
    ensures
        without_handles(with_handles(g, ts, now), ts) == g,
    decreases ts.len(),
{
    if ts.len() > 0 {
        let init = ts.drop_last();
        let last = ts.last();
        assert(ts[ts.len() - 1] == last);
        assert forall|i: int| 0 <= i < init.len() implies !is_live(g, #[trigger] init[i])
            && well_formed_handle(handle_of(init[i])) by {
            assert(ts[i] == init[i]);
        }
        assert(!init.contains(last)) by {
            if init.contains(last) {
                let n = choose|n: int| 0 <= n < init.len() && init[n] == last;
                assert(ts[n] == last);
            }
        }
        rollback_restores(g, init, now);
        let y = with_handles(g, init, now);
        adding_commutes(y, last, now[ts.len() - 1], init);
        assert(without_handle(with_handle(g, last, now[ts.len() - 1]), last) =~= g);
    }
}

/// A handle that was given out is live in its own registry and changes no other; giving it
/// up takes it out of that registry and changes no other.
pub proof fn handles_touch_their_registry(g: Guarded, h: u64, now: u64)
    ensures
        with_handle(g, TrackedHandle::Reader(h), now) == (Guarded {
            readers: g.readers.insert(h, now),
            writers: g.writers,
            request_heads: g.request_heads,
        }),
        with_handle(g, TrackedHandle::Writer(h), now) == (Guarded {
            readers: g.readers,
            writers: g.writers.insert(h, now),
            request_heads: g.request_heads,
        }),
        with_handle(g, TrackedHandle::ReqHead(h), now) == (Guarded {
            readers: g.readers,
            writers: g.writers,
            request_heads: g.request_heads.insert(h, now),
        }),
        without_handle(g, TrackedHandle::Reader(h)) == (Guarded {
            readers: g.readers.remove(canonical(h)),
            writers: g.writers,
            request_heads: g.request_heads,
        }),
        without_handle(g, TrackedHandle::Writer(h)) == (Guarded {
            readers: g.readers,
            writers: g.writers.remove(canonical(h)),
            request_heads: g.request_heads,
        }),
        without_handle(g, TrackedHandle::ReqHead(h)) == (Guarded {
            readers: g.readers,
            writers: g.writers,
            request_heads: g.request_heads.remove(canonical(h)),
        }),
        is_live(g, TrackedHandle::Reader(h)) <==> g.readers.contains_key(h),
        is_live(g, TrackedHandle::Writer(h)) <==> g.writers.contains_key(h),
        is_live(g, TrackedHandle::ReqHead(h)) <==> g.request_heads.contains_key(h),
        handle_of(TrackedHandle::Reader(h)) == h,
        handle_of(TrackedHandle::Writer(h)) == h,
        handle_of(TrackedHandle::ReqHead(h)) == h,
{
}

/// Handles are given out and given up one after another.
pub proof fn handles_go_one_by_one(g: Guarded, ts: Seq<TrackedHandle>, t: TrackedHandle, now: Seq<u64>)
    requires
        now.len() > ts.len(),
    ensures
        without_handles(g, Seq::empty()) == g,
        without_handles(g, ts.push(t)) == without_handle(without_handles(g, ts), t),
        with_handles(g, Seq::empty(), now) == g,
        with_handles(g, ts.push(t), now) == with_handle(
            with_handles(g, ts, now),
            t,
            now[ts.len() as int],
        ),
{
    assert(ts.push(t).drop_last() =~= ts);
}

} // verus!
