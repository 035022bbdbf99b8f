//! The registry of endpoints that foreign callers name by 64-bit handles.
//!
//! A handle must travel whole: the high half carries the generation that keeps a
//! handle of a closed endpoint from naming a later one.
use vstd::prelude::*;

use crate::handles::{registry_step, RegistryState};
use crate::slots::{
    canonical, slot_contents, slot_issued, table_entries, table_get, table_insert, table_new,
    table_remove, well_formed_handle, SlotTable, GENERATION_LIMIT, MAX_LIVE,
};

verus! {

/// Endpoints by handle; each entry is the number under which its owner keeps the
/// endpoint.
pub struct EndpointRegistry {
    table: SlotTable,
}

impl EndpointRegistry {
    /// The endpoint number under each live handle.
    pub closed spec fn live(&self) -> Map<u64, u64> {
        slot_contents(self.table)
    }

    /// The handles given out so far.
    pub closed spec fn issued(&self) -> Set<u64> {
        slot_issued(self.table)
    }

    /// The live handles and the handles given out.
    pub open spec fn state(&self) -> RegistryState {
        RegistryState { live: self.live(), issued: self.issued() }
    }

    /// Every live handle was given out, and all have the form of handles.
    pub open spec fn wf(&self) -> bool {
        &&& self.live().dom().finite()
        &&& self.live().dom().subset_of(self.issued())
        &&& forall|h: u64| #[trigger] self.issued().contains(h) ==> well_formed_handle(h)
    }

    /// A registry without endpoints.
    pub fn new() -> (r: Self)
        ensures
            r.wf(),
            r.live() == Map::<u64, u64>::empty(),
            r.issued() == Set::<u64>::empty(),
    {
        EndpointRegistry { table: table_new() }
    }

    /// Registers an endpoint under a handle that was never given out before.
    pub fn insert_endpoint(&mut self, endpoint: u64) -> (h: u64)
        requires
            old(self).wf(),
            old(self).live().len() < MAX_LIVE,
        ensures
            final(self).wf(),
            well_formed_handle(h),
            !old(self).issued().contains(h),
            final(self).issued() == old(self).issued().insert(h),
            final(self).live() == old(self).live().insert(h, endpoint),
            registry_step(old(self).state(), final(self).state()),
    {
        let h = table_insert(&mut self.table, endpoint);
        proof {
            assert(self.state().live.dom() =~= old(self).state().live.dom().insert(h));
        }
        h
    }

    /// The endpoint under a handle.
    pub fn get_endpoint(&self, handle: u64) -> (r: Option<u64>)
        ensures
            r == (if self.live().contains_key(canonical(handle)) {
                Some(self.live()[canonical(handle)])
            } else {
                None
            }),
    {
        table_get(&self.table, handle)
    }

    /// Takes an endpoint out of the registry.
    pub fn remove_endpoint(&mut self, handle: u64) -> (r: Option<u64>)
        requires
            old(self).wf(),
        ensures
            final(self).wf(),
            r == (if old(self).live().contains_key(canonical(handle)) {
                Some(old(self).live()[canonical(handle)])
            } else {
                None
            }),
            final(self).live() == old(self).live().remove(canonical(handle)),
            old(self).issued().len() < GENERATION_LIMIT ==> registry_step(
                old(self).state(),
                final(self).state(),
            ),
    {
        let r = table_remove(&mut self.table, handle);
        proof {
            assert forall|k: u64| self.live().dom().contains(k) implies self.issued().contains(
                k,
            ) by {
                assert(old(self).live().dom().contains(k));
            }
        }
        r
    }

    /// Empties the registry and gives the endpoints that were in it, for their
    /// owner to close.
    pub fn close_all_endpoints(&mut self) -> (r: Vec<u64>)
        requires
            old(self).wf(),
        ensures
            final(self).wf(),
            final(self).live() == Map::<u64, u64>::empty(),
            r@.len() == old(self).live().len(),
            forall|e: u64|
                #![trigger r@.contains(e)]
                r@.contains(e) <==> old(self).live().values().contains(e),
    {
        let entries = table_entries(&self.table);
        let mut out: Vec<u64> = Vec::new();
        let mut i: usize = 0;
        let ghost start = self.live();
        while i < entries.len()
            invariant
                i <= entries@.len(),
                self.wf(),
                start.dom().finite(),
                forall|k: int|
                    0 <= k < entries@.len() ==> start.contains_key((#[trigger] entries@[k]).0)
                        && start[entries@[k].0] == entries@[k].1 && well_formed_handle(
                        entries@[k].0,
                    ),
                forall|k: int, j: int|
                    0 <= k < j < entries@.len() ==> (#[trigger] entries@[k]).0 != (
                    #[trigger] entries@[j]).0,
                out@.len() == i,
                forall|k: int| 0 <= k < i ==> #[trigger] out@[k] == entries@[k].1,
                self.live().submap_of(start),
                self.live().len() == start.len() - i,
                forall|h: u64|
                    #![trigger self.live().contains_key(h)]
                    self.live().contains_key(h) <==> start.contains_key(h) && !(exists|k: int|
                        0 <= k < i && (#[trigger] entries@[k]).0 == h),
            decreases entries@.len() - i,
        {
            let (h, e) = entries[i];
            proof {
                assert(canonical(h) == h);
                assert(self.live().contains_key(h)) by {
                    if exists|k: int| 0 <= k < i && (#[trigger] entries@[k]).0 == h {
                        let k = choose|k: int| 0 <= k < i && (#[trigger] entries@[k]).0 == h;
                        assert(entries@[k].0 != entries@[i as int].0);
                    }
                }
            }
            let ghost before = self.live();
            let got = self.remove_endpoint(h);
            out.push(e);
            proof {
                assert(self.live() == before.remove(h));
                assert forall|x: u64| #[trigger] self.live().contains_key(x) <==> start.contains_key(
                    x,
                ) && !(exists|k: int| 0 <= k < i + 1 && (#[trigger] entries@[k]).0 == x) by {
                    if x == h {
                        assert(entries@[i as int].0 == x);
                    } else {
                        assert(before.contains_key(x) == self.live().contains_key(x));
                    }
                }
            }
            i = i + 1;
        }
        proof {
            assert(self.live() =~= Map::empty()) by {
                assert forall|h: u64| !#[trigger] self.live().contains_key(h) by {
                    if start.contains_key(h) {
                        let k = choose|k: int| 0 <= k < entries@.len() && (#[trigger] entries@[k]).0
                            == h;
                    }
                }
            }
            assert forall|e: u64| #[trigger] out@.contains(e) <==> start.values().contains(e) by {
                if out@.contains(e) {
                    let k = choose|k: int| 0 <= k < out@.len() && out@[k] == e;
                    assert(start.contains_key(entries@[k].0) && start[entries@[k].0] == e);
                }
                if start.values().contains(e) {
                    let h = choose|h: u64| #[trigger] start.contains_key(h) && start[h] == e;
                    let k = choose|k: int| 0 <= k < entries@.len() && (#[trigger] entries@[k]).0
                        == h;
                    assert(out@[k] == e);
                }
            }
        }
        out
    }
}

} // verus!
