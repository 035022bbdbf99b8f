//! A slot map whose keys travel as 64-bit handles.
//!
//! A handle packs a slot's index into its low 32 bits and the slot's generation
//! into its high 32 bits. A slot's generation grows whenever the slot is emptied,
//! so a handle never comes to name another entry, as long as no bit of it is
//! dropped on the way.
use vstd::prelude::*;

verus! {

/// A `slotmap::SlotMap` of numbers.
#[verifier::external_body]
pub struct SlotTable {
    map: slotmap::SlotMap<slotmap::DefaultKey, u64>,
}

/// What a table holds: the value under each live handle.
pub uninterp spec fn slot_contents(t: SlotTable) -> Map<u64, u64>;

/// The handles that a table has given out, live or not.
pub uninterp spec fn slot_issued(t: SlotTable) -> Set<u64>;

/// The number of entries that a table can hold at most.
pub const MAX_LIVE: usize = 4_294_967_294;

/// The number of insertions from which on a slot's generation may start over.
pub const GENERATION_LIMIT: usize = 2_147_483_648;

/// Whether a handle has the form that tables give out: a slot that is not the
/// first, and an odd generation.
pub open spec fn well_formed_handle(h: u64) -> bool {
    h as int % 0x1_0000_0000 != 0 && (h as int / 0x1_0000_0000) % 2 == 1
}

/// The handle that a foreign number stands for: the generation's lowest bit is
/// taken as set.
pub open spec fn canonical(h: u64) -> u64 {
    if (h as int / 0x1_0000_0000) % 2 == 1 {
        h
    } else {
        (h + 0x1_0000_0000) as u64
    }
}

/// `SlotMap::new`: an empty map, which has given out no key.
#[verifier::external_body]
pub(crate) fn table_new() -> (t: SlotTable)
    ensures
        (slot_contents(t) == Map::<u64, u64>::empty()),
        slot_issued(t) == Set::<u64>::empty(),
{
    SlotTable { map: slotmap::SlotMap::new() }
}

/// `SlotMap::len`: the number of live entries.
#[verifier::external_body]
pub(crate) fn table_len(t: &SlotTable) -> (n: usize)
    ensures
        n == slot_contents(*t).len(),
{
    t.map.len()
}

/// `SlotMap::insert`, and the key through `KeyData::as_ffi`: the value goes under
/// a key that the map has not given out, which names a slot other than the first
/// and carries an odd generation. The map panics where every slot index is taken.
#[verifier::external_body]
pub(crate) fn table_insert(t: &mut SlotTable, value: u64) -> (h: u64)
    requires
        slot_contents(*old(t)).len() < MAX_LIVE,
    ensures
        well_formed_handle(h),
        !slot_issued(*old(t)).contains(h),
        slot_issued(*final(t)) == slot_issued(*old(t)).insert(h),
        slot_contents(*final(t)) == slot_contents(*old(t)).insert(h, value),
{
    slotmap::Key::data(&t.map.insert(value)).as_ffi()
}

/// `SlotMap::get` under `KeyData::from_ffi`, which sets the lowest bit of the
/// generation: the value under the handle, where there is one.
#[verifier::external_body]
pub(crate) fn table_get(t: &SlotTable, h: u64) -> (r: Option<u64>)
    ensures
        r == (if slot_contents(*t).contains_key(canonical(h)) {
            Some(slot_contents(*t)[canonical(h)])
        } else {
            None
        }),
{
    t.map.get(slotmap::KeyData::from_ffi(h).into()).copied()
}

/// `SlotMap::get_mut` under `KeyData::from_ffi`, and a write through what it
/// gives: replaces the value under the handle where there is one, and says
/// whether there was.
#[verifier::external_body]
pub(crate) fn table_set(t: &mut SlotTable, h: u64, value: u64) -> (r: bool)
    ensures
        r == slot_contents(*old(t)).contains_key(canonical(h)),
        slot_issued(*final(t)) == slot_issued(*old(t)),
        slot_contents(*final(t)) == (if r {
            slot_contents(*old(t)).insert(canonical(h), value)
        } else {
            slot_contents(*old(t))
        }),
{
    t.map.get_mut(slotmap::KeyData::from_ffi(h).into()).map(|v| *v = value).is_some()
}

/// `SlotMap::remove` under `KeyData::from_ffi`: takes the entry out where there
/// is one. The generation of its slot grows by one and starts over after 2^32
/// steps, that is after 2^31 insertions into that slot, so the keys given out are
/// kept apart until then.
#[verifier::external_body]
pub(crate) fn table_remove(t: &mut SlotTable, h: u64) -> (r: Option<u64>)
    ensures
        r == (if slot_contents(*old(t)).contains_key(canonical(h)) {
            Some(slot_contents(*old(t))[canonical(h)])
        } else {
            None
        }),
        slot_contents(*final(t)) == slot_contents(*old(t)).remove(canonical(h)),
        slot_issued(*old(t)).len() < GENERATION_LIMIT ==> slot_issued(*final(t)) == slot_issued(
            *old(t),
        ),
        slot_issued(*final(t)).subset_of(slot_issued(*old(t))),
        forall|k: u64|
            #![trigger slot_issued(*final(t)).contains(k)]
            slot_contents(*final(t)).contains_key(k) && slot_issued(*old(t)).contains(k)
                ==> slot_issued(*final(t)).contains(k),
{
    t.map.remove(slotmap::KeyData::from_ffi(h).into())
}

/// `SlotMap::iter`: every live entry once, each key through `KeyData::as_ffi`.
#[verifier::external_body]
pub(crate) fn table_entries(t: &SlotTable) -> (r: Vec<(u64, u64)>)
    ensures
        forall|i: int|
            0 <= i < r@.len() ==> slot_contents(*t).contains_key((#[trigger] r@[i]).0)
                && slot_contents(*t)[r@[i].0] == r@[i].1,
        forall|i: int, j: int| 0 <= i < j < r@.len() ==> (#[trigger] r@[i]).0 != (#[trigger] r@[j]).0,
        forall|h: u64|
            slot_contents(*t).contains_key(h) ==> exists|i: int|
                0 <= i < r@.len() && (#[trigger] r@[i]).0 == h,
{
    t.map.iter().map(|(k, v)| (slotmap::Key::data(&k).as_ffi(), *v)).collect()
}

/// `SlotMap::capacity`: how many entries fit before the map allocates again. What
/// it is depends on the allocator, so nothing is claimed.
#[verifier::external_body]
pub(crate) fn table_capacity(t: &SlotTable) -> (n: usize) {
    t.map.capacity()
}

/// A handle holds an index that is not zero in its low half and an odd number in its high
/// half. Any other number is taken for the handle with the next odd number there.
pub proof fn handles_have_their_form(low: int, high: int)
    requires
        0 <= low < 0x1_0000_0000,
        0 <= high < 0x1_0000_0000,
    ensures
        well_formed_handle((high * 0x1_0000_0000 + low) as u64) <==> low != 0 && high % 2 == 1,
        high % 2 == 1 ==> canonical((high * 0x1_0000_0000 + low) as u64) == (high * 0x1_0000_0000
            + low) as u64,
        high % 2 == 0 ==> canonical((high * 0x1_0000_0000 + low) as u64) == ((high + 1)
            * 0x1_0000_0000 + low) as u64,
{
    let h = (high * 0x1_0000_0000 + low) as u64;
    assert(h as int == high * 0x1_0000_0000 + low);
    assert(h as int / 0x1_0000_0000 == high);
    assert(h as int % 0x1_0000_0000 == low);
}

} // verus!
