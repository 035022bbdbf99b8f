//! Events of the transport that an endpoint reports.
use vstd::prelude::*;

verus! {

/// `std::time::SystemTime::elapsed` of the Unix epoch, as whole seconds and nanoseconds;
/// nothing where the clock stands before the epoch. Only the range of the nanoseconds is
/// claimed: what the clock says is left to it.
#[verifier::external_body]
fn read_clock() -> (r: Option<(u64, u32)>)
    ensures
        r matches Some(t) ==> t.1 < 1_000_000_000,
{
    std::time::SystemTime::UNIX_EPOCH.elapsed().ok().map(|d| (d.as_secs(), d.subsec_nanos()))
}

/// A reading of the clock in milliseconds, as far as 64 bits hold them; 0 before the
/// epoch.
pub open spec fn clock_ms(read: Option<(u64, u32)>) -> int {
    match read {
        Some((secs, nanos)) => (secs * 1000 + nanos / 1_000_000) % 0x1_0000_0000_0000_0000,
        None => 0,
    }
}

/// A reading of the clock in milliseconds since the Unix epoch.
pub fn since_epoch_ms(read: Option<(u64, u32)>) -> (r: u64)
    ensures
        r == clock_ms(read),
{
    match read {
        Some((secs, nanos)) => {
            let ms: u128 = secs as u128 * 1000 + (nanos / 1_000_000) as u128;
            (ms % 0x1_0000_0000_0000_0000) as u64
        },
        None => 0,
    }
}

/// The time since the Unix epoch in milliseconds, as the clock gives it.
pub fn now_ms() -> (r: u64)
    ensures
        exists|read: Option<(u64, u32)>| r == #[trigger] clock_ms(read),
{
    let read = read_clock();
    let r = since_epoch_ms(read);
    proof {
        assert(r == clock_ms(read));
    }
    r
}

/// An event of the transport, with the time at which it was made.
#[derive(Debug, Clone)]
pub enum TransportEvent {
    /// A cached connection was used.
    PoolHit { peer_id: String, timestamp: u64 },
    /// No connection was cached.
    PoolMiss { peer_id: String, timestamp: u64 },
    /// A cached connection was given up.
    PoolEvict { peer_id: String, timestamp: u64 },
    /// The path to a peer changed.
    PathChange { peer_id: String, addr: String, relay: bool, timestamp: u64 },
    /// Expired handles were swept.
    HandleSweep { evicted: u64, timestamp: u64 },
}

/// What an event says, with its time last.
pub enum EventView {
    PoolHit(Seq<char>, u64),
    PoolMiss(Seq<char>, u64),
    PoolEvict(Seq<char>, u64),
    PathChange(Seq<char>, Seq<char>, bool, u64),
    HandleSweep(u64, u64),
}

impl View for TransportEvent {
    type V = EventView;

    open spec fn view(&self) -> EventView {
        match self {
            TransportEvent::PoolHit { peer_id, timestamp } => EventView::PoolHit(
                peer_id@,
                *timestamp,
            ),
            TransportEvent::PoolMiss { peer_id, timestamp } => EventView::PoolMiss(
                peer_id@,
                *timestamp,
            ),
            TransportEvent::PoolEvict { peer_id, timestamp } => EventView::PoolEvict(
                peer_id@,
                *timestamp,
            ),
            TransportEvent::PathChange { peer_id, addr, relay, timestamp } => EventView::PathChange(
                peer_id@,
                addr@,
                *relay,
                *timestamp,
            ),
            TransportEvent::HandleSweep { evicted, timestamp } => EventView::HandleSweep(
                *evicted,
                *timestamp,
            ),
        }
    }
}

impl TransportEvent {
    /// A cached connection was used at a time.
    pub fn pool_hit_at(peer_id: &str, timestamp: u64) -> (r: Self)
        ensures
            r@ == EventView::PoolHit(peer_id@, timestamp),
    {
        TransportEvent::PoolHit { peer_id: peer_id.to_owned(), timestamp }
    }

    /// A cached connection was used now. What the clock says is left to it.
    pub fn pool_hit(peer_id: &str) -> (r: Self)
        ensures
            exists|read: Option<(u64, u32)>|
                r@ == EventView::PoolHit(peer_id@, #[trigger] clock_ms(read) as u64),
    {
        Self::pool_hit_at(peer_id, now_ms())
    }

    /// No connection was cached at a time.
    pub fn pool_miss_at(peer_id: &str, timestamp: u64) -> (r: Self)
        ensures
            r@ == EventView::PoolMiss(peer_id@, timestamp),
    {
        TransportEvent::PoolMiss { peer_id: peer_id.to_owned(), timestamp }
    }

    /// No connection was cached now. What the clock says is left to it.
    pub fn pool_miss(peer_id: &str) -> (r: Self)
        ensures
            exists|read: Option<(u64, u32)>|
                r@ == EventView::PoolMiss(peer_id@, #[trigger] clock_ms(read) as u64),
    {
        Self::pool_miss_at(peer_id, now_ms())
    }

    /// A cached connection was given up at a time.
    pub fn pool_evict_at(peer_id: &str, timestamp: u64) -> (r: Self)
        ensures
            r@ == EventView::PoolEvict(peer_id@, timestamp),
    {
        TransportEvent::PoolEvict { peer_id: peer_id.to_owned(), timestamp }
    }

    /// A cached connection was given up now. What the clock says is left to it.
    pub fn pool_evict(peer_id: &str) -> (r: Self)
        ensures
            exists|read: Option<(u64, u32)>|
                r@ == EventView::PoolEvict(peer_id@, #[trigger] clock_ms(read) as u64),
    {
        Self::pool_evict_at(peer_id, now_ms())
    }

    /// The path to a peer changed at a time.
    pub fn path_change_at(peer_id: &str, addr: &str, relay: bool, timestamp: u64) -> (r: Self)
        ensures
            r@ == EventView::PathChange(peer_id@, addr@, relay, timestamp),
    {
        TransportEvent::PathChange {
            peer_id: peer_id.to_owned(),
            addr: addr.to_owned(),
            relay,
            timestamp,
        }
    }

    /// The path to a peer changed now. What the clock says is left to it.
    pub fn path_change(peer_id: &str, addr: &str, relay: bool) -> (r: Self)
        ensures
            exists|read: Option<(u64, u32)>|
                r@ == EventView::PathChange(peer_id@, addr@, relay, #[trigger] clock_ms(read) as u64),
    {
        Self::path_change_at(peer_id, addr, relay, now_ms())
    }

    /// Expired handles were swept at a time.
    pub fn handle_sweep_at(evicted: u64, timestamp: u64) -> (r: Self)
        ensures
            r@ == EventView::HandleSweep(evicted, timestamp),
    {
        TransportEvent::HandleSweep { evicted, timestamp }
    }

    /// Expired handles were swept now. What the clock says is left to it.
    pub fn handle_sweep(evicted: u64) -> (r: Self)
        ensures
            exists|read: Option<(u64, u32)>|
                r@ == EventView::HandleSweep(evicted, #[trigger] clock_ms(read) as u64),
    {
        Self::handle_sweep_at(evicted, now_ms())
    }
}

/// The time is that of the clock in whole milliseconds, and 0 before the epoch.
pub proof fn times_are_in_milliseconds(secs: u64, nanos: u32)
    requires
        secs < 1_000_000_000_000,
        nanos < 1_000_000_000,
    ensures
        clock_ms(Some((secs, nanos))) <= secs * 1000 + 999,
        secs * 1000 <= clock_ms(Some((secs, nanos))),
        1_000_000 * (clock_ms(Some((secs, nanos))) - secs * 1000) <= nanos < 1_000_000 * (clock_ms(
            Some((secs, nanos)),
        ) - secs * 1000 + 1),
        clock_ms(None) == 0,
{
}

/// An event is seen as it is, with its time.
pub proof fn events_are_seen_whole(e: TransportEvent)
    ensures
        e matches TransportEvent::PoolHit { peer_id, timestamp } ==> e@ == EventView::PoolHit(
            peer_id@,
            timestamp,
        ),
        e matches TransportEvent::PoolMiss { peer_id, timestamp } ==> e@ == EventView::PoolMiss(
            peer_id@,
            timestamp,
        ),
        e matches TransportEvent::PoolEvict { peer_id, timestamp } ==> e@ == EventView::PoolEvict(
            peer_id@,
            timestamp,
        ),
        e matches TransportEvent::PathChange { peer_id, addr, relay, timestamp } ==> e@
            == EventView::PathChange(peer_id@, addr@, relay, timestamp),
        e matches TransportEvent::HandleSweep { evicted, timestamp } ==> e@
            == EventView::HandleSweep(evicted, timestamp),
{
}

} // verus!
