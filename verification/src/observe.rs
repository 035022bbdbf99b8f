//! What can be seen of an endpoint: its counts, the paths to its peers, and how those
//! change.
use vstd::prelude::*;

use crate::events::{EventView, TransportEvent};
use crate::handles::HandleStore;
use crate::stats::{EndpointStats, PathInfo};
use crate::text::same;

verus! {

// ── Counts ───────────────────────────────────────────────────────────────────

/// Counts what an endpoint holds.
pub fn endpoint_stats(
    store: &HandleStore,
    pool_size: usize,
    active_connections: usize,
    active_requests: usize,
    watch: &PathWatch,
) -> (r: EndpointStats)
    ensures
        r.active_readers == store.readers.live().len(),
        r.active_writers == store.writers.live().len(),
        r.active_sessions == store.sessions.live().len(),
        r.total_handles == crate::handles::total_live(store),
        r.pool_size == pool_size,
        r.active_connections == active_connections,
        r.active_requests == active_requests,
        r.active_path_subscriptions == subscribed(watch.entries@),
        r.active_path_watchers == watch.entries@.len(),
{
    let (active_readers, active_writers, active_sessions, total_handles) = store.count_handles();
    EndpointStats {
        active_readers,
        active_writers,
        active_sessions,
        total_handles,
        pool_size,
        active_connections,
        active_requests,
        active_path_subscriptions: watch.subscriptions(),
        active_path_watchers: watch.watchers(),
    }
}

// ── Paths ────────────────────────────────────────────────────────────────────

/// What kind of address a path has.
#[derive(Debug, Clone, Copy, PartialEq, Eq, Structural)]
pub enum PathKind {
    Ip,
    Relay,
    Other,
}

/// A path to a peer, as the transport tells of it.
#[derive(Debug)]
pub struct RemotePath {
    pub kind: PathKind,
    pub addr: String,
    pub active: bool,
}

/// The paths to a peer.
#[derive(Debug)]
pub struct PeerPaths {
    /// Whether a path through a relay is active.
    pub relay: bool,
    /// The relay of the last such path.
    pub relay_url: Option<String>,
    pub paths: Vec<PathInfo>,
}

/// A path as its kind, address and whether it is active.
pub type RemoteView = (PathKind, Seq<char>, bool);

/// The views of paths.
pub open spec fn remote_views(v: Seq<RemotePath>) -> Seq<RemoteView> {
    v.map_values(|p: RemotePath| (p.kind, p.addr@, p.active))
}

/// A path as whether it goes through a relay, its address and whether it is active.
pub type PathView = (bool, Seq<char>, bool);

/// The views of paths.
pub open spec fn path_views(v: Seq<PathInfo>) -> Seq<PathView> {
    v.map_values(|p: PathInfo| (p.relay, p.addr@, p.active))
}

/// The relay of the last active path through one.
pub open spec fn active_relay(v: Seq<RemoteView>) -> Option<Seq<char>>
    decreases v.len(),
{
    if v.len() == 0 {
        None
    } else if v.last().0 == PathKind::Relay && v.last().2 {
        Some(v.last().1)
    } else {
        active_relay(v.drop_last())
    }
}

/// Sums up the paths to a peer.
pub fn fold_paths(paths: &[RemotePath]) -> (r: PeerPaths)
    ensures
        r.relay == (active_relay(remote_views(paths@)) is Some),
        crate::urls::opt_text(r.relay_url) == active_relay(remote_views(paths@)),
        path_views(r.paths@) == remote_views(paths@).map_values(
            |p: RemoteView| (p.0 == PathKind::Relay, p.1, p.2),
        ),
{
    let ghost all = remote_views(paths@);
    let ghost told = all.map_values(|p: RemoteView| (p.0 == PathKind::Relay, p.1, p.2));
    let mut out: Vec<PathInfo> = Vec::new();
    let mut relay_url: Option<String> = None;
    let mut i: usize = 0;
    proof {
        assert(path_views(out@) =~= told.take(0));
    }
    while i < paths.len()
        invariant
            i <= paths@.len(),
            all == remote_views(paths@),
            told == all.map_values(|p: RemoteView| (p.0 == PathKind::Relay, p.1, p.2)),
            crate::urls::opt_text(relay_url) == active_relay(all.take(i as int)),
            path_views(out@) == told.take(i as int),
        decreases paths@.len() - i,
    {
        proof {
            assert(all.take(i + 1).drop_last() =~= all.take(i as int));
            assert(all[i as int] == (
                paths@[i as int].kind,
                paths@[i as int].addr@,
                paths@[i as int].active,
            ));
        }
        let relay: bool = paths[i].kind == PathKind::Relay;
        if relay && paths[i].active {
            relay_url = Some(paths[i].addr.clone());
        }
        let ghost before = out@;
        out.push(PathInfo { relay, addr: paths[i].addr.clone(), active: paths[i].active });
        proof {
            assert(path_views(out@) =~= path_views(before).push(told[i as int]));
            assert(path_views(out@) =~= told.take(i + 1));
        }
        i = i + 1;
    }
    proof {
        assert(all.take(i as int) =~= all);
        assert(told.take(i as int) =~= told);
    }
    let relay: bool = match &relay_url {
        Some(_) => true,
        None => false,
    };
    PeerPaths { relay, relay_url, paths: out }
}

// ── Path changes ─────────────────────────────────────────────────────────────

/// A path that was told of: whether it goes through a relay, and its address.
#[derive(Debug)]
pub struct PathKey {
    pub relay: bool,
    pub addr: String,
}

/// The view of a path that was told of.
pub open spec fn path_key(k: Option<PathKey>) -> Option<(bool, Seq<char>)> {
    match k {
        Some(p) => Some((p.relay, p.addr@)),
        None => None,
    }
}

/// The first active path.
pub open spec fn active_path(paths: Seq<PathView>) -> Option<(bool, Seq<char>)>
    decreases paths.len(),
{
    if paths.len() == 0 {
        None
    } else if paths[0].2 {
        Some((paths[0].0, paths[0].1))
    } else {
        active_path(paths.drop_first())
    }
}

/// What is told when a peer's paths were looked at: the active path, where it is not
/// the one that was told of last.
pub open spec fn path_news(last: Option<(bool, Seq<char>)>, paths: Seq<PathView>) -> Option<
    (bool, Seq<char>),
> {
    if active_path(paths) is Some && active_path(paths) != last {
        active_path(paths)
    } else {
        None
    }
}

/// Decides what is told when a peer's paths were looked at, at a time. Gives the path for those
/// who watch it, and the event for those who watch the transport.
pub fn on_paths(
    peer_id: &str,
    last: &mut Option<PathKey>,
    paths: &[PathInfo],
    now_ms: u64,
) -> (r: Option<(PathInfo, TransportEvent)>)
    ensures
        ({
            let news = path_news(path_key(*old(last)), path_views(paths@));
            match r {
                Some((p, e)) => {
                    &&& news == Some((p.relay, p.addr@))
                    &&& p.active
                    &&& e@ == EventView::PathChange(peer_id@, p.addr@, p.relay, now_ms)
                    &&& path_key(*final(last)) == news
                },
                None => news is None && *final(last) == *old(last),
            }
        }),
{
    let ghost all = path_views(paths@);
    let mut i: usize = 0;
    proof {
        assert(all.skip(0) =~= all);
    }
    while i < paths.len() && !paths[i].active
        invariant
            i <= paths@.len(),
            all == path_views(paths@),
            active_path(all) == active_path(all.skip(i as int)),
        decreases paths@.len() - i,
    {
        proof {
            assert(all.skip(i as int)[0] == all[i as int]);
            assert(all.skip(i as int).drop_first() =~= all.skip(i + 1));
        }
        i = i + 1;
    }
    if i == paths.len() {
        return None;
    }
    proof {
        assert(all.skip(i as int)[0] == all[i as int]);
    }
    let relay: bool = paths[i].relay;
    let known: bool = match last {
        Some(k) => k.relay == relay && same(&k.addr, &paths[i].addr),
        None => false,
    };
    if known {
        return None;
    }
    *last = Some(PathKey { relay, addr: paths[i].addr.clone() });
    let info = PathInfo { relay, addr: paths[i].addr.clone(), active: true };
    let event = TransportEvent::path_change_at(peer_id, &paths[i].addr, relay, now_ms);
    Some((info, event))
}

/// What is told in the course of looking at a peer's paths again and again.
pub open spec fn path_story(looks: Seq<Seq<PathView>>) -> Seq<(bool, Seq<char>)>
    decreases looks.len(),
{
    if looks.len() == 0 {
        Seq::empty()
    } else {
        let before = path_story(looks.drop_last());
        let last = if before.len() > 0 {
            Some(before.last())
        } else {
            None
        };
        match path_news(last, looks.last()) {
            Some(p) => before.push(p),
            None => before,
        }
    }
}

/// However often a peer's paths are looked at, no path is told of twice in a row.
pub proof fn only_changes_are_told(looks: Seq<Seq<PathView>>)
    ensures
        forall|i: int, j: int|
            0 <= i && j == i + 1 && j < path_story(looks).len() ==> #[trigger] path_story(looks)[i]
                != #[trigger] path_story(looks)[j],
    decreases looks.len(),
{
    if looks.len() > 0 {
        only_changes_are_told(looks.drop_last());
        let before = path_story(looks.drop_last());
        let story = path_story(looks);
        assert forall|i: int, j: int|
            0 <= i && j == i + 1 && j < story.len() implies #[trigger] story[i]
            != #[trigger] story[j] by {
            assert(story[i] == before[i]);
            if j < before.len() {
                assert(story[j] == before[j]);
            } else {
                assert(before.last() == before[i]);
            }
        }
    }
}

// ── Who watches ──────────────────────────────────────────────────────────────

/// A peer whose paths a task looks at, and who is told; nobody, once they have
/// unsubscribed and before the task has noticed.
#[derive(Debug)]
pub struct PathEntry {
    pub node: String,
    pub sender: Option<u64>,
}

/// The peers whose paths are looked at: one task for each.
#[derive(Debug)]
pub struct PathWatch {
    pub entries: Vec<PathEntry>,
}

/// The peers and who is told.
pub open spec fn watch_view(v: Seq<PathEntry>) -> Seq<(Seq<char>, Option<u64>)> {
    v.map_values(|e: PathEntry| (e.node@, e.sender))
}

/// Where a peer stands; the number of peers where it does not.
pub open spec fn watch_index(v: Seq<(Seq<char>, Option<u64>)>, node: Seq<char>) -> int
    decreases v.len(),
{
    if v.len() == 0 {
        0
    } else if v[0].0 == node {
        0
    } else {
        1 + watch_index(v.drop_first(), node)
    }
}

/// The number of peers for which somebody is told.
pub open spec fn subscribed(v: Seq<PathEntry>) -> nat
    decreases v.len(),
{
    if v.len() == 0 {
        0
    } else {
        subscribed(v.drop_last()) + (if v.last().sender is Some {
            1nat
        } else {
            0
        })
    }
}

proof fn watch_index_is(v: Seq<(Seq<char>, Option<u64>)>, node: Seq<char>, k: int)
    requires
        0 <= k <= v.len(),
        k < v.len() ==> v[k].0 == node,
        forall|i: int| 0 <= i < k ==> (#[trigger] v[i]).0 != node,
    ensures
        watch_index(v, node) == k,
    decreases v.len(),
{
    if v.len() > 0 && v[0].0 != node {
        let rest = v.drop_first();
        assert forall|i: int| 0 <= i < k - 1 implies (#[trigger] rest[i]).0 != node by {
            assert(rest[i] == v[i + 1]);
        }
        watch_index_is(rest, node, k - 1);
    } else if v.len() > 0 && k > 0 {
        assert(v[0].0 != node);
    }
}

/// What a task that looks at a peer's paths does next.
#[derive(Debug, Clone, Copy, PartialEq, Eq, Structural)]
pub enum WatchStep {
    /// Look at the paths, and tell this one.
    Look(u64),
    /// End.
    End,
}

impl PathWatch {
    /// No peer stands in it twice.
    pub open spec fn wf(&self) -> bool {
        forall|i: int, j: int|
            0 <= i < j < self.entries@.len() ==> (#[trigger] self.entries@[i]).node@ != (
            #[trigger] self.entries@[j]).node@
    }

    /// Nobody watches.
    pub fn new() -> (r: Self)
        ensures
            r.wf(),
            r.entries@.len() == 0,
    {
        PathWatch { entries: Vec::new() }
    }

    /// The number of tasks.
    pub fn watchers(&self) -> (r: usize)
        ensures
            r == self.entries@.len(),
    {
        self.entries.len()
    }

    /// The number of peers for which somebody is told.
    pub fn subscriptions(&self) -> (r: usize)
        ensures
            r == subscribed(self.entries@),
    {
        let mut n: usize = 0;
        let mut i: usize = 0;
        while i < self.entries.len()
            invariant
                i <= self.entries@.len(),
                n == subscribed(self.entries@.take(i as int)),
                n <= i,
            decreases self.entries@.len() - i,
        {
            proof {
                assert(self.entries@.take(i + 1).drop_last() =~= self.entries@.take(i as int));
            }
            if self.entries[i].sender.is_some() {
                n = n + 1;
            }
            i = i + 1;
        }
        proof {
            assert(self.entries@.take(i as int) =~= self.entries@);
        }
        n
    }

    fn find(&self, node: &str) -> (r: usize)
        ensures
            r <= self.entries@.len(),
            r == watch_index(watch_view(self.entries@), node@),
            r < self.entries@.len() ==> self.entries@[r as int].node@ == node@,
            forall|i: int| 0 <= i < r ==> (#[trigger] self.entries@[i]).node@ != node@,
    {
        let ghost all = watch_view(self.entries@);
        let mut i: usize = 0;
        while i < self.entries.len() && !same(&self.entries[i].node, node)
            invariant
                i <= self.entries@.len(),
                all == watch_view(self.entries@),
                forall|j: int| 0 <= j < i ==> (#[trigger] self.entries@[j]).node@ != node@,
                forall|j: int| 0 <= j < i ==> (#[trigger] all[j]).0 != node@,
            decreases self.entries@.len() - i,
        {
            proof {
                assert(all[i as int].0 == self.entries@[i as int].node@);
            }
            i = i + 1;
        }
        proof {
            if i < self.entries@.len() {
                assert(all[i as int].0 == self.entries@[i as int].node@);
            }
            watch_index_is(all, node@, i as int);
        }
        i
    }

    /// Tells somebody of a peer's path changes, in place of whoever was told before.
    /// Says whether a task has to be started: where one looks at the peer's paths
    /// already, it serves the new one too.
    pub fn subscribe_path_changes(&mut self, node: &str, sender: u64) -> (r: bool)
        requires
            old(self).wf(),
        ensures
            final(self).wf(),
            ({
                let before = watch_view(old(self).entries@);
                let k = watch_index(before, node@);
                &&& r == (k >= before.len())
                &&& watch_view(final(self).entries@) == if r {
                    before.push((node@, Some(sender)))
                } else {
                    before.update(k, (node@, Some(sender)))
                }
            }),
    {
        let ghost before = self.entries@;
        let i: usize = self.find(node);
        if i < self.entries.len() {
            let e = PathEntry { node: node.to_owned(), sender: Some(sender) };
            self.entries.set(i, e);
            proof {
                assert(watch_view(self.entries@) =~= watch_view(before).update(
                    i as int,
                    (node@, Some(sender)),
                ));
                assert forall|a: int, b: int| 0 <= a < b < self.entries@.len() implies (
                #[trigger] self.entries@[a]).node@ != (#[trigger] self.entries@[b]).node@ by {
                    assert(self.entries@[a].node@ == before[a].node@);
                    assert(self.entries@[b].node@ == before[b].node@);
                }
            }
            false
        } else {
            self.entries.push(PathEntry { node: node.to_owned(), sender: Some(sender) });
            proof {
                assert(watch_view(self.entries@) =~= watch_view(before).push(
                    (node@, Some(sender)),
                ));
                assert forall|a: int, b: int| 0 <= a < b < self.entries@.len() implies (
                #[trigger] self.entries@[a]).node@ != (#[trigger] self.entries@[b]).node@ by {
                    assert(self.entries@[a] == before[a]);
                    if b < before.len() {
                        assert(self.entries@[b] == before[b]);
                    }
                }
            }
            true
        }
    }

    /// Tells nobody of a peer's path changes any more.
    pub fn unsubscribe_path_changes(&mut self, node: &str)
        requires
            old(self).wf(),
        ensures
            final(self).wf(),
            ({
                let before = watch_view(old(self).entries@);
                let k = watch_index(before, node@);
                watch_view(final(self).entries@) == if k < before.len() {
                    before.update(k, (node@, None))
                } else {
                    before
                }
            }),
    {
        let ghost before = self.entries@;
        let i: usize = self.find(node);
        if i < self.entries.len() {
            self.entries.set(i, PathEntry { node: node.to_owned(), sender: None });
            proof {
                assert(watch_view(self.entries@) =~= watch_view(before).update(
                    i as int,
                    (node@, None),
                ));
                assert forall|a: int, b: int| 0 <= a < b < self.entries@.len() implies (
                #[trigger] self.entries@[a]).node@ != (#[trigger] self.entries@[b]).node@ by {
                    assert(self.entries@[a].node@ == before[a].node@);
                    assert(self.entries@[b].node@ == before[b].node@);
                }
            }
        }
    }

    /// Decides what a task does before it looks at a peer's paths: it ends once the
    /// endpoint is closed or nobody is told any more, and then no longer counts.
    pub fn watch_step(&mut self, node: &str, endpoint_closed: bool, gone: &[u64]) -> (r: WatchStep)
        requires
            old(self).wf(),
        ensures
            final(self).wf(),
            ({
                let before = watch_view(old(self).entries@);
                let k = watch_index(before, node@);
                if k < before.len() {
                    match before[k].1 {
                        Some(s) => if endpoint_closed || gone@.contains(s) {
                            r == WatchStep::End && watch_view(final(self).entries@)
                                == before.remove(k)
                        } else {
                            r == WatchStep::Look(s) && watch_view(final(self).entries@) == before
                        },
                        None => r == WatchStep::End && watch_view(final(self).entries@)
                            == before.remove(k),
                    }
                } else {
                    r == WatchStep::End && watch_view(final(self).entries@) == before
                }
            }),
    {
        let ghost before = self.entries@;
        let i: usize = self.find(node);
        if i >= self.entries.len() {
            return WatchStep::End;
        }
        proof {
            assert(watch_view(before)[i as int] == (
                before[i as int].node@,
                before[i as int].sender,
            ));
        }
        if !endpoint_closed {
            if let Some(s) = self.entries[i].sender {
                if !holds(gone, s) {
                    return WatchStep::Look(s);
                }
            }
        }
        self.entries.remove(i);
        proof {
            assert(watch_view(self.entries@) =~= watch_view(before).remove(i as int));
            assert forall|a: int, b: int| 0 <= a < b < self.entries@.len() implies (
            #[trigger] self.entries@[a]).node@ != (#[trigger] self.entries@[b]).node@ by {
                let a0 = if a < i { a } else { a + 1 };
                let b0 = if b < i { b } else { b + 1 };
                assert(self.entries@[a] == before[a0]);
                assert(self.entries@[b] == before[b0]);
            }
        }
        WatchStep::End
    }
}

fn holds(v: &[u64], x: u64) -> (r: bool)
    ensures
        r == v@.contains(x),
{
    let mut i: usize = 0;
    while i < v.len()
        invariant
            i <= v@.len(),
            forall|j: int| 0 <= j < i ==> v@[j] != x,
        decreases v@.len() - i,
    {
        if v[i] == x {
            return true;
        }
        i = i + 1;
    }
    false
}

// ── Laws ─────────────────────────────────────────────────────────────────────

/// Paths and watchers are seen as they are.
pub proof fn paths_are_seen_whole(
    v: Seq<RemotePath>,
    w: Seq<PathInfo>,
    k: PathKey,
    e: Seq<PathEntry>,
)
    ensures
        remote_views(v).len() == v.len(),
        forall|i: int|
            0 <= i < v.len() ==> #[trigger] remote_views(v)[i] == (
                v[i].kind,
                v[i].addr@,
                v[i].active,
            ),
        path_views(w).len() == w.len(),
        forall|i: int|
            0 <= i < w.len() ==> #[trigger] path_views(w)[i] == (
                w[i].relay,
                w[i].addr@,
                w[i].active,
            ),
        path_key(Some(k)) == Some((k.relay, k.addr@)),
        path_key(None) is None,
        watch_view(e).len() == e.len(),
        forall|i: int|
            0 <= i < e.len() ==> #[trigger] watch_view(e)[i] == (e[i].node@, e[i].sender),
{
}

/// The relay that is told is that of the last active path through one; there is none
/// exactly where no such path is active.
pub proof fn the_last_active_relay_is_told(v: Seq<RemoteView>)
    ensures
        match active_relay(v) {
            Some(u) => exists|k: int|
                0 <= k < v.len() && (#[trigger] v[k]) == (PathKind::Relay, u, true) && forall|j: int|
                    k < j < v.len() ==> !((#[trigger] v[j]).0 == PathKind::Relay && v[j].2),
            None => forall|j: int|
                0 <= j < v.len() ==> !((#[trigger] v[j]).0 == PathKind::Relay && v[j].2),
        },
    decreases v.len(),
{
    if v.len() > 0 {
        let init = v.drop_last();
        let n = v.len() - 1;
        the_last_active_relay_is_told(init);
        assert(v[n] == v.last());
        if !(v.last().0 == PathKind::Relay && v.last().2) {
            match active_relay(init) {
                Some(u) => {
                    let k = choose|k: int|
                        0 <= k < init.len() && (#[trigger] init[k]) == (PathKind::Relay, u, true)
                            && forall|j: int|
                            k < j < init.len() ==> !((#[trigger] init[j]).0 == PathKind::Relay
                                && init[j].2);
                    assert(v[k] == init[k]);
                    assert forall|j: int| k < j < v.len() implies !((
                    #[trigger] v[j]).0 == PathKind::Relay && v[j].2) by {
                        if j < n {
                            assert(v[j] == init[j]);
                        }
                    }
                },
                None => {
                    assert forall|j: int| 0 <= j < v.len() implies !((
                    #[trigger] v[j]).0 == PathKind::Relay && v[j].2) by {
                        if j < n {
                            assert(v[j] == init[j]);
                        }
                    }
                },
            }
        }
    }
}

/// The path that is used is the first active one.
pub proof fn the_first_active_path_is_used(v: Seq<PathView>)
    ensures
        match active_path(v) {
            Some((relay, addr)) => exists|k: int|
                0 <= k < v.len() && (#[trigger] v[k]) == (relay, addr, true) && forall|j: int|
                    0 <= j < k ==> !(#[trigger] v[j]).2,
            None => forall|j: int| 0 <= j < v.len() ==> !(#[trigger] v[j]).2,
        },
    decreases v.len(),
{
    if v.len() > 0 {
        if v[0].2 {
            assert(v[0] == (v[0].0, v[0].1, true));
        } else {
            let rest = v.drop_first();
            the_first_active_path_is_used(rest);
            match active_path(rest) {
                Some((relay, addr)) => {
                    let k = choose|k: int|
                        0 <= k < rest.len() && (#[trigger] rest[k]) == (relay, addr, true)
                            && forall|j: int| 0 <= j < k ==> !(#[trigger] rest[j]).2;
                    assert(v[k + 1] == rest[k]);
                    assert forall|j: int| 0 <= j < k + 1 implies !(#[trigger] v[j]).2 by {
                        if j > 0 {
                            assert(v[j] == rest[j - 1]);
                        }
                    }
                },
                None => {
                    assert forall|j: int| 0 <= j < v.len() implies !(#[trigger] v[j]).2 by {
                        if j > 0 {
                            assert(v[j] == rest[j - 1]);
                        }
                    }
                },
            }
        }
    }
}

/// A path is told of exactly where one is used and it is not the one that was told of
/// last; then it is that path.
pub proof fn changes_are_told(last: Option<(bool, Seq<char>)>, paths: Seq<PathView>)
    ensures
        path_news(last, paths) is Some <==> active_path(paths) is Some && active_path(paths)
            != last,
        path_news(last, paths) is Some ==> path_news(last, paths) == active_path(paths),
{
}

/// After a look at paths of which one is used, that one is the last that was told of.
pub proof fn the_path_in_use_is_known(looks: Seq<Seq<PathView>>)
    requires
        looks.len() > 0,
        active_path(looks.last()) is Some,
    ensures
        path_story(looks).len() > 0,
        active_path(looks.last()) == Some(path_story(looks).last()),
{
}

/// Where a peer stands among the watched: at the first entry with its name, or behind all.
pub proof fn watched_peers_are_found(v: Seq<(Seq<char>, Option<u64>)>, node: Seq<char>)
    ensures
        0 <= watch_index(v, node) <= v.len(),
        watch_index(v, node) < v.len() ==> v[watch_index(v, node)].0 == node,
        forall|j: int| 0 <= j < watch_index(v, node) ==> (#[trigger] v[j]).0 != node,
    decreases v.len(),
{
    if v.len() > 0 && v[0].0 != node {
        let rest = v.drop_first();
        watched_peers_are_found(rest, node);
        let k = watch_index(rest, node);
        assert forall|j: int| 0 <= j < k + 1 implies (#[trigger] v[j]).0 != node by {
            if j > 0 {
                assert(v[j] == rest[j - 1]);
            }
        }
        if k < rest.len() {
            assert(v[k + 1] == rest[k]);
        }
    }
}

/// The subscriptions are the entries that somebody is told of.
pub proof fn subscriptions_are_counted(v: Seq<PathEntry>)
    ensures
        subscribed(v) == v.filter(|e: PathEntry| e.sender is Some).len(),
    decreases v.len(),
{
    reveal(Seq::filter);
    if v.len() > 0 {
        subscriptions_are_counted(v.drop_last());
    }
}

} // verus!
