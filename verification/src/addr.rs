//! Addresses: which can be dialled, which are advertised, and how a peer's address
//! is read.
use vstd::prelude::*;

use crate::adapter::{json_literal, json_string};
use crate::encoding::{parse_node_id, parsed_node_id, NodeId};
use crate::error::{CoreError, ErrorCode, ErrorView};
use crate::rules::{debug_text, quoted};
use crate::stats::NodeAddrInfo;
use crate::text::{contains_text, holds_text};
use crate::urls::{parse_relay_url, relay_url_parsed};

verus! {

// ── IP addresses ─────────────────────────────────────────────────────────────

/// An IP address, as a number whose highest bits are the first part of the address.
#[derive(Debug, Clone, Copy, PartialEq, Eq, Structural)]
pub enum IpAddr {
    V4(u32),
    V6(u128),
}

impl IpAddr {
    /// The IPv4 address of four parts.
    pub fn v4(a: u8, b: u8, c: u8, d: u8) -> (r: Self)
        ensures
            r == IpAddr::V4((a * 0x100_0000 + b * 0x1_0000 + c * 0x100 + d) as u32),
    {
        IpAddr::V4(a as u32 * 0x100_0000 + b as u32 * 0x1_0000 + c as u32 * 0x100 + d as u32)
    }

    pub fn is_ipv6(&self) -> (r: bool)
        ensures
            r == (*self is V6),
    {
        match self {
            IpAddr::V4(_) => false,
            IpAddr::V6(_) => true,
        }
    }
}

/// Whether an IPv6 address is on its own segment only: `fe80::/10`.
pub open spec fn v6_link_local(n: u128) -> bool {
    n / 0x40_0000_0000_0000_0000_0000_0000_0000 == 0x3fa
}

/// Whether an address can be reached from another segment: it is neither of this
/// host (`127.0.0.0/8`, `::1`), nor unspecified, nor of its own segment only
/// (`169.254.0.0/16`, `fe80::/10`).
pub open spec fn routable(ip: IpAddr) -> bool {
    match ip {
        IpAddr::V4(n) => n / 0x100_0000 != 127 && n != 0 && n / 0x1_0000 != 0xa9fe,
        IpAddr::V6(n) => n != 1 && n != 0 && !v6_link_local(n),
    }
}

/// Whether an address can be reached from another segment.
pub fn is_routable_ip(ip: &IpAddr) -> (r: bool)
    ensures
        r == routable(*ip),
{
    match *ip {
        IpAddr::V4(n) => n / 0x100_0000 != 127 && n != 0 && n / 0x1_0000 != 0xa9fe,
        IpAddr::V6(n) => n != 1 && n != 0 && n / 0x40_0000_0000_0000_0000_0000_0000_0000 != 0x3fa,
    }
}

/// A socket address. `scope_id` names the interface of an IPv6 address, 0 for none.
#[derive(Debug, Clone, Copy, PartialEq, Eq, Structural)]
pub struct SocketAddr {
    pub ip: IpAddr,
    pub port: u16,
    pub scope_id: u32,
}

impl SocketAddr {
    /// An address without a scope.
    pub fn new(ip: IpAddr, port: u16) -> (r: Self)
        ensures
            r == (SocketAddr { ip, port, scope_id: 0 }),
    {
        SocketAddr { ip, port, scope_id: 0 }
    }
}

/// An address as it was written, and what it was read as, or why it could not be.
#[derive(Debug)]
pub struct AddrText {
    pub text: String,
    pub read: Result<SocketAddr, String>,
}

impl View for AddrText {
    type V = (Seq<char>, Result<SocketAddr, Seq<char>>);

    open spec fn view(&self) -> (Seq<char>, Result<SocketAddr, Seq<char>>) {
        (
            self.text@,
            match self.read {
                Ok(a) => Ok(a),
                Err(m) => Err(m@),
            },
        )
    }
}

/// The views of a list of addresses.
pub open spec fn addr_views(v: Seq<AddrText>) -> Seq<
    (Seq<char>, Result<SocketAddr, Seq<char>>),
> {
    v.map_values(|a: AddrText| a@)
}

// ── Ports ────────────────────────────────────────────────────────────────────

/// Whether a port stands for none: 0, or 1, which no QUIC socket has.
pub open spec fn placeholder(port: u16) -> bool {
    port == 0 || port == 1
}

/// Whether a port stands for none.
pub fn is_placeholder_port(port: u16) -> (r: bool)
    ensures
        r == placeholder(port),
{
    port == 0 || port == 1
}

/// The port of the first bound socket of a family that has a real one.
pub open spec fn borrowed_port(bound: Seq<SocketAddr>, v6: bool) -> Option<u16>
    decreases bound.len(),
{
    if bound.len() == 0 {
        None
    } else if (bound[0].ip is V6) == v6 && !placeholder(bound[0].port) {
        Some(bound[0].port)
    } else {
        borrowed_port(bound.drop_first(), v6)
    }
}

/// What becomes of one candidate: nothing, if it has no real port and none can be
/// borrowed.
pub open spec fn reconciled_one(addr: SocketAddr, bound: Seq<SocketAddr>) -> Option<SocketAddr> {
    if !placeholder(addr.port) {
        Some(addr)
    } else {
        match borrowed_port(bound, addr.ip is V6) {
            Some(port) => Some(SocketAddr { port, ..addr }),
            None => None,
        }
    }
}

/// What becomes of the candidates.
pub open spec fn reconciled(candidates: Seq<SocketAddr>, bound: Seq<SocketAddr>) -> Seq<SocketAddr>
    decreases candidates.len(),
{
    if candidates.len() == 0 {
        Seq::empty()
    } else {
        let init = reconciled(candidates.drop_last(), bound);
        match reconciled_one(candidates.last(), bound) {
            Some(a) => init.push(a),
            None => init,
        }
    }
}

fn borrow_port(bound: &[SocketAddr], v6: bool) -> (r: Option<u16>)
    ensures
        r == borrowed_port(bound@, v6),
{
    let mut i: usize = 0;
    proof {
        assert(bound@.skip(0) =~= bound@);
    }
    while i < bound.len()
        invariant
            i <= bound@.len(),
            borrowed_port(bound@, v6) == borrowed_port(bound@.skip(i as int), v6),
        decreases bound@.len() - i,
    {
        proof {
            assert(bound@.skip(i as int).drop_first() =~= bound@.skip(i + 1));
        }
        if bound[i].ip.is_ipv6() == v6 && !is_placeholder_port(bound[i].port) {
            return Some(bound[i].port);
        }
        i = i + 1;
    }
    None
}

/// Gives every candidate a port at which it can be dialled: a real one stays as it
/// is, also where no socket is bound to it, for it may be what a peer sees behind a
/// NAT; one that stands for none is replaced by the port of a bound socket of the
/// same family, and the candidate is dropped where there is none.
pub fn reconcile_direct_addr_ports(candidates: &[SocketAddr], bound_sockets: &[SocketAddr]) -> (r:
    Vec<SocketAddr>)
    ensures
        r@ == reconciled(candidates@, bound_sockets@),
{
    let mut out: Vec<SocketAddr> = Vec::new();
    let mut i: usize = 0;
    while i < candidates.len()
        invariant
            i <= candidates@.len(),
            out@ == reconciled(candidates@.take(i as int), bound_sockets@),
        decreases candidates@.len() - i,
    {
        proof {
            assert(candidates@.take(i + 1).drop_last() =~= candidates@.take(i as int));
        }
        let addr: SocketAddr = candidates[i];
        if !is_placeholder_port(addr.port) {
            out.push(addr);
        } else {
            match borrow_port(bound_sockets, addr.ip.is_ipv6()) {
                Some(port) => {
                    out.push(SocketAddr { port, ..addr });
                },
                None => {},
            }
        }
        i = i + 1;
    }
    proof {
        assert(candidates@.take(i as int) =~= candidates@);
    }
    out
}

proof fn borrowed_is_real(bound: Seq<SocketAddr>, v6: bool)
    ensures
        borrowed_port(bound, v6) matches Some(p) ==> !placeholder(p) && exists|i: int|
            0 <= i < bound.len() && (#[trigger] bound[i]).port == p && (bound[i].ip is V6) == v6,
    decreases bound.len(),
{
    if bound.len() > 0 {
        if (bound[0].ip is V6) == v6 && !placeholder(bound[0].port) {
            assert(bound[0].port == bound[0].port);
        } else {
            let rest = bound.drop_first();
            borrowed_is_real(rest, v6);
            if let Some(p) = borrowed_port(rest, v6) {
                let i = choose|i: int|
                    0 <= i < rest.len() && (#[trigger] rest[i]).port == p && (rest[i].ip is V6)
                        == v6;
                assert(bound[i + 1] == rest[i]);
            }
        }
    }
}

/// What is advertised can be dialled: no reconciled address has a port that stands
/// for none, each keeps the IP address of a candidate, and each candidate with a
/// real port is there unchanged. A port that was borrowed is that of a bound socket
/// of the same family.
pub proof fn reconciled_can_be_dialled(candidates: Seq<SocketAddr>, bound: Seq<SocketAddr>)
    ensures
        forall|i: int|
            0 <= i < reconciled(candidates, bound).len() ==> !placeholder(
                (#[trigger] reconciled(candidates, bound)[i]).port,
            ),
        forall|i: int|
            0 <= i < reconciled(candidates, bound).len() ==> {
                let a = #[trigger] reconciled(candidates, bound)[i];
                ||| candidates.contains(a)
                ||| exists|c: SocketAddr, b: SocketAddr|
                    #![trigger candidates.contains(c), bound.contains(b)]
                    candidates.contains(c) && bound.contains(b) && placeholder(c.port) && a == (
                    SocketAddr { port: b.port, ..c }) && (b.ip is V6) == (c.ip is V6)
            },
        forall|c: SocketAddr|
            #[trigger] candidates.contains(c) && !placeholder(c.port) ==> reconciled(
                candidates,
                bound,
            ).contains(c),
    decreases candidates.len(),
{
    let all = reconciled(candidates, bound);
    if candidates.len() > 0 {
        let init = candidates.drop_last();
        let last = candidates.last();
        reconciled_can_be_dialled(init, bound);
        borrowed_is_real(bound, last.ip is V6);
        let before = reconciled(init, bound);
        assert(candidates[candidates.len() - 1] == last);
        assert forall|c: SocketAddr| #[trigger] init.contains(c) implies candidates.contains(c) by {
            let k = choose|k: int| 0 <= k < init.len() && init[k] == c;
            assert(candidates[k] == c);
        }
        assert forall|i: int| 0 <= i < all.len() implies ({
            let a = #[trigger] all[i];
            ||| candidates.contains(a)
            ||| exists|c: SocketAddr, b: SocketAddr|
                #![trigger candidates.contains(c), bound.contains(b)]
                candidates.contains(c) && bound.contains(b) && placeholder(c.port) && a == (
                SocketAddr { port: b.port, ..c }) && (b.ip is V6) == (c.ip is V6)
        }) by {
            let a = all[i];
            if i < before.len() {
                assert(before[i] == a);
                if !init.contains(a) {
                    let (c, b) = choose|c: SocketAddr, b: SocketAddr|
                        #![trigger init.contains(c), bound.contains(b)]
                        init.contains(c) && bound.contains(b) && placeholder(c.port) && a == (
                        SocketAddr { port: b.port, ..c }) && (b.ip is V6) == (c.ip is V6);
                    assert(candidates.contains(c) && bound.contains(b));
                }
            } else if placeholder(last.port) {
                let p = borrowed_port(bound, last.ip is V6)->Some_0;
                let k = choose|k: int|
                    0 <= k < bound.len() && (#[trigger] bound[k]).port == p && (bound[k].ip is V6)
                        == (last.ip is V6);
                assert(candidates.contains(last) && bound.contains(bound[k]));
            }
        }
        assert forall|i: int| 0 <= i < all.len() implies !placeholder((#[trigger] all[i]).port) by {
            if i < before.len() {
                assert(before[i] == all[i]);
            }
        }
        assert forall|c: SocketAddr|
            #[trigger] candidates.contains(c) && !placeholder(c.port) implies all.contains(c) by {
            let k = choose|k: int| 0 <= k < candidates.len() && candidates[k] == c;
            if k < init.len() {
                assert(init[k] == c);
                assert(init.contains(c));
                let j = choose|j: int| 0 <= j < before.len() && before[j] == c;
                assert(all[j] == c);
            } else {
                assert(all[before.len() as int] == c);
            }
        }
    }
}

// ── What is advertised ───────────────────────────────────────────────────────

/// Whether an address is worth advertising.
pub open spec fn dialable(a: SocketAddr) -> bool {
    routable(a.ip) && !placeholder(a.port)
}

/// The addresses worth advertising, each once, in order.
pub open spec fn dialables(addrs: Seq<SocketAddr>) -> Seq<SocketAddr>
    decreases addrs.len(),
{
    if addrs.len() == 0 {
        Seq::empty()
    } else {
        let init = dialables(addrs.drop_last());
        if dialable(addrs.last()) && !init.contains(addrs.last()) {
            init.push(addrs.last())
        } else {
            init
        }
    }
}

/// The first address worth advertising, if there is one.
pub open spec fn first_dialable(addrs: Seq<SocketAddr>) -> Option<SocketAddr>
    decreases addrs.len(),
{
    if addrs.len() == 0 {
        None
    } else if dialable(addrs[0]) {
        Some(addrs[0])
    } else {
        first_dialable(addrs.drop_first())
    }
}

/// The first address worth advertising.
pub fn select_dialable_direct(addrs: &[SocketAddr]) -> (r: Option<SocketAddr>)
    ensures
        r == first_dialable(addrs@),
        match r {
            Some(a) => exists|i: int|
                0 <= i < addrs@.len() && #[trigger] addrs@[i] == a && dialable(a) && forall|j: int|
                    0 <= j < i ==> !dialable(#[trigger] addrs@[j]),
            None => forall|i: int| 0 <= i < addrs@.len() ==> !dialable(#[trigger] addrs@[i]),
        },
{
    let mut i: usize = 0;
    proof {
        assert(addrs@.skip(0) =~= addrs@);
    }
    while i < addrs.len()
        invariant
            i <= addrs@.len(),
            forall|j: int| 0 <= j < i ==> !dialable(#[trigger] addrs@[j]),
            first_dialable(addrs@.skip(i as int)) == first_dialable(addrs@),
        decreases addrs@.len() - i,
    {
        if is_routable_ip(&addrs[i].ip) && !is_placeholder_port(addrs[i].port) {
            return Some(addrs[i]);
        }
        proof {
            assert(addrs@.skip(i as int).drop_first() =~= addrs@.skip(i + 1));
        }
        i = i + 1;
    }
    None
}

fn holds_addr(addrs: &Vec<SocketAddr>, a: SocketAddr) -> (r: bool)
    ensures
        r == addrs@.contains(a),
{
    let mut i: usize = 0;
    while i < addrs.len()
        invariant
            i <= addrs@.len(),
            forall|j: int| 0 <= j < i ==> addrs@[j] != a,
        decreases addrs@.len() - i,
    {
        if addrs[i] == a {
            return true;
        }
        i = i + 1;
    }
    false
}

/// All addresses worth advertising, each once, in order: a peer dials whichever it
/// can reach.
pub fn select_dialable_directs(addrs: &[SocketAddr]) -> (r: Vec<SocketAddr>)
    ensures
        r@ == dialables(addrs@),
{
    let mut out: Vec<SocketAddr> = Vec::new();
    let mut i: usize = 0;
    while i < addrs.len()
        invariant
            i <= addrs@.len(),
            out@ == dialables(addrs@.take(i as int)),
        decreases addrs@.len() - i,
    {
        proof {
            assert(addrs@.take(i + 1).drop_last() =~= addrs@.take(i as int));
        }
        if is_routable_ip(&addrs[i].ip) && !is_placeholder_port(addrs[i].port) && !holds_addr(
            &out,
            addrs[i],
        ) {
            out.push(addrs[i]);
        }
        i = i + 1;
    }
    proof {
        assert(addrs@.take(i as int) =~= addrs@);
    }
    out
}

/// Whether `a` is met before `b` is.
pub open spec fn met_before(addrs: Seq<SocketAddr>, a: SocketAddr, b: SocketAddr) -> bool {
    exists|p: int|
        0 <= p < addrs.len() && #[trigger] addrs[p] == a && forall|q: int|
            0 <= q <= p ==> #[trigger] addrs[q] != b
}

proof fn first_dialable_grows(addrs: Seq<SocketAddr>)
    requires
        addrs.len() > 0,
    ensures
        first_dialable(addrs) == (match first_dialable(addrs.drop_last()) {
            Some(a) => Some(a),
            None => if dialable(addrs.last()) {
                Some(addrs.last())
            } else {
                None
            },
        }),
    decreases addrs.len(),
{
    if addrs.len() > 1 {
        let rest = addrs.drop_first();
        first_dialable_grows(rest);
        assert(addrs.drop_last().drop_first() =~= rest.drop_last());
        assert(addrs.drop_last()[0] == addrs[0]);
        assert(rest.last() == addrs.last());
    } else {
        assert(first_dialable(addrs.drop_first()) is None);
    }
}

/// The single address that is advertised is the first of all that are advertised; there
/// is none where those are none.
pub proof fn single_choice_is_the_first(addrs: Seq<SocketAddr>)
    ensures
        first_dialable(addrs) == (if dialables(addrs).len() > 0 {
            Some(dialables(addrs)[0])
        } else {
            None
        }),
    decreases addrs.len(),
{
    if addrs.len() > 0 {
        single_choice_is_the_first(addrs.drop_last());
        first_dialable_grows(addrs);
    }
}

/// What is advertised stands in the order in which it was first met.
pub proof fn advertised_in_order(addrs: Seq<SocketAddr>, k: int, l: int)
    requires
        0 <= k < l < dialables(addrs).len(),
    ensures
        met_before(addrs, dialables(addrs)[k], dialables(addrs)[l]),
    decreases addrs.len(),
{
    if addrs.len() > 0 {
        let init = addrs.drop_last();
        let before = dialables(init);
        let a = dialables(addrs)[k];
        let b = dialables(addrs)[l];
        advertised_addresses(init);
        assert(before.contains(before[k]));
        if l < before.len() {
            advertised_in_order(init, k, l);
            let p = choose|p: int|
                0 <= p < init.len() && #[trigger] init[p] == a && forall|q: int|
                    0 <= q <= p ==> #[trigger] init[q] != b;
            assert(addrs[p] == a);
            assert forall|q: int| 0 <= q <= p implies #[trigger] addrs[q] != b by {
                assert(init[q] != b);
            }
        } else {
            let p = choose|p: int| 0 <= p < init.len() && init[p] == a;
            assert(addrs[p] == a);
            assert forall|q: int| 0 <= q <= p implies #[trigger] addrs[q] != b by {
                assert(addrs[q] == init[q]);
                if init[q] == b {
                    assert(init.contains(b));
                    assert(before.contains(b));
                }
            }
        }
    }
}

/// What is advertised holds exactly the addresses that can be dialled from another
/// segment, and none twice.
pub proof fn advertised_addresses(addrs: Seq<SocketAddr>)
    ensures
        forall|a: SocketAddr| #[trigger]
            dialables(addrs).contains(a) <==> addrs.contains(a) && dialable(a),
        dialables(addrs).no_duplicates(),
    decreases addrs.len(),
{
    if addrs.len() > 0 {
        let init = addrs.drop_last();
        advertised_addresses(init);
        let before = dialables(init);
        let all = dialables(addrs);
        assert forall|a: SocketAddr| #[trigger] all.contains(a) <==> addrs.contains(a) && dialable(
            a,
        ) by {
            if all.contains(a) {
                let k = choose|k: int| 0 <= k < all.len() && all[k] == a;
                if k < before.len() {
                    assert(before[k] == a);
                    assert(before.contains(a));
                    let j = choose|j: int| 0 <= j < init.len() && init[j] == a;
                    assert(addrs[j] == a);
                } else {
                    assert(addrs[addrs.len() - 1] == a);
                }
            }
            if addrs.contains(a) && dialable(a) {
                let k = choose|k: int| 0 <= k < addrs.len() && addrs[k] == a;
                if k < init.len() {
                    assert(init[k] == a);
                    assert(init.contains(a));
                    assert(before.contains(a));
                } else if before.contains(a) {
                } else {
                    assert(all[before.len() as int] == a);
                }
                if before.contains(a) {
                    let j = choose|j: int| 0 <= j < before.len() && before[j] == a;
                    assert(all[j] == a);
                }
            }
        }
    }
}

/// A node's address: its id, its relays, then its direct addresses.
pub fn node_addr(id: String, relays: Vec<String>, directs: Vec<String>) -> (r: NodeAddrInfo)
    ensures
        r.id == id,
        r.addrs@ == relays@ + directs@,
{
    let mut addrs: Vec<String> = relays;
    let mut directs: Vec<String> = directs;
    addrs.append(&mut directs);
    NodeAddrInfo { id, addrs }
}

/// Whether the transport is still usable, as far as can be seen: it is not closed
/// and has bound sockets.
pub fn transport_alive(closed: bool, bound_sockets: usize) -> (r: bool)
    ensures
        r == (!closed && bound_sockets > 0),
{
    !closed && bound_sockets > 0
}

// ── Direct addresses of a call ───────────────────────────────────────────────

/// What is said of a direct address that could not be read.
pub open spec fn bad_direct(text: Seq<char>, cause: Seq<char>) -> Seq<char> {
    "invalid direct address "@ + debug_text(text) + ": "@ + cause
}

/// The direct addresses of a call, or what is said of the first that is no good.
pub open spec fn direct_addrs(v: Seq<(Seq<char>, Result<SocketAddr, Seq<char>>)>) -> Result<
    Seq<SocketAddr>,
    Seq<char>,
>
    decreases v.len(),
{
    if v.len() == 0 {
        Ok(Seq::empty())
    } else {
        match direct_addrs(v.drop_last()) {
            Err(m) => Err(m),
            Ok(init) => match v.last().1 {
                Err(cause) => Err(bad_direct(v.last().0, cause)),
                Ok(a) => if a.port == 0 {
                    Err(
                        bad_direct(
                            v.last().0,
                            "refusing to dial address with no port (port 0)"@,
                        ),
                    )
                } else {
                    Ok(init.push(a))
                },
            },
        }
    }
}

proof fn bad_direct_in_prefix(v: Seq<(Seq<char>, Result<SocketAddr, Seq<char>>)>, k: int)
    requires
        0 <= k <= v.len(),
        direct_addrs(v.take(k)) is Err,
    ensures
        direct_addrs(v) == direct_addrs(v.take(k)),
    decreases v.len(),
{
    if k == v.len() {
        assert(v.take(k) =~= v);
    } else {
        assert(v.drop_last().take(k) =~= v.take(k));
        bad_direct_in_prefix(v.drop_last(), k);
    }
}

/// The message of a direct address whose quoted text is given.
pub fn bad_direct_message(shown: &str, cause: &str) -> (r: String)
    ensures
        r@ == "invalid direct address "@ + shown@ + ": "@ + cause@,
{
    let mut s: String = String::from_str("invalid direct address ");
    s.append(shown);
    s.append(": ");
    s.append(cause);
    s
}

/// Reads the direct addresses of a call. One that could not be read, or that has no
/// port, spoils the call.
pub fn parse_direct_addrs(addrs: &Option<Vec<AddrText>>) -> (r: Result<
    Option<Vec<SocketAddr>>,
    String,
>)
    ensures
        match addrs {
            None => r == Ok::<Option<Vec<SocketAddr>>, String>(None),
            Some(v) => match r {
                Ok(Some(out)) => direct_addrs(addr_views(v@)) == Ok::<Seq<SocketAddr>, Seq<char>>(
                    out@,
                ),
                Ok(None) => false,
                Err(m) => direct_addrs(addr_views(v@)) == Err::<Seq<SocketAddr>, Seq<char>>(m@),
            },
        },
{
    match addrs {
        None => Ok(None),
        Some(v) => {
            let ghost all = addr_views(v@);
            let mut out: Vec<SocketAddr> = Vec::new();
            let mut i: usize = 0;
            while i < v.len()
                invariant
                    i <= v@.len(),
                    *addrs == Some(*v),
                    all == addr_views(v@),
                    direct_addrs(all.take(i as int)) == Ok::<Seq<SocketAddr>, Seq<char>>(out@),
                decreases v@.len() - i,
            {
                proof {
                    let upto = all.take(i + 1);
                    assert(upto.drop_last() =~= all.take(i as int));
                    assert(upto.last() == v@[i as int]@);
                    if direct_addrs(upto) is Err {
                        bad_direct_in_prefix(all, i + 1);
                    }
                }
                match &v[i].read {
                    Err(cause) => {
                        let shown = quoted(&v[i].text);
                        return Err(bad_direct_message(&shown, cause));
                    },
                    Ok(a) => {
                        if a.port == 0 {
                            let shown = quoted(&v[i].text);
                            return Err(
                                bad_direct_message(
                                    &shown,
                                    "refusing to dial address with no port (port 0)",
                                ),
                            );
                        }
                        out.push(*a);
                    },
                }
                i = i + 1;
            }
            proof {
                assert(all.take(i as int) =~= all);
            }
            Ok(Some(out))
        },
    }
}

// ── A peer's address ─────────────────────────────────────────────────────────

/// A peer's address.
#[derive(Debug)]
pub struct ParsedNodeAddr {
    pub node_id: NodeId,
    /// Relay URLs in their normal form.
    pub relay_urls: Vec<String>,
    pub direct_addrs: Vec<SocketAddr>,
}

/// A ticket: a node id with addresses.
#[derive(Debug)]
pub struct Ticket {
    pub id: String,
    pub addrs: Vec<AddrText>,
}

/// What is said of a relay URL that could not be read.
pub open spec fn bad_relay(text: Seq<char>) -> ErrorView {
    (ErrorCode::InvalidInput, "malformed relay URL: "@ + text)
}

/// What is said of a direct address that could not be read.
pub open spec fn bad_addr(text: Seq<char>) -> ErrorView {
    (ErrorCode::InvalidInput, "malformed address: "@ + text)
}

/// What is said of a direct address without a port.
pub open spec fn no_port(text: Seq<char>) -> ErrorView {
    (ErrorCode::InvalidInput, "direct address "@ + text + " has no port (port 0)"@)
}

/// Relay URLs and direct addresses of a ticket.
pub type TicketAddrs = (Seq<Seq<char>>, Seq<SocketAddr>);

/// The relay URLs and the direct addresses of a ticket, or what is said of the
/// first address that is no good. What holds `://` is a relay URL.
pub open spec fn ticket_addrs(v: Seq<(Seq<char>, Result<SocketAddr, Seq<char>>)>) -> Result<
    TicketAddrs,
    ErrorView,
>
    decreases v.len(),
{
    if v.len() == 0 {
        Ok((Seq::empty(), Seq::empty()))
    } else {
        match ticket_addrs(v.drop_last()) {
            Err(e) => Err(e),
            Ok(init) => if contains_text(v.last().0, "://"@) {
                match relay_url_parsed(v.last().0) {
                    Ok(u) => Ok((init.0.push(u), init.1)),
                    Err(_) => Err(bad_relay(v.last().0)),
                }
            } else {
                match v.last().1 {
                    Err(_) => Err(bad_addr(v.last().0)),
                    Ok(a) => if a.port == 0 {
                        Err(no_port(v.last().0))
                    } else {
                        Ok((init.0, init.1.push(a)))
                    },
                }
            },
        }
    }
}

proof fn bad_ticket_in_prefix(v: Seq<(Seq<char>, Result<SocketAddr, Seq<char>>)>, k: int)
    requires
        0 <= k <= v.len(),
        ticket_addrs(v.take(k)) is Err,
    ensures
        ticket_addrs(v) == ticket_addrs(v.take(k)),
    decreases v.len(),
{
    if k == v.len() {
        assert(v.take(k) =~= v);
    } else {
        assert(v.drop_last().take(k) =~= v.take(k));
        bad_ticket_in_prefix(v.drop_last(), k);
    }
}

fn text_error(lead: &str, text: &str, tail: &str) -> (r: CoreError)
    ensures
        r@ == (ErrorCode::InvalidInput, lead@ + text@ + tail@),
{
    let mut s: String = String::from_str(lead);
    s.append(text);
    s.append(tail);
    CoreError { code: ErrorCode::InvalidInput, message: s }
}

/// What a relay URL in a ticket is, given what it was read as.
pub fn admit_relay(text: &str, read: Result<String, String>) -> (r: Result<String, CoreError>)
    ensures
        match read {
            Ok(u) => r matches Ok(v) && v@ == u@,
            Err(_) => r matches Err(e) && e@ == bad_relay(text@),
        },
{
    match read {
        Ok(u) => Ok(u),
        Err(_) => {
            let mut s: String = String::from_str("malformed relay URL: ");
            s.append(text);
            Err(CoreError { code: ErrorCode::InvalidInput, message: s })
        },
    }
}

/// What a direct address in a ticket is.
pub fn admit_direct(addr: &AddrText) -> (r: Result<SocketAddr, CoreError>)
    ensures
        match addr@.1 {
            Err(_) => r matches Err(e) && e@ == bad_addr(addr.text@),
            Ok(a) => if a.port == 0 {
                r matches Err(e) && e@ == no_port(addr.text@)
            } else {
                r matches Ok(b) && b == a
            },
        },
{
    match &addr.read {
        Err(_) => {
            let mut s: String = String::from_str("malformed address: ");
            s.append(&addr.text);
            Err(CoreError { code: ErrorCode::InvalidInput, message: s })
        },
        Ok(a) => if a.port == 0 {
            Err(text_error("direct address ", &addr.text, " has no port (port 0)"))
        } else {
            Ok(*a)
        },
    }
}

/// A peer's address: node id, relay URLs, direct addresses.
pub type NodeAddrView = (Seq<u8>, Seq<Seq<char>>, Seq<SocketAddr>);

/// What an address is, where it is not a ticket or is one.
pub open spec fn parsed_node_addr(
    s: Seq<char>,
    ticket: Option<(Seq<char>, Seq<(Seq<char>, Result<SocketAddr, Seq<char>>)>)>,
) -> Result<NodeAddrView, ErrorView> {
    match ticket {
        Some((id, addrs)) => match parsed_node_id(id) {
            Err(e) => Err(e),
            Ok(node) => match ticket_addrs(addrs) {
                Err(e) => Err(e),
                Ok((relays, directs)) => Ok((node, relays, directs)),
            },
        },
        None => match parsed_node_id(s) {
            Err(e) => Err(e),
            Ok(node) => Ok((node, Seq::empty(), Seq::empty())),
        },
    }
}

/// Reads the addresses of a ticket.
fn read_ticket_addrs(addrs: &Vec<AddrText>) -> (r: Result<
    (Vec<String>, Vec<SocketAddr>),
    CoreError,
>)
    ensures
        match r {
            Ok((relays, directs)) => ticket_addrs(addr_views(addrs@)) == Ok::<
                TicketAddrs,
                ErrorView,
            >((crate::bind::texts(relays@), directs@)),
            Err(e) => ticket_addrs(addr_views(addrs@)) == Err::<TicketAddrs, ErrorView>(e@),
        },
{
    let ghost all = addr_views(addrs@);
    let mut relays: Vec<String> = Vec::new();
    let mut directs: Vec<SocketAddr> = Vec::new();
    let mut i: usize = 0;
    proof {
        assert(crate::bind::texts(relays@) =~= Seq::empty());
    }
    while i < addrs.len()
        invariant
            i <= addrs@.len(),
            all == addr_views(addrs@),
            ticket_addrs(all.take(i as int)) == Ok::<TicketAddrs, ErrorView>(
                (crate::bind::texts(relays@), directs@),
            ),
        decreases addrs@.len() - i,
    {
        proof {
            let upto = all.take(i + 1);
            assert(upto.drop_last() =~= all.take(i as int));
            assert(upto.last() == addrs@[i as int]@);
            if ticket_addrs(upto) is Err {
                bad_ticket_in_prefix(all, i + 1);
            }
        }
        if holds_text(&addrs[i].text, "://") {
            let read = parse_relay_url(&addrs[i].text);
            match admit_relay(&addrs[i].text, read) {
                Ok(u) => {
                    let ghost before = relays@;
                    let ghost url = u@;
                    relays.push(u);
                    proof {
                        assert(crate::bind::texts(relays@) =~= crate::bind::texts(before).push(url));
                    }
                },
                Err(e) => {
                    return Err(e);
                },
            }
        } else {
            match admit_direct(&addrs[i]) {
                Ok(a) => {
                    directs.push(a);
                },
                Err(e) => {
                    return Err(e);
                },
            }
        }
        i = i + 1;
    }
    proof {
        assert(all.take(i as int) =~= all);
    }
    Ok((relays, directs))
}

/// Reads a peer's address: a bare node id, or a ticket, which is what `s` was read
/// as where it is one. A part that is no good spoils the whole; nothing is silently
/// left out.
pub fn parse_node_addr(s: &str, ticket: &Option<Ticket>) -> (r: Result<ParsedNodeAddr, CoreError>)
    ensures
        ({
            let given = match *ticket {
                Some(t) => Some((t.id@, addr_views(t.addrs@))),
                None => None,
            };
            match r {
                Ok(p) => parsed_node_addr(s@, given) == Ok::<NodeAddrView, ErrorView>(
                    (p.node_id.bytes@, crate::bind::texts(p.relay_urls@), p.direct_addrs@),
                ),
                Err(e) => parsed_node_addr(s@, given) == Err::<NodeAddrView, ErrorView>(e@),
            }
        }),
{
    match ticket {
        Some(t) => {
            let node_id: NodeId = match parse_node_id(&t.id) {
                Ok(n) => n,
                Err(e) => {
                    return Err(e);
                },
            };
            match read_ticket_addrs(&t.addrs) {
                Ok((relay_urls, direct_addrs)) => Ok(
                    ParsedNodeAddr { node_id, relay_urls, direct_addrs },
                ),
                Err(e) => Err(e),
            }
        },
        None => {
            let node_id: NodeId = match parse_node_id(s) {
                Ok(n) => n,
                Err(e) => {
                    return Err(e);
                },
            };
            let p = ParsedNodeAddr { node_id, relay_urls: Vec::new(), direct_addrs: Vec::new() };
            proof {
                assert(crate::bind::texts(p.relay_urls@) =~= Seq::empty());
            }
            Ok(p)
        },
    }
}

/// Whatever addresses were given: where they were taken, each of them was, and none
/// of the direct ones lacks a port.
pub proof fn no_address_is_left_out(v: Seq<(Seq<char>, Result<SocketAddr, Seq<char>>)>)
    ensures
        direct_addrs(v) matches Ok(out) ==> out.len() == v.len() && forall|i: int|
            0 <= i < out.len() ==> (#[trigger] out[i]).port != 0,
        ticket_addrs(v) matches Ok((relays, directs)) ==> relays.len() + directs.len() == v.len()
            && forall|i: int| 0 <= i < directs.len() ==> (#[trigger] directs[i]).port != 0,
    decreases v.len(),
{
    if v.len() > 0 {
        no_address_is_left_out(v.drop_last());
        if let Ok(out) = direct_addrs(v) {
            let init = direct_addrs(v.drop_last())->Ok_0;
            assert forall|i: int| 0 <= i < out.len() implies (#[trigger] out[i]).port != 0 by {
                if i < init.len() {
                    assert(out[i] == init[i]);
                }
            }
        }
        if let Ok((relays, directs)) = ticket_addrs(v) {
            let init = ticket_addrs(v.drop_last())->Ok_0.1;
            assert forall|i: int| 0 <= i < directs.len() implies (#[trigger] directs[i]).port
                != 0 by {
                if i < init.len() {
                    assert(directs[i] == init[i]);
                }
            }
        }
    }
}

// ── Tickets ──────────────────────────────────────────────────────────────────

/// The elements of a JSON list of strings.
pub open spec fn json_elements(v: Seq<Seq<char>>) -> Seq<char>
    decreases v.len(),
{
    if v.len() == 0 {
        ""@
    } else if v.len() == 1 {
        json_string(v[0])
    } else {
        json_elements(v.drop_last()) + ","@ + json_string(v.last())
    }
}

/// A node's address as a ticket: a JSON object with `id` and `addrs`.
pub open spec fn ticket_text(id: Seq<char>, addrs: Seq<Seq<char>>) -> Seq<char> {
    "{\"id\":"@ + json_string(id) + ",\"addrs\":["@ + json_elements(addrs) + "]}"@
}

/// Writes a node's address as a ticket.
pub fn node_ticket(info: &NodeAddrInfo) -> (r: String)
    ensures
        r@ == ticket_text(info.id@, crate::bind::texts(info.addrs@)),
{
    let ghost all = crate::bind::texts(info.addrs@);
    let mut list: String = String::new();
    let mut i: usize = 0;
    proof {
        reveal_strlit("");
        assert(list@ =~= ""@);
    }
    while i < info.addrs.len()
        invariant
            i <= info.addrs@.len(),
            all == crate::bind::texts(info.addrs@),
            list@ == json_elements(all.take(i as int)),
        decreases info.addrs@.len() - i,
    {
        let one = json_literal(&info.addrs[i]);
        proof {
            let upto = all.take(i + 1);
            assert(upto.drop_last() =~= all.take(i as int));
            assert(upto.last() == info.addrs@[i as int]@);
        }
        if i > 0 {
            list.append(",");
            list.append(&one);
        } else {
            list = one;
        }
        i = i + 1;
    }
    proof {
        assert(all.take(i as int) =~= all);
    }
    let mut s: String = String::from_str("{\"id\":");
    let id = json_literal(&info.id);
    s.append(&id);
    s.append(",\"addrs\":[");
    s.append(&list);
    s.append("]}");
    s
}

// ── Laws ─────────────────────────────────────────────────────────────────────

/// Which IPv4 addresses can be reached from another segment, part by part.
pub proof fn reachable_v4(a: u8, b: u8, c: u8, d: u8)
    ensures
        routable(IpAddr::V4((a * 0x100_0000 + b * 0x1_0000 + c * 0x100 + d) as u32)) <==> {
            &&& a != 127
            &&& !(a == 0 && b == 0 && c == 0 && d == 0)
            &&& !(a == 169 && b == 254)
        },
{
    let n = (a * 0x100_0000 + b * 0x1_0000 + c * 0x100 + d) as u32;
    assert(n as int == a * 0x100_0000 + b * 0x1_0000 + c * 0x100 + d);
    assert(n as int / 0x100_0000 == a);
    assert(n as int / 0x1_0000 == a * 0x100 + b);
}

/// Which IPv6 addresses can be reached from another segment: all but `::`, `::1` and
/// those from `fe80::` up to `fec0::`.
pub proof fn reachable_v6(n: u128)
    ensures
        v6_link_local(n) <==> 0xfe80_0000_0000_0000_0000_0000_0000_0000 <= n
            < 0xfec0_0000_0000_0000_0000_0000_0000_0000,
        routable(IpAddr::V6(n)) <==> n != 0 && n != 1 && !(0xfe80_0000_0000_0000_0000_0000_0000_0000
            <= n < 0xfec0_0000_0000_0000_0000_0000_0000_0000),
{
}

/// An address is worth advertising exactly where it can be reached from another segment
/// and its port is neither 0 nor 1.
pub proof fn worth_advertising(a: SocketAddr)
    ensures
        dialable(a) <==> routable(a.ip) && a.port >= 2,
        placeholder(a.port) <==> a.port == 0 || a.port == 1,
{
}

/// Texts with what they were read as are seen as they are.
pub proof fn readings_are_seen_whole(v: Seq<AddrText>)
    ensures
        addr_views(v).len() == v.len(),
        forall|i: int|
            0 <= i < v.len() ==> {
                &&& (#[trigger] addr_views(v)[i]).0 == v[i].text@
                &&& v[i].read matches Ok(a) ==> addr_views(v)[i].1 == Ok::<SocketAddr, Seq<char>>(a)
                &&& v[i].read matches Err(m) ==> addr_views(v)[i].1 == Err::<
                    SocketAddr,
                    Seq<char>,
                >(m@)
            },
{
}

/// A port is borrowed from the first bound socket of the family that has a real one.
pub proof fn ports_are_borrowed_from_the_first(bound: Seq<SocketAddr>, v6: bool)
    ensures
        match borrowed_port(bound, v6) {
            Some(p) => exists|i: int|
                0 <= i < bound.len() && (#[trigger] bound[i]).port == p && p >= 2 && (
                bound[i].ip is V6) == v6 && forall|j: int|
                    0 <= j < i ==> (#[trigger] bound[j]).port < 2 || (bound[j].ip is V6) != v6,
            None => forall|j: int|
                0 <= j < bound.len() ==> (#[trigger] bound[j]).port < 2 || (bound[j].ip is V6)
                    != v6,
        },
    decreases bound.len(),
{
    if bound.len() > 0 {
        if (bound[0].ip is V6) == v6 && !placeholder(bound[0].port) {
            assert(bound[0].port >= 2);
        } else {
            let rest = bound.drop_first();
            ports_are_borrowed_from_the_first(rest, v6);
            match borrowed_port(rest, v6) {
                Some(p) => {
                    let i = choose|i: int|
                        0 <= i < rest.len() && (#[trigger] rest[i]).port == p && p >= 2 && (
                        rest[i].ip is V6) == v6 && forall|j: int|
                            0 <= j < i ==> (#[trigger] rest[j]).port < 2 || (rest[j].ip is V6)
                                != v6;
                    assert(bound[i + 1] == rest[i]);
                    assert forall|j: int| 0 <= j < i + 1 implies (#[trigger] bound[j]).port < 2 || (
                    bound[j].ip is V6) != v6 by {
                        if j > 0 {
                            assert(bound[j] == rest[j - 1]);
                        }
                    }
                },
                None => {
                    assert forall|j: int| 0 <= j < bound.len() implies (#[trigger] bound[j]).port < 2
                        || (bound[j].ip is V6) != v6 by {
                        if j > 0 {
                            assert(bound[j] == rest[j - 1]);
                        }
                    }
                },
            }
        }
    }
}

/// Addresses are reconciled one by one, in order. One with a real port stays as it is; one
/// without gets the borrowed port and keeps the rest, or is left out where there is none.
pub proof fn addresses_are_reconciled_one_by_one(
    a: Seq<SocketAddr>,
    b: Seq<SocketAddr>,
    one: SocketAddr,
    bound: Seq<SocketAddr>,
)
    ensures
        reconciled(a + b, bound) == reconciled(a, bound) + reconciled(b, bound),
        one.port >= 2 ==> reconciled(seq![one], bound) == seq![one],
        one.port < 2 ==> reconciled(seq![one], bound) == (match borrowed_port(
            bound,
            one.ip is V6,
        ) {
            Some(p) => seq![SocketAddr { ip: one.ip, port: p, scope_id: one.scope_id }],
            None => Seq::<SocketAddr>::empty(),
        }),
    decreases b.len(),
{
    if b.len() == 0 {
        assert(a + b =~= a);
        assert(reconciled(a, bound) + reconciled(b, bound) =~= reconciled(a, bound));
    } else {
        addresses_are_reconciled_one_by_one(a, b.drop_last(), one, bound);
        assert((a + b).drop_last() =~= a + b.drop_last());
        assert(reconciled(a + b, bound) =~= reconciled(a, bound) + reconciled(b, bound));
    }
    assert(seq![one].drop_last() =~= Seq::empty());
    assert(reconciled(seq![one].drop_last(), bound) =~= Seq::empty());
    if one.port >= 2 {
        assert(reconciled(seq![one], bound) =~= seq![one]);
    } else if let Some(p) = borrowed_port(bound, one.ip is V6) {
        assert(reconciled(seq![one], bound) =~= seq![
            SocketAddr { ip: one.ip, port: p, scope_id: one.scope_id },
        ]);
    }
}

/// The direct addresses of a call are what its texts were read as, one by one and in
/// order. They are refused for the first text that was not read as an address, or was read
/// as one without a port, and the text is quoted with the reason.
pub proof fn direct_addresses_are_what_was_read(v: Seq<(Seq<char>, Result<SocketAddr, Seq<char>>)>)
    ensures
        match direct_addrs(v) {
            Ok(out) => {
                &&& out.len() == v.len()
                &&& forall|i: int|
                    0 <= i < v.len() ==> (#[trigger] v[i]).1 == Ok::<SocketAddr, Seq<char>>(out[i])
                        && out[i].port != 0
            },
            Err(m) => exists|k: int|
                0 <= k < v.len() && (forall|i: int|
                    0 <= i < k ==> ((#[trigger] v[i]).1 matches Ok(a) && a.port != 0)) && (match (
                #[trigger] v[k]).1 {
                    Err(cause) => m == "invalid direct address "@ + debug_text(v[k].0) + ": "@
                        + cause,
                    Ok(a) => a.port == 0 && m == "invalid direct address "@ + debug_text(v[k].0)
                        + ": "@ + "refusing to dial address with no port (port 0)"@,
                }),
        },
    decreases v.len(),
{
    if v.len() > 0 {
        let init = v.drop_last();
        let n = v.len() - 1;
        direct_addresses_are_what_was_read(init);
        assert(v[n] == v.last());
        match direct_addrs(init) {
            Err(m) => {
                let k = choose|k: int|
                    0 <= k < init.len() && (forall|i: int|
                        0 <= i < k ==> ((#[trigger] init[i]).1 matches Ok(a) && a.port != 0)) && (
                    match (#[trigger] init[k]).1 {
                        Err(cause) => m == "invalid direct address "@ + debug_text(init[k].0)
                            + ": "@ + cause,
                        Ok(a) => a.port == 0 && m == "invalid direct address "@ + debug_text(
                            init[k].0,
                        ) + ": "@ + "refusing to dial address with no port (port 0)"@,
                    });
                assert(v[k] == init[k]);
                assert forall|i: int| 0 <= i < k implies ((#[trigger] v[i]).1 matches Ok(a)
                    && a.port != 0) by {
                    assert(v[i] == init[i]);
                }
            },
            Ok(before) => {
                assert forall|i: int| 0 <= i < n implies (#[trigger] v[i]).1 == Ok::<
                    SocketAddr,
                    Seq<char>,
                >(before[i]) && before[i].port != 0 by {
                    assert(v[i] == init[i]);
                }
                if let Ok(out) = direct_addrs(v) {
                    assert forall|i: int| 0 <= i < v.len() implies (#[trigger] v[i]).1 == Ok::<
                        SocketAddr,
                        Seq<char>,
                    >(out[i]) && out[i].port != 0 by {
                        if i < n {
                            assert(out[i] == before[i]);
                        }
                    }
                }
            },
        }
    }
}

/// What a ticket is read as: of its entries, those with `://` are relays and the others
/// direct addresses. Each relay is the one that its entry was parsed to, and each direct
/// address what its entry was read as, in the order of the entries, and none is left out.
pub proof fn tickets_give_what_they_hold(v: Seq<(Seq<char>, Result<SocketAddr, Seq<char>>)>)
    requires
        ticket_addrs(v) is Ok,
    ensures
        ({
            let (relays, directs) = ticket_addrs(v)->Ok_0;
            let urls = v.filter(
                |e: (Seq<char>, Result<SocketAddr, Seq<char>>)| contains_text(e.0, "://"@),
            );
            let rest = v.filter(
                |e: (Seq<char>, Result<SocketAddr, Seq<char>>)| !contains_text(e.0, "://"@),
            );
            &&& relays.len() == urls.len()
            &&& forall|k: int|
                0 <= k < urls.len() ==> relay_url_parsed((#[trigger] urls[k]).0) == Ok::<
                    Seq<char>,
                    Seq<char>,
                >(relays[k])
            &&& directs.len() == rest.len()
            &&& forall|k: int|
                0 <= k < rest.len() ==> (#[trigger] rest[k]).1 == Ok::<SocketAddr, Seq<char>>(
                    directs[k],
                ) && directs[k].port != 0
        }),
    decreases v.len(),
{
    reveal(Seq::filter);
    let is_url = |e: (Seq<char>, Result<SocketAddr, Seq<char>>)| contains_text(e.0, "://"@);
    let is_rest = |e: (Seq<char>, Result<SocketAddr, Seq<char>>)| !contains_text(e.0, "://"@);
    if v.len() > 0 {
        let init = v.drop_last();
        tickets_give_what_they_hold(init);
        let (relays0, directs0) = ticket_addrs(init)->Ok_0;
        let (relays, directs) = ticket_addrs(v)->Ok_0;
        let urls0 = init.filter(is_url);
        let rest0 = init.filter(is_rest);
        let urls = v.filter(is_url);
        let rest = v.filter(is_rest);
        if is_url(v.last()) {
            assert(urls == urls0.push(v.last()) && rest == rest0);
            assert forall|k: int| 0 <= k < urls.len() implies relay_url_parsed(
                (#[trigger] urls[k]).0,
            ) == Ok::<Seq<char>, Seq<char>>(relays[k]) by {
                if k < urls0.len() {
                    assert(urls[k] == urls0[k]);
                    assert(relays[k] == relays0[k]);
                }
            }
        } else {
            assert(urls == urls0 && rest == rest0.push(v.last()));
            assert forall|k: int| 0 <= k < rest.len() implies (#[trigger] rest[k]).1 == Ok::<
                SocketAddr,
                Seq<char>,
            >(directs[k]) && directs[k].port != 0 by {
                if k < rest0.len() {
                    assert(rest[k] == rest0[k]);
                    assert(directs[k] == directs0[k]);
                }
            }
        }
    }
}

/// A ticket is refused for its first entry that is no good: a relay that cannot be parsed,
/// an address that was not read, or one without a port. The error is one of the input and
/// holds the text of the entry. Where every entry is good, it is taken.
pub proof fn tickets_are_refused_for_an_entry(v: Seq<(Seq<char>, Result<SocketAddr, Seq<char>>)>)
    ensures
        ticket_addrs(v) is Err <==> exists|k: int|
            0 <= k < v.len() && (if contains_text((#[trigger] v[k]).0, "://"@) {
                relay_url_parsed(v[k].0) is Err
            } else {
                v[k].1 is Err || v[k].1->Ok_0.port == 0
            }),
        ticket_addrs(v) matches Err(e) ==> e.0 == ErrorCode::InvalidInput && exists|k: int|
            0 <= k < v.len() && (if contains_text((#[trigger] v[k]).0, "://"@) {
                relay_url_parsed(v[k].0) is Err && e.1 == "malformed relay URL: "@ + v[k].0
            } else if v[k].1 is Err {
                e.1 == "malformed address: "@ + v[k].0
            } else {
                v[k].1->Ok_0.port == 0 && e.1 == "direct address "@ + v[k].0
                    + " has no port (port 0)"@
            }),
    decreases v.len(),
{
    if v.len() > 0 {
        let init = v.drop_last();
        let n = v.len() - 1;
        tickets_are_refused_for_an_entry(init);
        assert(v[n] == v.last());
        if ticket_addrs(init) is Err {
            let e = ticket_addrs(init)->Err_0;
            let k = choose|k: int|
                0 <= k < init.len() && (if contains_text((#[trigger] init[k]).0, "://"@) {
                    relay_url_parsed(init[k].0) is Err && e.1 == "malformed relay URL: "@
                        + init[k].0
                } else if init[k].1 is Err {
                    e.1 == "malformed address: "@ + init[k].0
                } else {
                    init[k].1->Ok_0.port == 0 && e.1 == "direct address "@ + init[k].0
                        + " has no port (port 0)"@
                });
            assert(v[k] == init[k]);
        } else {
            assert forall|k: int| 0 <= k < n implies !(if contains_text(
                (#[trigger] v[k]).0,
                "://"@,
            ) {
                relay_url_parsed(v[k].0) is Err
            } else {
                v[k].1 is Err || v[k].1->Ok_0.port == 0
            }) by {
                assert(v[k] == init[k]);
            }
        }
    }
}

/// A node's address is read from the ticket where there is one, else from the bare id, and
/// has the node that the id parses to; only a ticket gives relays and direct addresses.
pub proof fn node_addresses_name_the_node(
    s: Seq<char>,
    id: Seq<char>,
    addrs: Seq<(Seq<char>, Result<SocketAddr, Seq<char>>)>,
)
    ensures
        parsed_node_addr(s, None) matches Ok(p) ==> parsed_node_id(s) == Ok::<
            Seq<u8>,
            ErrorView,
        >(p.0) && p.1.len() == 0 && p.2.len() == 0,
        parsed_node_addr(s, None) matches Err(e) ==> parsed_node_id(s) == Err::<
            Seq<u8>,
            ErrorView,
        >(e),
        parsed_node_addr(s, Some((id, addrs))) matches Ok(p) ==> parsed_node_id(id) == Ok::<
            Seq<u8>,
            ErrorView,
        >(p.0) && ticket_addrs(addrs) == Ok::<TicketAddrs, ErrorView>((p.1, p.2)),
        parsed_node_addr(s, Some((id, addrs))) is Err <==> parsed_node_id(id) is Err
            || ticket_addrs(addrs) is Err,
{
}

/// Reads strings with commas between them up to the bracket that closes their list, at
/// most `most` of them; gives what follows.
pub open spec fn read_strings(s: Seq<char>, most: nat) -> Option<(Seq<Seq<char>>, Seq<char>)>
    decreases most,
{
    if s.len() > 0 && s[0] == ']' {
        Some((Seq::empty(), s.skip(1)))
    } else if most == 0 {
        None
    } else {
        match crate::adapter::read_string(s) {
            Some((x, r)) => if r.len() > 0 && r[0] == ']' {
                Some((seq![x], r.skip(1)))
            } else if r.len() > 0 && r[0] == ',' {
                match read_strings(r.skip(1), (most - 1) as nat) {
                    Some((xs, rest)) => Some((seq![x] + xs, rest)),
                    None => None,
                }
            } else {
                None
            },
            None => None,
        }
    }
}

proof fn elements_from_front(v: Seq<Seq<char>>)
    requires
        v.len() > 1,
    ensures
        json_elements(v) == json_string(v[0]) + ","@ + json_elements(v.drop_first()),
    decreases v.len(),
{
    let init = v.drop_last();
    if v.len() == 2 {
        assert(json_elements(init) == json_string(v[0]));
        assert(json_elements(v.drop_first()) == json_string(v[1]));
        assert(v.last() == v[1]);
    } else {
        elements_from_front(init);
        assert(init.drop_first() =~= v.drop_first().drop_last());
        assert(v.drop_first().last() == v.last());
        assert(json_elements(v) =~= json_string(v[0]) + ","@ + json_elements(v.drop_first()));
    }
}

/// The elements of a list read back as the texts, in order.
pub proof fn elements_read_back(v: Seq<Seq<char>>, tail: Seq<char>, most: nat)
    requires
        most >= v.len(),
    ensures
        read_strings(json_elements(v) + seq![']'] + tail, most) == Some((v, tail)),
    decreases v.len(),
{
    reveal_strlit("");
    reveal_strlit(",");
    reveal_strlit("\"");
    let all = json_elements(v) + seq![']'] + tail;
    let end = seq![']'] + tail;
    if v.len() == 0 {
        assert(all =~= end);
        assert(end.skip(1) =~= tail);
        assert(v =~= Seq::empty());
    } else if v.len() == 1 {
        assert(all =~= json_string(v[0]) + end);
        crate::adapter::literal_reads_back(v[0], end);
        assert(all[0] == '"');
        assert(end.skip(1) =~= tail);
        assert(seq![v[0]] =~= v);
    } else {
        elements_from_front(v);
        let rest = v.drop_first();
        let behind = seq![','] + (json_elements(rest) + seq![']'] + tail);
        assert(all =~= json_string(v[0]) + behind);
        crate::adapter::literal_reads_back(v[0], behind);
        assert(all[0] == '"');
        assert(behind.skip(1) =~= json_elements(rest) + seq![']'] + tail);
        elements_read_back(rest, tail, (most - 1) as nat);
        assert(seq![v[0]] + rest =~= v);
    }
}

/// A ticket is a JSON object of the node's id and the list of its addresses, and reads
/// back as them: the id, and every address in order.
pub proof fn tickets_read_back(id: Seq<char>, addrs: Seq<Seq<char>>)
    ensures
        ({
            let text = ticket_text(id, addrs);
            let open = "{\"id\":"@;
            let middle = ",\"addrs\":["@;
            &&& text.len() > open.len() && text.take(open.len() as int) == open
            &&& crate::adapter::read_string(text.skip(open.len() as int)) matches Some((x, r))
            &&& x == id
            &&& r.len() > middle.len() && r.take(middle.len() as int) == middle
            &&& read_strings(r.skip(middle.len() as int), addrs.len()) == Some((addrs, seq!['}']))
        }),
{
    reveal_strlit("{\"id\":");
    reveal_strlit(",\"addrs\":[");
    reveal_strlit("]}");
    reveal_strlit("\"");
    let text = ticket_text(id, addrs);
    let behind = ",\"addrs\":["@ + json_elements(addrs) + "]}"@;
    assert(text.skip(6) =~= json_string(id) + behind);
    assert(text.take(6) =~= "{\"id\":"@);
    crate::adapter::literal_reads_back(id, behind);
    assert(behind.take(10) =~= ",\"addrs\":["@);
    assert(behind.skip(10) =~= json_elements(addrs) + seq![']'] + seq!['}']);
    elements_read_back(addrs, seq!['}'], addrs.len());
}

} // verus!
