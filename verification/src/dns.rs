//! Name servers that a caller supplies, and the proxy for those that are reached
//! through one interface only.
use vstd::prelude::*;

use crate::addr::{v6_link_local, IpAddr, SocketAddr};
use crate::error::{CoreError, ErrorCode, ErrorView};
use crate::rules::{debug_text, quoted};
use crate::text::{
    append_decimal, chars_of, decimal, first_index, index_of, parse_unsigned, piece,
    unsigned_value,
};

verus! {

// ── Name servers ─────────────────────────────────────────────────────────────

/// What the part of a name server before its scope was read as: as an IPv6 address,
/// and as an IP address of either family.
#[derive(Debug)]
pub struct HostReading {
    pub v6: Result<u128, String>,
    pub any: Result<IpAddr, String>,
}

/// What the part before the scope was read as.
pub type HostView = (Result<u128, Seq<char>>, Result<IpAddr, Seq<char>>);

impl View for HostReading {
    type V = (Result<u128, Seq<char>>, Result<IpAddr, Seq<char>>);

    open spec fn view(&self) -> (Result<u128, Seq<char>>, Result<IpAddr, Seq<char>>) {
        (
            match self.v6 {
                Ok(n) => Ok(n),
                Err(m) => Err(m@),
            },
            match self.any {
                Ok(a) => Ok(a),
                Err(m) => Err(m@),
            },
        )
    }
}

/// The part of a name server before its scope: all of it where it has none.
pub fn nameserver_host(value: &str) -> (r: String)
    ensures
        r@ == value@.take(first_index(value@, '%')),
{
    let v: Vec<char> = chars_of(value);
    let k: usize = index_of(&v, '%');
    let r: String = piece(&v, 0, k);
    proof {
        assert(r@ =~= value@.take(k as int));
    }
    r
}

/// The address of a name server, or what is said of it; `shown` is its quoted text.
///
/// A scope must be the number of an interface, and not 0. An IPv6 address of its own
/// segment only must have one: without it, it cannot be routed.
pub open spec fn nameserver(value: Seq<char>, shown: Seq<char>, host: HostView) -> Result<
    SocketAddr,
    Seq<char>,
> {
    let k = first_index(value, '%');
    if k < value.len() {
        match host.0 {
            Err(cause) => Err("invalid scoped IPv6 DNS nameserver "@ + shown + ": "@ + cause),
            Ok(ip) => match unsigned_value(value.skip(k + 1), 4294967295) {
                None => Err(
                    "IPv6 DNS nameserver "@ + shown + " must use a numeric interface scope"@,
                ),
                Some(scope) => if scope == 0 {
                    Err("IPv6 DNS nameserver "@ + shown + " must use a non-zero interface scope"@)
                } else {
                    Ok(SocketAddr { ip: IpAddr::V6(ip), port: 53, scope_id: scope as u32 })
                },
            },
        }
    } else {
        match host.1 {
            Err(cause) => Err("invalid DNS nameserver "@ + shown + ": "@ + cause),
            Ok(ip) => if ip matches IpAddr::V6(n) && v6_link_local(n) {
                Err(
                    "link-local IPv6 DNS nameserver "@ + shown
                        + " requires a numeric interface scope"@,
                )
            } else {
                Ok(SocketAddr { ip, port: 53, scope_id: 0 })
            },
        }
    }
}

fn around(lead: &str, shown: &str, tail: &str) -> (r: String)
    ensures
        r@ == lead@ + shown@ + tail@,
{
    let mut s: String = String::from_str(lead);
    s.append(shown);
    s.append(tail);
    s
}

fn caused(lead: &str, shown: &str, cause: &str) -> (r: String)
    ensures
        r@ == lead@ + shown@ + ": "@ + cause@,
{
    let mut s: String = String::from_str(lead);
    s.append(shown);
    s.append(": ");
    s.append(cause);
    s
}

/// Reads a name server whose quoted text is given. `host` is what the part before
/// the scope was read as.
pub fn read_nameserver(value: &str, shown: &str, host: &HostReading) -> (r: Result<
    SocketAddr,
    String,
>)
    ensures
        match r {
            Ok(a) => nameserver(value@, shown@, host@) == Ok::<SocketAddr, Seq<char>>(a),
            Err(m) => nameserver(value@, shown@, host@) == Err::<SocketAddr, Seq<char>>(m@),
        },
{
    let v: Vec<char> = chars_of(value);
    let k: usize = index_of(&v, '%');
    if k < v.len() {
        let ip: u128 = match &host.v6 {
            Ok(n) => *n,
            Err(cause) => {
                return Err(caused("invalid scoped IPv6 DNS nameserver ", shown, cause));
            },
        };
        let scope: String = piece(&v, k + 1, v.len());
        proof {
            assert(scope@ =~= value@.skip(k + 1));
        }
        match parse_unsigned(&scope, 4294967295) {
            None => Err(
                around("IPv6 DNS nameserver ", shown, " must use a numeric interface scope"),
            ),
            Some(n) => if n == 0 {
                Err(around("IPv6 DNS nameserver ", shown, " must use a non-zero interface scope"))
            } else {
                Ok(SocketAddr { ip: IpAddr::V6(ip), port: 53, scope_id: n as u32 })
            },
        }
    } else {
        let ip: IpAddr = match &host.any {
            Ok(a) => *a,
            Err(cause) => {
                return Err(caused("invalid DNS nameserver ", shown, cause));
            },
        };
        if let IpAddr::V6(n) = ip {
            if n / 0x40_0000_0000_0000_0000_0000_0000_0000 == 0x3fa {
                return Err(
                    around(
                        "link-local IPv6 DNS nameserver ",
                        shown,
                        " requires a numeric interface scope",
                    ),
                );
            }
        }
        Ok(SocketAddr { ip, port: 53, scope_id: 0 })
    }
}

/// Reads a name server. `host` is what the part before the scope was read as.
pub fn parse_dns_nameserver(value: &str, host: &HostReading) -> (r: Result<SocketAddr, String>)
    ensures
        match r {
            Ok(a) => nameserver(value@, debug_text(value@), host@) == Ok::<
                SocketAddr,
                Seq<char>,
            >(a),
            Err(m) => nameserver(value@, debug_text(value@), host@) == Err::<
                SocketAddr,
                Seq<char>,
            >(m@),
        },
{
    let shown = quoted(value);
    read_nameserver(value, &shown, host)
}

/// A name server that was taken is asked at port 53, and one of its own segment only
/// has a scope.
pub proof fn nameservers_can_be_routed(value: Seq<char>, shown: Seq<char>, host: HostView)
    ensures
        nameserver(value, shown, host) matches Ok(a) ==> a.port == 53 && (a.ip matches IpAddr::V6(
            n,
        ) && v6_link_local(n) ==> a.scope_id != 0),
{
}

// ── The resolver's configuration ─────────────────────────────────────────────

/// A name server as it was supplied.
#[derive(Debug)]
pub struct NameserverText {
    pub text: String,
    pub host: HostReading,
}

/// A name server that is used.
#[derive(Debug)]
pub struct NameserverPlan {
    pub text: String,
    pub addr: SocketAddr,
    /// Whether it is asked through a proxy: the resolver cannot carry a scope.
    pub proxied: bool,
}

/// The texts of supplied name servers and what they were read as.
pub open spec fn supplied(v: Seq<NameserverText>) -> Seq<(Seq<char>, HostView)> {
    v.map_values(|n: NameserverText| (n.text@, n.host@))
}

/// The texts and addresses of name servers that are used.
pub open spec fn used(v: Seq<NameserverPlan>) -> Seq<(Seq<char>, SocketAddr)> {
    v.map_values(|p: NameserverPlan| (p.text@, p.addr))
}

/// The name servers that can be used, in order.
pub open spec fn usable(v: Seq<(Seq<char>, HostView)>) -> Seq<(Seq<char>, SocketAddr)>
    decreases v.len(),
{
    if v.len() == 0 {
        Seq::empty()
    } else {
        let init = usable(v.drop_last());
        match nameserver(v.last().0, debug_text(v.last().0), v.last().1) {
            Ok(a) => init.push((v.last().0, a)),
            Err(_) => init,
        }
    }
}

/// What is said of the others, in order.
pub open spec fn rejections(v: Seq<(Seq<char>, HostView)>) -> Seq<Seq<char>>
    decreases v.len(),
{
    if v.len() == 0 {
        Seq::empty()
    } else {
        let init = rejections(v.drop_last());
        match nameserver(v.last().0, debug_text(v.last().0), v.last().1) {
            Ok(_) => init,
            Err(m) => init.push(m),
        }
    }
}

/// Texts with a semicolon and a space between them.
pub open spec fn joined_texts(v: Seq<Seq<char>>) -> Seq<char>
    decreases v.len(),
{
    if v.len() == 0 {
        ""@
    } else if v.len() == 1 {
        v[0]
    } else {
        joined_texts(v.drop_last()) + "; "@ + v.last()
    }
}

/// What is said where no supplied name server can be used.
pub open spec fn all_invalid(v: Seq<(Seq<char>, HostView)>) -> ErrorView {
    (
        ErrorCode::InvalidInput,
        "all "@ + decimal(rejections(v).len())
            + " supplied dns_nameservers were invalid (expected IP addresses): "@ + joined_texts(
            rejections(v),
        ),
    )
}

fn join_texts(v: &Vec<String>) -> (r: String)
    ensures
        r@ == joined_texts(crate::bind::texts(v@)),
{
    let ghost all = crate::bind::texts(v@);
    let mut s: String = String::new();
    let mut i: usize = 0;
    proof {
        reveal_strlit("");
        assert(s@ =~= ""@);
    }
    while i < v.len()
        invariant
            i <= v@.len(),
            all == crate::bind::texts(v@),
            s@ == joined_texts(all.take(i as int)),
        decreases v@.len() - i,
    {
        proof {
            let upto = all.take(i + 1);
            assert(upto.drop_last() =~= all.take(i as int));
            assert(upto.last() == v@[i as int]@);
        }
        if i > 0 {
            s.append("; ");
            s.append(&v[i]);
        } else {
            s = v[i].clone();
        }
        i = i + 1;
    }
    proof {
        assert(all.take(i as int) =~= all);
    }
    s
}

/// Configures the resolver. Name servers that cannot be used are left out and
/// reported; where none of those supplied can be used, that is an error: falling back
/// to the system's would bring back what they were supplied against. No name servers
/// mean the system's.
pub fn configure_nameservers(list: &[NameserverText]) -> (r: Result<
    (Vec<NameserverPlan>, Vec<String>),
    CoreError,
>)
    ensures
        match r {
            Ok((plan, rejected)) => {
                &&& list@.len() == 0 || usable(supplied(list@)).len() > 0
                &&& used(plan@) == usable(supplied(list@))
                &&& forall|i: int|
                    0 <= i < plan@.len() ==> (#[trigger] plan@[i]).proxied == (plan@[i].addr.scope_id
                        != 0)
                &&& crate::bind::texts(rejected@) == rejections(supplied(list@))
            },
            Err(e) => {
                &&& list@.len() > 0 && usable(supplied(list@)).len() == 0
                &&& e@ == all_invalid(supplied(list@))
            },
        },
{
    let ghost all = supplied(list@);
    let mut plan: Vec<NameserverPlan> = Vec::new();
    let mut rejected: Vec<String> = Vec::new();
    let mut i: usize = 0;
    proof {
        assert(used(plan@) =~= Seq::empty());
        assert(crate::bind::texts(rejected@) =~= Seq::empty());
    }
    while i < list.len()
        invariant
            i <= list@.len(),
            all == supplied(list@),
            used(plan@) == usable(all.take(i as int)),
            crate::bind::texts(rejected@) == rejections(all.take(i as int)),
            forall|j: int|
                0 <= j < plan@.len() ==> (#[trigger] plan@[j]).proxied == (plan@[j].addr.scope_id
                    != 0),
        decreases list@.len() - i,
    {
        proof {
            let upto = all.take(i + 1);
            assert(upto.drop_last() =~= all.take(i as int));
            assert(upto.last() == (list@[i as int].text@, list@[i as int].host@));
        }
        match parse_dns_nameserver(&list[i].text, &list[i].host) {
            Ok(addr) => {
                let ghost before = plan@;
                plan.push(
                    NameserverPlan {
                        text: list[i].text.clone(),
                        addr,
                        proxied: addr.scope_id != 0,
                    },
                );
                proof {
                    assert(used(plan@) =~= used(before).push((list@[i as int].text@, addr)));
                }
            },
            Err(m) => {
                let ghost before = rejected@;
                let ghost said = m@;
                rejected.push(m);
                proof {
                    assert(crate::bind::texts(rejected@) =~= crate::bind::texts(before).push(said));
                }
            },
        }
        i = i + 1;
    }
    proof {
        assert(all.take(i as int) =~= all);
        assert(used(plan@).len() == plan@.len());
        assert(crate::bind::texts(rejected@).len() == rejected@.len());
    }
    if list.len() > 0 && plan.len() == 0 {
        let mut s: String = String::from_str("all ");
        append_decimal(&mut s, rejected.len() as u64);
        s.append(" supplied dns_nameservers were invalid (expected IP addresses): ");
        let texts = join_texts(&rejected);
        s.append(&texts);
        return Err(CoreError { code: ErrorCode::InvalidInput, message: s });
    }
    Ok((plan, rejected))
}

/// The error of a proxy that could not be started, for a name server whose quoted
/// text is given.
pub fn proxy_error(shown: &str, cause: &str) -> (r: CoreError)
    ensures
        r@ == (
            ErrorCode::ConnectionFailed,
            "failed to start scoped DNS proxy for "@ + shown@ + ": "@ + cause@,
        ),
{
    CoreError {
        code: ErrorCode::ConnectionFailed,
        message: caused("failed to start scoped DNS proxy for ", shown, cause),
    }
}

// ── The proxy ────────────────────────────────────────────────────────────────

/// How many queries a proxy forwards at once.
pub const MAX_SCOPED_DNS_IN_FLIGHT: usize = 32;

/// How many bytes a query or an answer may have.
pub const MAX_SCOPED_DNS_UDP_PAYLOAD: usize = 4096;

/// Checks that a name server needs a proxy.
pub fn check_upstream(upstream: &SocketAddr) -> (r: Result<(), &'static str>)
    ensures
        match r {
            Ok(_) => upstream.ip is V6 && upstream.scope_id != 0,
            Err(m) => if upstream.ip is V6 {
                upstream.scope_id == 0 && m@
                    == "scoped DNS proxy requires a non-zero IPv6 scope ID"@
            } else {
                m@ == "scoped DNS proxy requires an IPv6 upstream"@
            },
        },
{
    if !upstream.ip.is_ipv6() {
        return Err("scoped DNS proxy requires an IPv6 upstream");
    }
    if upstream.scope_id == 0 {
        return Err("scoped DNS proxy requires a non-zero IPv6 scope ID");
    }
    Ok(())
}

/// What a proxy is busy with.
#[derive(Debug, Clone, Copy, PartialEq, Eq, Structural)]
pub struct ProxyLoad {
    /// Queries that are being forwarded.
    pub in_flight: usize,
    /// Queries that were dropped.
    pub dropped: usize,
}

impl ProxyLoad {
    /// No more queries are being forwarded than allowed.
    pub open spec fn wf(&self) -> bool {
        self.in_flight <= MAX_SCOPED_DNS_IN_FLIGHT
    }

    /// A proxy that has forwarded nothing.
    pub fn new() -> (r: Self)
        ensures
            r.wf(),
            r == (ProxyLoad { in_flight: 0, dropped: 0 }),
    {
        ProxyLoad { in_flight: 0, dropped: 0 }
    }

    /// Decides whether a query of so many bytes is forwarded. One that is too large, or
    /// that comes when the proxy has enough to do, is dropped.
    pub fn on_query(&mut self, len: usize) -> (r: bool)
        requires
            old(self).wf(),
            old(self).dropped < usize::MAX,
        ensures
            final(self).wf(),
            r == (len <= MAX_SCOPED_DNS_UDP_PAYLOAD && old(self).in_flight
                < MAX_SCOPED_DNS_IN_FLIGHT),
            *final(self) == (if r {
                ProxyLoad { in_flight: (old(self).in_flight + 1) as usize, ..*old(self) }
            } else {
                ProxyLoad { dropped: (old(self).dropped + 1) as usize, ..*old(self) }
            }),
    {
        if len > MAX_SCOPED_DNS_UDP_PAYLOAD || self.in_flight >= MAX_SCOPED_DNS_IN_FLIGHT {
            self.dropped = self.dropped + 1;
            return false;
        }
        self.in_flight = self.in_flight + 1;
        true
    }

    /// A query was forwarded, or failed.
    pub fn on_done(&mut self)
        requires
            old(self).wf(),
            old(self).in_flight > 0,
        ensures
            final(self).wf(),
            *final(self) == (ProxyLoad {
                in_flight: (old(self).in_flight - 1) as usize,
                ..*old(self)
            }),
    {
        self.in_flight = self.in_flight - 1;
    }
}

/// Checks the size of an answer.
pub fn check_reply(len: usize) -> (r: Result<(), &'static str>)
    ensures
        match r {
            Ok(_) => len <= MAX_SCOPED_DNS_UDP_PAYLOAD,
            Err(m) => len > MAX_SCOPED_DNS_UDP_PAYLOAD && m@
                == "DNS upstream response exceeded the proxy payload cap"@,
        },
{
    if len > MAX_SCOPED_DNS_UDP_PAYLOAD {
        Err("DNS upstream response exceeded the proxy payload cap")
    } else {
        Ok(())
    }
}

// ── Laws ─────────────────────────────────────────────────────────────────────

/// A name server without a scope is used, at port 53, where it was read as an address that
/// is not one of its own segment only.
pub proof fn plain_nameservers_are_used(value: Seq<char>, shown: Seq<char>, host: HostView)
    requires
        forall|i: int| 0 <= i < value.len() ==> #[trigger] value[i] != '%',
    ensures
        match host.1 {
            Err(cause) => nameserver(value, shown, host) == Err::<SocketAddr, Seq<char>>(
                "invalid DNS nameserver "@ + shown + ": "@ + cause,
            ),
            Ok(IpAddr::V4(n)) => nameserver(value, shown, host) == Ok::<SocketAddr, Seq<char>>(
                SocketAddr { ip: IpAddr::V4(n), port: 53, scope_id: 0 },
            ),
            Ok(IpAddr::V6(n)) => if 0xfe80_0000_0000_0000_0000_0000_0000_0000 <= n
                < 0xfec0_0000_0000_0000_0000_0000_0000_0000 {
                nameserver(value, shown, host) == Err::<SocketAddr, Seq<char>>(
                    "link-local IPv6 DNS nameserver "@ + shown
                        + " requires a numeric interface scope"@,
                )
            } else {
                nameserver(value, shown, host) == Ok::<SocketAddr, Seq<char>>(
                    SocketAddr { ip: IpAddr::V6(n), port: 53, scope_id: 0 },
                )
            },
        },
{
    crate::text::first_index_points(value, '%');
    if let Ok(IpAddr::V6(n)) = host.1 {
        crate::addr::reachable_v6(n);
    }
}

/// A name server with a scope is used, at port 53 and through that interface, where it was
/// read as an IPv6 address and the scope is a number from 1 that 32 bits hold.
pub proof fn scoped_nameservers_are_used(
    before: Seq<char>,
    scope: Seq<char>,
    shown: Seq<char>,
    host: HostView,
)
    requires
        forall|i: int| 0 <= i < before.len() ==> #[trigger] before[i] != '%',
    ensures
        match host.0 {
            Err(cause) => nameserver(before + seq!['%'] + scope, shown, host) == Err::<
                SocketAddr,
                Seq<char>,
            >("invalid scoped IPv6 DNS nameserver "@ + shown + ": "@ + cause),
            Ok(n) => match unsigned_value(scope, 0xffff_ffff) {
                None => nameserver(before + seq!['%'] + scope, shown, host) == Err::<
                    SocketAddr,
                    Seq<char>,
                >("IPv6 DNS nameserver "@ + shown + " must use a numeric interface scope"@),
                Some(k) => if k == 0 {
                    nameserver(before + seq!['%'] + scope, shown, host) == Err::<
                        SocketAddr,
                        Seq<char>,
                    >("IPv6 DNS nameserver "@ + shown + " must use a non-zero interface scope"@)
                } else {
                    nameserver(before + seq!['%'] + scope, shown, host) == Ok::<
                        SocketAddr,
                        Seq<char>,
                    >(SocketAddr { ip: IpAddr::V6(n), port: 53, scope_id: k as u32 })
                },
            },
        },
{
    let value = before + seq!['%'] + scope;
    crate::text::first_index_points(value, '%');
    let k = first_index(value, '%');
    assert(value[before.len() as int] == '%');
    if k < before.len() {
        assert(value[k] == before[k]);
    }
    assert(value.skip(k + 1) =~= scope);
}

/// Name servers are looked at one by one: those that can be used are, in order, with the
/// address they were read as, and of every other one it is said why it is not.
pub proof fn nameservers_are_used_or_told(
    a: Seq<(Seq<char>, HostView)>,
    b: Seq<(Seq<char>, HostView)>,
    one: (Seq<char>, HostView),
)
    ensures
        usable(a + b) == usable(a) + usable(b),
        rejections(a + b) == rejections(a) + rejections(b),
        usable(a).len() + rejections(a).len() == a.len(),
        match nameserver(one.0, debug_text(one.0), one.1) {
            Ok(addr) => usable(seq![one]) == seq![(one.0, addr)] && rejections(seq![one]).len()
                == 0,
            Err(m) => usable(seq![one]).len() == 0 && rejections(seq![one]) == seq![m],
        },
    decreases a.len() + b.len(),
{
    if b.len() > 0 {
        nameservers_are_used_or_told(a, b.drop_last(), one);
        assert((a + b).drop_last() =~= a + b.drop_last());
        assert(usable(a + b) =~= usable(a) + usable(b));
        assert(rejections(a + b) =~= rejections(a) + rejections(b));
    } else {
        assert(a + b =~= a);
        assert(usable(a) + usable(b) =~= usable(a));
        assert(rejections(a) + rejections(b) =~= rejections(a));
        if a.len() > 0 {
            nameservers_are_used_or_told(a.drop_last(), Seq::empty(), one);
        }
    }
    assert(seq![one].drop_last() =~= Seq::empty());
    assert(usable(seq![one].drop_last()) =~= Seq::empty());
    assert(rejections(seq![one].drop_last()) =~= Seq::empty());
    match nameserver(one.0, debug_text(one.0), one.1) {
        Ok(addr) => {
            assert(usable(seq![one]) =~= seq![(one.0, addr)]);
        },
        Err(m) => {
            assert(rejections(seq![one]) =~= seq![m]);
        },
    }
}

/// Texts are put together with a semicolon and a blank between them.
pub proof fn texts_are_put_together(v: Seq<Seq<char>>, one: Seq<char>)
    ensures
        joined_texts(Seq::empty()) == Seq::<char>::empty(),
        joined_texts(seq![one]) == one,
        v.len() > 0 ==> joined_texts(v.push(one)) == joined_texts(v) + seq![';', ' '] + one,
{
    reveal_strlit("");
    reveal_strlit("; ");
    assert(""@ =~= Seq::<char>::empty());
    assert("; "@ =~= seq![';', ' ']);
    assert(v.push(one).drop_last() =~= v);
}

/// Where no name server can be used, the error says of how many, and of each why.
pub proof fn all_rejections_are_told(v: Seq<(Seq<char>, HostView)>)
    ensures
        all_invalid(v) == (
            ErrorCode::InvalidInput,
            "all "@ + decimal(rejections(v).len())
                + " supplied dns_nameservers were invalid (expected IP addresses): "@
                + joined_texts(rejections(v)),
        ),
{
}

/// Name servers and plans are seen as they are.
pub proof fn nameservers_are_seen_whole(v: Seq<NameserverText>, p: Seq<NameserverPlan>, h: HostReading)
    ensures
        supplied(v).len() == v.len(),
        forall|i: int|
            0 <= i < v.len() ==> #[trigger] supplied(v)[i] == (v[i].text@, v[i].host@),
        used(p).len() == p.len(),
        forall|i: int| 0 <= i < p.len() ==> #[trigger] used(p)[i] == (p[i].text@, p[i].addr),
        h.v6 matches Ok(n) ==> h@.0 == Ok::<u128, Seq<char>>(n),
        h.v6 matches Err(m) ==> h@.0 == Err::<u128, Seq<char>>(m@),
        h.any matches Ok(a) ==> h@.1 == Ok::<IpAddr, Seq<char>>(a),
        h.any matches Err(m) ==> h@.1 == Err::<IpAddr, Seq<char>>(m@),
{
}

/// How much a proxy carries at once.
pub proof fn limits_of_proxies()
    ensures
        MAX_SCOPED_DNS_IN_FLIGHT == 32,
        MAX_SCOPED_DNS_UDP_PAYLOAD == 4096,
{
}

} // verus!
