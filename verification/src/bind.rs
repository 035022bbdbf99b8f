//! What binding an endpoint decides before and after the transport is opened.
use vstd::prelude::*;

use crate::config::NodeOptions;
use crate::dns::{
    all_invalid, configure_nameservers, rejections, supplied, usable, used, HostView,
    NameserverPlan, NameserverText,
};
use crate::error::{CoreError, ErrorCode, ErrorView};
use crate::handles::{
    StoreConfig, DEFAULT_CHANNEL_CAPACITY, DEFAULT_DRAIN_TIMEOUT_MS, DEFAULT_MAX_CHUNK_SIZE,
    DEFAULT_MAX_HANDLES, DEFAULT_SLAB_TTL_MS, DEFAULT_SWEEP_INTERVAL_MS,
};
use crate::serve::DEFAULT_MAX_RESPONSE_BODY_BYTES;
use crate::text::{append_decimal, decimal, same};
use crate::urls::{opt_text, parse_relay_url, parse_url, relay_url_parsed, url_parsed};
use crate::{ALPN_DUPLEX_STR, ALPN_STR};

verus! {

/// Which relays an endpoint uses.
#[derive(Debug, Clone)]
pub enum RelayChoice {
    Default,
    Staging,
    Disabled,
    /// The relays with these URLs.
    Custom(Vec<String>),
}

/// What a [`RelayChoice`] says.
pub enum RelayView {
    Default,
    Staging,
    Disabled,
    Custom(Seq<Seq<char>>),
}

/// The characters of a list of strings.
pub open spec fn texts(v: Seq<String>) -> Seq<Seq<char>> {
    v.map_values(|s: String| s@)
}

impl View for RelayChoice {
    type V = RelayView;

    open spec fn view(&self) -> RelayView {
        match *self {
            RelayChoice::Default => RelayView::Default,
            RelayChoice::Staging => RelayView::Staging,
            RelayChoice::Disabled => RelayView::Disabled,
            RelayChoice::Custom(urls) => RelayView::Custom(texts(urls@)),
        }
    }
}

/// What each of a list of relay URLs was read as.
pub type RelayRead = Result<Seq<char>, Seq<char>>;

/// The views of a list of readings.
pub open spec fn read_views(reads: Seq<Result<String, String>>) -> Seq<RelayRead> {
    reads.map_values(
        |r: Result<String, String>|
            match r {
                Ok(u) => Ok::<Seq<char>, Seq<char>>(u@),
                Err(m) => Err::<Seq<char>, Seq<char>>(m@),
            },
    )
}

/// The normal forms that were read, or the first error.
pub open spec fn gathered(reads: Seq<RelayRead>) -> Result<Seq<Seq<char>>, Seq<char>>
    decreases reads.len(),
{
    if reads.len() == 0 {
        Ok(Seq::empty())
    } else {
        match gathered(reads.drop_last()) {
            Err(m) => Err(m),
            Ok(init) => match reads.last() {
                Err(m) => Err(m),
                Ok(u) => Ok(init.push(u)),
            },
        }
    }
}

/// The normal forms of relay URLs, or the error of the first that is none.
pub open spec fn relay_list(urls: Seq<Seq<char>>) -> Result<Seq<Seq<char>>, Seq<char>> {
    gathered(urls.map_values(|u: Seq<char>| relay_url_parsed(u)))
}

/// An error in a prefix is the first error of the whole.
proof fn error_in_prefix(reads: Seq<RelayRead>, k: int)
    requires
        0 <= k <= reads.len(),
        gathered(reads.take(k)) is Err,
    ensures
        gathered(reads) == gathered(reads.take(k)),
    decreases reads.len(),
{
    if k == reads.len() {
        assert(reads.take(k) =~= reads);
    } else {
        assert(reads.drop_last().take(k) =~= reads.take(k));
        error_in_prefix(reads.drop_last(), k);
    }
}

/// The custom relays, from what each URL was read as.
pub fn custom_relays(reads: &[Result<String, String>]) -> (r: Result<RelayChoice, CoreError>)
    ensures
        match gathered(read_views(reads@)) {
            Ok(urls) => r matches Ok(c) && c@ == RelayView::Custom(urls),
            Err(m) => r matches Err(e) && e@ == (ErrorCode::InvalidInput, m),
        },
{
    let ghost all = read_views(reads@);
    let mut out: Vec<String> = Vec::new();
    let mut i: usize = 0;
    proof {
        assert(texts(out@) =~= Seq::empty());
    }
    while i < reads.len()
        invariant
            i <= reads@.len(),
            all == read_views(reads@),
            gathered(all.take(i as int)) == Ok::<Seq<Seq<char>>, Seq<char>>(texts(out@)),
        decreases reads@.len() - i,
    {
        proof {
            let upto = all.take(i + 1);
            assert(upto.drop_last() =~= all.take(i as int));
            assert(upto.last() == all[i as int]);
            if gathered(upto) is Err {
                error_in_prefix(all, i + 1);
            }
        }
        match &reads[i] {
            Ok(u) => {
                let ghost before = out@;
                out.push(u.clone());
                proof {
                    assert(texts(out@) =~= texts(before).push(u@));
                }
            },
            Err(m) => {
                return Err(CoreError::invalid_input(m));
            },
        }
        i = i + 1;
    }
    proof {
        assert(all.take(i as int) =~= all);
    }
    Ok(RelayChoice::Custom(out))
}

/// Reads relay URLs.
fn read_relays(urls: &Vec<String>) -> (r: Vec<Result<String, String>>)
    ensures
        gathered(read_views(r@)) == relay_list(texts(urls@)),
{
    let ghost all = texts(urls@).map_values(|u: Seq<char>| relay_url_parsed(u));
    let mut out: Vec<Result<String, String>> = Vec::new();
    let mut i: usize = 0;
    proof {
        assert(read_views(out@) =~= all.take(0));
    }
    while i < urls.len()
        invariant
            i <= urls@.len(),
            all == texts(urls@).map_values(|u: Seq<char>| relay_url_parsed(u)),
            read_views(out@) == all.take(i as int),
        decreases urls@.len() - i,
    {
        let ghost before = out@;
        out.push(parse_relay_url(&urls[i]));
        proof {
            assert(texts(urls@)[i as int] == urls@[i as int]@);
            assert(read_views(out@) =~= read_views(before).push(all[i as int]));
            assert(read_views(out@) =~= all.take(i + 1));
        }
        i = i + 1;
    }
    proof {
        assert(all.take(i as int) =~= all);
    }
    out
}

/// The relays that a configuration chooses. Networking that is switched off overrides
/// the relay mode, whatever it says.
pub open spec fn chosen_relays(
    disabled: bool,
    mode: Option<Seq<char>>,
    relays: Seq<Seq<char>>,
) -> Result<RelayView, ErrorView> {
    if disabled {
        Ok(RelayView::Disabled)
    } else {
        match mode {
            None => Ok(RelayView::Default),
            Some(m) => if m == "default"@ {
                Ok(RelayView::Default)
            } else if m == "staging"@ {
                Ok(RelayView::Staging)
            } else if m == "disabled"@ {
                Ok(RelayView::Disabled)
            } else if m == "custom"@ {
                if relays.len() == 0 {
                    Err(
                        (
                            ErrorCode::InvalidInput,
                            "relay_mode \"custom\" requires at least one URL in `relays`"@,
                        ),
                    )
                } else {
                    match relay_list(relays) {
                        Ok(urls) => Ok(RelayView::Custom(urls)),
                        Err(e) => Err((ErrorCode::InvalidInput, e)),
                    }
                }
            } else {
                Err((ErrorCode::InvalidInput, "unknown relay_mode: "@ + m))
            },
        }
    }
}

/// Chooses the relays.
pub fn choose_relays(disabled: bool, mode: &Option<String>, relays: &Vec<String>) -> (r: Result<
    RelayChoice,
    CoreError,
>)
    ensures
        match r {
            Ok(c) => chosen_relays(disabled, opt_text(*mode), texts(relays@)) == Ok::<
                RelayView,
                ErrorView,
            >(c@),
            Err(e) => chosen_relays(disabled, opt_text(*mode), texts(relays@)) == Err::<
                RelayView,
                ErrorView,
            >(e@),
        },
{
    if disabled {
        return Ok(RelayChoice::Disabled);
    }
    match mode {
        None => Ok(RelayChoice::Default),
        Some(m) => {
            if same(m, "default") {
                Ok(RelayChoice::Default)
            } else if same(m, "staging") {
                Ok(RelayChoice::Staging)
            } else if same(m, "disabled") {
                Ok(RelayChoice::Disabled)
            } else if same(m, "custom") {
                if relays.len() == 0 {
                    return Err(
                        CoreError::invalid_input(
                            "relay_mode \"custom\" requires at least one URL in `relays`",
                        ),
                    );
                }
                let reads = read_relays(relays);
                custom_relays(&reads)
            } else {
                let mut s: String = String::from_str("unknown relay_mode: ");
                s.append(m);
                Err(CoreError { code: ErrorCode::InvalidInput, message: s })
            }
        },
    }
}

// ── Protocols ────────────────────────────────────────────────────────────────

/// Whether a capability names a protocol that is spoken here.
pub open spec fn known_alpn(cap: Seq<char>) -> bool {
    cap == "iroh-http/2"@ || cap == "iroh-http/2-duplex"@
}

/// The first capability that names no known protocol.
pub open spec fn unknown_capability(caps: Seq<Seq<char>>) -> Option<Seq<char>>
    decreases caps.len(),
{
    if caps.len() == 0 {
        None
    } else {
        match unknown_capability(caps.drop_last()) {
            Some(c) => Some(c),
            None => if known_alpn(caps.last()) {
                None
            } else {
                Some(caps.last())
            },
        }
    }
}

/// What is said of a capability that names no known protocol.
pub open spec fn unknown_capability_message(cap: Seq<char>) -> Seq<char> {
    "unknown ALPN capability: \""@ + cap
        + "\"; valid values are [\"iroh-http/2\", \"iroh-http/2-duplex\"]"@
}

/// An unknown capability in a prefix is the first of the whole.
proof fn unknown_in_prefix(caps: Seq<Seq<char>>, k: int)
    requires
        0 <= k <= caps.len(),
        unknown_capability(caps.take(k)) is Some,
    ensures
        unknown_capability(caps) == unknown_capability(caps.take(k)),
    decreases caps.len(),
{
    if k == caps.len() {
        assert(caps.take(k) =~= caps);
    } else {
        assert(caps.drop_last().take(k) =~= caps.take(k));
        unknown_in_prefix(caps.drop_last(), k);
    }
}

/// Checks that every capability names a known protocol.
pub fn check_capabilities(caps: &Vec<String>) -> (r: Result<(), CoreError>)
    ensures
        match r {
            Ok(_) => unknown_capability(texts(caps@)) is None,
            Err(e) => unknown_capability(texts(caps@)) is Some && e@ == (
                ErrorCode::InvalidInput,
                unknown_capability_message(unknown_capability(texts(caps@))->Some_0),
            ),
        },
{
    let ghost all = texts(caps@);
    let mut i: usize = 0;
    while i < caps.len()
        invariant
            i <= caps@.len(),
            all == texts(caps@),
            unknown_capability(all.take(i as int)) is None,
        decreases caps@.len() - i,
    {
        let cap: &String = &caps[i];
        proof {
            let upto = all.take(i + 1);
            assert(upto.drop_last() =~= all.take(i as int));
            assert(upto.last() == cap@);
            if unknown_capability(upto) is Some {
                unknown_in_prefix(all, i + 1);
            }
        }
        if !same(cap, ALPN_STR) && !same(cap, ALPN_DUPLEX_STR) {
            let mut s: String = String::from_str("unknown ALPN capability: \"");
            s.append(cap);
            s.append("\"; valid values are [\"iroh-http/2\", \"iroh-http/2-duplex\"]");
            return Err(CoreError { code: ErrorCode::InvalidInput, message: s });
        }
        i = i + 1;
    }
    proof {
        assert(all.take(i as int) =~= all);
    }
    Ok(())
}

/// The protocols that an endpoint offers, in order of preference.
pub open spec fn offered(caps: Seq<Seq<char>>) -> Seq<Seq<char>> {
    if caps.len() == 0 {
        seq!["iroh-http/2-duplex"@, "iroh-http/2"@]
    } else if caps.contains("iroh-http/2"@) {
        caps
    } else {
        caps.push("iroh-http/2"@)
    }
}

/// The protocols that an endpoint offers: both where none is asked for, else
/// those asked for and the base protocol.
pub fn offered_alpns(caps: &Vec<String>) -> (r: Vec<String>)
    ensures
        texts(r@) == offered(texts(caps@)),
{
    let mut out: Vec<String> = Vec::new();
    if caps.len() == 0 {
        out.push(String::from_str(ALPN_DUPLEX_STR));
        out.push(String::from_str(ALPN_STR));
        proof {
            assert(texts(out@) =~= offered(texts(caps@)));
        }
        return out;
    }
    let mut has_base: bool = false;
    let mut i: usize = 0;
    while i < caps.len()
        invariant
            i <= caps@.len(),
            out@.len() == i,
            forall|j: int| 0 <= j < i ==> (#[trigger] out@[j])@ == caps@[j]@,
            has_base == (exists|j: int| 0 <= j < i && (#[trigger] caps@[j])@ == "iroh-http/2"@),
        decreases caps@.len() - i,
    {
        if same(&caps[i], ALPN_STR) {
            has_base = true;
        }
        out.push(caps[i].clone());
        i = i + 1;
    }
    proof {
        assert(texts(out@) =~= texts(caps@));
        if has_base {
            let j = choose|j: int| 0 <= j < i && (#[trigger] caps@[j])@ == "iroh-http/2"@;
            assert(texts(caps@)[j] == "iroh-http/2"@);
        } else if texts(caps@).contains("iroh-http/2"@) {
            let j = choose|j: int| 0 <= j < texts(caps@).len() && texts(caps@)[j] == "iroh-http/2"@;
            assert(caps@[j]@ == "iroh-http/2"@);
        }
    }
    if !has_base {
        let ghost before = out@;
        out.push(String::from_str(ALPN_STR));
        proof {
            assert(texts(out@) =~= texts(before).push("iroh-http/2"@));
        }
    }
    out
}

/// An endpoint always offers the base protocol.
pub proof fn base_protocol_is_offered(caps: Seq<Seq<char>>)
    ensures
        offered(caps).contains("iroh-http/2"@),
{
    if caps.len() == 0 {
        assert(offered(caps)[1] == "iroh-http/2"@);
    } else if !caps.contains("iroh-http/2"@) {
        assert(offered(caps)[caps.len() as int] == "iroh-http/2"@);
    }
}

// ── Before the transport ─────────────────────────────────────────────────────

/// What the transport is opened with.
#[derive(Debug, Clone)]
pub struct TransportPlan {
    pub relays: RelayChoice,
    pub alpns: Vec<String>,
}

/// Whether a compression level is out of range.
pub open spec fn bad_level(opts: NodeOptions) -> Option<u32> {
    match opts.compression {
        Some(c) => match c.level {
            Some(l) => if 1 <= l <= 22 {
                None
            } else {
                Some(l)
            },
            None => None,
        },
        None => None,
    }
}

/// What the transport is opened with, or why it is not.
pub open spec fn transport_plan(opts: NodeOptions) -> Result<
    (RelayView, Seq<Seq<char>>),
    ErrorView,
> {
    match chosen_relays(
        opts.networking.disabled,
        opt_text(opts.networking.relay_mode),
        texts(opts.networking.relays@),
    ) {
        Err(e) => Err(e),
        Ok(relays) => match unknown_capability(texts(opts.capabilities@)) {
            Some(c) => Err((ErrorCode::InvalidInput, unknown_capability_message(c))),
            None => match bad_level(opts) {
                Some(l) => Err(
                    (
                        ErrorCode::InvalidInput,
                        "compression level must be 1–22, got "@ + decimal(l as nat),
                    ),
                ),
                None => Ok((relays, offered(texts(opts.capabilities@)))),
            },
        },
    }
}

/// Checks the options that decide the transport: the relay mode first, then the
/// capabilities, then the compression level.
pub fn plan_transport(opts: &NodeOptions) -> (r: Result<TransportPlan, CoreError>)
    ensures
        match r {
            Ok(p) => transport_plan(*opts) == Ok::<(RelayView, Seq<Seq<char>>), ErrorView>(
                (p.relays@, texts(p.alpns@)),
            ),
            Err(e) => transport_plan(*opts) == Err::<(RelayView, Seq<Seq<char>>), ErrorView>(e@),
        },
{
    let relays = match choose_relays(
        opts.networking.disabled,
        &opts.networking.relay_mode,
        &opts.networking.relays,
    ) {
        Ok(c) => c,
        Err(e) => {
            return Err(e);
        },
    };
    if let Err(e) = check_capabilities(&opts.capabilities) {
        return Err(e);
    }
    if let Some(c) = &opts.compression {
        if let Some(level) = c.level {
            if level < 1 || level > 22 {
                let mut s: String = String::from_str("compression level must be 1–22, got ");
                append_decimal(&mut s, level as u64);
                return Err(CoreError { code: ErrorCode::InvalidInput, message: s });
            }
        }
    }
    Ok(TransportPlan { relays, alpns: offered_alpns(&opts.capabilities) })
}

/// Where addresses of peers are looked up.
#[derive(Debug, Clone)]
pub enum DiscoveryPlan {
    /// Nowhere.
    Off,
    /// At the default servers.
    Defaults,
    /// At this URL, under this host as the origin domain.
    Server { url: String, host: String },
}

/// An error with the text of its cause behind it.
fn caused(lead: &str, cause: &str) -> (r: CoreError)
    ensures
        r@ == (ErrorCode::InvalidInput, lead@ + cause@),
{
    let mut s: String = String::from_str(lead);
    s.append(cause);
    CoreError { code: ErrorCode::InvalidInput, message: s }
}

/// Where addresses of peers are looked up.
pub enum DiscoveryView {
    Off,
    Defaults,
    Server(Seq<char>, Seq<char>),
}

impl View for DiscoveryPlan {
    type V = DiscoveryView;

    open spec fn view(&self) -> DiscoveryView {
        match self {
            DiscoveryPlan::Off => DiscoveryView::Off,
            DiscoveryPlan::Defaults => DiscoveryView::Defaults,
            DiscoveryPlan::Server { url, host } => DiscoveryView::Server(url@, host@),
        }
    }
}

/// Where addresses of peers are looked up: nowhere where networking or discovery is
/// off; at the configured server, else at the defaults.
pub open spec fn discovery_of(opts: NodeOptions) -> Result<DiscoveryView, ErrorView> {
    if opts.networking.disabled || !opts.discovery.enabled {
        Ok(DiscoveryView::Off)
    } else {
        match opts.discovery.dns_server {
            None => Ok(DiscoveryView::Defaults),
            Some(text) => match url_parsed(text@) {
                Err(m) => Err((ErrorCode::InvalidInput, "invalid dns_discovery URL: "@ + m)),
                Ok(u) => Ok(
                    DiscoveryView::Server(
                        u.0,
                        match u.1 {
                            Some(h) => h,
                            None => Seq::empty(),
                        },
                    ),
                ),
            },
        }
    }
}

/// The lookup server, from what its URL was read as.
pub fn discovery_server(read: Result<(String, Option<String>), String>) -> (r: Result<
    DiscoveryPlan,
    CoreError,
>)
    ensures
        match read {
            Ok(u) => r matches Ok(p) && p@ == DiscoveryView::Server(
                u.0@,
                match u.1 {
                    Some(h) => h@,
                    None => Seq::empty(),
                },
            ),
            Err(m) => r matches Err(e) && e@ == (
                ErrorCode::InvalidInput,
                "invalid dns_discovery URL: "@ + m@,
            ),
        },
{
    match read {
        Err(m) => Err(caused("invalid dns_discovery URL: ", &m)),
        Ok((url, host)) => match host {
            Some(h) => Ok(DiscoveryPlan::Server { url, host: h }),
            None => Ok(DiscoveryPlan::Server { url, host: String::new() }),
        },
    }
}

/// Decides where addresses of peers are looked up.
pub fn plan_discovery(opts: &NodeOptions) -> (r: Result<DiscoveryPlan, CoreError>)
    ensures
        match r {
            Ok(p) => discovery_of(*opts) == Ok::<DiscoveryView, ErrorView>(p@),
            Err(e) => discovery_of(*opts) == Err::<DiscoveryView, ErrorView>(e@),
        },
{
    if opts.networking.disabled || !opts.discovery.enabled {
        return Ok(DiscoveryPlan::Off);
    }
    match &opts.discovery.dns_server {
        None => Ok(DiscoveryPlan::Defaults),
        Some(text) => discovery_server(parse_url(text)),
    }
}

/// `IdleTimeout::try_from` on a `Duration` of milliseconds: it takes those below
/// 2^62 and has one error text for the others.
#[verifier::external_body]
fn idle_timeout_fault(ms: u64) -> (r: Option<String>)
    ensures
        r is None <==> ms < 0x4000_0000_0000_0000,
        r is Some ==> r->Some_0@ == "value too large for varint encoding"@,
{
    iroh::endpoint::IdleTimeout::try_from(std::time::Duration::from_millis(ms)).err().map(
        |e| e.to_string(),
    )
}

/// What is wrong with an idle timeout, if anything is: it must be below 2^62
/// milliseconds.
pub open spec fn idle_fault(ms: Option<u64>) -> Option<ErrorView> {
    if ms is Some && ms->Some_0 >= 0x4000_0000_0000_0000 {
        Some(
            (
                ErrorCode::InvalidInput,
                "idle_timeout_ms out of range: "@ + "value too large for varint encoding"@,
            ),
        )
    } else {
        None
    }
}

/// Checks the idle timeout.
pub fn check_idle_timeout(ms: Option<u64>) -> (r: Result<(), CoreError>)
    ensures
        match r {
            Ok(_) => idle_fault(ms) is None,
            Err(e) => idle_fault(ms) == Some(e@),
        },
{
    match ms {
        None => Ok(()),
        Some(n) => match idle_timeout_fault(n) {
            None => Ok(()),
            Some(m) => Err(caused("idle_timeout_ms out of range: ", &m)),
        },
    }
}

/// The error for a bind address that is no socket address.
pub fn invalid_bind_address(addr: &str, cause: &str) -> (r: CoreError)
    ensures
        r@ == (
            ErrorCode::InvalidInput,
            "invalid bind address \""@ + addr@ + "\": "@ + cause@,
        ),
{
    let mut s: String = String::from_str("invalid bind address \"");
    s.append(addr);
    s.append("\": ");
    s.append(cause);
    CoreError { code: ErrorCode::InvalidInput, message: s }
}

/// The error for a bind address that the transport does not take.
pub fn refused_bind_address(addr: &str, cause: &str) -> (r: CoreError)
    ensures
        r@ == (ErrorCode::InvalidInput, "bind address \""@ + addr@ + "\": "@ + cause@),
{
    let mut s: String = String::from_str("bind address \"");
    s.append(addr);
    s.append("\": ");
    s.append(cause);
    CoreError { code: ErrorCode::InvalidInput, message: s }
}

/// The proxy for relay traffic.
#[derive(Debug, Clone)]
pub enum ProxyPlan {
    /// None.
    Off,
    /// The one at this URL.
    Url(String),
    /// The one that the environment names.
    FromEnv,
}

/// The proxy for relay traffic.
pub enum ProxyView {
    Off,
    Url(Seq<char>),
    FromEnv,
}

impl View for ProxyPlan {
    type V = ProxyView;

    open spec fn view(&self) -> ProxyView {
        match self {
            ProxyPlan::Off => ProxyView::Off,
            ProxyPlan::Url(u) => ProxyView::Url(u@),
            ProxyPlan::FromEnv => ProxyView::FromEnv,
        }
    }
}

/// The proxy for relay traffic: a URL goes before the environment.
pub open spec fn proxy_of(opts: NodeOptions) -> Result<ProxyView, ErrorView> {
    match opts.networking.proxy_url {
        Some(text) => match url_parsed(text@) {
            Err(m) => Err((ErrorCode::InvalidInput, "invalid proxy URL: "@ + m)),
            Ok(u) => Ok(ProxyView::Url(u.0)),
        },
        None => if opts.networking.proxy_from_env {
            Ok(ProxyView::FromEnv)
        } else {
            Ok(ProxyView::Off)
        },
    }
}

/// The proxy, from what its URL was read as.
pub fn proxy_server(read: Result<(String, Option<String>), String>) -> (r: Result<
    ProxyPlan,
    CoreError,
>)
    ensures
        match read {
            Ok(u) => r matches Ok(p) && p@ == ProxyView::Url(u.0@),
            Err(m) => r matches Err(e) && e@ == (
                ErrorCode::InvalidInput,
                "invalid proxy URL: "@ + m@,
            ),
        },
{
    match read {
        Err(m) => Err(caused("invalid proxy URL: ", &m)),
        Ok((url, _)) => Ok(ProxyPlan::Url(url)),
    }
}

/// Decides the proxy.
pub fn plan_proxy(opts: &NodeOptions) -> (r: Result<ProxyPlan, CoreError>)
    ensures
        match r {
            Ok(p) => proxy_of(*opts) == Ok::<ProxyView, ErrorView>(p@),
            Err(e) => proxy_of(*opts) == Err::<ProxyView, ErrorView>(e@),
        },
{
    match &opts.networking.proxy_url {
        Some(text) => proxy_server(parse_url(text)),
        None => {
            if opts.networking.proxy_from_env {
                Ok(ProxyPlan::FromEnv)
            } else {
                Ok(ProxyPlan::Off)
            }
        },
    }
}

/// What came of a bind address.
#[derive(Debug)]
pub enum BindOutcome {
    /// The transport takes it.
    Taken,
    /// It is no socket address, for this reason.
    Unreadable(String),
    /// The transport does not take it, for this reason.
    Refused(String),
}

/// A bind address and what came of it.
#[derive(Debug)]
pub struct BindText {
    pub text: String,
    pub outcome: BindOutcome,
}

/// What is said of a bind address, if it is no good.
pub open spec fn bind_text_fault(b: BindText) -> Option<ErrorView> {
    match b.outcome {
        BindOutcome::Taken => None,
        BindOutcome::Unreadable(m) => Some(
            (ErrorCode::InvalidInput, "invalid bind address \""@ + b.text@ + "\": "@ + m@),
        ),
        BindOutcome::Refused(m) => Some(
            (ErrorCode::InvalidInput, "bind address \""@ + b.text@ + "\": "@ + m@),
        ),
    }
}

/// What is said of the first bind address that is no good, if one is.
pub open spec fn bind_fault(list: Seq<BindText>) -> Option<ErrorView>
    decreases list.len(),
{
    if list.len() == 0 {
        None
    } else {
        match bind_text_fault(list[0]) {
            Some(e) => Some(e),
            None => bind_fault(list.drop_first()),
        }
    }
}

/// Checks the bind addresses.
pub fn check_bind_addrs(list: &[BindText]) -> (r: Result<(), CoreError>)
    ensures
        match r {
            Ok(_) => bind_fault(list@) is None,
            Err(e) => bind_fault(list@) == Some(e@),
        },
{
    let mut i: usize = 0;
    proof {
        assert(list@.skip(0) =~= list@);
    }
    while i < list.len()
        invariant
            i <= list@.len(),
            bind_fault(list@) == bind_fault(list@.skip(i as int)),
        decreases list@.len() - i,
    {
        proof {
            assert(list@.skip(i as int)[0] == list@[i as int]);
            assert(list@.skip(i as int).drop_first() =~= list@.skip(i + 1));
        }
        match &list[i].outcome {
            BindOutcome::Taken => {},
            BindOutcome::Unreadable(m) => {
                return Err(invalid_bind_address(&list[i].text, m));
            },
            BindOutcome::Refused(m) => {
                return Err(refused_bind_address(&list[i].text, m));
            },
        }
        i = i + 1;
    }
    Ok(())
}

/// All that is decided before the transport is opened.
#[derive(Debug)]
pub struct BindPlan {
    pub transport: TransportPlan,
    pub nameservers: Vec<NameserverPlan>,
    /// What is said of name servers that are left out.
    pub rejected_nameservers: Vec<String>,
    pub discovery: DiscoveryPlan,
    pub proxy: ProxyPlan,
    /// How many streams a peer may have open at once.
    pub max_concurrent_streams: u32,
}

/// What is wrong with the options, if anything is. The options are looked at in this
/// order: relays, capabilities and compression; name servers; discovery; idle timeout;
/// bind addresses; proxy.
pub open spec fn options_fault(
    opts: NodeOptions,
    nameservers: Seq<(Seq<char>, HostView)>,
    binds: Seq<BindText>,
) -> Option<ErrorView> {
    if transport_plan(opts) is Err {
        Some(transport_plan(opts)->Err_0)
    } else if nameservers.len() > 0 && usable(nameservers).len() == 0 {
        Some(all_invalid(nameservers))
    } else if discovery_of(opts) is Err {
        Some(discovery_of(opts)->Err_0)
    } else if idle_fault(opts.networking.idle_timeout_ms) is Some {
        idle_fault(opts.networking.idle_timeout_ms)
    } else if bind_fault(binds) is Some {
        bind_fault(binds)
    } else if proxy_of(opts) is Err {
        Some(proxy_of(opts)->Err_0)
    } else {
        None
    }
}

/// Decides all that has to be decided before the transport is opened.
pub fn plan_bind(opts: &NodeOptions, nameservers: &[NameserverText], binds: &[BindText]) -> (r:
    Result<BindPlan, CoreError>)
    ensures
        match r {
            Ok(p) => {
                &&& options_fault(*opts, supplied(nameservers@), binds@) is None
                &&& transport_plan(*opts) == Ok::<(RelayView, Seq<Seq<char>>), ErrorView>(
                    (p.transport.relays@, texts(p.transport.alpns@)),
                )
                &&& used(p.nameservers@) == usable(supplied(nameservers@))
                &&& forall|i: int|
                    0 <= i < p.nameservers@.len() ==> (#[trigger] p.nameservers@[i]).proxied == (
                    p.nameservers@[i].addr.scope_id != 0)
                &&& texts(p.rejected_nameservers@) == rejections(supplied(nameservers@))
                &&& discovery_of(*opts) == Ok::<DiscoveryView, ErrorView>(p.discovery@)
                &&& proxy_of(*opts) == Ok::<ProxyView, ErrorView>(p.proxy@)
                &&& p.max_concurrent_streams == 128
            },
            Err(e) => options_fault(*opts, supplied(nameservers@), binds@) == Some(e@),
        },
{
    let transport = match plan_transport(opts) {
        Ok(t) => t,
        Err(e) => {
            return Err(e);
        },
    };
    let (plan, rejected) = match configure_nameservers(nameservers) {
        Ok(p) => p,
        Err(e) => {
            return Err(e);
        },
    };
    let discovery = match plan_discovery(opts) {
        Ok(d) => d,
        Err(e) => {
            return Err(e);
        },
    };
    if let Err(e) = check_idle_timeout(opts.networking.idle_timeout_ms) {
        return Err(e);
    }
    if let Err(e) = check_bind_addrs(binds) {
        return Err(e);
    }
    let proxy = match plan_proxy(opts) {
        Ok(p) => p,
        Err(e) => {
            return Err(e);
        },
    };
    Ok(
        BindPlan {
            transport,
            nameservers: plan,
            rejected_nameservers: rejected,
            discovery,
            proxy,
            max_concurrent_streams: 128,
        },
    )
}

/// Networking that is switched off overrides the relay mode: whatever the mode and the
/// relays say, the same options are taken or refused, for the same reason, and what is
/// planned is the same: no relays and no discovery.
pub proof fn disabled_overrides_relay_mode(
    opts: NodeOptions,
    mode: Option<String>,
    relays: Vec<String>,
    nameservers: Seq<(Seq<char>, HostView)>,
    binds: Seq<BindText>,
)
    requires
        opts.networking.disabled,
    ensures
        ({
            let other = NodeOptions {
                networking: crate::config::NetworkingOptions {
                    relay_mode: mode,
                    relays,
                    ..opts.networking
                },
                ..opts
            };
            &&& options_fault(opts, nameservers, binds) == options_fault(other, nameservers, binds)
            &&& transport_plan(opts) == transport_plan(other)
            &&& transport_plan(opts) matches Ok(plan) ==> plan.0 == RelayView::Disabled
            &&& discovery_of(opts) == Ok::<DiscoveryView, ErrorView>(DiscoveryView::Off)
            &&& discovery_of(other) == discovery_of(opts)
            &&& proxy_of(other) == proxy_of(opts)
        }),
{
}

// ── After the transport ──────────────────────────────────────────────────────

/// The limits that an endpoint works under.
#[derive(Debug, Clone, Copy)]
pub struct EndpointLimits {
    pub store: StoreConfig,
    pub sweep_interval_ms: u64,
    /// Whether expired handles are swept at all.
    pub sweeps: bool,
    pub max_header_size: usize,
    pub max_response_body_bytes: usize,
}

/// A configured value, or the default; at least one.
pub open spec fn at_least_one(v: Option<usize>, default: usize) -> int {
    let n = match v {
        Some(x) => x,
        None => default,
    };
    if n == 0 {
        1
    } else {
        n as int
    }
}

fn or_default_min_one(v: Option<usize>, default: usize) -> (r: usize)
    ensures
        r == at_least_one(v, default),
{
    let n: usize = match v {
        Some(x) => x,
        None => default,
    };
    if n == 0 {
        1
    } else {
        n
    }
}

fn or_default(v: Option<u64>, default: u64) -> (r: u64)
    ensures
        r == (match v {
            Some(x) => x,
            None => default,
        }),
{
    match v {
        Some(x) => x,
        None => default,
    }
}

/// Resolves the limits that an endpoint works under. A header limit of zero is an
/// error; a channel holds at least one chunk, and a chunk at least one byte.
pub fn endpoint_limits(opts: &NodeOptions) -> (r: Result<EndpointLimits, CoreError>)
    ensures
        match r {
            Err(e) => opts.max_header_size == Some(0usize) && e@ == (
                ErrorCode::InvalidInput,
                "max_header_size must be > 0; use None for the default (65536)"@,
            ),
            Ok(l) => {
                let st = opts.streaming;
                &&& opts.max_header_size != Some(0usize)
                &&& l.max_header_size == (match opts.max_header_size {
                    Some(n) => n,
                    None => 65536,
                })
                &&& l.max_response_body_bytes == (match opts.max_response_body_bytes {
                    Some(n) => n,
                    None => DEFAULT_MAX_RESPONSE_BODY_BYTES,
                })
                &&& l.store.channel_capacity == at_least_one(
                    st.channel_capacity,
                    DEFAULT_CHANNEL_CAPACITY,
                )
                &&& l.store.max_chunk_size == at_least_one(
                    st.max_chunk_size_bytes,
                    DEFAULT_MAX_CHUNK_SIZE,
                )
                &&& l.store.drain_timeout_ms == (match st.drain_timeout_ms {
                    Some(n) => n,
                    None => DEFAULT_DRAIN_TIMEOUT_MS,
                })
                &&& l.store.max_handles == DEFAULT_MAX_HANDLES
                &&& l.store.ttl_ms == (match st.handle_ttl_ms {
                    Some(n) => n,
                    None => DEFAULT_SLAB_TTL_MS,
                })
                &&& l.sweeps == (l.store.ttl_ms != 0)
                &&& l.sweep_interval_ms == (match st.sweep_interval_ms {
                    Some(n) => n,
                    None => DEFAULT_SWEEP_INTERVAL_MS,
                })
            },
        },
{
    let max_header_size: usize = match opts.max_header_size {
        Some(n) => {
            if n == 0 {
                return Err(
                    CoreError::invalid_input(
                        "max_header_size must be > 0; use None for the default (65536)",
                    ),
                );
            }
            n
        },
        None => 65536,
    };
    let max_response_body_bytes: usize = match opts.max_response_body_bytes {
        Some(n) => n,
        None => DEFAULT_MAX_RESPONSE_BODY_BYTES,
    };
    let ttl_ms: u64 = or_default(opts.streaming.handle_ttl_ms, DEFAULT_SLAB_TTL_MS);
    let store = StoreConfig {
        channel_capacity: or_default_min_one(
            opts.streaming.channel_capacity,
            DEFAULT_CHANNEL_CAPACITY,
        ),
        max_chunk_size: or_default_min_one(
            opts.streaming.max_chunk_size_bytes,
            DEFAULT_MAX_CHUNK_SIZE,
        ),
        drain_timeout_ms: or_default(opts.streaming.drain_timeout_ms, DEFAULT_DRAIN_TIMEOUT_MS),
        max_handles: DEFAULT_MAX_HANDLES,
        ttl_ms,
    };
    Ok(
        EndpointLimits {
            store,
            sweep_interval_ms: or_default(
                opts.streaming.sweep_interval_ms,
                DEFAULT_SWEEP_INTERVAL_MS,
            ),
            sweeps: ttl_ms != 0,
            max_header_size,
            max_response_body_bytes,
        },
    )
}

/// The error for a transport that could not be opened.
pub fn classify_bind_error(cause: &str) -> (r: CoreError)
    ensures
        r@ == (ErrorCode::ConnectionFailed, cause@),
{
    CoreError::connection_failed(cause)
}

// ── Laws ─────────────────────────────────────────────────────────────────────

/// Lists and choices are seen as they are.
pub proof fn choices_are_seen_whole(v: Seq<String>, reads: Seq<Result<String, String>>, c: RelayChoice)
    ensures
        texts(v).len() == v.len(),
        forall|i: int| 0 <= i < v.len() ==> #[trigger] texts(v)[i] == v[i]@,
        read_views(reads).len() == reads.len(),
        forall|i: int|
            0 <= i < reads.len() ==> {
                &&& #[trigger] reads[i] matches Ok(u) ==> read_views(reads)[i] == Ok::<
                    Seq<char>,
                    Seq<char>,
                >(u@)
                &&& reads[i] matches Err(m) ==> read_views(reads)[i] == Err::<Seq<char>, Seq<char>>(
                    m@,
                )
            },
        c@ is Default <==> c is Default,
        c@ is Staging <==> c is Staging,
        c@ is Disabled <==> c is Disabled,
        c matches RelayChoice::Custom(urls) ==> c@ == RelayView::Custom(texts(urls@)),
{
}

/// Readings are gathered one by one: each of them is there, in order, or the first that
/// failed is told.
pub proof fn readings_are_gathered(reads: Seq<RelayRead>)
    ensures
        match gathered(reads) {
            Ok(urls) => {
                &&& urls.len() == reads.len()
                &&& forall|k: int|
                    0 <= k < reads.len() ==> #[trigger] reads[k] == Ok::<Seq<char>, Seq<char>>(
                        urls[k],
                    )
            },
            Err(m) => exists|k: int|
                0 <= k < reads.len() && #[trigger] reads[k] == Err::<Seq<char>, Seq<char>>(m)
                    && forall|j: int| 0 <= j < k ==> (#[trigger] reads[j]) is Ok,
        },
    decreases reads.len(),
{
    if reads.len() > 0 {
        let init = reads.drop_last();
        let n = reads.len() - 1;
        readings_are_gathered(init);
        assert(reads[n] == reads.last());
        match gathered(init) {
            Err(m) => {
                let k = choose|k: int|
                    0 <= k < init.len() && #[trigger] init[k] == Err::<Seq<char>, Seq<char>>(m)
                        && forall|j: int| 0 <= j < k ==> (#[trigger] init[j]) is Ok;
                assert(reads[k] == init[k]);
                assert forall|j: int| 0 <= j < k implies (#[trigger] reads[j]) is Ok by {
                    assert(reads[j] == init[j]);
                }
            },
            Ok(before) => {
                assert forall|j: int| 0 <= j < n implies #[trigger] reads[j] == Ok::<
                    Seq<char>,
                    Seq<char>,
                >(before[j]) by {
                    assert(reads[j] == init[j]);
                }
                if let Ok(urls) = gathered(reads) {
                    assert forall|k: int| 0 <= k < reads.len() implies #[trigger] reads[k] == Ok::<
                        Seq<char>,
                        Seq<char>,
                    >(urls[k]) by {
                        if k < n {
                            assert(urls[k] == before[k]);
                        }
                    }
                }
            },
        }
    }
}

/// Where custom relays are chosen, every configured URL is there, in order: each element
/// is the normal form that the URL at its place was parsed to. They are refused for the
/// first URL that cannot be parsed, in the words of the parser.
pub proof fn every_configured_relay_is_used(relays: Seq<Seq<char>>)
    ensures
        match chosen_relays(false, Some("custom"@), relays) {
            Ok(RelayView::Custom(urls)) => {
                &&& relays.len() > 0
                &&& urls.len() == relays.len()
                &&& forall|k: int|
                    0 <= k < relays.len() ==> relay_url_parsed(#[trigger] relays[k]) == Ok::<
                        Seq<char>,
                        Seq<char>,
                    >(urls[k])
            },
            Ok(_) => false,
            Err(e) => e.0 == ErrorCode::InvalidInput && (relays.len() == 0 || exists|k: int|
                0 <= k < relays.len() && relay_url_parsed(#[trigger] relays[k]) == Err::<
                    Seq<char>,
                    Seq<char>,
                >(e.1) && forall|j: int|
                    0 <= j < k ==> relay_url_parsed(#[trigger] relays[j]) is Ok),
        },
{
    reveal_strlit("default");
    reveal_strlit("staging");
    reveal_strlit("disabled");
    reveal_strlit("custom");
    assert("custom"@[0] == 'c' && "default"@[0] == 'd' && "staging"@[0] == 's' && "disabled"@[0]
        == 'd');
    let reads = relays.map_values(|u: Seq<char>| relay_url_parsed(u));
    readings_are_gathered(reads);
    match gathered(reads) {
        Ok(urls) => {
            assert forall|k: int| 0 <= k < relays.len() implies relay_url_parsed(
                #[trigger] relays[k],
            ) == Ok::<Seq<char>, Seq<char>>(urls[k]) by {
                assert(reads[k] == relay_url_parsed(relays[k]));
            }
        },
        Err(m) => {
            let k = choose|k: int|
                0 <= k < reads.len() && #[trigger] reads[k] == Err::<Seq<char>, Seq<char>>(m)
                    && forall|j: int| 0 <= j < k ==> (#[trigger] reads[j]) is Ok;
            assert(relay_url_parsed(relays[k]) == reads[k]);
            assert forall|j: int| 0 <= j < k implies relay_url_parsed(#[trigger] relays[j]) is Ok by {
                assert(reads[j] == relay_url_parsed(relays[j]));
            }
        },
    }
}

/// The other modes, whatever relays are configured; a mode that is not known is refused.
pub proof fn modes_choose_relays(mode: Seq<char>, relays: Seq<Seq<char>>)
    ensures
        chosen_relays(false, None, relays) == Ok::<RelayView, ErrorView>(RelayView::Default),
        chosen_relays(false, Some("default"@), relays) == Ok::<RelayView, ErrorView>(
            RelayView::Default,
        ),
        chosen_relays(false, Some("staging"@), relays) == Ok::<RelayView, ErrorView>(
            RelayView::Staging,
        ),
        chosen_relays(false, Some("disabled"@), relays) == Ok::<RelayView, ErrorView>(
            RelayView::Disabled,
        ),
        chosen_relays(true, Some(mode), relays) == Ok::<RelayView, ErrorView>(RelayView::Disabled),
        chosen_relays(true, None, relays) == Ok::<RelayView, ErrorView>(RelayView::Disabled),
        mode != "default"@ && mode != "staging"@ && mode != "disabled"@ && mode != "custom"@
            ==> chosen_relays(false, Some(mode), relays) == Err::<RelayView, ErrorView>(
            (ErrorCode::InvalidInput, "unknown relay_mode: "@ + mode),
        ),
{
    reveal_strlit("default");
    reveal_strlit("staging");
    reveal_strlit("disabled");
    assert("default"@[0] == 'd' && "staging"@[0] == 's' && "disabled"@[0] == 'd');
    assert("default"@[1] == 'e' && "disabled"@[1] == 'i');
}

/// Capabilities are taken exactly where each is one of the two protocols; else the first
/// other one is told.
pub proof fn capabilities_are_protocols(caps: Seq<Seq<char>>)
    ensures
        match unknown_capability(caps) {
            None => forall|i: int|
                0 <= i < caps.len() ==> #[trigger] caps[i] == "iroh-http/2"@ || caps[i]
                    == "iroh-http/2-duplex"@,
            Some(c) => exists|k: int|
                0 <= k < caps.len() && #[trigger] caps[k] == c && c != "iroh-http/2"@ && c
                    != "iroh-http/2-duplex"@ && forall|j: int|
                    0 <= j < k ==> #[trigger] caps[j] == "iroh-http/2"@ || caps[j]
                        == "iroh-http/2-duplex"@,
        },
    decreases caps.len(),
{
    if caps.len() > 0 {
        let init = caps.drop_last();
        let n = caps.len() - 1;
        capabilities_are_protocols(init);
        assert(caps[n] == caps.last());
        assert forall|i: int| 0 <= i < n implies #[trigger] caps[i] == init[i] by {}
        if let Some(c) = unknown_capability(init) {
            let k = choose|k: int|
                0 <= k < init.len() && #[trigger] init[k] == c && c != "iroh-http/2"@ && c
                    != "iroh-http/2-duplex"@ && forall|j: int|
                    0 <= j < k ==> #[trigger] init[j] == "iroh-http/2"@ || init[j]
                        == "iroh-http/2-duplex"@;
            assert(caps[k] == c);
        }
    }
}

/// What is offered: both protocols where nothing is configured, else every configured one
/// in order, and the base protocol behind them where it is not among them.
pub proof fn configured_protocols_are_offered(caps: Seq<Seq<char>>)
    ensures
        caps.len() == 0 ==> offered(caps) == seq!["iroh-http/2-duplex"@, "iroh-http/2"@],
        caps.len() > 0 ==> offered(caps).len() >= caps.len() && offered(caps).take(
            caps.len() as int,
        ) == caps && offered(caps).len() == (if caps.contains("iroh-http/2"@) {
            caps.len()
        } else {
            caps.len() + 1
        }) && (!caps.contains("iroh-http/2"@) ==> offered(caps).last() == "iroh-http/2"@),
{
    assert(offered(caps).take(caps.len() as int) =~= caps || caps.len() == 0);
}

/// A level of compression is refused exactly where it is not one of 1 to 22.
pub proof fn levels_are_checked(opts: NodeOptions)
    ensures
        bad_level(opts) matches Some(l) ==> (l == 0 || l > 22) && opts.compression is Some
            && opts.compression->Some_0.level == Some(l),
        bad_level(opts) is None <==> {
            ||| opts.compression is None
            ||| opts.compression->Some_0.level is None
            ||| 1 <= opts.compression->Some_0.level->Some_0 <= 22
        },
{
}

/// The transport is planned exactly where relays are chosen, capabilities are protocols
/// and the level is good, and then has the relays that were chosen and the protocols that
/// are offered.
pub proof fn transports_follow_the_options(opts: NodeOptions)
    ensures
        ({
            let mode = match opts.networking.relay_mode {
                Some(m) => Some(m@),
                None => None,
            };
            let relays = chosen_relays(
                opts.networking.disabled,
                mode,
                texts(opts.networking.relays@),
            );
            let caps = texts(opts.capabilities@);
            &&& transport_plan(opts) is Ok <==> relays is Ok && unknown_capability(caps) is None
                && bad_level(opts) is None
            &&& transport_plan(opts) matches Ok(p) ==> relays == Ok::<RelayView, ErrorView>(p.0)
                && p.1 == offered(caps)
            &&& transport_plan(opts) matches Err(e) ==> e.0 == ErrorCode::InvalidInput || relays
                == Err::<RelayView, ErrorView>(e)
        }),
{
}

/// Where peers are looked up: nowhere where that or the network is switched off, else at
/// the server that is configured, else at the defaults.
pub proof fn discovery_follows_the_options(opts: NodeOptions)
    ensures
        opts.networking.disabled || !opts.discovery.enabled ==> discovery_of(opts) == Ok::<
            DiscoveryView,
            ErrorView,
        >(DiscoveryView::Off),
        !opts.networking.disabled && opts.discovery.enabled && opts.discovery.dns_server is None
            ==> discovery_of(opts) == Ok::<DiscoveryView, ErrorView>(DiscoveryView::Defaults),
        !opts.networking.disabled && opts.discovery.enabled && opts.discovery.dns_server is Some
            ==> (match url_parsed(opts.discovery.dns_server->Some_0@) {
            Ok((url, Some(host))) => discovery_of(opts) == Ok::<DiscoveryView, ErrorView>(
                DiscoveryView::Server(url, host),
            ),
            Ok((url, None)) => discovery_of(opts) == Ok::<DiscoveryView, ErrorView>(
                DiscoveryView::Server(url, Seq::empty()),
            ),
            Err(m) => discovery_of(opts) == Err::<DiscoveryView, ErrorView>(
                (ErrorCode::InvalidInput, "invalid dns_discovery URL: "@ + m),
            ),
        }),
{
}

/// Which proxy is used: the one that is configured, else that of the environment where it
/// is asked for, else none.
pub proof fn proxies_follow_the_options(opts: NodeOptions)
    ensures
        opts.networking.proxy_url is None ==> proxy_of(opts) == Ok::<ProxyView, ErrorView>(
            if opts.networking.proxy_from_env {
                ProxyView::FromEnv
            } else {
                ProxyView::Off
            },
        ),
        opts.networking.proxy_url is Some ==> (match url_parsed(
            opts.networking.proxy_url->Some_0@,
        ) {
            Ok(u) => proxy_of(opts) == Ok::<ProxyView, ErrorView>(ProxyView::Url(u.0)),
            Err(m) => proxy_of(opts) == Err::<ProxyView, ErrorView>(
                (ErrorCode::InvalidInput, "invalid proxy URL: "@ + m),
            ),
        }),
{
}

/// Plans are seen as they are.
pub proof fn plans_are_seen_whole(d: DiscoveryPlan, p: ProxyPlan)
    ensures
        d is Off ==> d@ == DiscoveryView::Off,
        d is Defaults ==> d@ == DiscoveryView::Defaults,
        d matches DiscoveryPlan::Server { url, host } ==> d@ == DiscoveryView::Server(url@, host@),
        p is Off ==> p@ == ProxyView::Off,
        p is FromEnv ==> p@ == ProxyView::FromEnv,
        p matches ProxyPlan::Url(u) ==> p@ == ProxyView::Url(u@),
{
}

/// An idle timeout is refused exactly where the transport cannot carry it: from 2^62 ms.
pub proof fn idle_timeouts_are_checked(ms: Option<u64>)
    ensures
        idle_fault(ms) is Some <==> ms is Some && ms->Some_0 >= 4_611_686_018_427_387_904,
        idle_fault(ms) matches Some(e) ==> e.0 == ErrorCode::InvalidInput,
{
}

/// Addresses to bind to are taken exactly where each one was; else the first that was not
/// is told, with its text and the reason.
pub proof fn bind_addresses_are_checked(list: Seq<BindText>)
    ensures
        match bind_fault(list) {
            None => forall|i: int| 0 <= i < list.len() ==> (#[trigger] list[i]).outcome is Taken,
            Some(e) => exists|k: int|
                0 <= k < list.len() && (forall|j: int|
                    0 <= j < k ==> (#[trigger] list[j]).outcome is Taken) && e.0
                    == ErrorCode::InvalidInput && (match (#[trigger] list[k]).outcome {
                    BindOutcome::Taken => false,
                    BindOutcome::Unreadable(m) => e.1 == "invalid bind address \""@ + list[k].text@
                        + "\": "@ + m@,
                    BindOutcome::Refused(m) => e.1 == "bind address \""@ + list[k].text@ + "\": "@
                        + m@,
                }),
        },
    decreases list.len(),
{
    if list.len() > 0 && bind_text_fault(list[0]) is None {
        let rest = list.drop_first();
        bind_addresses_are_checked(rest);
        assert forall|j: int| 0 < j < list.len() implies #[trigger] list[j] == rest[j - 1] by {}
        match bind_fault(rest) {
            None => {
                assert forall|i: int| 0 <= i < list.len() implies (
                #[trigger] list[i]).outcome is Taken by {
                    if i > 0 {
                        assert(rest[i - 1].outcome is Taken);
                    }
                }
            },
            Some(e) => {
                let k = choose|k: int|
                    0 <= k < rest.len() && (forall|j: int|
                        0 <= j < k ==> (#[trigger] rest[j]).outcome is Taken) && e.0
                        == ErrorCode::InvalidInput && (match (#[trigger] rest[k]).outcome {
                        BindOutcome::Taken => false,
                        BindOutcome::Unreadable(m) => e.1 == "invalid bind address \""@
                            + rest[k].text@ + "\": "@ + m@,
                        BindOutcome::Refused(m) => e.1 == "bind address \""@ + rest[k].text@
                            + "\": "@ + m@,
                    });
                assert(list[k + 1] == rest[k]);
                assert forall|j: int| 0 <= j < k + 1 implies (
                #[trigger] list[j]).outcome is Taken by {
                    if j > 0 {
                        assert(rest[j - 1].outcome is Taken);
                    }
                }
            },
        }
    } else if list.len() > 0 {
        assert(list[0] == list[0]);
    }
}

/// An endpoint is planned exactly where nothing is wrong with any of its options.
pub proof fn options_are_all_checked(
    opts: NodeOptions,
    nameservers: Seq<(Seq<char>, HostView)>,
    binds: Seq<BindText>,
)
    ensures
        options_fault(opts, nameservers, binds) is None <==> {
            &&& transport_plan(opts) is Ok
            &&& nameservers.len() == 0 || usable(nameservers).len() > 0
            &&& discovery_of(opts) is Ok
            &&& idle_fault(opts.networking.idle_timeout_ms) is None
            &&& bind_fault(binds) is None
            &&& proxy_of(opts) is Ok
        },
{
}

/// A configured number is used, and at least one; the default is where none is.
pub proof fn numbers_are_at_least_one(n: usize, default: usize)
    ensures
        n > 0 ==> at_least_one(Some(n), default) == n,
        at_least_one(Some(0usize), default) == 1,
        default > 0 ==> at_least_one(None, default) == default,
{
}

/// The defaults under which an endpoint works.
pub proof fn defaults_of_endpoints()
    ensures
        DEFAULT_MAX_RESPONSE_BODY_BYTES == 268_435_456,
        DEFAULT_CHANNEL_CAPACITY == 32,
        DEFAULT_MAX_CHUNK_SIZE == 65_536,
        DEFAULT_DRAIN_TIMEOUT_MS == 30_000,
        DEFAULT_MAX_HANDLES == 65_536,
        DEFAULT_SLAB_TTL_MS == 300_000,
        DEFAULT_SWEEP_INTERVAL_MS == 60_000,
{
}

/// What is said of options that are refused.
pub proof fn refused_options_are_explained(cap: Seq<char>, opts: NodeOptions)
    ensures
        unknown_capability_message(cap) == "unknown ALPN capability: \""@ + cap
            + "\"; valid values are [\"iroh-http/2\", \"iroh-http/2-duplex\"]"@,
        idle_fault(Some(u64::MAX)) == Some(
            (
                ErrorCode::InvalidInput,
                "idle_timeout_ms out of range: "@ + "value too large for varint encoding"@,
            ),
        ),
        transport_plan(opts) matches Err(e) ==> {
            ||| chosen_relays(
                opts.networking.disabled,
                opt_text(opts.networking.relay_mode),
                texts(opts.networking.relays@),
            ) == Err::<RelayView, ErrorView>(e)
            ||| unknown_capability(texts(opts.capabilities@)) matches Some(c) && e == (
                ErrorCode::InvalidInput,
                unknown_capability_message(c),
            )
            ||| bad_level(opts) matches Some(l) && e == (
                ErrorCode::InvalidInput,
                "compression level must be 1–22, got "@ + decimal(l as nat),
            )
        },
{
}

/// The names of the protocols.
pub proof fn names_of_protocols()
    ensures
        ALPN_STR@ == "iroh-http/2"@,
        ALPN_DUPLEX_STR@ == "iroh-http/2-duplex"@,
        known_alpn("iroh-http/2"@),
        known_alpn("iroh-http/2-duplex"@),
{
}

} // verus!
