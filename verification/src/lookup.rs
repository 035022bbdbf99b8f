//! Addresses that browse sessions have found.
//!
//! Each browse session is a source. Under each source stand the service instances
//! that it sees, each with the node it names and the addresses it gives. A node is
//! resolved to the addresses that all live instances give for it together. When a
//! source is retired, everything it contributed is gone, and nothing can be added
//! under it again.
use vstd::prelude::*;

use crate::addr::{AddrText, SocketAddr};
use crate::encoding::{base32_encode, base32_text, NodeId};
use crate::lifecycle::same_key;
use crate::rules::{debug_text, quoted};
use crate::text::{chars_of, same, trim, trimmed};
use crate::urls::{parse_relay_url, relay_url_parsed};

verus! {

// ── Addresses ────────────────────────────────────────────────────────────────

/// An address of a node.
#[derive(Debug)]
pub enum LookupAddr {
    Ip(SocketAddr),
    /// The URL of a relay, in its normal form.
    Relay(String),
}

/// What an address is.
pub enum LookupView {
    Ip(SocketAddr),
    Relay(Seq<char>),
}

impl View for LookupAddr {
    type V = LookupView;

    open spec fn view(&self) -> LookupView {
        match self {
            LookupAddr::Ip(a) => LookupView::Ip(*a),
            LookupAddr::Relay(u) => LookupView::Relay(u@),
        }
    }
}

/// The views of a list of addresses.
pub open spec fn lookup_views(v: Seq<LookupAddr>) -> Seq<LookupView> {
    v.map_values(|a: LookupAddr| a@)
}

/// A list with an address at its end, unless it holds the address already.
pub open spec fn with_addr(acc: Seq<LookupView>, a: LookupView) -> Seq<LookupView> {
    if acc.contains(a) {
        acc
    } else {
        acc.push(a)
    }
}

/// A list with further addresses, each only where it was not there before.
pub open spec fn with_addrs(acc: Seq<LookupView>, more: Seq<LookupView>) -> Seq<LookupView>
    decreases more.len(),
{
    if more.len() == 0 {
        acc
    } else {
        with_addr(with_addrs(acc, more.drop_last()), more.last())
    }
}

fn same_addr(a: &LookupAddr, b: &LookupAddr) -> (r: bool)
    ensures
        r == (a@ == b@),
{
    match a {
        LookupAddr::Ip(x) => match b {
            LookupAddr::Ip(y) => *x == *y,
            LookupAddr::Relay(_) => false,
        },
        LookupAddr::Relay(x) => match b {
            LookupAddr::Ip(_) => false,
            LookupAddr::Relay(y) => same(x, y),
        },
    }
}

fn copy_addr(a: &LookupAddr) -> (r: LookupAddr)
    ensures
        r@ == a@,
{
    match a {
        LookupAddr::Ip(x) => LookupAddr::Ip(*x),
        LookupAddr::Relay(u) => LookupAddr::Relay(u.clone()),
    }
}

/// Adds an address, unless it is there already.
fn add_addr(acc: &mut Vec<LookupAddr>, a: LookupAddr)
    ensures
        lookup_views(final(acc)@) == with_addr(lookup_views(old(acc)@), a@),
{
    let ghost before = lookup_views(acc@);
    let mut i: usize = 0;
    while i < acc.len()
        invariant
            i <= acc@.len(),
            acc@ == old(acc)@,
            before == lookup_views(acc@),
            forall|j: int| 0 <= j < i ==> #[trigger] before[j] != a@,
        decreases acc@.len() - i,
    {
        if same_addr(&acc[i], &a) {
            proof {
                assert(before[i as int] == a@);
            }
            return;
        }
        proof {
            assert(before[i as int] == acc@[i as int]@);
        }
        i = i + 1;
    }
    let ghost view = a@;
    acc.push(a);
    proof {
        assert(lookup_views(acc@) =~= before.push(view));
        assert(!before.contains(view));
    }
}

/// Adds addresses, each unless it is there already.
fn add_addrs(acc: &mut Vec<LookupAddr>, more: &Vec<LookupAddr>)
    ensures
        lookup_views(final(acc)@) == with_addrs(lookup_views(old(acc)@), lookup_views(more@)),
{
    let ghost all = lookup_views(more@);
    let mut i: usize = 0;
    while i < more.len()
        invariant
            i <= more@.len(),
            all == lookup_views(more@),
            lookup_views(acc@) == with_addrs(lookup_views(old(acc)@), all.take(i as int)),
        decreases more@.len() - i,
    {
        proof {
            assert(all.take(i + 1).drop_last() =~= all.take(i as int));
            assert(all.take(i + 1).last() == more@[i as int]@);
        }
        add_addr(acc, copy_addr(&more[i]));
        i = i + 1;
    }
    proof {
        assert(all.take(i as int) =~= all);
    }
}

/// The address that a text gives, given what it was read as: one without a real port
/// gives none, and what is neither a socket address nor a relay URL gives none.
pub open spec fn given_addr(
    read: Result<SocketAddr, Seq<char>>,
    relay: Result<Seq<char>, Seq<char>>,
) -> Option<LookupView> {
    match read {
        Ok(a) => if a.port <= 1 {
            None
        } else {
            Some(LookupView::Ip(a))
        },
        Err(_) => match relay {
            Ok(u) => Some(LookupView::Relay(u)),
            Err(_) => None,
        },
    }
}

/// The addresses that texts give, each once.
pub open spec fn given_addrs(v: Seq<(Seq<char>, Result<SocketAddr, Seq<char>>)>) -> Seq<LookupView>
    decreases v.len(),
{
    if v.len() == 0 {
        Seq::empty()
    } else {
        let init = given_addrs(v.drop_last());
        match given_addr(v.last().1, relay_url_parsed(trimmed(v.last().0))) {
            Some(a) => with_addr(init, a),
            None => init,
        }
    }
}

/// Adds the address that a text gives, if it gives one, given what it was read as.
pub fn admit_addr(
    acc: &mut Vec<LookupAddr>,
    read: &Result<SocketAddr, String>,
    relay: Result<String, String>,
)
    ensures
        ({
            let r = match *read {
                Ok(a) => Ok::<SocketAddr, Seq<char>>(a),
                Err(m) => Err(m@),
            };
            let u = match relay {
                Ok(u) => Ok::<Seq<char>, Seq<char>>(u@),
                Err(m) => Err(m@),
            };
            lookup_views(final(acc)@) == match given_addr(r, u) {
                Some(a) => with_addr(lookup_views(old(acc)@), a),
                None => lookup_views(old(acc)@),
            }
        }),
{
    match read {
        Ok(a) => {
            if a.port > 1 {
                add_addr(acc, LookupAddr::Ip(*a));
            }
        },
        Err(_) => match relay {
            Ok(u) => {
                add_addr(acc, LookupAddr::Relay(u));
            },
            Err(_) => {},
        },
    }
}

/// The addresses that texts give, each once. Each text was read without the blanks
/// around it.
pub fn endpoint_data(addrs: &[AddrText]) -> (r: Vec<LookupAddr>)
    ensures
        lookup_views(r@) == given_addrs(crate::addr::addr_views(addrs@)),
{
    let ghost all = crate::addr::addr_views(addrs@);
    let mut data: Vec<LookupAddr> = Vec::new();
    let mut i: usize = 0;
    proof {
        assert(lookup_views(data@) =~= Seq::empty());
    }
    while i < addrs.len()
        invariant
            i <= addrs@.len(),
            all == crate::addr::addr_views(addrs@),
            lookup_views(data@) == given_addrs(all.take(i as int)),
        decreases addrs@.len() - i,
    {
        proof {
            assert(all.take(i + 1).drop_last() =~= all.take(i as int));
            assert(all.take(i + 1).last() == addrs@[i as int]@);
        }
        let text: String = trim(&addrs[i].text);
        let relay = parse_relay_url(&text);
        admit_addr(&mut data, &addrs[i].read, relay);
        i = i + 1;
    }
    proof {
        assert(all.take(i as int) =~= all);
    }
    data
}

// ── Order ────────────────────────────────────────────────────────────────────

/// Whether a text stands before another one, character by character.
pub open spec fn text_before(a: Seq<char>, b: Seq<char>) -> bool
    decreases a.len(),
{
    if b.len() == 0 {
        false
    } else if a.len() == 0 {
        true
    } else if a[0] != b[0] {
        a[0] < b[0]
    } else {
        text_before(a.drop_first(), b.drop_first())
    }
}

proof fn text_before_irreflexive(a: Seq<char>)
    ensures
        !text_before(a, a),
    decreases a.len(),
{
    if a.len() > 0 {
        text_before_irreflexive(a.drop_first());
    }
}

proof fn text_before_total(a: Seq<char>, b: Seq<char>)
    ensures
        a == b || text_before(a, b) || text_before(b, a),
    decreases a.len(),
{
    if a.len() == 0 {
        if b.len() == 0 {
            assert(a =~= b);
        }
    } else if b.len() > 0 && a[0] == b[0] {
        text_before_total(a.drop_first(), b.drop_first());
        if a.drop_first() == b.drop_first() {
            assert(a =~= seq![a[0]] + a.drop_first());
            assert(b =~= seq![b[0]] + b.drop_first());
        }
    }
}

proof fn text_before_transitive(a: Seq<char>, b: Seq<char>, c: Seq<char>)
    requires
        text_before(a, b),
        text_before(b, c),
    ensures
        text_before(a, c),
    decreases a.len(),
{
    if a.len() > 0 && a[0] == b[0] && b[0] == c[0] {
        text_before_transitive(a.drop_first(), b.drop_first(), c.drop_first());
    }
}

fn is_text_before(a: &str, b: &str) -> (r: bool)
    ensures
        r == text_before(a@, b@),
{
    let x: Vec<char> = chars_of(a);
    let y: Vec<char> = chars_of(b);
    let mut i: usize = 0;
    proof {
        assert(a@.skip(0) =~= a@);
        assert(b@.skip(0) =~= b@);
    }
    loop
        invariant
            x@ == a@,
            y@ == b@,
            i <= x@.len(),
            i <= y@.len(),
            text_before(a@, b@) == text_before(a@.skip(i as int), b@.skip(i as int)),
        decreases x@.len() - i,
    {
        if i == y.len() {
            return false;
        }
        if i == x.len() {
            return true;
        }
        if x[i] != y[i] {
            return x[i] < y[i];
        }
        proof {
            assert(a@.skip(i as int).drop_first() =~= a@.skip(i + 1));
            assert(b@.skip(i as int).drop_first() =~= b@.skip(i + 1));
        }
        i = i + 1;
    }
}

/// A source and a service instance.
pub type InstanceKey = (u64, Seq<char>);

/// Whether an instance stands before another one: by source, then by name.
pub open spec fn key_before(a: InstanceKey, b: InstanceKey) -> bool {
    a.0 < b.0 || (a.0 == b.0 && text_before(a.1, b.1))
}

proof fn key_before_irreflexive(a: InstanceKey)
    ensures
        !key_before(a, a),
{
    text_before_irreflexive(a.1);
}

proof fn key_before_total(a: InstanceKey, b: InstanceKey)
    ensures
        a == b || key_before(a, b) || key_before(b, a),
{
    text_before_total(a.1, b.1);
}

proof fn key_before_transitive(a: InstanceKey, b: InstanceKey, c: InstanceKey)
    requires
        key_before(a, b),
        key_before(b, c),
    ensures
        key_before(a, c),
{
    if a.0 == b.0 && b.0 == c.0 {
        text_before_transitive(a.1, b.1, c.1);
    }
}

// ── Contributions ────────────────────────────────────────────────────────────

/// What a service instance contributes.
#[derive(Debug)]
pub struct Contribution {
    pub source: u64,
    pub instance: String,
    pub node: NodeId,
    pub addrs: Vec<LookupAddr>,
}

/// What a service instance contributes.
pub struct ContributionView {
    pub source: u64,
    pub instance: Seq<char>,
    pub node: Seq<u8>,
    pub addrs: Seq<LookupView>,
}

impl View for Contribution {
    type V = ContributionView;

    open spec fn view(&self) -> ContributionView {
        ContributionView {
            source: self.source,
            instance: self.instance@,
            node: self.node.bytes@,
            addrs: lookup_views(self.addrs@),
        }
    }
}

/// The views of a list of contributions.
pub open spec fn contribution_views(v: Seq<Contribution>) -> Seq<ContributionView> {
    v.map_values(|c: Contribution| c@)
}

/// Whose contribution it is.
pub open spec fn key_of(c: ContributionView) -> InstanceKey {
    (c.source, c.instance)
}

/// Contributions in order, one for each instance.
pub open spec fn in_order(cs: Seq<ContributionView>) -> bool {
    forall|i: int, j: int|
        0 <= i < j < cs.len() ==> key_before(key_of(#[trigger] cs[i]), key_of(#[trigger] cs[j]))
}

/// Where an instance stands, or would stand.
pub open spec fn place(cs: Seq<ContributionView>, key: InstanceKey) -> int
    decreases cs.len(),
{
    if cs.len() == 0 {
        0
    } else if key_before(key_of(cs[0]), key) {
        1 + place(cs.drop_first(), key)
    } else {
        0
    }
}

/// What an instance contributes, if it does.
pub open spec fn contributed(cs: Seq<ContributionView>, key: InstanceKey) -> Option<
    ContributionView,
> {
    if place(cs, key) < cs.len() && key_of(cs[place(cs, key)]) == key {
        Some(cs[place(cs, key)])
    } else {
        None
    }
}

/// The contributions with one more, or with one replaced.
pub open spec fn with_contribution(
    cs: Seq<ContributionView>,
    c: ContributionView,
) -> Seq<ContributionView> {
    let p = place(cs, key_of(c));
    if contributed(cs, key_of(c)) is Some {
        cs.update(p, c)
    } else {
        cs.insert(p, c)
    }
}

/// The contributions without one.
pub open spec fn without_contribution(cs: Seq<ContributionView>, key: InstanceKey) -> Seq<
    ContributionView,
> {
    if contributed(cs, key) is Some {
        cs.remove(place(cs, key))
    } else {
        cs
    }
}

/// The contributions without those of a source.
pub open spec fn without_source(cs: Seq<ContributionView>, source: u64) -> Seq<ContributionView>
    decreases cs.len(),
{
    if cs.len() == 0 {
        Seq::empty()
    } else {
        let init = without_source(cs.drop_last(), source);
        if cs.last().source == source {
            init
        } else {
            init.push(cs.last())
        }
    }
}

/// Whether a contribution is for a node, and of a source where one is given.
pub open spec fn concerns(c: ContributionView, source: Option<u64>, node: Seq<u8>) -> bool {
    c.node == node && (source is Some ==> source == Some(c.source))
}

/// The addresses that contributions give for a node together, each once.
pub open spec fn gathered(cs: Seq<ContributionView>, source: Option<u64>, node: Seq<u8>) -> Seq<
    LookupView,
>
    decreases cs.len(),
{
    if cs.len() == 0 {
        Seq::empty()
    } else {
        let init = gathered(cs.drop_last(), source, node);
        if concerns(cs.last(), source, node) {
            with_addrs(init, cs.last().addrs)
        } else {
            init
        }
    }
}

proof fn place_points(cs: Seq<ContributionView>, key: InstanceKey)
    ensures
        0 <= place(cs, key) <= cs.len(),
        forall|i: int| 0 <= i < place(cs, key) ==> key_before(key_of(#[trigger] cs[i]), key),
        place(cs, key) < cs.len() ==> !key_before(key_of(cs[place(cs, key)]), key),
    decreases cs.len(),
{
    if cs.len() > 0 && key_before(key_of(cs[0]), key) {
        let rest = cs.drop_first();
        place_points(rest, key);
        assert forall|i: int| 0 <= i < place(cs, key) implies key_before(
            key_of(#[trigger] cs[i]),
            key,
        ) by {
            if i > 0 {
                assert(rest[i - 1] == cs[i]);
            }
        }
        if place(cs, key) < cs.len() {
            assert(rest[place(rest, key)] == cs[place(cs, key)]);
        }
    }
}

proof fn place_is(cs: Seq<ContributionView>, key: InstanceKey, k: int)
    requires
        0 <= k <= cs.len(),
        forall|i: int| 0 <= i < k ==> key_before(key_of(#[trigger] cs[i]), key),
        k < cs.len() ==> !key_before(key_of(cs[k]), key),
    ensures
        place(cs, key) == k,
{
    place_points(cs, key);
    let p = place(cs, key);
    if p < k {
        assert(key_before(key_of(cs[p]), key));
    } else if k < p {
        assert(key_before(key_of(cs[k]), key));
    }
}

/// In order, what stands from the place on stands at or behind the key.
proof fn behind_place(cs: Seq<ContributionView>, key: InstanceKey, j: int)
    requires
        in_order(cs),
        place(cs, key) <= j < cs.len(),
    ensures
        j > place(cs, key) || contributed(cs, key) is None ==> key_before(key, key_of(cs[j])),
{
    place_points(cs, key);
    let p = place(cs, key);
    key_before_total(key_of(cs[p]), key);
    if j > p {
        assert(key_before(key_of(cs[p]), key_of(cs[j])));
        if key_of(cs[p]) != key {
            key_before_transitive(key, key_of(cs[p]), key_of(cs[j]));
        }
    }
}

proof fn order_with_contribution(cs: Seq<ContributionView>, c: ContributionView)
    requires
        in_order(cs),
    ensures
        in_order(with_contribution(cs, c)),
{
    let key = key_of(c);
    let p = place(cs, key);
    place_points(cs, key);
    let after = with_contribution(cs, c);
    assert forall|i: int, j: int| 0 <= i < j < after.len() implies key_before(
        key_of(#[trigger] after[i]),
        key_of(#[trigger] after[j]),
    ) by {
        if contributed(cs, key) is Some {
            if i != p {
                assert(after[i] == cs[i]);
            }
            if j != p {
                assert(after[j] == cs[j]);
            }
            if i == p {
                behind_place(cs, key, j);
            } else if j == p {
                assert(key_before(key_of(cs[i]), key_of(cs[p])));
            } else {
                assert(key_before(key_of(cs[i]), key_of(cs[j])));
            }
        } else {
            let i0 = if i < p { i } else { i - 1 };
            let j0 = if j < p { j } else { j - 1 };
            if i == p {
                assert(after[j] == cs[j0]);
                behind_place(cs, key, j0);
            } else if j == p {
                assert(after[i] == cs[i]);
            } else {
                assert(after[i] == cs[i0] && after[j] == cs[j0]);
                assert(key_before(key_of(cs[i0]), key_of(cs[j0])));
            }
        }
    }
}

proof fn order_without_contribution(cs: Seq<ContributionView>, key: InstanceKey)
    requires
        in_order(cs),
    ensures
        in_order(without_contribution(cs, key)),
{
    place_points(cs, key);
    let p = place(cs, key);
    let after = without_contribution(cs, key);
    assert forall|i: int, j: int| 0 <= i < j < after.len() implies key_before(
        key_of(#[trigger] after[i]),
        key_of(#[trigger] after[j]),
    ) by {
        if contributed(cs, key) is Some {
            let i0 = if i < p { i } else { i + 1 };
            let j0 = if j < p { j } else { j + 1 };
            assert(after[i] == cs[i0] && after[j] == cs[j0]);
        }
    }
}

proof fn kept_stand_in(cs: Seq<ContributionView>, source: u64, i: int)
    requires
        0 <= i < without_source(cs, source).len(),
    ensures
        without_source(cs, source)[i].source != source,
        exists|k: int| 0 <= k < cs.len() && #[trigger] cs[k] == without_source(cs, source)[i],
    decreases cs.len(),
{
    let init = without_source(cs.drop_last(), source);
    if i < init.len() {
        kept_stand_in(cs.drop_last(), source, i);
        let k = choose|k: int|
            0 <= k < cs.drop_last().len() && #[trigger] cs.drop_last()[k] == init[i];
        assert(cs[k] == init[i]);
    } else {
        assert(cs[cs.len() - 1] == cs.last());
    }
}

proof fn order_without_source(cs: Seq<ContributionView>, source: u64)
    requires
        in_order(cs),
    ensures
        in_order(without_source(cs, source)),
    decreases cs.len(),
{
    if cs.len() > 0 {
        let init = cs.drop_last();
        assert(in_order(init)) by {
            assert forall|i: int, j: int| 0 <= i < j < init.len() implies key_before(
                key_of(#[trigger] init[i]),
                key_of(#[trigger] init[j]),
            ) by {
                assert(init[i] == cs[i] && init[j] == cs[j]);
            }
        }
        order_without_source(init, source);
        let kept = without_source(init, source);
        let after = without_source(cs, source);
        assert forall|i: int, j: int| 0 <= i < j < after.len() implies key_before(
            key_of(#[trigger] after[i]),
            key_of(#[trigger] after[j]),
        ) by {
            if j < kept.len() {
                assert(after[i] == kept[i] && after[j] == kept[j]);
            } else {
                assert(after[i] == kept[i]);
                kept_stand_in(init, source, i);
                let k = choose|k: int| 0 <= k < init.len() && #[trigger] init[k] == kept[i];
                assert(cs[k] == kept[i]);
                assert(key_before(key_of(cs[k]), key_of(cs[cs.len() - 1])));
            }
        }
    }
}

// What is gathered for a node changes only with contributions that concern it.

proof fn gathered_after_update(
    cs: Seq<ContributionView>,
    i: int,
    c: ContributionView,
    source: Option<u64>,
    node: Seq<u8>,
)
    requires
        0 <= i < cs.len(),
        !concerns(cs[i], source, node),
        !concerns(c, source, node),
    ensures
        gathered(cs.update(i, c), source, node) == gathered(cs, source, node),
    decreases cs.len(),
{
    let after = cs.update(i, c);
    if i < cs.len() - 1 {
        gathered_after_update(cs.drop_last(), i, c, source, node);
        assert(after.drop_last() =~= cs.drop_last().update(i, c));
    } else {
        assert(after.drop_last() =~= cs.drop_last());
    }
}

proof fn gathered_after_insert(
    cs: Seq<ContributionView>,
    i: int,
    c: ContributionView,
    source: Option<u64>,
    node: Seq<u8>,
)
    requires
        0 <= i <= cs.len(),
        !concerns(c, source, node),
    ensures
        gathered(cs.insert(i, c), source, node) == gathered(cs, source, node),
    decreases cs.len(),
{
    let after = cs.insert(i, c);
    if i < cs.len() {
        gathered_after_insert(cs.drop_last(), i, c, source, node);
        assert(after.drop_last() =~= cs.drop_last().insert(i, c));
        assert(after.last() == cs.last());
    } else {
        assert(after.drop_last() =~= cs);
    }
}

proof fn gathered_after_remove(
    cs: Seq<ContributionView>,
    i: int,
    source: Option<u64>,
    node: Seq<u8>,
)
    requires
        0 <= i < cs.len(),
        !concerns(cs[i], source, node),
    ensures
        gathered(cs.remove(i), source, node) == gathered(cs, source, node),
    decreases cs.len(),
{
    let after = cs.remove(i);
    if i < cs.len() - 1 {
        gathered_after_remove(cs.drop_last(), i, source, node);
        assert(after.drop_last() =~= cs.drop_last().remove(i));
        assert(after.last() == cs.last());
    } else {
        assert(after =~= cs.drop_last());
    }
}

/// Whether a source contributes for a node.
pub open spec fn source_concerns(cs: Seq<ContributionView>, source: u64, node: Seq<u8>) -> bool {
    exists|i: int| 0 <= i < cs.len() && concerns(#[trigger] cs[i], Some(source), node)
}

proof fn gathered_without_source(cs: Seq<ContributionView>, gone: u64, node: Seq<u8>)
    requires
        !source_concerns(cs, gone, node),
    ensures
        gathered(without_source(cs, gone), None, node) == gathered(cs, None, node),
    decreases cs.len(),
{
    if cs.len() > 0 {
        let init = cs.drop_last();
        assert(!source_concerns(init, gone, node)) by {
            if source_concerns(init, gone, node) {
                let i = choose|i: int|
                    0 <= i < init.len() && concerns(#[trigger] init[i], Some(gone), node);
                assert(concerns(cs[i], Some(gone), node));
            }
        }
        gathered_without_source(init, gone, node);
        let kept = without_source(init, gone);
        if cs.last().source == gone {
            assert(!concerns(cs[cs.len() - 1], Some(gone), node));
        } else {
            assert(kept.push(cs.last()).drop_last() =~= kept);
        }
    }
}

// ── Results ──────────────────────────────────────────────────────────────────

/// What became of a node when an instance of it was removed.
#[derive(Debug)]
pub struct AddressLookupRemoval {
    /// Canonical base32 node id of the removed instance.
    pub node_id: String,
    /// Whether another live instance of this source still names the node, whether or
    /// not it gives an address.
    pub has_remaining_contributions: bool,
    /// The addresses that the other live instances of this source give for it.
    pub remaining_addrs: Vec<LookupAddr>,
}

/// What an update changed.
#[derive(Debug)]
pub struct AddressLookupUpsert {
    /// Canonical base32 node id of the instance.
    pub node_id: String,
    /// The addresses that this source now gives for the node.
    pub effective_addrs: Vec<LookupAddr>,
    /// What became of the node that the instance named before, where that is another.
    pub replaced: Option<AddressLookupRemoval>,
}

/// Why an update was not made.
///
/// An update that cannot be read takes what the instance contributed before out, so
/// that no stale address stays.
#[derive(Debug)]
pub struct AddressLookupUpsertError {
    pub message: String,
    pub removal: Option<AddressLookupRemoval>,
}

impl AddressLookupUpsertError {
    /// What became of the node that the instance named before, if it named one.
    pub fn removal(&self) -> (r: Option<&AddressLookupRemoval>)
        ensures
            match self.removal {
                Some(x) => r == Some(&x),
                None => r is None,
            },
    {
        match &self.removal {
            Some(x) => Some(x),
            None => None,
        }
    }

    /// What became of the node that the instance named before, if it named one.
    pub fn into_removal(self) -> (r: Option<AddressLookupRemoval>)
        ensures
            r == self.removal,
    {
        self.removal
    }

    /// What the error says.
    pub fn to_string(&self) -> (r: String)
        ensures
            r@ == self.message@,
    {
        self.message.clone()
    }
}

/// What became of a node.
pub struct RemovalView {
    pub node_id: Seq<char>,
    pub has_remaining_contributions: bool,
    pub remaining_addrs: Seq<LookupView>,
}

impl View for AddressLookupRemoval {
    type V = RemovalView;

    open spec fn view(&self) -> RemovalView {
        RemovalView {
            node_id: self.node_id@,
            has_remaining_contributions: self.has_remaining_contributions,
            remaining_addrs: lookup_views(self.remaining_addrs@),
        }
    }
}

/// What became of a node for a source, by the contributions that are left.
pub open spec fn removal_of(cs: Seq<ContributionView>, source: u64, node: Seq<u8>) -> RemovalView {
    RemovalView {
        node_id: base32_text(node),
        has_remaining_contributions: source_concerns(cs, source, node),
        remaining_addrs: gathered(cs, Some(source), node),
    }
}

// ── The lookup ───────────────────────────────────────────────────────────────

/// A node that can be resolved, and its addresses.
#[derive(Debug)]
pub struct Effective {
    pub node: NodeId,
    pub addrs: Vec<LookupAddr>,
}

/// What a node is resolved to in a list of such.
pub open spec fn resolved_in(es: Seq<Effective>, node: Seq<u8>) -> Option<Seq<LookupView>>
    decreases es.len(),
{
    if es.len() == 0 {
        None
    } else if es.last().node.bytes@ == node {
        Some(lookup_views(es.last().addrs@))
    } else {
        resolved_in(es.drop_last(), node)
    }
}

/// No node stands in it twice.
pub open spec fn each_once(es: Seq<Effective>) -> bool {
    forall|i: int, j: int|
        0 <= i < j < es.len() ==> (#[trigger] es[i]).node.bytes@ != (#[trigger] es[j]).node.bytes@
}

/// What a node is resolved to by contributions: nothing where they give no address.
pub open spec fn resolved_by(cs: Seq<ContributionView>, node: Seq<u8>) -> Option<Seq<LookupView>> {
    if gathered(cs, None, node).len() > 0 {
        Some(gathered(cs, None, node))
    } else {
        None
    }
}

/// A browse session. Copies name the same session.
#[derive(Debug, Clone, Copy, PartialEq, Eq, Structural)]
pub struct AddressLookupSource {
    pub source_id: u64,
}

/// The addresses that browse sessions have found.
#[derive(Debug)]
pub struct SourceScopedAddressLookup {
    /// What resolved addresses are labelled with.
    provenance: &'static str,
    next_source_id: u64,
    contributions: Vec<Contribution>,
    effective: Vec<Effective>,
    retired: Vec<u64>,
}

proof fn resolved_at(es: Seq<Effective>, i: int)
    requires
        each_once(es),
        0 <= i < es.len(),
    ensures
        resolved_in(es, es[i].node.bytes@) == Some(lookup_views(es[i].addrs@)),
    decreases es.len(),
{
    if i < es.len() - 1 {
        let init = es.drop_last();
        assert(es[i].node.bytes@ != es[es.len() - 1].node.bytes@);
        assert(each_once(init)) by {
            assert forall|a: int, b: int| 0 <= a < b < init.len() implies (
            #[trigger] init[a]).node.bytes@ != (#[trigger] init[b]).node.bytes@ by {
                assert(init[a] == es[a] && init[b] == es[b]);
            }
        }
        resolved_at(init, i);
    }
}

proof fn resolved_absent(es: Seq<Effective>, node: Seq<u8>)
    requires
        forall|i: int| 0 <= i < es.len() ==> (#[trigger] es[i]).node.bytes@ != node,
    ensures
        resolved_in(es, node) is None,
    decreases es.len(),
{
    if es.len() > 0 {
        let init = es.drop_last();
        assert forall|i: int| 0 <= i < init.len() implies (#[trigger] init[i]).node.bytes@
            != node by {
            assert(init[i] == es[i]);
        }
        resolved_absent(init, node);
        assert(es[es.len() - 1].node.bytes@ != node);
    }
}

proof fn resolved_after_remove(es: Seq<Effective>, i: int, node: Seq<u8>)
    requires
        each_once(es),
        0 <= i < es.len(),
    ensures
        each_once(es.remove(i)),
        node == es[i].node.bytes@ ==> resolved_in(es.remove(i), node) is None,
        node != es[i].node.bytes@ ==> resolved_in(es.remove(i), node) == resolved_in(es, node),
    decreases es.len(),
{
    let after = es.remove(i);
    assert forall|a: int, b: int| 0 <= a < b < after.len() implies (
    #[trigger] after[a]).node.bytes@ != (#[trigger] after[b]).node.bytes@ by {
        let a0 = if a < i { a } else { a + 1 };
        let b0 = if b < i { b } else { b + 1 };
        assert(after[a] == es[a0] && after[b] == es[b0]);
    }
    if node == es[i].node.bytes@ {
        assert forall|a: int| 0 <= a < after.len() implies (#[trigger] after[a]).node.bytes@
            != node by {
            let a0 = if a < i { a } else { a + 1 };
            assert(after[a] == es[a0]);
        }
        resolved_absent(after, node);
    } else {
        removed_is_no_matter(es, i, node);
    }
}

proof fn removed_is_no_matter(es: Seq<Effective>, i: int, node: Seq<u8>)
    requires
        0 <= i < es.len(),
        node != es[i].node.bytes@,
    ensures
        resolved_in(es.remove(i), node) == resolved_in(es, node),
    decreases es.len(),
{
    if i < es.len() - 1 {
        removed_is_no_matter(es.drop_last(), i, node);
        assert(es.remove(i).drop_last() =~= es.drop_last().remove(i));
        assert(es.remove(i).last() == es.last());
    } else {
        assert(es.remove(i) =~= es.drop_last());
    }
}

proof fn resolved_after_push(es: Seq<Effective>, e: Effective, node: Seq<u8>)
    ensures
        resolved_in(es.push(e), node) == if e.node.bytes@ == node {
            Some(lookup_views(e.addrs@))
        } else {
            resolved_in(es, node)
        },
{
    assert(es.push(e).drop_last() =~= es);
}

/// Gathers the addresses that contributions give for a node.
fn gather(cs: &Vec<Contribution>, source: Option<u64>, node: &NodeId) -> (r: Vec<LookupAddr>)
    ensures
        lookup_views(r@) == gathered(contribution_views(cs@), source, node.bytes@),
{
    let ghost all = contribution_views(cs@);
    let mut out: Vec<LookupAddr> = Vec::new();
    let mut i: usize = 0;
    proof {
        assert(lookup_views(out@) =~= Seq::empty());
    }
    while i < cs.len()
        invariant
            i <= cs@.len(),
            all == contribution_views(cs@),
            lookup_views(out@) == gathered(all.take(i as int), source, node.bytes@),
        decreases cs@.len() - i,
    {
        proof {
            assert(all.take(i + 1).drop_last() =~= all.take(i as int));
            assert(all.take(i + 1).last() == cs@[i as int]@);
        }
        let of_source: bool = match source {
            Some(s) => s == cs[i].source,
            None => true,
        };
        if same_key(&cs[i].node, node) && of_source {
            add_addrs(&mut out, &cs[i].addrs);
        }
        i = i + 1;
    }
    proof {
        assert(all.take(i as int) =~= all);
    }
    out
}

/// Says what became of a node for a source.
fn removal_snapshot(cs: &Vec<Contribution>, source: u64, node: &NodeId) -> (r:
    AddressLookupRemoval)
    ensures
        r@ == removal_of(contribution_views(cs@), source, node.bytes@),
{
    let ghost all = contribution_views(cs@);
    let mut remains: bool = false;
    let mut i: usize = 0;
    while i < cs.len()
        invariant
            i <= cs@.len(),
            all == contribution_views(cs@),
            remains == (exists|j: int|
                0 <= j < i && concerns(#[trigger] all[j], Some(source), node.bytes@)),
        decreases cs@.len() - i,
    {
        proof {
            assert(all[i as int] == cs@[i as int]@);
        }
        if cs[i].source == source && same_key(&cs[i].node, node) {
            remains = true;
        }
        i = i + 1;
    }
    AddressLookupRemoval {
        node_id: base32_encode(node.bytes.as_slice()),
        has_remaining_contributions: remains,
        remaining_addrs: gather(cs, Some(source), node),
    }
}

/// Where an instance stands, or would stand, and whether it is there.
fn find_place(cs: &Vec<Contribution>, source: u64, instance: &str) -> (r: (usize, bool))
    ensures
        r.0 <= cs@.len(),
        r.0 == place(contribution_views(cs@), (source, instance@)),
        r.1 == (contributed(contribution_views(cs@), (source, instance@)) is Some),
{
    let ghost all = contribution_views(cs@);
    let ghost key = (source, instance@);
    let mut i: usize = 0;
    while i < cs.len() && (cs[i].source < source || (cs[i].source == source && is_text_before(
        &cs[i].instance,
        instance,
    )))
        invariant
            i <= cs@.len(),
            all == contribution_views(cs@),
            key == (source, instance@),
            forall|j: int| 0 <= j < i ==> key_before(key_of(#[trigger] all[j]), key),
        decreases cs@.len() - i,
    {
        proof {
            assert(all[i as int] == cs@[i as int]@);
        }
        i = i + 1;
    }
    proof {
        if i < cs@.len() {
            assert(all[i as int] == cs@[i as int]@);
        }
        place_is(all, key, i as int);
    }
    let there: bool = i < cs.len() && cs[i].source == source && same(&cs[i].instance, instance);
    (i, there)
}

/// The node that a text names, or the text of the error.
pub uninterp spec fn endpoint_id_parsed(s: Seq<char>) -> Result<Seq<u8>, Seq<char>>;

/// `iroh::EndpointId`'s `FromStr`, and `EndpointId::as_bytes` of what was parsed.
#[verifier::external_body]
pub(crate) fn parse_endpoint_id(s: &str) -> (r: Result<NodeId, String>)
    ensures
        match r {
            Ok(n) => endpoint_id_parsed(s@) == Ok::<Seq<u8>, Seq<char>>(n.bytes@),
            Err(m) => endpoint_id_parsed(s@) == Err::<Seq<u8>, Seq<char>>(m@),
        },
{
    match s.parse::<iroh::EndpointId>() {
        Ok(id) => Ok(NodeId { bytes: *id.as_bytes() }),
        Err(e) => Err(e.to_string()),
    }
}

/// What is said of a node id that could not be read; `shown` is its quoted text.
pub open spec fn bad_node_id(shown: Seq<char>, cause: Seq<char>) -> Seq<char> {
    "invalid node id "@ + shown + ": "@ + cause
}

impl SourceScopedAddressLookup {
    /// What resolved addresses are labelled with.
    pub closed spec fn label(&self) -> Seq<char> {
        self.provenance@
    }

    /// What instances contribute, in order.
    pub closed spec fn contributions(&self) -> Seq<ContributionView> {
        contribution_views(self.contributions@)
    }

    /// What a node is resolved to.
    pub closed spec fn resolved(&self, node: Seq<u8>) -> Option<Seq<LookupView>> {
        resolved_in(self.effective@, node)
    }

    /// Whether a source was retired.
    pub closed spec fn is_retired(&self, source: u64) -> bool {
        self.retired@.contains(source)
    }

    /// The number of the next source.
    pub closed spec fn next_source(&self) -> u64 {
        self.next_source_id
    }

    /// Each node is resolved to what the contributions give for it; each instance
    /// contributes once; no source that was retired, or that was never given out,
    /// contributes.
    pub closed spec fn wf(&self) -> bool {
        &&& in_order(contribution_views(self.contributions@))
        &&& each_once(self.effective@)
        &&& forall|node: Seq<u8>| #[trigger]
            resolved_in(self.effective@, node) == resolved_by(
                contribution_views(self.contributions@),
                node,
            )
        &&& forall|i: int|
            0 <= i < self.contributions@.len() ==> {
                &&& (#[trigger] contribution_views(self.contributions@)[i]).source
                    < self.next_source_id
                &&& !self.retired@.contains(contribution_views(self.contributions@)[i].source)
            }
        &&& forall|i: int| 0 <= i < self.retired@.len() ==> #[trigger] self.retired@[i]
            < self.next_source_id
    }

    /// A lookup without sources. `provenance` labels every resolved address.
    pub fn new(provenance: &'static str) -> (r: Self)
        ensures
            r.wf(),
            r.label() == provenance@,
            r.contributions() == Seq::<ContributionView>::empty(),
            forall|s: u64| !r.is_retired(s),
            forall|node: Seq<u8>| #[trigger] r.resolved(node) is None,
            r.next_source() == 1,
    {
        let r = SourceScopedAddressLookup {
            provenance,
            next_source_id: 1,
            contributions: Vec::new(),
            effective: Vec::new(),
            retired: Vec::new(),
        };
        proof {
            assert(r.contributions() =~= Seq::empty());
        }
        r
    }

    /// What resolved addresses are labelled with.
    pub fn provenance(&self) -> (r: &'static str)
        ensures
            r@ == self.label(),
    {
        self.provenance
    }

    /// Whether there is a name left for another source.
    pub fn has_free_source(&self) -> (r: bool)
        ensures
            r == (self.next_source() < u64::MAX),
    {
        self.next_source_id < u64::MAX
    }

    /// A new source for a browse session.
    pub fn new_source(&mut self) -> (r: AddressLookupSource)
        requires
            old(self).wf(),
            old(self).next_source() < u64::MAX,
        ensures
            final(self).wf(),
            r.source_id == old(self).next_source(),
            final(self).next_source() == old(self).next_source() + 1,
            final(self).label() == old(self).label(),
            final(self).contributions() == old(self).contributions(),
            forall|s: u64| #[trigger] final(self).is_retired(s) == old(self).is_retired(s),
            forall|node: Seq<u8>| #[trigger]
                final(self).resolved(node) == old(self).resolved(node),
            !final(self).is_retired(r.source_id),
    {
        let source_id: u64 = self.next_source_id;
        self.next_source_id = self.next_source_id + 1;
        AddressLookupSource { source_id }
    }

    fn has_retired(&self, source: u64) -> (r: bool)
        ensures
            r == self.is_retired(source),
    {
        let mut i: usize = 0;
        while i < self.retired.len()
            invariant
                i <= self.retired@.len(),
                forall|j: int| 0 <= j < i ==> self.retired@[j] != source,
            decreases self.retired@.len() - i,
        {
            if self.retired[i] == source {
                return true;
            }
            i = i + 1;
        }
        false
    }

    /// Brings what a node is resolved to in line with the contributions.
    fn recompute_endpoint(&mut self, node: &NodeId)
        requires
            each_once(old(self).effective@),
        ensures
            each_once(final(self).effective@),
            final(self).provenance == old(self).provenance,
            final(self).next_source_id == old(self).next_source_id,
            final(self).contributions == old(self).contributions,
            final(self).retired == old(self).retired,
            forall|n: Seq<u8>| #[trigger]
                resolved_in(final(self).effective@, n) == if n == node.bytes@ {
                    resolved_by(contribution_views(old(self).contributions@), n)
                } else {
                    resolved_in(old(self).effective@, n)
                },
    {
        let data: Vec<LookupAddr> = gather(&self.contributions, None, node);
        let ghost before = self.effective@;
        let mut i: usize = 0;
        let mut found: bool = false;
        while i < self.effective.len() && !found
            invariant
                i <= self.effective@.len(),
                self.effective@ == before,
                found ==> i < self.effective@.len() && before[i as int].node.bytes@ == node.bytes@,
                forall|j: int| 0 <= j < i ==> (#[trigger] before[j]).node.bytes@ != node.bytes@,
            decreases self.effective@.len() - i + (if found { 0int } else { 1 }),
        {
            if same_key(&self.effective[i].node, node) {
                found = true;
            } else {
                i = i + 1;
            }
        }
        if found {
            self.effective.remove(i);
            proof {
                assert forall|n: Seq<u8>| #[trigger] resolved_in(self.effective@, n) == if n
                    == node.bytes@ {
                    None
                } else {
                    resolved_in(before, n)
                } by {
                    resolved_after_remove(before, i as int, n);
                }
                resolved_after_remove(before, i as int, node.bytes@);
                assert forall|a: int| 0 <= a < self.effective@.len() implies (
                #[trigger] self.effective@[a]).node.bytes@ != node.bytes@ by {
                    let a0 = if a < i { a } else { a + 1 };
                    assert(self.effective@[a] == before[a0]);
                }
            }
        } else {
            proof {
                resolved_absent(before, node.bytes@);
            }
        }
        let ghost cleared = self.effective@;
        proof {
            assert(lookup_views(data@).len() == data@.len());
        }
        if data.len() > 0 {
            let e = Effective { node: *node, addrs: data };
            let ghost pushed = e;
            self.effective.push(e);
            proof {
                assert forall|n: Seq<u8>| #[trigger] resolved_in(self.effective@, n) == if n
                    == node.bytes@ {
                    Some(lookup_views(pushed.addrs@))
                } else {
                    resolved_in(cleared, n)
                } by {
                    resolved_after_push(cleared, pushed, n);
                }
                assert forall|a: int, b: int| 0 <= a < b < self.effective@.len() implies (
                #[trigger] self.effective@[a]).node.bytes@ != (
                #[trigger] self.effective@[b]).node.bytes@ by {
                    assert(self.effective@[a] == cleared[a]);
                    if b < cleared.len() {
                        assert(self.effective@[b] == cleared[b]);
                    }
                }
            }
        }
    }

    /// What a node is resolved to.
    pub fn resolve(&self, node: &NodeId) -> (r: Option<Vec<LookupAddr>>)
        requires
            self.wf(),
        ensures
            match r {
                Some(v) => self.resolved(node.bytes@) == Some(lookup_views(v@)),
                None => self.resolved(node.bytes@) is None,
            },
    {
        let mut i: usize = 0;
        while i < self.effective.len()
            invariant
                self.wf(),
                i <= self.effective@.len(),
                forall|j: int|
                    0 <= j < i ==> (#[trigger] self.effective@[j]).node.bytes@ != node.bytes@,
            decreases self.effective@.len() - i,
        {
            if same_key(&self.effective[i].node, node) {
                proof {
                    resolved_at(self.effective@, i as int);
                }
                let mut out: Vec<LookupAddr> = Vec::new();
                copy_all(&mut out, &self.effective[i].addrs);
                return Some(out);
            }
            i = i + 1;
        }
        proof {
            resolved_absent(self.effective@, node.bytes@);
        }
        None
    }
}

impl SourceScopedAddressLookup {
    /// What an operation that changes contributions leaves alone.
    pub open spec fn same_but_contributions(&self, other: &SourceScopedAddressLookup) -> bool {
        &&& self.label() == other.label()
        &&& self.next_source() == other.next_source()
        &&& forall|s: u64| #[trigger] self.is_retired(s) == other.is_retired(s)
    }

    /// Takes what an instance contributes out.
    fn remove_contribution(&mut self, source: u64, instance: &str) -> (r: Option<
        AddressLookupRemoval,
    >)
        requires
            old(self).wf(),
        ensures
            final(self).wf(),
            final(self).same_but_contributions(old(self)),
            final(self).contributions() == without_contribution(
                old(self).contributions(),
                (source, instance@),
            ),
            match contributed(old(self).contributions(), (source, instance@)) {
                Some(c) => r matches Some(v) && v@ == removal_of(
                    final(self).contributions(),
                    source,
                    c.node,
                ),
                None => r is None,
            },
    {
        let (p, there) = find_place(&self.contributions, source, instance);
        if !there {
            return None;
        }
        let ghost before = contribution_views(self.contributions@);
        let c: Contribution = self.contributions.remove(p);
        let ghost after = contribution_views(self.contributions@);
        proof {
            assert(after =~= before.remove(p as int));
            assert(before[p as int] == c@);
            order_without_contribution(before, (source, instance@));
        }
        self.recompute_endpoint(&c.node);
        proof {
            assert forall|n: Seq<u8>| #[trigger] resolved_in(self.effective@, n) == resolved_by(
                after,
                n,
            ) by {
                if n != c.node.bytes@ {
                    gathered_after_remove(before, p as int, None, n);
                }
            }
            assert forall|i: int| 0 <= i < self.contributions@.len() implies ({
                &&& (#[trigger] contribution_views(self.contributions@)[i]).source
                    < self.next_source_id
                &&& !self.retired@.contains(contribution_views(self.contributions@)[i].source)
            }) by {
                let i0 = if i < p { i } else { i + 1 };
                assert(after[i] == before[i0]);
            }
        }
        Some(removal_snapshot(&self.contributions, source, &c.node))
    }

    /// Puts in what an instance contributes. Gives the node that the instance named
    /// before.
    fn put_contribution(&mut self, c: Contribution) -> (r: Option<NodeId>)
        requires
            old(self).wf(),
            c.source < old(self).next_source(),
            !old(self).is_retired(c.source),
        ensures
            final(self).wf(),
            final(self).same_but_contributions(old(self)),
            final(self).contributions() == with_contribution(old(self).contributions(), c@),
            match contributed(old(self).contributions(), key_of(c@)) {
                Some(o) => r matches Some(n) && n.bytes@ == o.node,
                None => r is None,
            },
    {
        let (p, there) = find_place(&self.contributions, c.source, &c.instance);
        let ghost before = contribution_views(self.contributions@);
        let ghost view = c@;
        let node: NodeId = c.node;
        let mut old_node: Option<NodeId> = None;
        if there {
            let o: Contribution = self.contributions.remove(p);
            proof {
                assert(before[p as int] == o@);
            }
            old_node = Some(o.node);
        }
        self.contributions.insert(p, c);
        let ghost after = contribution_views(self.contributions@);
        proof {
            assert(after =~= with_contribution(before, view));
            order_with_contribution(before, view);
        }
        if let Some(o) = old_node {
            if !same_key(&o, &node) {
                self.recompute_endpoint(&o);
            }
        }
        self.recompute_endpoint(&node);
        proof {
            assert forall|n: Seq<u8>| #[trigger] resolved_in(self.effective@, n) == resolved_by(
                after,
                n,
            ) by {
                if n != node.bytes@ {
                    if there {
                        if n != before[p as int].node {
                            gathered_after_update(before, p as int, view, None, n);
                        }
                    } else {
                        gathered_after_insert(before, p as int, view, None, n);
                    }
                }
            }
            assert forall|i: int| 0 <= i < self.contributions@.len() implies ({
                &&& (#[trigger] contribution_views(self.contributions@)[i]).source
                    < self.next_source_id
                &&& !self.retired@.contains(contribution_views(self.contributions@)[i].source)
            }) by {
                if i == p {
                    assert(after[i] == view);
                } else {
                    let i0 = if i < p || there { i } else { i - 1 };
                    assert(after[i] == before[i0]);
                }
            }
        }
        old_node
    }

    /// Makes an update, given what the node id was read as. An update under a source
    /// that was retired is refused; one whose node id could not be read takes what the
    /// instance contributed before out.
    pub fn upsert_read(
        &mut self,
        source: &AddressLookupSource,
        instance_name: &str,
        node: Result<NodeId, String>,
        addrs: &[AddrText],
    ) -> (r: Result<AddressLookupUpsert, AddressLookupUpsertError>)
        requires
            old(self).wf(),
            source.source_id < old(self).next_source(),
        ensures
            final(self).wf(),
            final(self).same_but_contributions(old(self)),
            ({
                let before = old(self).contributions();
                let key = (source.source_id, instance_name@);
                if old(self).is_retired(source.source_id) {
                    &&& final(self).contributions() == before
                    &&& r matches Err(e)
                    &&& e.message@ == "address-lookup source has been retired"@
                    &&& e.removal is None
                } else {
                    match node {
                        Err(m) => {
                            &&& final(self).contributions() == without_contribution(before, key)
                            &&& r matches Err(e)
                            &&& e.message@ == m@
                            &&& match contributed(before, key) {
                                Some(c) => e.removal matches Some(v) && v@ == removal_of(
                                    final(self).contributions(),
                                    source.source_id,
                                    c.node,
                                ),
                                None => e.removal is None,
                            }
                        },
                        Ok(n) => {
                            let c = ContributionView {
                                source: source.source_id,
                                instance: instance_name@,
                                node: n.bytes@,
                                addrs: given_addrs(crate::addr::addr_views(addrs@)),
                            };
                            &&& final(self).contributions() == with_contribution(before, c)
                            &&& r matches Ok(u)
                            &&& u.node_id@ == base32_text(n.bytes@)
                            &&& lookup_views(u.effective_addrs@) == gathered(
                                final(self).contributions(),
                                Some(source.source_id),
                                n.bytes@,
                            )
                            &&& match contributed(before, key) {
                                Some(o) => if o.node == n.bytes@ {
                                    u.replaced is None
                                } else {
                                    u.replaced matches Some(v) && v@ == removal_of(
                                        final(self).contributions(),
                                        source.source_id,
                                        o.node,
                                    )
                                },
                                None => u.replaced is None,
                            }
                        },
                    }
                }
            }),
    {
        if self.has_retired(source.source_id) {
            return Err(
                AddressLookupUpsertError {
                    message: String::from_str("address-lookup source has been retired"),
                    removal: None,
                },
            );
        }
        let node: NodeId = match node {
            Ok(n) => n,
            Err(message) => {
                let removal = self.remove_contribution(source.source_id, instance_name);
                return Err(AddressLookupUpsertError { message, removal });
            },
        };
        let c = Contribution {
            source: source.source_id,
            instance: instance_name.to_owned(),
            node,
            addrs: endpoint_data(addrs),
        };
        let old_node: Option<NodeId> = self.put_contribution(c);
        let effective_addrs = gather(&self.contributions, Some(source.source_id), &node);
        let replaced: Option<AddressLookupRemoval> = match old_node {
            Some(o) => if same_key(&o, &node) {
                None
            } else {
                Some(removal_snapshot(&self.contributions, source.source_id, &o))
            },
            None => None,
        };
        Ok(
            AddressLookupUpsert {
                node_id: base32_encode(node.bytes.as_slice()),
                effective_addrs,
                replaced,
            },
        )
    }

    /// Makes an update: an instance names a node and gives addresses for it, in place of
    /// what it contributed before.
    pub fn upsert(
        &mut self,
        source: &AddressLookupSource,
        instance_name: &str,
        node_id: &str,
        addrs: &[AddrText],
    ) -> (r: Result<AddressLookupUpsert, AddressLookupUpsertError>)
        requires
            old(self).wf(),
            source.source_id < old(self).next_source(),
        ensures
            final(self).wf(),
            final(self).same_but_contributions(old(self)),
            ({
                let before = old(self).contributions();
                let key = (source.source_id, instance_name@);
                if old(self).is_retired(source.source_id) {
                    &&& final(self).contributions() == before
                    &&& r matches Err(e)
                    &&& e.message@ == "address-lookup source has been retired"@
                    &&& e.removal is None
                } else {
                    match endpoint_id_parsed(node_id@) {
                        Err(m) => {
                            &&& final(self).contributions() == without_contribution(before, key)
                            &&& r matches Err(e)
                            &&& e.message@ == bad_node_id(debug_text(node_id@), m)
                            &&& match contributed(before, key) {
                                Some(c) => e.removal matches Some(v) && v@ == removal_of(
                                    final(self).contributions(),
                                    source.source_id,
                                    c.node,
                                ),
                                None => e.removal is None,
                            }
                        },
                        Ok(n) => {
                            let c = ContributionView {
                                source: source.source_id,
                                instance: instance_name@,
                                node: n,
                                addrs: given_addrs(crate::addr::addr_views(addrs@)),
                            };
                            &&& final(self).contributions() == with_contribution(before, c)
                            &&& r matches Ok(u)
                            &&& u.node_id@ == base32_text(n)
                            &&& lookup_views(u.effective_addrs@) == gathered(
                                final(self).contributions(),
                                Some(source.source_id),
                                n,
                            )
                            &&& match contributed(before, key) {
                                Some(o) => if o.node == n {
                                    u.replaced is None
                                } else {
                                    u.replaced matches Some(v) && v@ == removal_of(
                                        final(self).contributions(),
                                        source.source_id,
                                        o.node,
                                    )
                                },
                                None => u.replaced is None,
                            }
                        },
                    }
                }
            }),
    {
        let node: Result<NodeId, String> = match parse_endpoint_id(node_id) {
            Ok(n) => Ok(n),
            Err(cause) => {
                let shown = quoted(node_id);
                let mut s: String = String::from_str("invalid node id ");
                s.append(&shown);
                s.append(": ");
                s.append(&cause);
                Err(s)
            },
        };
        self.upsert_read(source, instance_name, node, addrs)
    }

    /// Takes what an instance contributes out, and says what became of its node.
    pub fn remove_with_snapshot(&mut self, source: &AddressLookupSource, instance_name: &str) -> (r:
        Option<AddressLookupRemoval>)
        requires
            old(self).wf(),
        ensures
            final(self).wf(),
            final(self).same_but_contributions(old(self)),
            if old(self).is_retired(source.source_id) {
                r is None && final(self).contributions() == old(self).contributions()
            } else {
                &&& final(self).contributions() == without_contribution(
                    old(self).contributions(),
                    (source.source_id, instance_name@),
                )
                &&& match contributed(
                    old(self).contributions(),
                    (source.source_id, instance_name@),
                ) {
                    Some(c) => r matches Some(v) && v@ == removal_of(
                        final(self).contributions(),
                        source.source_id,
                        c.node,
                    ),
                    None => r is None,
                }
            },
    {
        if self.has_retired(source.source_id) {
            return None;
        }
        self.remove_contribution(source.source_id, instance_name)
    }

    /// Takes what an instance contributes out, and gives the node id it named.
    pub fn remove(&mut self, source: &AddressLookupSource, instance_name: &str) -> (r: Option<
        String,
    >)
        requires
            old(self).wf(),
        ensures
            final(self).wf(),
            final(self).same_but_contributions(old(self)),
            if old(self).is_retired(source.source_id) {
                r is None && final(self).contributions() == old(self).contributions()
            } else {
                &&& final(self).contributions() == without_contribution(
                    old(self).contributions(),
                    (source.source_id, instance_name@),
                )
                &&& match contributed(
                    old(self).contributions(),
                    (source.source_id, instance_name@),
                ) {
                    Some(c) => r matches Some(n) && n@ == base32_text(c.node),
                    None => r is None,
                }
            },
    {
        match self.remove_with_snapshot(source, instance_name) {
            Some(x) => Some(x.node_id),
            None => None,
        }
    }

    /// Takes the contributions of a source out, and gives the nodes they named.
    fn drop_source(&mut self, source: u64) -> (r: Vec<NodeId>)
        ensures
            final(self).provenance == old(self).provenance,
            final(self).next_source_id == old(self).next_source_id,
            final(self).effective == old(self).effective,
            final(self).retired == old(self).retired,
            final(self).contributions() == without_source(old(self).contributions(), source),
            forall|n: Seq<u8>| #[trigger]
                source_concerns(old(self).contributions(), source, n) ==> exists|k: int|
                    0 <= k < r@.len() && (#[trigger] r@[k]).bytes@ == n,
    {
        let ghost before = contribution_views(self.contributions@);
        let mut affected: Vec<NodeId> = Vec::new();
        let mut i: usize = 0;
        let ghost mut done: int = 0;
        proof {
            assert(before =~= without_source(before.take(0), source) + before.skip(0));
        }
        while i < self.contributions.len()
            invariant
                0 <= done <= before.len(),
                i == without_source(before.take(done), source).len(),
                contribution_views(self.contributions@) == without_source(
                    before.take(done),
                    source,
                ) + before.skip(done),
                self.provenance == old(self).provenance,
                self.next_source_id == old(self).next_source_id,
                self.effective == old(self).effective,
                self.retired == old(self).retired,
                forall|j: int|
                    0 <= j < done && (#[trigger] before[j]).source == source ==> exists|k: int|
                        0 <= k < affected@.len() && (#[trigger] affected@[k]).bytes@
                            == before[j].node,
            decreases before.len() - done,
        {
            let ghost kept = without_source(before.take(done), source);
            proof {
                assert(contribution_views(self.contributions@).len() == kept.len() + before.len()
                    - done);
                assert(done < before.len());
                assert(contribution_views(self.contributions@)[i as int] == before.skip(done)[0]);
                assert(self.contributions@[i as int]@ == before[done]);
                assert(before.take(done + 1).drop_last() =~= before.take(done));
                assert(before.take(done + 1).last() == before[done]);
            }
            if self.contributions[i].source == source {
                let ghost views = contribution_views(self.contributions@);
                let ghost seen = affected@;
                let c: Contribution = self.contributions.remove(i);
                affected.push(c.node);
                proof {
                    assert(contribution_views(self.contributions@) =~= views.remove(i as int));
                    assert(views.remove(i as int) =~= kept + before.skip(done + 1));
                    assert(affected@[seen.len() as int].bytes@ == before[done].node);
                    assert forall|j: int|
                        0 <= j < done + 1 && (#[trigger] before[j]).source
                            == source implies exists|k: int|
                        0 <= k < affected@.len() && (#[trigger] affected@[k]).bytes@
                            == before[j].node by {
                        if j < done {
                            let k = choose|k: int|
                                0 <= k < seen.len() && (#[trigger] seen[k]).bytes@
                                    == before[j].node;
                            assert(affected@[k] == seen[k]);
                        }
                    }
                }
            } else {
                i = i + 1;
                proof {
                    assert(kept.push(before[done]) + before.skip(done + 1) =~= kept + before.skip(
                        done,
                    ));
                }
            }
            proof {
                done = done + 1;
            }
        }
        proof {
            assert(contribution_views(self.contributions@).len() == self.contributions@.len());
            assert(done == before.len());
            assert(before.take(done) =~= before);
            assert(without_source(before, source) + before.skip(done) =~= without_source(
                before,
                source,
            ));
            assert forall|n: Seq<u8>| #[trigger] source_concerns(
                before,
                source,
                n,
            ) implies exists|k: int| 0 <= k < affected@.len() && (#[trigger] affected@[k]).bytes@
                == n by {
                let j = choose|j: int|
                    0 <= j < before.len() && concerns(#[trigger] before[j], Some(source), n);
                assert(before[j].source == source);
            }
        }
        affected
    }

    /// Takes everything that a source contributed out, for good: later updates under it
    /// are refused. To retire a source again changes nothing.
    pub fn retire(&mut self, source: &AddressLookupSource)
        requires
            old(self).wf(),
            source.source_id < old(self).next_source(),
        ensures
            final(self).wf(),
            final(self).label() == old(self).label(),
            final(self).next_source() == old(self).next_source(),
            forall|s: u64| #[trigger]
                final(self).is_retired(s) == (old(self).is_retired(s) || s == source.source_id),
            final(self).contributions() == without_source(
                old(self).contributions(),
                source.source_id,
            ),
            old(self).is_retired(source.source_id) ==> final(self).contributions() == old(
                self).contributions(),
    {
        let ghost before = contribution_views(self.contributions@);
        if self.has_retired(source.source_id) {
            proof {
                nothing_to_drop(before, source.source_id);
            }
            return;
        }
        let affected: Vec<NodeId> = self.drop_source(source.source_id);
        let ghost after = contribution_views(self.contributions@);
        let ghost gone = self.retired@;
        self.retired.push(source.source_id);
        let mut i: usize = 0;
        while i < affected.len()
            invariant
                i <= affected@.len(),
                each_once(self.effective@),
                self.provenance == old(self).provenance,
                self.next_source_id == old(self).next_source_id,
                contribution_views(self.contributions@) == after,
                self.retired@ == gone.push(source.source_id),
                forall|n: Seq<u8>| #[trigger]
                    resolved_in(self.effective@, n) == resolved_by(before, n) || (
                    resolved_in(self.effective@, n) == resolved_by(after, n)),
                forall|k: int|
                    0 <= k < i ==> resolved_in(
                        self.effective@,
                        (#[trigger] affected@[k]).bytes@,
                    ) == resolved_by(after, affected@[k].bytes@),
            decreases affected@.len() - i,
        {
            self.recompute_endpoint(&affected[i]);
            i = i + 1;
        }
        proof {
            order_without_source(before, source.source_id);
            assert forall|n: Seq<u8>| #[trigger] resolved_in(self.effective@, n) == resolved_by(
                after,
                n,
            ) by {
                if source_concerns(before, source.source_id, n) {
                    let k = choose|k: int|
                        0 <= k < affected@.len() && (#[trigger] affected@[k]).bytes@ == n;
                    assert(resolved_in(self.effective@, affected@[k].bytes@) == resolved_by(
                        after,
                        affected@[k].bytes@,
                    ));
                } else {
                    gathered_without_source(before, source.source_id, n);
                }
            }
            assert forall|s: u64| #[trigger] self.retired@.contains(s) == (gone.contains(s) || s
                == source.source_id) by {
                if gone.contains(s) {
                    let k = choose|k: int| 0 <= k < gone.len() && gone[k] == s;
                    assert(self.retired@[k] == s);
                }
                if s == source.source_id {
                    assert(self.retired@[gone.len() as int] == s);
                }
            }
            assert forall|i: int| 0 <= i < self.contributions@.len() implies ({
                &&& (#[trigger] contribution_views(self.contributions@)[i]).source
                    < self.next_source_id
                &&& !self.retired@.contains(contribution_views(self.contributions@)[i].source)
            }) by {
                kept_stand_in(before, source.source_id, i);
                let k = choose|k: int| 0 <= k < before.len() && #[trigger] before[k] == after[i];
                assert(before[k].source < self.next_source_id);
            }
        }
    }
}

proof fn nothing_to_drop(cs: Seq<ContributionView>, source: u64)
    requires
        forall|i: int| 0 <= i < cs.len() ==> (#[trigger] cs[i]).source != source,
    ensures
        without_source(cs, source) == cs,
    decreases cs.len(),
{
    if cs.len() > 0 {
        let init = cs.drop_last();
        assert forall|i: int| 0 <= i < init.len() implies (#[trigger] init[i]).source != source by {
            assert(init[i] == cs[i]);
        }
        nothing_to_drop(init, source);
        assert(cs[cs.len() - 1].source != source);
        assert(init.push(cs.last()) =~= cs);
    } else {
        assert(without_source(cs, source) =~= cs);
    }
}

// ── Laws ─────────────────────────────────────────────────────────────────────

/// A node is resolved to exactly the addresses that the live instances of all sources
/// give for it together, and to nothing where they give none. Each instance stands in
/// the contributions once.
pub proof fn resolution_follows_contributions(l: &SourceScopedAddressLookup, node: Seq<u8>)
    requires
        l.wf(),
    ensures
        l.resolved(node) == resolved_by(l.contributions(), node),
        in_order(l.contributions()),
{
}

/// A source that was retired contributes nothing.
pub proof fn retired_sources_are_silent(l: &SourceScopedAddressLookup, source: u64, i: int)
    requires
        l.wf(),
        l.is_retired(source),
        0 <= i < l.contributions().len(),
    ensures
        l.contributions()[i].source != source,
{
}

proof fn contributed_at(cs: Seq<ContributionView>, i: int)
    requires
        in_order(cs),
        0 <= i < cs.len(),
    ensures
        contributed(cs, key_of(cs[i])) == Some(cs[i]),
{
    let key = key_of(cs[i]);
    key_before_irreflexive(key);
    assert forall|j: int| 0 <= j < i implies key_before(key_of(#[trigger] cs[j]), key) by {
        assert(key_before(key_of(cs[j]), key_of(cs[i])));
    }
    place_is(cs, key, i);
}

/// An update of one instance leaves every other instance of every source as it was, and
/// the instance then contributes what the update says and nothing else.
pub proof fn updates_touch_one_instance(
    cs: Seq<ContributionView>,
    c: ContributionView,
    key: InstanceKey,
)
    requires
        in_order(cs),
    ensures
        contributed(with_contribution(cs, c), key_of(c)) == Some(c),
        key != key_of(c) ==> contributed(with_contribution(cs, c), key) == contributed(cs, key),
{
    let after = with_contribution(cs, c);
    let p = place(cs, key_of(c));
    place_points(cs, key_of(c));
    order_with_contribution(cs, c);
    assert(after[p] == c);
    contributed_at(after, p);
    if key != key_of(c) {
        place_points(cs, key);
        place_points(after, key);
        if contributed(cs, key) is Some {
            let i = place(cs, key);
            let i1 = if contributed(cs, key_of(c)) is Some || i < p { i } else { i + 1 };
            assert(after[i1] == cs[i]);
            contributed_at(after, i1);
        } else if contributed(after, key) is Some {
            let i = place(after, key);
            let i0 = if contributed(cs, key_of(c)) is Some || i < p { i } else { i - 1 };
            assert(after[i] == cs[i0]);
            contributed_at(cs, i0);
        }
    }
}

/// To remove one instance leaves every other instance of every source as it was, and
/// the instance then contributes nothing.
pub proof fn removals_touch_one_instance(
    cs: Seq<ContributionView>,
    gone: InstanceKey,
    key: InstanceKey,
)
    requires
        in_order(cs),
    ensures
        contributed(without_contribution(cs, gone), gone) is None,
        key != gone ==> contributed(without_contribution(cs, gone), key) == contributed(cs, key),
{
    let after = without_contribution(cs, gone);
    let p = place(cs, gone);
    place_points(cs, gone);
    order_without_contribution(cs, gone);
    place_points(after, gone);
    if contributed(after, gone) is Some {
        let i = place(after, gone);
        let i0 = if contributed(cs, gone) is Some && i >= p { i + 1 } else { i };
        assert(after[i] == cs[i0]);
        contributed_at(cs, i0);
        assert(i0 == p);
    }
    if key != gone {
        place_points(cs, key);
        place_points(after, key);
        if contributed(cs, key) is Some {
            let i = place(cs, key);
            let i1 = if contributed(cs, gone) is Some && i > p { i - 1 } else { i };
            assert(after[i1] == cs[i]);
            contributed_at(after, i1);
        } else if contributed(after, key) is Some {
            let i = place(after, key);
            let i0 = if contributed(cs, gone) is Some && i >= p { i + 1 } else { i };
            assert(after[i] == cs[i0]);
            contributed_at(cs, i0);
        }
    }
}

/// Copies a list of addresses.
fn copy_all(out: &mut Vec<LookupAddr>, from: &Vec<LookupAddr>)
    requires
        old(out)@.len() == 0,
    ensures
        lookup_views(final(out)@) == lookup_views(from@),
{
    let mut i: usize = 0;
    while i < from.len()
        invariant
            i <= from@.len(),
            out@.len() == i,
            forall|j: int| 0 <= j < i ==> (#[trigger] out@[j])@ == from@[j]@,
        decreases from@.len() - i,
    {
        out.push(copy_addr(&from[i]));
        i = i + 1;
    }
    proof {
        assert(lookup_views(out@) =~= lookup_views(from@));
    }
}

/// Addresses and contributions are seen as they are.
pub proof fn contributions_are_seen_whole(v: Seq<LookupAddr>, cs: Seq<Contribution>)
    ensures
        lookup_views(v).len() == v.len(),
        forall|i: int|
            0 <= i < v.len() ==> {
                &&& #[trigger] v[i] matches LookupAddr::Ip(a) ==> lookup_views(v)[i]
                    == LookupView::Ip(a)
                &&& v[i] matches LookupAddr::Relay(u) ==> lookup_views(v)[i]
                    == LookupView::Relay(u@)
            },
        contribution_views(cs).len() == cs.len(),
        forall|i: int|
            0 <= i < cs.len() ==> {
                &&& (#[trigger] contribution_views(cs)[i]).source == cs[i].source
                &&& contribution_views(cs)[i].instance == cs[i].instance@
                &&& contribution_views(cs)[i].node == cs[i].node.bytes@
                &&& contribution_views(cs)[i].addrs == lookup_views(cs[i].addrs@)
                &&& key_of(contribution_views(cs)[i]) == (cs[i].source, cs[i].instance@)
            },
{
}

/// To add an address keeps all that are there in their places, and adds it at the end,
/// unless it is there already.
pub proof fn addresses_are_added_once(acc: Seq<LookupView>, a: LookupView)
    ensures
        acc.contains(a) ==> with_addr(acc, a) == acc,
        !acc.contains(a) ==> with_addr(acc, a) == acc.push(a),
        with_addr(acc, a).contains(a),
{
    if !acc.contains(a) {
        assert(acc.push(a)[acc.len() as int] == a);
    }
}

/// To add addresses keeps all that are there in their places, adds all of the others, and
/// adds nothing else. None comes to stand twice.
pub proof fn all_addresses_are_added(acc: Seq<LookupView>, more: Seq<LookupView>)
    ensures
        with_addrs(acc, more).len() >= acc.len(),
        with_addrs(acc, more).take(acc.len() as int) == acc,
        forall|a: LookupView| #[trigger]
            with_addrs(acc, more).contains(a) <==> acc.contains(a) || more.contains(a),
        acc.no_duplicates() ==> with_addrs(acc, more).no_duplicates(),
    decreases more.len(),
{
    let all = with_addrs(acc, more);
    if more.len() == 0 {
        assert(acc.take(acc.len() as int) =~= acc);
    } else {
        let init = more.drop_last();
        let before = with_addrs(acc, init);
        all_addresses_are_added(acc, init);
        assert(all.take(acc.len() as int) =~= before.take(acc.len() as int));
        assert forall|a: LookupView| #[trigger] all.contains(a) <==> acc.contains(a)
            || more.contains(a) by {
            if all.contains(a) {
                let k = choose|k: int| 0 <= k < all.len() && all[k] == a;
                if k < before.len() {
                    assert(before[k] == a);
                    assert(before.contains(a));
                    if init.contains(a) {
                        let j = choose|j: int| 0 <= j < init.len() && init[j] == a;
                        assert(more[j] == a);
                    }
                } else {
                    assert(more[more.len() - 1] == a);
                }
            }
            if acc.contains(a) || more.contains(a) {
                if more.contains(a) && !acc.contains(a) {
                    let j = choose|j: int| 0 <= j < more.len() && more[j] == a;
                    if j < init.len() {
                        assert(init[j] == a);
                        assert(init.contains(a));
                    }
                }
                if before.contains(a) {
                    let k = choose|k: int| 0 <= k < before.len() && before[k] == a;
                    assert(all[k] == a);
                } else {
                    assert(a == more.last());
                    assert(all[before.len() as int] == a);
                }
            }
        }
    }
}

/// Which addresses texts give: every text that was read as a socket address with a real
/// port gives it, of either family; every text that was not read as one, but is a relay
/// URL without the blanks around it, gives the relay; and no other gives any. None stands
/// twice.
pub proof fn texts_give_their_addresses(v: Seq<(Seq<char>, Result<SocketAddr, Seq<char>>)>)
    ensures
        forall|a: SocketAddr| #[trigger]
            given_addrs(v).contains(LookupView::Ip(a)) <==> a.port > 1 && exists|i: int|
                0 <= i < v.len() && (#[trigger] v[i]).1 == Ok::<SocketAddr, Seq<char>>(a),
        forall|u: Seq<char>| #[trigger]
            given_addrs(v).contains(LookupView::Relay(u)) <==> exists|i: int|
                0 <= i < v.len() && (#[trigger] v[i]).1 is Err && relay_url_parsed(trimmed(v[i].0))
                    == Ok::<Seq<char>, Seq<char>>(u),
        given_addrs(v).no_duplicates(),
    decreases v.len(),
{
    let all = given_addrs(v);
    if v.len() > 0 {
        let init = v.drop_last();
        let before = given_addrs(init);
        let n = v.len() - 1;
        texts_give_their_addresses(init);
        assert(v[n] == v.last());
        assert forall|i: int| 0 <= i < n implies #[trigger] v[i] == init[i] by {}
        let g = given_addr(v.last().1, relay_url_parsed(trimmed(v.last().0)));
        assert forall|x: LookupView| #[trigger] all.contains(x) <==> before.contains(x) || g
            == Some(x) by {
            if let Some(y) = g {
                addresses_are_added_once(before, y);
            }
            if all.contains(x) {
                let k = choose|k: int| 0 <= k < all.len() && all[k] == x;
                if k < before.len() {
                    assert(before[k] == x);
                }
            }
            if before.contains(x) {
                let k = choose|k: int| 0 <= k < before.len() && before[k] == x;
                assert(all[k] == x);
            }
        }
        assert forall|a: SocketAddr| #[trigger] all.contains(LookupView::Ip(a)) <==> a.port > 1
            && exists|i: int|
            0 <= i < v.len() && (#[trigger] v[i]).1 == Ok::<SocketAddr, Seq<char>>(a) by {
            if before.contains(LookupView::Ip(a)) {
                let i = choose|i: int|
                    0 <= i < init.len() && (#[trigger] init[i]).1 == Ok::<SocketAddr, Seq<char>>(a);
                assert(v[i].1 == Ok::<SocketAddr, Seq<char>>(a));
            }
            if a.port > 1 && exists|i: int|
                0 <= i < v.len() && (#[trigger] v[i]).1 == Ok::<SocketAddr, Seq<char>>(a) {
                let i = choose|i: int|
                    0 <= i < v.len() && (#[trigger] v[i]).1 == Ok::<SocketAddr, Seq<char>>(a);
                if i < n {
                    assert(init[i].1 == Ok::<SocketAddr, Seq<char>>(a));
                }
            }
        }
        assert forall|u: Seq<char>| #[trigger] all.contains(LookupView::Relay(u)) <==> exists|
            i: int,
        |
            0 <= i < v.len() && (#[trigger] v[i]).1 is Err && relay_url_parsed(trimmed(v[i].0))
                == Ok::<Seq<char>, Seq<char>>(u) by {
            if before.contains(LookupView::Relay(u)) {
                let i = choose|i: int|
                    0 <= i < init.len() && (#[trigger] init[i]).1 is Err && relay_url_parsed(
                        trimmed(init[i].0),
                    ) == Ok::<Seq<char>, Seq<char>>(u);
                assert(v[i].1 is Err);
            }
            if exists|i: int|
                0 <= i < v.len() && (#[trigger] v[i]).1 is Err && relay_url_parsed(trimmed(v[i].0))
                    == Ok::<Seq<char>, Seq<char>>(u) {
                let i = choose|i: int|
                    0 <= i < v.len() && (#[trigger] v[i]).1 is Err && relay_url_parsed(
                        trimmed(v[i].0),
                    ) == Ok::<Seq<char>, Seq<char>>(u);
                if i < n {
                    assert(init[i].1 is Err);
                }
            }
        }
    }
}

/// Texts are ordered character by character: by the first in which they differ, and a text
/// comes before every longer one that begins with it.
pub proof fn texts_are_ordered(p: Seq<char>, c: char, x: Seq<char>, d: char, y: Seq<char>)
    ensures
        !text_before(p, p),
        text_before(p, p + seq![c] + x),
        !text_before(p + seq![c] + x, p),
        c != d ==> (text_before(p + seq![c] + x, p + seq![d] + y) <==> c < d),
    decreases p.len(),
{
    let a = p + seq![c] + x;
    let b = p + seq![d] + y;
    if p.len() > 0 {
        let q = p.drop_first();
        texts_are_ordered(q, c, x, d, y);
        assert(a.drop_first() =~= q + seq![c] + x);
        assert(b.drop_first() =~= q + seq![d] + y);
        assert(a[0] == p[0] && b[0] == p[0]);
    } else {
        assert(a[0] == c && b[0] == d);
    }
}

/// Instances are ordered by their source, and those of one source by their name.
pub proof fn instances_are_ordered(a: InstanceKey, b: InstanceKey)
    ensures
        a.0 < b.0 ==> key_before(a, b),
        a.0 > b.0 ==> !key_before(a, b),
        a.0 == b.0 ==> (key_before(a, b) <==> text_before(a.1, b.1)),
{
}

/// What an instance contributes is what stands under its source and its name; everything
/// that stands in the list is contributed by its instance.
pub proof fn instances_contribute_what_stands(cs: Seq<ContributionView>, key: InstanceKey, i: int)
    requires
        in_order(cs),
        0 <= i < cs.len(),
    ensures
        contributed(cs, key) matches Some(c) ==> cs.contains(c) && c.source == key.0 && c.instance
            == key.1,
        contributed(cs, (cs[i].source, cs[i].instance)) == Some(cs[i]),
{
    contributed_at(cs, i);
    place_points(cs, key);
    if contributed(cs, key) is Some {
        assert(cs[place(cs, key)] == contributed(cs, key)->Some_0);
    }
}

/// To drop a source keeps everything of the others, in order, and nothing of it.
pub proof fn sources_are_dropped_whole(cs: Seq<ContributionView>, source: u64)
    ensures
        without_source(cs, source) == cs.filter(|c: ContributionView| c.source != source),
    decreases cs.len(),
{
    reveal(Seq::filter);
    if cs.len() > 0 {
        sources_are_dropped_whole(cs.drop_last(), source);
    } else {
        assert(without_source(cs, source) =~= cs.filter(
            |c: ContributionView| c.source != source,
        ));
    }
}

/// What is gathered for a node, of one source or of all: exactly the addresses of the
/// contributions for that node, each once. What a further contribution for the node adds
/// stands behind what is there.
pub proof fn contributions_are_gathered(
    cs: Seq<ContributionView>,
    c: ContributionView,
    source: Option<u64>,
    node: Seq<u8>,
)
    ensures
        gathered(cs, source, node).no_duplicates(),
        forall|a: LookupView| #[trigger]
            gathered(cs, source, node).contains(a) <==> exists|i: int|
                0 <= i < cs.len() && (#[trigger] cs[i]).node == node && (source is None || source
                    == Some(cs[i].source)) && cs[i].addrs.contains(a),
        c.node == node && (source is None || source == Some(c.source)) ==> gathered(
            cs.push(c),
            source,
            node,
        ) == with_addrs(gathered(cs, source, node), c.addrs),
        c.node != node || (source is Some && source != Some(c.source)) ==> gathered(
            cs.push(c),
            source,
            node,
        ) == gathered(cs, source, node),
    decreases cs.len(),
{
    assert(cs.push(c).drop_last() =~= cs);
    let all = gathered(cs, source, node);
    if cs.len() > 0 {
        let init = cs.drop_last();
        let n = cs.len() - 1;
        let before = gathered(init, source, node);
        contributions_are_gathered(init, c, source, node);
        all_addresses_are_added(before, cs.last().addrs);
        assert(cs[n] == cs.last());
        assert forall|i: int| 0 <= i < n implies #[trigger] cs[i] == init[i] by {}
        assert forall|a: LookupView| #[trigger] all.contains(a) <==> exists|i: int|
            0 <= i < cs.len() && (#[trigger] cs[i]).node == node && (source is None || source
                == Some(cs[i].source)) && cs[i].addrs.contains(a) by {
            if before.contains(a) {
                let i = choose|i: int|
                    0 <= i < init.len() && (#[trigger] init[i]).node == node && (source is None
                        || source == Some(init[i].source)) && init[i].addrs.contains(a);
                assert(cs[i].addrs.contains(a));
            }
            if exists|i: int|
                0 <= i < cs.len() && (#[trigger] cs[i]).node == node && (source is None || source
                    == Some(cs[i].source)) && cs[i].addrs.contains(a) {
                let i = choose|i: int|
                    0 <= i < cs.len() && (#[trigger] cs[i]).node == node && (source is None
                        || source == Some(cs[i].source)) && cs[i].addrs.contains(a);
                if i < n {
                    assert(init[i].addrs.contains(a));
                }
            }
        }
    }
}

/// A node resolves to exactly the addresses that contributions for it hold: an address is
/// among them where and only where a contribution that stands has it, and there is no
/// answer where none has any.
pub proof fn nodes_resolve_to_what_is_contributed(
    l: &SourceScopedAddressLookup,
    node: Seq<u8>,
    a: LookupView,
)
    requires
        l.wf(),
    ensures
        ({
            let there = exists|i: int|
                0 <= i < l.contributions().len() && (#[trigger] l.contributions()[i]).node == node
                    && l.contributions()[i].addrs.contains(a);
            &&& there <==> l.resolved(node) is Some && l.resolved(node)->Some_0.contains(a)
            &&& l.resolved(node) matches Some(addrs) ==> addrs.len() > 0 && addrs.no_duplicates()
        }),
{
    let cs = l.contributions();
    let c = ContributionView { source: 0, instance: Seq::empty(), node, addrs: Seq::empty() };
    contributions_are_gathered(cs, c, None, node);
    assert(l.resolved(node) == resolved_by(cs, node));
    let all = gathered(cs, None, node);
    if all.contains(a) {
        assert(all.len() > 0);
    }
}

/// What is told of a removal: the node, whether the source still says anything of it, and
/// what the source still says.
pub proof fn removals_tell_what_remains(cs: Seq<ContributionView>, source: u64, node: Seq<u8>)
    ensures
        ({
            let r = removal_of(cs, source, node);
            &&& r.node_id == base32_text(node)
            &&& r.has_remaining_contributions <==> exists|i: int|
                0 <= i < cs.len() && (#[trigger] cs[i]).node == node && cs[i].source == source
            &&& forall|a: LookupView| #[trigger]
                r.remaining_addrs.contains(a) <==> exists|i: int|
                    0 <= i < cs.len() && (#[trigger] cs[i]).node == node && cs[i].source == source
                        && cs[i].addrs.contains(a)
        }),
{
    let r = removal_of(cs, source, node);
    let c = ContributionView { source: 0, instance: Seq::empty(), node, addrs: Seq::empty() };
    contributions_are_gathered(cs, c, Some(source), node);
    if r.has_remaining_contributions {
        let i = choose|i: int|
            0 <= i < cs.len() && concerns(#[trigger] cs[i], Some(source), node);
        assert(cs[i].node == node && cs[i].source == source);
    }
    if exists|i: int| 0 <= i < cs.len() && (#[trigger] cs[i]).node == node && cs[i].source == source {
        let i = choose|i: int|
            0 <= i < cs.len() && (#[trigger] cs[i]).node == node && cs[i].source == source;
        assert(concerns(cs[i], Some(source), node));
    }
}

/// What is said of a node id that cannot be read, and what a removal tells is seen as it
/// is.
pub proof fn removals_are_seen_whole(shown: Seq<char>, cause: Seq<char>, r: AddressLookupRemoval)
    ensures
        bad_node_id(shown, cause) == "invalid node id "@ + shown + ": "@ + cause,
        r@.node_id == r.node_id@,
        r@.has_remaining_contributions == r.has_remaining_contributions,
        r@.remaining_addrs == lookup_views(r.remaining_addrs@),
{
}

} // verus!
