use vstd::prelude::*;
use crate::config::Vmi;
use crate::control::{Route, routes_of, routes_view};
use crate::flow::{Flow, FlowKey};
use crate::prefix::Prefix;
use crate::table::{Table, TableKey, assoc_insert, assoc_lookup, has_key, keys_unique, lemma_insert_keys, lemma_insert_unique};

verus! {

/// The non-negative remainder `((n % m) + m) % m`, here on `u64`.
///
/// On unsigned integers this is exactly `n % m`; the extra `+ m` keeps the
/// formula of the signed case.
pub fn n_mod_m(n: u64, m: u64) -> (r: u64)
    requires
        m > 0,
        (n % m) + m <= u64::MAX,
    ensures
        r == n % m,
        r < m,
{
    let a = n % m;
    let b = a + m;
    proof {
        vstd::arithmetic::div_mod::lemma_mod_add_multiples_vanish(a as int, m as int);
        vstd::arithmetic::div_mod::lemma_small_mod(a as nat, m as nat);
    }
    b % m
}

/// Rust's remainder `n % m` on signed integers, which takes the sign of
/// `n` (for `m > 0`).
pub open spec fn truncated_rem(n: int, m: int) -> int {
    if n >= 0 {
        n % m
    } else {
        -((-n) % m)
    }
}

/// The non-negative remainder `((n % m) + m) % m` on `i64`: the one value
/// in `0..m` that differs from `n` by a multiple of `m`.
pub fn n_mod_m_i64(n: i64, m: i64) -> (r: i64)
    requires
        m > 0,
        truncated_rem(n as int, m as int) + m <= i64::MAX,
    ensures
        r == (n as int) % (m as int),
        0 <= r < m,
        ((n as int) - (r as int)) % (m as int) == 0,
{
    let a = n % m;
    assert(a == truncated_rem(n as int, m as int));
    let b = a + m;
    let r = b % m;
    proof {
        let ni = n as int;
        let mi = m as int;
        let bi = b as int;
        if ni >= 0 {
            assert(bi == mi * 1 + ni % mi);
            vstd::arithmetic::div_mod::lemma_mod_multiples_vanish(1, ni % mi, mi);
            vstd::arithmetic::div_mod::lemma_mod_twice(ni, mi);
        } else {
            let q = (-ni) / mi;
            vstd::arithmetic::div_mod::lemma_fundamental_div_mod(-ni, mi);
            assert(-ni == mi * q + (-ni) % mi);
            assert(bi == mi * (q + 1) + ni) by (nonlinear_arith)
                requires
                    bi == -((-ni) % mi) + mi,
                    -ni == mi * q + (-ni) % mi,
            ;
            vstd::arithmetic::div_mod::lemma_mod_multiples_vanish(q + 1, ni, mi);
        }
        vstd::arithmetic::div_mod::lemma_fundamental_div_mod(ni, mi);
        assert(ni - (r as int) == (ni / mi) * mi) by (nonlinear_arith)
            requires
                ni == mi * (ni / mi) + ni % mi,
                r as int == ni % mi,
        ;
        vstd::arithmetic::div_mod::lemma_mod_multiples_basic(ni / mi, mi);
    }
    r
}

/// What `std::hash::DefaultHasher` gives for a flow key hashed field by
/// field (source address, source length, destination address, destination
/// length).
pub uninterp spec fn default_hash(src: u32, src_len: u8, dst: u32, dst_len: u8) -> u64;

/// The hash of a flow key.
pub open spec fn flow_key_hash(k: FlowKey) -> u64 {
    default_hash(k.src_prefix, k.src_prefix_len, k.dst_prefix, k.dst_prefix_len)
}

/// Hashes a flow key with `std::hash::DefaultHasher` (through
/// `BuildHasher::hash_one` on `BuildHasherDefault<DefaultHasher>`, which
/// is documented as `DefaultHasher::new()`, hashing the value, `finish()`).
/// The value hashed is the tuple of the source address, the source length,
/// the destination address and the destination length, each address as the
/// `u32` whose native-endian bytes are its four octets: the value that an
/// IPv4 address feeds to a hasher, so that the hash is that of a key whose
/// addresses are IPv4 addresses.
///
/// Claimed of it: the hash is `default_hash` of the key's fields. Every
/// `DefaultHasher` made by `new` is documented to be the same as all others
/// made so, so the same key gives the same hash; what the hash is, is left
/// unsaid.
#[verifier::external_body]
pub fn calculate_hash(key: &FlowKey) -> (h: u64)
    ensures
        h == default_hash(key.src_prefix, key.src_prefix_len, key.dst_prefix, key.dst_prefix_len),
{
    std::hash::BuildHasher::hash_one(
        &std::hash::BuildHasherDefault::<std::hash::DefaultHasher>::default(),
        (
            u32::from_ne_bytes(key.src_prefix.to_be_bytes()),
            key.src_prefix_len,
            u32::from_ne_bytes(key.dst_prefix.to_be_bytes()),
            key.dst_prefix_len,
        ),
    )
}

/// The partition (out of `partitions`) that a flow key belongs to: its hash
/// modulo the number of partitions.
pub open spec fn key_partition(k: FlowKey, partitions: i16) -> i16 {
    (flow_key_hash(k) % (partitions as u64)) as i16
}

/// The partition that a flow key belongs to.
pub fn flow_partition(key: &FlowKey, partitions: i16) -> (p: i16)
    requires
        partitions > 0,
    ensures
        p == key_partition(*key, partitions),
        0 <= p < partitions,
{
    let h = calculate_hash(key);
    let m = partitions as u64;
    let r = n_mod_m(h, m);
    r as i16
}

/// The flow key from prefix `src` to prefix `dst`.
pub open spec fn prefix_flow_key(src: Prefix, dst: Prefix) -> FlowKey {
    FlowKey { src_prefix: src.addr, src_prefix_len: src.len, dst_prefix: dst.addr, dst_prefix_len: dst.len }
}

/// The flow key from prefix `src` to prefix `dst`.
pub fn make_flow_key(src: Prefix, dst: Prefix) -> (k: FlowKey)
    ensures
        k == prefix_flow_key(src, dst),
{
    FlowKey { src_prefix: src.addr, src_prefix_len: src.len, dst_prefix: dst.addr, dst_prefix_len: dst.len }
}

/// The character of a decimal digit.
pub open spec fn digit_char(d: nat) -> char {
    if d == 0 { '0' }
    else if d == 1 { '1' }
    else if d == 2 { '2' }
    else if d == 3 { '3' }
    else if d == 4 { '4' }
    else if d == 5 { '5' }
    else if d == 6 { '6' }
    else if d == 7 { '7' }
    else if d == 8 { '8' }
    else { '9' }
}

/// The decimal digits of `n`, as `format!("{}", n)` writes them.
pub open spec fn decimal(n: nat) -> Seq<char>
    decreases n,
{
    if n < 10 {
        seq![digit_char(n)]
    } else {
        decimal(n / 10).push(digit_char(n % 10))
    }
}

fn digit_str(d: usize) -> (s: &'static str)
    requires
        d < 10,
    ensures
        s@ == seq![digit_char(d as nat)],
{
    if d == 0 {
        proof { reveal_strlit("0"); }
        "0"
    } else if d == 1 {
        proof { reveal_strlit("1"); }
        "1"
    } else if d == 2 {
        proof { reveal_strlit("2"); }
        "2"
    } else if d == 3 {
        proof { reveal_strlit("3"); }
        "3"
    } else if d == 4 {
        proof { reveal_strlit("4"); }
        "4"
    } else if d == 5 {
        proof { reveal_strlit("5"); }
        "5"
    } else if d == 6 {
        proof { reveal_strlit("6"); }
        "6"
    } else if d == 7 {
        proof { reveal_strlit("7"); }
        "7"
    } else if d == 8 {
        proof { reveal_strlit("8"); }
        "8"
    } else {
        proof { reveal_strlit("9"); }
        "9"
    }
}

fn append_decimal(s: &mut String, n: usize)
    ensures
        final(s)@ == old(s)@ + decimal(n as nat),
    decreases n,
{
    if n >= 10 {
        append_decimal(s, n / 10);
    }
    s.append(digit_str(n % 10));
    assert(final(s)@ =~= old(s)@ + decimal(n as nat));
}


/// What an agent is handed: a VMI attached to it, a route learnt from the
/// control node, or a flow (which the agent itself does not act on).
pub enum Add {
    Vmi(Vmi),
    Route(Route),
    Flow(Flow),
}

/// What an agent asks to be done after handling an [`Add`]: a route to
/// send to the control node, or a flow to send to a partition of its flow
/// table.
pub enum AgentEffect {
    SendRoute(Route),
    SendFlow(Flow, i16),
}

/// The abstract value of an [`AgentEffect`].
pub enum EffectModel {
    Route(Prefix, Seq<char>),
    Flow(FlowKey, Seq<char>, i16),
}

impl View for AgentEffect {
    type V = EffectModel;

    open spec fn view(&self) -> EffectModel {
        match self {
            AgentEffect::SendRoute(r) => EffectModel::Route(r.dst, r.nh@),
            AgentEffect::SendFlow(f, p) => EffectModel::Flow(f.flow_key, f.nh@, *p),
        }
    }
}

/// The abstract values of a list of effects.
pub open spec fn effects_view(v: Seq<AgentEffect>) -> Seq<EffectModel> {
    v.map_values(|e: AgentEffect| e@)
}

/// The flow from `src` to `dst` through `nh`, sent to the partition its
/// key belongs to.
pub open spec fn flow_effect(src: Prefix, dst: Prefix, nh: Seq<char>, partitions: i16) -> EffectModel {
    EffectModel::Flow(prefix_flow_key(src, dst), nh, key_partition(prefix_flow_key(src, dst), partitions))
}

/// Some entry of `s` has a key other than `dst`.
pub open spec fn has_other_key(s: Seq<(Prefix, Seq<char>)>, dst: Prefix) -> bool {
    exists|i: int| 0 <= i < s.len() && s[i].0 != dst
}

/// The name stored for a VMI address (meaningful where it is stored).
pub open spec fn vmi_name(vmis: Seq<(Prefix, Seq<char>)>, ip: Prefix) -> Seq<char> {
    assoc_lookup(vmis, ip).unwrap()
}

/// The flows made when a local route to `dst` (VMI name `vnh`) meets the
/// local routes `entries`: for each other local prefix `d` with name `n`,
/// `dst -> d` through `n` and `d -> dst` through `vnh`.
pub open spec fn local_local_flows(entries: Seq<(Prefix, Seq<char>)>, dst: Prefix, vnh: Seq<char>, partitions: i16) -> Seq<EffectModel>
    decreases entries.len(),
{
    if entries.len() == 0 {
        Seq::empty()
    } else {
        let e = entries.last();
        local_local_flows(entries.drop_last(), dst, vnh, partitions) + (if e.0 != dst {
            seq![flow_effect(dst, e.0, e.1, partitions), flow_effect(e.0, dst, vnh, partitions)]
        } else {
            Seq::empty()
        })
    }
}

/// The flows made when a local route to `dst` meets the remote routes
/// `entries`: for each remote prefix `d` through agent `n`, `dst -> d` and
/// `d -> dst`, both through `n`.
pub open spec fn local_remote_flows(entries: Seq<(Prefix, Seq<char>)>, dst: Prefix, partitions: i16) -> Seq<EffectModel>
    decreases entries.len(),
{
    if entries.len() == 0 {
        Seq::empty()
    } else {
        let e = entries.last();
        local_remote_flows(entries.drop_last(), dst, partitions) + seq![
            flow_effect(dst, e.0, e.1, partitions),
            flow_effect(e.0, dst, e.1, partitions),
        ]
    }
}

/// The flows made when a remote route to `dst` through agent `rnh` meets
/// the local routes `entries`: for each local prefix `d` other than `dst`,
/// `dst -> d` through the VMI stored for `d`, and `d -> dst` through `rnh`.
pub open spec fn remote_local_flows(
    entries: Seq<(Prefix, Seq<char>)>,
    vmis: Seq<(Prefix, Seq<char>)>,
    dst: Prefix,
    rnh: Seq<char>,
    partitions: i16,
) -> Seq<EffectModel>
    decreases entries.len(),
{
    if entries.len() == 0 {
        Seq::empty()
    } else {
        let e = entries.last();
        remote_local_flows(entries.drop_last(), vmis, dst, rnh, partitions) + (if e.0 != dst {
            seq![flow_effect(dst, e.0, vmi_name(vmis, e.0), partitions), flow_effect(e.0, dst, rnh, partitions)]
        } else {
            Seq::empty()
        })
    }
}

/// An agent's routing state: its name, the routes to its own VMIs (local),
/// the routes to other agents' VMIs (remote), its VMIs by address, and the
/// number of partitions of its flow table.
pub struct Agent {
    name: String,
    local_route_table: Table<Prefix>,
    remote_route_table: Table<Prefix>,
    vmi_table: Table<Prefix>,
    partitions: i16,
}

impl Agent {
    /// The agent's name.
    pub closed spec fn name_view(&self) -> Seq<char> {
        self.name@
    }

    /// Local routes: prefix and VMI name.
    pub closed spec fn local_view(&self) -> Seq<(Prefix, Seq<char>)> {
        self.local_route_table@
    }

    /// Remote routes: prefix and agent name.
    pub closed spec fn remote_view(&self) -> Seq<(Prefix, Seq<char>)> {
        self.remote_route_table@
    }

    /// VMIs: address and name.
    pub closed spec fn vmi_view(&self) -> Seq<(Prefix, Seq<char>)> {
        self.vmi_table@
    }

    /// The number of partitions of the agent's flow table.
    pub closed spec fn partitions_view(&self) -> i16 {
        self.partitions
    }

    /// The agent's state is well formed: no prefix occurs twice in a table,
    /// and every local route is to a prefix that has a VMI.
    pub open spec fn wf(&self) -> bool {
        &&& keys_unique(self.local_view())
        &&& keys_unique(self.remote_view())
        &&& keys_unique(self.vmi_view())
        &&& forall|k: Prefix| has_key(self.local_view(), k) ==> #[trigger] has_key(self.vmi_view(), k)
    }

    /// The local routes (prefix and VMI name), in table order.
    pub fn local_routes(&self) -> (v: Vec<Route>)
        ensures
            routes_view(v@) == self.local_view(),
    {
        routes_of(&self.local_route_table)
    }

    /// The remote routes (prefix and agent name), in table order.
    pub fn remote_routes(&self) -> (v: Vec<Route>)
        ensures
            routes_view(v@) == self.remote_view(),
    {
        routes_of(&self.remote_route_table)
    }

    /// The VMIs (address and name), in table order.
    pub fn vmis(&self) -> (v: Vec<Route>)
        ensures
            routes_view(v@) == self.vmi_view(),
    {
        routes_of(&self.vmi_table)
    }

    /// Whether the agent can handle `add` without failing: a route through
    /// the agent itself must be to a prefix that has a VMI, and a route that
    /// makes flows needs at least one partition to send them to (a route
    /// makes flows where there is a local route to another prefix, or, for a
    /// route through the agent itself, any remote route).
    pub open spec fn accepts(&self, add: &Add) -> bool {
        match add {
            Add::Route(r) => if r.nh@ == self.name_view() {
                &&& has_key(self.vmi_view(), r.dst)
                &&& (self.partitions_view() > 0 || (!has_other_key(self.local_view(), r.dst) && self.remote_view().len() == 0))
            } else {
                self.partitions_view() > 0 || !has_other_key(self.local_view(), r.dst)
            },
            _ => true,
        }
    }

    /// An agent with no routes and no VMIs.
    pub fn new(name: String, partitions: i16) -> (a: Self)
        ensures
            a.wf(),
            a.name_view() == name@,
            a.partitions_view() == partitions,
            a.local_view() == Seq::<(Prefix, Seq<char>)>::empty(),
            a.remote_view() == Seq::<(Prefix, Seq<char>)>::empty(),
            a.vmi_view() == Seq::<(Prefix, Seq<char>)>::empty(),
    {
        Agent {
            name,
            local_route_table: Table::new(),
            remote_route_table: Table::new(),
            vmi_table: Table::new(),
            partitions,
        }
    }

    /// The agent's name.
    pub fn name(&self) -> (n: &String)
        ensures
            n@ == self.name_view(),
    {
        &self.name
    }

    /// The number of partitions of the agent's flow table.
    pub fn partitions(&self) -> (p: i16)
        ensures
            p == self.partitions_view(),
    {
        self.partitions
    }

    /// Whether the agent can handle `add` (see [`Agent::accepts`]).
    pub fn can_handle(&self, add: &Add) -> (b: bool)
        requires
            self.wf(),
        ensures
            b == self.accepts(add),
    {
        match add {
            Add::Route(r) => {
                let other = Self::other_key_exists(&self.local_route_table, &r.dst);
                if r.nh == self.name {
                    self.vmi_table.contains_key(&r.dst) && (self.partitions > 0 || (!other
                        && self.remote_route_table.len() == 0))
                } else {
                    self.partitions > 0 || !other
                }
            },
            _ => true,
        }
    }

    fn other_key_exists(t: &Table<Prefix>, dst: &Prefix) -> (b: bool)
        ensures
            b == has_other_key(t@, *dst),
    {
        let n = t.len();
        let mut i: usize = 0;
        while i < n
            invariant
                n == t@.len(),
                i <= n,
                forall|j: int| 0 <= j < i ==> t@[j].0 == *dst,
            decreases n - i,
        {
            let k = t.key_at(i);
            if !k.same_key(dst) {
                return true;
            }
            i = i + 1;
        }
        false
    }

    fn push_flow(effects: &mut Vec<AgentEffect>, src: Prefix, dst: Prefix, nh: String, partitions: i16)
        requires
            partitions > 0,
        ensures
            effects_view(final(effects)@) == effects_view(old(effects)@).push(flow_effect(src, dst, nh@, partitions)),
    {
        let key = make_flow_key(src, dst);
        let p = flow_partition(&key, partitions);
        effects.push(AgentEffect::SendFlow(Flow { flow_key: key, nh }, p));
        assert(effects_view(final(effects)@) =~= effects_view(old(effects)@).push(flow_effect(src, dst, nh@, partitions)));
    }

    /// Handles what the agent is handed, and says what to send:
    /// - a VMI is stored under its address, named with its name followed by
    ///   the number of VMIs stored before it, and a route to its address
    ///   through its agent is sent to the control node;
    /// - a route through this agent becomes a local route to the VMI stored
    ///   for its prefix, and flows are made against every other local route
    ///   and every remote route;
    /// - a route through another agent becomes a remote route, and flows are
    ///   made against every local route to another prefix;
    /// - a flow is left alone.
    /// Each flow is sent to the partition its key belongs to.
    pub fn handle_add(&mut self, add: Add) -> (effects: Vec<AgentEffect>)
        requires
            old(self).wf(),
            old(self).accepts(&add),
        ensures
            final(self).wf(),
            final(self).name_view() == old(self).name_view(),
            final(self).partitions_view() == old(self).partitions_view(),
            match add {
                Add::Vmi(v) => {
                    &&& final(self).vmi_view() == assoc_insert(old(self).vmi_view(), v.ip, v.name@ + decimal(old(self).vmi_view().len()))
                    &&& final(self).local_view() == old(self).local_view()
                    &&& final(self).remote_view() == old(self).remote_view()
                    &&& effects_view(effects@) == seq![EffectModel::Route(v.ip, v.agent@)]
                },
                Add::Route(r) => {
                    &&& final(self).vmi_view() == old(self).vmi_view()
                    &&& paired_flows(effects_view(effects@), old(self).partitions_view())
                    &&& if r.nh@ == old(self).name_view() {
                        let vnh = vmi_name(old(self).vmi_view(), r.dst);
                        &&& final(self).local_view() == assoc_insert(old(self).local_view(), r.dst, vnh)
                        &&& final(self).remote_view() == old(self).remote_view()
                        &&& effects_view(effects@) == local_local_flows(final(self).local_view(), r.dst, vnh, old(self).partitions_view())
                            + local_remote_flows(old(self).remote_view(), r.dst, old(self).partitions_view())
                    } else {
                        &&& final(self).local_view() == old(self).local_view()
                        &&& final(self).remote_view() == assoc_insert(old(self).remote_view(), r.dst, r.nh@)
                        &&& effects_view(effects@) == remote_local_flows(old(self).local_view(), old(self).vmi_view(), r.dst, r.nh@, old(self).partitions_view())
                    }
                },
                Add::Flow(_) => {
                    &&& final(self).vmi_view() == old(self).vmi_view()
                    &&& final(self).local_view() == old(self).local_view()
                    &&& final(self).remote_view() == old(self).remote_view()
                    &&& effects@.len() == 0
                },
            },
    {
        let mut effects: Vec<AgentEffect> = Vec::new();
        match add {
            Add::Vmi(vmi) => {
                let mut vmi_name = vmi.name.clone();
                append_decimal(&mut vmi_name, self.vmi_table.len());
                proof {
                    assert forall|k: Prefix| has_key(self.local_view(), k) implies #[trigger] has_key(
                        assoc_insert(self.vmi_view(), vmi.ip, vmi_name@), k) by {
                        lemma_insert_keys(self.vmi_view(), vmi.ip, vmi_name@, k);
                    }
                }
                self.vmi_table.insert(vmi.ip, vmi_name);
                effects.push(AgentEffect::SendRoute(Route { dst: vmi.ip, nh: vmi.agent }));
                assert(effects_view(effects@) =~= seq![EffectModel::Route(vmi.ip, vmi.agent@)]);
            },
            Add::Route(route) => {
                let ghost dst = route.dst;
                let ghost nh = route.nh@;
                let ghost before = *self;
                if route.nh == self.name {
                    self.add_local_route(route, &mut effects);
                } else {
                    self.add_remote_route(route, &mut effects);
                }
                proof {
                    if before.partitions_view() > 0 {
                        law_route_flows_paired(
                            self.local_view(),
                            before.remote_view(),
                            before.vmi_view(),
                            dst,
                            nh,
                            vmi_name(before.vmi_view(), dst),
                            before.partitions_view(),
                        );
                        law_route_flows_paired(
                            before.local_view(),
                            before.remote_view(),
                            before.vmi_view(),
                            dst,
                            nh,
                            vmi_name(before.vmi_view(), dst),
                            before.partitions_view(),
                        );
                    } else {
                        assert(effects_view(effects@) =~= Seq::<EffectModel>::empty());
                    }
                }
            },
            Add::Flow(_) => {},
        }
        effects
    }

    fn add_local_route(&mut self, route: Route, effects: &mut Vec<AgentEffect>)
        requires
            old(self).wf(),
            has_key(old(self).vmi_view(), route.dst),
            old(self).partitions_view() > 0 || (!has_other_key(old(self).local_view(), route.dst)
                && old(self).remote_view().len() == 0),
            old(effects)@.len() == 0,
        ensures
            old(self).partitions_view() <= 0 ==> final(effects)@.len() == 0,
            final(self).wf(),
            final(self).name_view() == old(self).name_view(),
            final(self).partitions_view() == old(self).partitions_view(),
            final(self).vmi_view() == old(self).vmi_view(),
            final(self).local_view() == assoc_insert(old(self).local_view(), route.dst, vmi_name(old(self).vmi_view(), route.dst)),
            final(self).remote_view() == old(self).remote_view(),
            effects_view(final(effects)@) == local_local_flows(final(self).local_view(), route.dst, vmi_name(old(self).vmi_view(), route.dst), old(self).partitions_view())
                + local_remote_flows(old(self).remote_view(), route.dst, old(self).partitions_view()),
    {
        let dst = route.dst;
        let parts = self.partitions;
        let vnh = match self.vmi_table.get(&dst) {
            Some(v) => v,
            None => {
                return;
            },
        };
        let ghost vnh_v = vnh@;
        let ghost old_local = self.local_view();
        proof {
            lemma_insert_unique(self.local_view(), dst, vnh@);
            assert forall|k: Prefix| has_key(assoc_insert(self.local_view(), dst, vnh@), k) implies #[trigger] has_key(
                self.vmi_view(), k) by {
                lemma_insert_keys(self.local_view(), dst, vnh@, k);
            }
        }
        self.local_route_table.insert(dst, vnh);
        let n = self.local_route_table.len();
        let mut i: usize = 0;
        while i < n
            invariant
                self.wf(),
                n == self.local_view().len(),
                i <= n,
                parts == self.partitions_view(),
                effects_view(effects@) == local_local_flows(self.local_view().take(i as int), dst, vnh_v, parts),
                parts <= 0 ==> effects@.len() == 0,
                parts > 0 || !has_other_key(old_local, dst),
                forall|x: Prefix| has_key(self.local_view(), x) <==> (has_key(old_local, x) || x == dst),
                has_key(self.vmi_view(), dst),
                vmi_name(self.vmi_view(), dst) == vnh_v,
            decreases n - i,
        {
            proof {
                assert(self.local_view().take(i + 1).drop_last() =~= self.local_view().take(i as int));
            }
            let k = self.local_route_table.key_at(i);
            if !k.same_key(&dst) {
                proof {
                    assert(has_key(self.local_view(), k));
                    assert(has_key(old_local, k));
                    let j = crate::table::key_index(old_local, k);
                    assert(old_local[j].0 != dst);
                }
                let nh = self.local_route_table.value_at(i);
                Self::push_flow(effects, dst, k, nh, parts);
                let vmi = match self.vmi_table.get(&dst) {
                    Some(v) => v,
                    None => {
                        return;
                    },
                };
                Self::push_flow(effects, k, dst, vmi, parts);
            }
            assert(effects_view(effects@) =~= local_local_flows(self.local_view().take(i + 1), dst, vnh_v, parts));
            i = i + 1;
        }
        assert(self.local_view().take(n as int) =~= self.local_view());
        let ghost mid = effects_view(effects@);
        let m = self.remote_route_table.len();
        let mut j: usize = 0;
        while j < m
            invariant
                self.wf(),
                m == self.remote_view().len(),
                j <= m,
                parts == self.partitions_view(),
                parts > 0 || m == 0,
                parts <= 0 ==> effects@.len() == 0,
                effects_view(effects@) == mid + local_remote_flows(self.remote_view().take(j as int), dst, parts),
            decreases m - j,
        {
            proof {
                assert(self.remote_view().take(j + 1).drop_last() =~= self.remote_view().take(j as int));
            }
            let k = self.remote_route_table.key_at(j);
            let nh = self.remote_route_table.value_at(j);
            let nh2 = nh.clone();
            Self::push_flow(effects, dst, k, nh, parts);
            Self::push_flow(effects, k, dst, nh2, parts);
            assert(effects_view(effects@) =~= mid + local_remote_flows(self.remote_view().take(j + 1), dst, parts));
            j = j + 1;
        }
        assert(self.remote_view().take(m as int) =~= self.remote_view());
    }

    fn add_remote_route(&mut self, route: Route, effects: &mut Vec<AgentEffect>)
        requires
            old(self).wf(),
            old(self).partitions_view() > 0 || !has_other_key(old(self).local_view(), route.dst),
            old(effects)@.len() == 0,
        ensures
            old(self).partitions_view() <= 0 ==> final(effects)@.len() == 0,
            final(self).wf(),
            final(self).name_view() == old(self).name_view(),
            final(self).partitions_view() == old(self).partitions_view(),
            final(self).vmi_view() == old(self).vmi_view(),
            final(self).local_view() == old(self).local_view(),
            final(self).remote_view() == assoc_insert(old(self).remote_view(), route.dst, route.nh@),
            effects_view(final(effects)@) == remote_local_flows(old(self).local_view(), old(self).vmi_view(), route.dst, route.nh@, old(self).partitions_view()),
    {
        let dst = route.dst;
        let parts = self.partitions;
        let ghost rnh = route.nh@;
        let rnh_exec = route.nh.clone();
        proof {
            lemma_insert_unique(self.remote_view(), dst, route.nh@);
        }
        self.remote_route_table.insert(dst, route.nh);
        assert(effects_view(effects@) =~= Seq::<EffectModel>::empty());
        let n = self.local_route_table.len();
        let mut i: usize = 0;
        while i < n
            invariant
                self.wf(),
                n == self.local_view().len(),
                i <= n,
                parts == self.partitions_view(),
                parts > 0 || !has_other_key(self.local_view(), dst),
                parts <= 0 ==> effects@.len() == 0,
                rnh_exec@ == rnh,
                effects_view(effects@) == remote_local_flows(self.local_view().take(i as int), self.vmi_view(), dst, rnh, parts),
            decreases n - i,
        {
            proof {
                assert(self.local_view().take(i + 1).drop_last() =~= self.local_view().take(i as int));
            }
            let k = self.local_route_table.key_at(i);
            if !k.same_key(&dst) {
                proof {
                    assert(has_key(self.local_view(), k));
                    assert(self.local_view()[i as int].0 != dst);
                }
                let vmi = match self.vmi_table.get(&k) {
                    Some(v) => v,
                    None => {
                        return;
                    },
                };
                Self::push_flow(effects, dst, k, vmi, parts);
                Self::push_flow(effects, k, dst, rnh_exec.clone(), parts);
            }
            assert(effects_view(effects@) =~= remote_local_flows(self.local_view().take(i + 1), self.vmi_view(), dst, rnh, parts));
            i = i + 1;
        }
        assert(self.local_view().take(n as int) =~= self.local_view());
    }
}

/// The key of the flow in the opposite direction.
pub open spec fn reverse_key(k: FlowKey) -> FlowKey {
    FlowKey { src_prefix: k.dst_prefix, src_prefix_len: k.dst_prefix_len, dst_prefix: k.src_prefix, dst_prefix_len: k.src_prefix_len }
}

/// A flow effect goes to the partition its key belongs to, which is one of
/// the `partitions` partitions.
pub open spec fn well_partitioned(e: EffectModel, partitions: i16) -> bool {
    match e {
        EffectModel::Flow(k, _, p) => p == key_partition(k, partitions) && 0 <= p < partitions,
        EffectModel::Route(_, _) => false,
    }
}

/// Flows come in pairs: each flow at an even position is followed by the
/// flow of the opposite direction, and every flow is well partitioned.
pub open spec fn paired_flows(s: Seq<EffectModel>, partitions: i16) -> bool {
    &&& s.len() % 2 == 0
    &&& forall|i: int| 0 <= i < s.len() ==> #[trigger] well_partitioned(s[i], partitions)
    &&& forall|i: int| 0 <= i < s.len() / 2 ==> (#[trigger] s[2 * i] matches EffectModel::Flow(k, _, _)
        && s[2 * i + 1] matches EffectModel::Flow(k2, _, _) && k2 == reverse_key(k))
}

proof fn lemma_key_partition_range(k: FlowKey, partitions: i16)
    requires
        partitions > 0,
    ensures
        0 <= key_partition(k, partitions) < partitions,
{
    let h = flow_key_hash(k);
    let m = partitions as u64;
    assert(h % m < m);
}

proof fn lemma_flow_pair(src: Prefix, dst: Prefix, nh1: Seq<char>, nh2: Seq<char>, partitions: i16)
    requires
        partitions > 0,
    ensures
        paired_flows(seq![flow_effect(src, dst, nh1, partitions), flow_effect(dst, src, nh2, partitions)], partitions),
{
    lemma_key_partition_range(prefix_flow_key(src, dst), partitions);
    lemma_key_partition_range(prefix_flow_key(dst, src), partitions);
    let s = seq![flow_effect(src, dst, nh1, partitions), flow_effect(dst, src, nh2, partitions)];
    assert forall|i: int| 0 <= i < s.len() / 2 implies (#[trigger] s[2 * i] matches EffectModel::Flow(k, _, _)
        && s[2 * i + 1] matches EffectModel::Flow(k2, _, _) && k2 == reverse_key(k)) by {
        assert(i == 0);
    }
}

proof fn lemma_paired_concat(a: Seq<EffectModel>, b: Seq<EffectModel>, partitions: i16)
    requires
        paired_flows(a, partitions),
        paired_flows(b, partitions),
    ensures
        paired_flows(a + b, partitions),
{
    let s = a + b;
    assert forall|i: int| 0 <= i < s.len() implies #[trigger] well_partitioned(s[i], partitions) by {
        if i < a.len() {
            assert(s[i] == a[i]);
        } else {
            assert(s[i] == b[i - a.len()]);
        }
    }
    assert forall|i: int| 0 <= i < s.len() / 2 implies (#[trigger] s[2 * i] matches EffectModel::Flow(k, _, _)
        && s[2 * i + 1] matches EffectModel::Flow(k2, _, _) && k2 == reverse_key(k)) by {
        if 2 * i < a.len() {
            assert(s[2 * i] == a[2 * i]);
            assert(s[2 * i + 1] == a[2 * i + 1]);
        } else {
            let j = i - a.len() / 2;
            assert(2 * j == 2 * i - a.len());
            assert(s[2 * i] == b[2 * j]);
            assert(s[2 * i + 1] == b[2 * j + 1]);
        }
    }
}

proof fn lemma_empty_paired(partitions: i16)
    ensures
        paired_flows(Seq::<EffectModel>::empty(), partitions),
{
}

proof fn lemma_local_local_paired(entries: Seq<(Prefix, Seq<char>)>, dst: Prefix, vnh: Seq<char>, partitions: i16)
    requires
        partitions > 0,
    ensures
        paired_flows(local_local_flows(entries, dst, vnh, partitions), partitions),
    decreases entries.len(),
{
    if entries.len() > 0 {
        let e = entries.last();
        lemma_local_local_paired(entries.drop_last(), dst, vnh, partitions);
        if e.0 != dst {
            lemma_flow_pair(dst, e.0, e.1, vnh, partitions);
        } else {
            lemma_empty_paired(partitions);
        }
        lemma_paired_concat(
            local_local_flows(entries.drop_last(), dst, vnh, partitions),
            if e.0 != dst {
                seq![flow_effect(dst, e.0, e.1, partitions), flow_effect(e.0, dst, vnh, partitions)]
            } else {
                Seq::empty()
            },
            partitions,
        );
    }
}

proof fn lemma_local_remote_paired(entries: Seq<(Prefix, Seq<char>)>, dst: Prefix, partitions: i16)
    requires
        partitions > 0,
    ensures
        paired_flows(local_remote_flows(entries, dst, partitions), partitions),
    decreases entries.len(),
{
    if entries.len() > 0 {
        let e = entries.last();
        lemma_local_remote_paired(entries.drop_last(), dst, partitions);
        lemma_flow_pair(dst, e.0, e.1, e.1, partitions);
        lemma_paired_concat(
            local_remote_flows(entries.drop_last(), dst, partitions),
            seq![flow_effect(dst, e.0, e.1, partitions), flow_effect(e.0, dst, e.1, partitions)],
            partitions,
        );
    }
}

proof fn lemma_remote_local_paired(
    entries: Seq<(Prefix, Seq<char>)>,
    vmis: Seq<(Prefix, Seq<char>)>,
    dst: Prefix,
    rnh: Seq<char>,
    partitions: i16,
)
    requires
        partitions > 0,
    ensures
        paired_flows(remote_local_flows(entries, vmis, dst, rnh, partitions), partitions),
    decreases entries.len(),
{
    if entries.len() > 0 {
        let e = entries.last();
        lemma_remote_local_paired(entries.drop_last(), vmis, dst, rnh, partitions);
        if e.0 != dst {
            lemma_flow_pair(dst, e.0, vmi_name(vmis, e.0), rnh, partitions);
        } else {
            lemma_empty_paired(partitions);
        }
        lemma_paired_concat(
            remote_local_flows(entries.drop_last(), vmis, dst, rnh, partitions),
            if e.0 != dst {
                seq![flow_effect(dst, e.0, vmi_name(vmis, e.0), partitions), flow_effect(e.0, dst, rnh, partitions)]
            } else {
                Seq::empty()
            },
            partitions,
        );
    }
}

/// The flows an agent makes when it learns a route come in pairs, one for
/// each direction between the route's prefix and another prefix, and each
/// flow is sent to the partition its key belongs to.
pub proof fn law_route_flows_paired(
    local: Seq<(Prefix, Seq<char>)>,
    remote: Seq<(Prefix, Seq<char>)>,
    vmis: Seq<(Prefix, Seq<char>)>,
    dst: Prefix,
    nh: Seq<char>,
    vnh: Seq<char>,
    partitions: i16,
)
    requires
        partitions > 0,
    ensures
        paired_flows(local_local_flows(local, dst, vnh, partitions) + local_remote_flows(remote, dst, partitions), partitions),
        paired_flows(remote_local_flows(local, vmis, dst, nh, partitions), partitions),
{
    lemma_local_local_paired(local, dst, vnh, partitions);
    lemma_local_remote_paired(remote, dst, partitions);
    lemma_paired_concat(local_local_flows(local, dst, vnh, partitions), local_remote_flows(remote, dst, partitions), partitions);
    lemma_remote_local_paired(local, vmis, dst, nh, partitions);
}

/// A route through another agent to a prefix that has no local route
/// yields exactly two flows for each local route: none is dropped.
pub proof fn law_remote_route_flow_count(
    local: Seq<(Prefix, Seq<char>)>,
    vmis: Seq<(Prefix, Seq<char>)>,
    dst: Prefix,
    rnh: Seq<char>,
    partitions: i16,
)
    requires
        !has_key(local, dst),
    ensures
        remote_local_flows(local, vmis, dst, rnh, partitions).len() == 2 * local.len(),
    decreases local.len(),
{
    if local.len() > 0 {
        assert(!has_key(local.drop_last(), dst)) by {
            if has_key(local.drop_last(), dst) {
                let i = crate::table::key_index(local.drop_last(), dst);
                assert(local[i].0 == dst);
            }
        }
        assert(local.last().0 != dst) by {
            assert(local[local.len() - 1].0 == local.last().0);
        }
        law_remote_route_flow_count(local.drop_last(), vmis, dst, rnh, partitions);
    }
}

/// The flow from `src` to `dst` through `nh`, in partition
/// `key_partition` of its key, written out field by field.
pub open spec fn explicit_flow(src: Prefix, dst: Prefix, nh: Seq<char>, partitions: i16) -> EffectModel {
    EffectModel::Flow(
        FlowKey { src_prefix: src.addr, src_prefix_len: src.len, dst_prefix: dst.addr, dst_prefix_len: dst.len },
        nh,
        key_partition(
            FlowKey { src_prefix: src.addr, src_prefix_len: src.len, dst_prefix: dst.addr, dst_prefix_len: dst.len },
            partitions,
        ),
    )
}

/// A local route to `dst` (VMI name `vnh`) meets the local routes: with
/// `others` the local routes to other prefixes in table order, exactly one
/// pair per such route, `dst -> d` through that route's VMI name and
/// `d -> dst` through `vnh`, and nothing else.
pub proof fn law_local_local_flows(entries: Seq<(Prefix, Seq<char>)>, dst: Prefix, vnh: Seq<char>, partitions: i16)
    ensures
        ({
            let others = entries.filter(|e: (Prefix, Seq<char>)| e.0 != dst);
            let flows = local_local_flows(entries, dst, vnh, partitions);
            &&& flows.len() == 2 * others.len()
            &&& forall|i: int| 0 <= i < others.len() ==> {
                &&& #[trigger] flows[2 * i] == explicit_flow(dst, others[i].0, others[i].1, partitions)
                &&& flows[2 * i + 1] == explicit_flow(others[i].0, dst, vnh, partitions)
            }
        }),
    decreases entries.len(),
{
    reveal_with_fuel(Seq::<_>::filter, 1);
    if entries.len() > 0 {
        let prev = entries.drop_last();
        let e = entries.last();
        law_local_local_flows(prev, dst, vnh, partitions);
        let po = prev.filter(|e: (Prefix, Seq<char>)| e.0 != dst);
        let pf = local_local_flows(prev, dst, vnh, partitions);
        let others = entries.filter(|e: (Prefix, Seq<char>)| e.0 != dst);
        let flows = local_local_flows(entries, dst, vnh, partitions);
        assert forall|i: int| 0 <= i < others.len() implies {
            &&& #[trigger] flows[2 * i] == explicit_flow(dst, others[i].0, others[i].1, partitions)
            &&& flows[2 * i + 1] == explicit_flow(others[i].0, dst, vnh, partitions)
        } by {
            if i < po.len() {
                assert(pf[2 * i] == explicit_flow(dst, po[i].0, po[i].1, partitions));
                assert(flows[2 * i] == pf[2 * i]);
                assert(flows[2 * i + 1] == pf[2 * i + 1]);
                assert(others[i] == po[i]);
            } else {
                assert(others[i] == e);
            }
        }
    }
}

/// A local route to `dst` meets the remote routes: exactly one pair per
/// remote route `(d, n)`, in table order, `dst -> d` and `d -> dst`, both
/// through `n`; so twice as many flows as remote routes.
pub proof fn law_local_remote_flows(remote: Seq<(Prefix, Seq<char>)>, dst: Prefix, partitions: i16)
    ensures
        local_remote_flows(remote, dst, partitions).len() == 2 * remote.len(),
        forall|i: int| 0 <= i < remote.len() ==> {
            &&& #[trigger] local_remote_flows(remote, dst, partitions)[2 * i] == explicit_flow(dst, remote[i].0, remote[i].1, partitions)
            &&& local_remote_flows(remote, dst, partitions)[2 * i + 1] == explicit_flow(remote[i].0, dst, remote[i].1, partitions)
        },
    decreases remote.len(),
{
    if remote.len() > 0 {
        let prev = remote.drop_last();
        law_local_remote_flows(prev, dst, partitions);
        let pf = local_remote_flows(prev, dst, partitions);
        let flows = local_remote_flows(remote, dst, partitions);
        assert forall|i: int| 0 <= i < remote.len() implies {
            &&& #[trigger] flows[2 * i] == explicit_flow(dst, remote[i].0, remote[i].1, partitions)
            &&& flows[2 * i + 1] == explicit_flow(remote[i].0, dst, remote[i].1, partitions)
        } by {
            if i < prev.len() {
                assert(pf[2 * i] == explicit_flow(dst, prev[i].0, prev[i].1, partitions));
                assert(flows[2 * i] == pf[2 * i]);
                assert(flows[2 * i + 1] == pf[2 * i + 1]);
                assert(remote[i] == prev[i]);
            }
        }
    }
}

/// A remote route to `dst` through `rnh` meets the local routes: with
/// `others` the local routes to other prefixes in table order, exactly one
/// pair per such route `(d, _)`: `dst -> d` through the VMI stored for `d`
/// and `d -> dst` through `rnh`, and nothing else.
pub proof fn law_remote_local_flows(
    entries: Seq<(Prefix, Seq<char>)>,
    vmis: Seq<(Prefix, Seq<char>)>,
    dst: Prefix,
    rnh: Seq<char>,
    partitions: i16,
)
    ensures
        ({
            let others = entries.filter(|e: (Prefix, Seq<char>)| e.0 != dst);
            let flows = remote_local_flows(entries, vmis, dst, rnh, partitions);
            &&& flows.len() == 2 * others.len()
            &&& forall|i: int| 0 <= i < others.len() ==> {
                &&& #[trigger] flows[2 * i] == explicit_flow(dst, others[i].0, assoc_lookup(vmis, others[i].0).unwrap(), partitions)
                &&& flows[2 * i + 1] == explicit_flow(others[i].0, dst, rnh, partitions)
            }
        }),
    decreases entries.len(),
{
    reveal_with_fuel(Seq::<_>::filter, 1);
    if entries.len() > 0 {
        let prev = entries.drop_last();
        let e = entries.last();
        law_remote_local_flows(prev, vmis, dst, rnh, partitions);
        let po = prev.filter(|e: (Prefix, Seq<char>)| e.0 != dst);
        let pf = remote_local_flows(prev, vmis, dst, rnh, partitions);
        let others = entries.filter(|e: (Prefix, Seq<char>)| e.0 != dst);
        let flows = remote_local_flows(entries, vmis, dst, rnh, partitions);
        assert forall|i: int| 0 <= i < others.len() implies {
            &&& #[trigger] flows[2 * i] == explicit_flow(dst, others[i].0, assoc_lookup(vmis, others[i].0).unwrap(), partitions)
            &&& flows[2 * i + 1] == explicit_flow(others[i].0, dst, rnh, partitions)
        } by {
            if i < po.len() {
                assert(pf[2 * i] == explicit_flow(dst, po[i].0, assoc_lookup(vmis, po[i].0).unwrap(), partitions));
                assert(flows[2 * i] == pf[2 * i]);
                assert(flows[2 * i + 1] == pf[2 * i + 1]);
                assert(others[i] == po[i]);
            } else {
                assert(others[i] == e);
            }
        }
    }
}

/// An agent with at least one partition takes every VMI, every flow, every
/// route through another agent, and every route through itself to a prefix
/// that has a VMI; it refuses only a route through itself to a prefix with
/// no VMI (where the original's lookup of the VMI fails).
pub proof fn law_accepts(agent: Agent, add: Add)
    requires
        agent.partitions_view() > 0,
    ensures
        agent.accepts(&add) == (match add {
            Add::Route(r) => r.nh@ == agent.name_view() ==> has_key(agent.vmi_view(), r.dst),
            _ => true,
        }),
{
}

/// The number a string of decimal digits denotes.
pub open spec fn decimal_value(s: Seq<char>) -> int
    decreases s.len(),
{
    if s.len() == 0 {
        0
    } else {
        decimal_value(s.drop_last()) * 10 + (s.last() as int - '0' as int)
    }
}

/// Each decimal digit is the character `d` places after `'0'`.
pub proof fn law_digit_char(d: nat)
    requires
        d < 10,
    ensures
        digit_char(d) as int == '0' as int + d,
{
}

/// The numeral of `n` is a non-empty string of the characters `'0'` to
/// `'9'` that reads back as `n`; so different numbers have different
/// numerals.
pub proof fn law_decimal(n: nat, m: nat)
    ensures
        decimal(n).len() > 0,
        forall|i: int| 0 <= i < decimal(n).len() ==> '0' as int <= #[trigger] decimal(n)[i] as int <= '9' as int,
        decimal_value(decimal(n)) == n,
        decimal(n) == decimal(m) ==> n == m,
    decreases n,
{
    lemma_decimal_reads_back(n);
    lemma_decimal_reads_back(m);
}

proof fn lemma_decimal_reads_back(n: nat)
    ensures
        decimal(n).len() > 0,
        forall|i: int| 0 <= i < decimal(n).len() ==> '0' as int <= #[trigger] decimal(n)[i] as int <= '9' as int,
        decimal_value(decimal(n)) == n,
    decreases n,
{
    if n < 10 {
        law_digit_char(n);
        assert(decimal(n).drop_last() =~= Seq::<char>::empty());
        assert(decimal_value(Seq::<char>::empty()) == 0);
        assert(decimal(n).last() == digit_char(n));
        assert(decimal_value(decimal(n)) == decimal_value(decimal(n).drop_last()) * 10 + (decimal(n).last() as int - '0' as int));
    } else {
        lemma_decimal_reads_back(n / 10);
        law_digit_char(n % 10);
        assert(decimal(n).drop_last() =~= decimal(n / 10));
        let s = decimal(n);
        assert(s.last() == digit_char(n % 10));
        assert(n == (n / 10) * 10 + n % 10) by (nonlinear_arith);
        assert(decimal_value(s) == decimal_value(decimal(n / 10)) * 10 + (s.last() as int - '0' as int));
        assert forall|i: int| 0 <= i < s.len() implies '0' as int <= #[trigger] s[i] as int <= '9' as int by {
            if i < s.len() - 1 {
                assert(s[i] == decimal(n / 10)[i]);
            }
        }
    }
}

} // verus!
