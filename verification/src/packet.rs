use vstd::prelude::*;
use crate::agent::{flow_partition, key_partition, EffectModel};
use crate::flow::FlowKey;

verus! {

#[verifier::external_type_specification]
#[verifier::external_body]
pub struct ExThreadRng(rand::rngs::ThreadRng);

/// Calls `rand::thread_rng`, the generator of the current thread, seeded by
/// the system. Nothing is claimed of it.
#[verifier::external_body]
fn thread_rng() -> rand::rngs::ThreadRng {
    rand::thread_rng()
}

/// Calls `rand::Rng::gen_range` on the half-open range `low..high`.
///
/// Claimed of it: the number drawn lies in the range (its source samples an
/// integer range through `sample_single` and asserts that the range is not
/// empty, which `requires` rules out). Which number comes is left unsaid.
#[verifier::external_body]
fn gen_range(rng: &mut rand::rngs::ThreadRng, low: usize, high: usize) -> (r: usize)
    requires
        low < high,
    ensures
        low <= r < high,
{
    rand::Rng::gen_range(rng, low..high)
}

/// A host address: IPv4 (big-endian `u32`) or IPv6 (big-endian `u128`).
#[derive(Clone, Copy, PartialEq, Eq, Structural, Debug)]
pub enum HostAddr {
    V4(u32),
    V6(u128),
}

/// The IPv4 address of a host, or `0.0.0.0` for an IPv6 host.
pub open spec fn v4_or_zero(h: HostAddr) -> u32 {
    match h {
        HostAddr::V4(a) => a,
        HostAddr::V6(_) => 0,
    }
}

/// `a` is the IPv4 address (or the `0.0.0.0` of an IPv6 host) of some host
/// of `hosts`.
pub open spec fn is_host_v4(hosts: Seq<HostAddr>, a: u32) -> bool {
    exists|i: int| 0 <= i < hosts.len() && v4_or_zero(#[trigger] hosts[i]) == a
}

/// The packet made of a draw of host positions `i`, `j` and ports: none
/// where the two hosts have the same IPv4 address (`0.0.0.0` for IPv6).
pub open spec fn draw_packet(src: Seq<HostAddr>, dst: Seq<HostAddr>, i: int, j: int, src_port: u16, dst_port: u16) -> Option<Packet> {
    let s = v4_or_zero(src[i]);
    let d = v4_or_zero(dst[j]);
    if s == d {
        None
    } else {
        Some(Packet { src_ip: s, dst_ip: d, src_port, dst_port })
    }
}

/// A packet between two IPv4 hosts.
#[derive(Clone, Copy, PartialEq, Eq, Structural, Debug)]
pub struct Packet {
    pub src_ip: u32,
    pub dst_ip: u32,
    pub src_port: u16,
    pub dst_port: u16,
}

/// The flow key a packet is looked up by: source and destination addresses
/// as `/32` prefixes.
pub open spec fn packet_key(p: Packet) -> FlowKey {
    FlowKey { src_prefix: p.src_ip, src_prefix_len: 32, dst_prefix: p.dst_ip, dst_prefix_len: 32 }
}

impl Packet {
    /// The flow key the packet is looked up by.
    pub fn flow_key(&self) -> (k: FlowKey)
        ensures
            k == packet_key(*self),
    {
        FlowKey { src_prefix: self.src_ip, src_prefix_len: 32, dst_prefix: self.dst_ip, dst_prefix_len: 32 }
    }
}

/// A traffic generator: the hosts it picks sources and destinations from,
/// the number of partitions of the flow table it looks packets up in, and
/// how many packets found their flow.
pub struct Datapath {
    src_hosts: Vec<HostAddr>,
    dst_hosts: Vec<HostAddr>,
    partitions: i16,
    hit_flow_counter: u64,
    name: String,
}

impl Datapath {
    /// The hosts sources are picked from.
    pub closed spec fn src_view(&self) -> Seq<HostAddr> {
        self.src_hosts@
    }

    /// The hosts destinations are picked from.
    pub closed spec fn dst_view(&self) -> Seq<HostAddr> {
        self.dst_hosts@
    }

    /// The number of partitions of the flow table.
    pub closed spec fn partitions_view(&self) -> i16 {
        self.partitions
    }

    /// How many packets found their flow.
    pub closed spec fn hits(&self) -> u64 {
        self.hit_flow_counter
    }

    /// The datapath's name.
    pub closed spec fn name_view(&self) -> Seq<char> {
        self.name@
    }

    /// A datapath over the given hosts, with no hits yet.
    pub fn new(src_ips: Vec<HostAddr>, dst_ips: Vec<HostAddr>, partitions: i16, name: String) -> (d: Self)
        ensures
            d.src_view() == src_ips@,
            d.dst_view() == dst_ips@,
            d.partitions_view() == partitions,
            d.hits() == 0,
            d.name_view() == name@,
    {
        Datapath { src_hosts: src_ips, dst_hosts: dst_ips, partitions, hit_flow_counter: 0, name }
    }

    /// The datapath's name.
    pub fn name(&self) -> (n: &String)
        ensures
            n@ == self.name_view(),
    {
        &self.name
    }

    /// The number of source hosts.
    pub fn src_len(&self) -> (n: usize)
        ensures
            n == self.src_view().len(),
    {
        self.src_hosts.len()
    }

    /// The number of destination hosts.
    pub fn dst_len(&self) -> (n: usize)
        ensures
            n == self.dst_view().len(),
    {
        self.dst_hosts.len()
    }

    /// The number of partitions of the flow table.
    pub fn partitions(&self) -> (n: i16)
        ensures
            n == self.partitions_view(),
    {
        self.partitions
    }

    /// The IPv4 addresses (`0.0.0.0` for an IPv6 host) of the source host
    /// at `src_idx` and the destination host at `dst_idx`.
    pub fn pick(&self, src_idx: usize, dst_idx: usize) -> (r: (u32, u32))
        requires
            src_idx < self.src_view().len(),
            dst_idx < self.dst_view().len(),
        ensures
            r == (v4_or_zero(self.src_view()[src_idx as int]), v4_or_zero(self.dst_view()[dst_idx as int])),
    {
        let src_ip = match self.src_hosts[src_idx] {
            HostAddr::V4(a) => a,
            HostAddr::V6(_) => 0,
        };
        let dst_ip = match self.dst_hosts[dst_idx] {
            HostAddr::V4(a) => a,
            HostAddr::V6(_) => 0,
        };
        (src_ip, dst_ip)
    }

    /// The packet made of a draw: the hosts at `src_idx` and `dst_idx` and
    /// the two ports; none where the two hosts have the same address.
    pub fn packet_from_draw(&self, src_idx: usize, dst_idx: usize, src_port: u16, dst_port: u16) -> (r: Option<Packet>)
        requires
            src_idx < self.src_view().len(),
            dst_idx < self.dst_view().len(),
        ensures
            r == draw_packet(self.src_view(), self.dst_view(), src_idx as int, dst_idx as int, src_port, dst_port),
    {
        let (src_ip, dst_ip) = self.pick(src_idx, dst_idx);
        if src_ip == dst_ip {
            None
        } else {
            Some(Packet { src_ip, dst_ip, src_port, dst_port })
        }
    }

    /// Picks a source host and a destination host at random and gives their
    /// IPv4 addresses (`0.0.0.0` for an IPv6 host).
    pub fn random(&self) -> (r: (u32, u32))
        requires
            self.src_view().len() > 0,
            self.dst_view().len() > 0,
        ensures
            exists|i: int, j: int|
                0 <= i < self.src_view().len() && 0 <= j < self.dst_view().len()
                && r == (v4_or_zero(self.src_view()[i]), v4_or_zero(self.dst_view()[j])),
            is_host_v4(self.src_view(), r.0),
            is_host_v4(self.dst_view(), r.1),
    {
        let mut rng = thread_rng();
        let src_idx = gen_range(&mut rng, 0, self.src_hosts.len());
        let dst_idx = gen_range(&mut rng, 0, self.dst_hosts.len());
        let r = self.pick(src_idx, dst_idx);
        assert(v4_or_zero(self.src_view()[src_idx as int]) == r.0);
        assert(v4_or_zero(self.dst_view()[dst_idx as int]) == r.1);
        r
    }

    /// One try at a packet: picks a source and a destination at random; if
    /// they are the same address there is no packet this time, else the
    /// packet gets random ports from 1 to 65534. The result is what
    /// [`Datapath::packet_from_draw`] makes of some draw.
    pub fn try_packet(&self) -> (r: Option<Packet>)
        requires
            self.src_view().len() > 0,
            self.dst_view().len() > 0,
        ensures
            exists|i: int, j: int, sp: u16, dp: u16|
                0 <= i < self.src_view().len() && 0 <= j < self.dst_view().len()
                && 1 <= sp < 65535 && 1 <= dp < 65535
                && r == draw_packet(self.src_view(), self.dst_view(), i, j, sp, dp),
            r matches Some(p) ==> {
                &&& p.src_ip != p.dst_ip
                &&& is_host_v4(self.src_view(), p.src_ip)
                &&& is_host_v4(self.dst_view(), p.dst_ip)
                &&& 1 <= p.src_port < 65535
                &&& 1 <= p.dst_port < 65535
            },
            r is None ==> exists|a: u32| is_host_v4(self.src_view(), a) && is_host_v4(self.dst_view(), a),
    {
        let mut rng = thread_rng();
        let src_idx = gen_range(&mut rng, 0, self.src_hosts.len());
        let dst_idx = gen_range(&mut rng, 0, self.dst_hosts.len());
        let (src_ip, dst_ip) = self.pick(src_idx, dst_idx);
        assert(v4_or_zero(self.src_view()[src_idx as int]) == src_ip);
        assert(v4_or_zero(self.dst_view()[dst_idx as int]) == dst_ip);
        if src_ip == dst_ip {
            proof {
                assert(draw_packet(self.src_view(), self.dst_view(), src_idx as int, dst_idx as int, 1, 1) is None);
                assert(is_host_v4(self.src_view(), src_ip));
                assert(is_host_v4(self.dst_view(), src_ip));
            }
            return None;
        }
        let src_port = gen_range(&mut rng, 1, 65535) as u16;
        let dst_port = gen_range(&mut rng, 1, 65535) as u16;
        let r = self.packet_from_draw(src_idx, dst_idx, src_port, dst_port);
        assert(r == draw_packet(self.src_view(), self.dst_view(), src_idx as int, dst_idx as int, src_port, dst_port));
        r
    }

    /// Where a packet is looked up: its flow key and the partition that key
    /// belongs to.
    pub fn lookup_target(&self, packet: &Packet) -> (r: (FlowKey, i16))
        requires
            self.partitions_view() > 0,
        ensures
            r.0 == packet_key(*packet),
            r.1 == key_partition(packet_key(*packet), self.partitions_view()),
            0 <= r.1 < self.partitions_view(),
    {
        let key = packet.flow_key();
        let p = flow_partition(&key, self.partitions);
        (key, p)
    }

    /// Counts one more packet that found its flow.
    pub fn record_hit(&mut self)
        requires
            old(self).hits() < u64::MAX,
        ensures
            final(self).hits() == old(self).hits() + 1,
            final(self).src_view() == old(self).src_view(),
            final(self).dst_view() == old(self).dst_view(),
            final(self).partitions_view() == old(self).partitions_view(),
            final(self).name_view() == old(self).name_view(),
    {
        self.hit_flow_counter = self.hit_flow_counter + 1;
    }

    /// How many packets found their flow.
    pub fn flow_counter(&self) -> (n: u64)
        ensures
            n == self.hits(),
    {
        self.hit_flow_counter
    }
}

/// A packet is looked up in the partition where an agent put the flow with
/// the packet's key: for a flow among the flows an agent makes from a route
/// (which `Agent::handle_add` ensures are paired and well partitioned) and a
/// datapath that counts the same partitions, the key and partition that
/// `Datapath::lookup_target` gives for a packet with that flow's key are the
/// flow's key and the partition the flow was sent to.
pub proof fn law_packet_meets_its_flow(
    effects: Seq<EffectModel>,
    i: int,
    datapath: Datapath,
    packet: Packet,
    target: (FlowKey, i16),
)
    requires
        crate::agent::paired_flows(effects, datapath.partitions_view()),
        0 <= i < effects.len(),
        effects[i] matches EffectModel::Flow(k, _, _) && k == packet_key(packet),
        datapath.partitions_view() > 0,
        target.0 == packet_key(packet),
        target.1 == key_partition(packet_key(packet), datapath.partitions_view()),
    ensures
        effects[i] matches EffectModel::Flow(k, _, p) && k == target.0 && p == target.1,
        0 <= target.1 < datapath.partitions_view(),
{
    assert(crate::agent::well_partitioned(effects[i], datapath.partitions_view()));
}

} // verus!
