use flowsim::agent::{n_mod_m_i64, calculate_hash, flow_partition, make_flow_key, n_mod_m, Add, Agent, AgentEffect};
use flowsim::config::Vmi;
use flowsim::control::Route;
use flowsim::flow::{Flow, FlowKey};
use flowsim::prefix::Prefix;
use std::hash::{Hash, Hasher};

fn p(a: u8, b: u8, c: u8, d: u8, len: u8) -> Prefix {
    Prefix { addr: u32::from_be_bytes([a, b, c, d]), len }
}

fn vmi(name: &str, ip: Prefix, agent: &str) -> Add {
    Add::Vmi(Vmi { name: name.to_string(), ip, agent: agent.to_string() })
}

fn route(dst: Prefix, nh: &str) -> Add {
    Add::Route(Route { dst, nh: nh.to_string() })
}

fn flows_of(effects: &[AgentEffect]) -> Vec<(FlowKey, String, i16)> {
    effects
        .iter()
        .map(|e| match e {
            AgentEffect::SendFlow(f, part) => (f.flow_key, f.nh.clone(), *part),
            AgentEffect::SendRoute(_) => panic!("route where a flow was expected"),
        })
        .collect()
}

#[test]
fn n_mod_m_values() {
    assert_eq!(n_mod_m(7, 3), 1);
    assert_eq!(n_mod_m(0, 5), 0);
    assert_eq!(n_mod_m(9, 9), 0);
    assert_eq!(n_mod_m(u64::MAX - 100, 10), (u64::MAX - 100) % 10);
    assert_eq!(n_mod_m(12345, 8), 1);
}

#[test]
fn calculate_hash_matches_default_hasher() {
    let key = FlowKey { src_prefix: 0x0101_0101, src_prefix_len: 32, dst_prefix: 0x0202_0202, dst_prefix_len: 32 };
    let mut s = std::collections::hash_map::DefaultHasher::new();
    (
        u32::from_ne_bytes(key.src_prefix.to_be_bytes()),
        key.src_prefix_len,
        u32::from_ne_bytes(key.dst_prefix.to_be_bytes()),
        key.dst_prefix_len,
    )
        .hash(&mut s);
    let expected = s.finish();
    assert_eq!(calculate_hash(&key), expected);
    assert_eq!(calculate_hash(&key), calculate_hash(&key.clone()));
    let other = FlowKey { src_prefix: 0x0202_0202, src_prefix_len: 32, dst_prefix: 0x0101_0101, dst_prefix_len: 32 };
    assert_ne!(calculate_hash(&key), calculate_hash(&other));
}

#[test]
fn flow_partition_is_hash_mod_partitions() {
    for i in 0..50u32 {
        let key = FlowKey { src_prefix: i, src_prefix_len: 32, dst_prefix: i * 7, dst_prefix_len: 24 };
        let part = flow_partition(&key, 8);
        assert!((0..8).contains(&part));
        assert_eq!(part as u64, calculate_hash(&key) % 8);
    }
    let key = FlowKey { src_prefix: 1, src_prefix_len: 32, dst_prefix: 2, dst_prefix_len: 32 };
    assert_eq!(flow_partition(&key, 1), 0);
}

#[test]
fn make_flow_key_fields() {
    let k = make_flow_key(p(1, 1, 1, 1, 32), p(2, 1, 1, 3, 24));
    assert_eq!(k, FlowKey { src_prefix: 0x0101_0101, src_prefix_len: 32, dst_prefix: 0x0201_0103, dst_prefix_len: 24 });
}

#[test]
fn vmi_is_named_by_count_and_announced() {
    let mut a = Agent::new("agent0".to_string(), 8);
    let e = a.handle_add(vmi("vmi", p(1, 1, 1, 1, 32), "agent0"));
    assert_eq!(e.len(), 1);
    match &e[0] {
        AgentEffect::SendRoute(r) => {
            assert_eq!(r.dst, p(1, 1, 1, 1, 32));
            assert_eq!(r.nh, "agent0");
        },
        _ => panic!("expected a route"),
    }
    let e = a.handle_add(vmi("vmi", p(1, 1, 1, 2, 32), "agent0"));
    assert_eq!(e.len(), 1);
    let vmis = a.vmis();
    assert_eq!(vmis.len(), 2);
    assert_eq!(vmis[0].nh, "vmi0");
    assert_eq!(vmis[1].nh, "vmi1");
    // the same address again replaces the name in place, numbered by the count so far
    a.handle_add(vmi("eth", p(1, 1, 1, 1, 32), "agent0"));
    let vmis = a.vmis();
    assert_eq!(vmis.len(), 2);
    assert_eq!(vmis[0].nh, "eth2");
    assert!(a.local_routes().is_empty());
    assert!(a.remote_routes().is_empty());
}

#[test]
fn vmi_names_use_multi_digit_counts() {
    let mut a = Agent::new("a".to_string(), 2);
    for i in 0..12u8 {
        a.handle_add(vmi("v", p(10, 0, 0, i, 32), "a"));
    }
    let vmis = a.vmis();
    assert_eq!(vmis[10].nh, "v10");
    assert_eq!(vmis[11].nh, "v11");
}

#[test]
fn first_local_route_makes_no_flow() {
    let mut a = Agent::new("agent0".to_string(), 8);
    a.handle_add(vmi("vmi", p(1, 1, 1, 1, 32), "agent0"));
    let e = a.handle_add(route(p(1, 1, 1, 1, 32), "agent0"));
    assert!(e.is_empty());
    let local = a.local_routes();
    assert_eq!(local.len(), 1);
    assert_eq!(local[0].dst, p(1, 1, 1, 1, 32));
    assert_eq!(local[0].nh, "vmi0");
}

#[test]
fn second_local_route_makes_a_flow_pair() {
    let mut a = Agent::new("agent0".to_string(), 8);
    let v1 = p(1, 1, 1, 1, 32);
    let v2 = p(1, 1, 1, 2, 32);
    a.handle_add(vmi("vmi", v1, "agent0"));
    a.handle_add(vmi("vmi", v2, "agent0"));
    a.handle_add(route(v1, "agent0"));
    let e = a.handle_add(route(v2, "agent0"));
    let flows = flows_of(&e);
    assert_eq!(flows.len(), 2);
    let k_in = make_flow_key(v2, v1);
    let k_out = make_flow_key(v1, v2);
    assert_eq!(flows[0], (k_in, "vmi0".to_string(), flow_partition(&k_in, 8)));
    assert_eq!(flows[1], (k_out, "vmi1".to_string(), flow_partition(&k_out, 8)));
}

#[test]
fn local_route_meets_remote_routes() {
    let mut a = Agent::new("agent0".to_string(), 4);
    let v1 = p(1, 1, 1, 1, 32);
    let r1 = p(2, 1, 1, 1, 32);
    a.handle_add(vmi("vmi", v1, "agent0"));
    let e = a.handle_add(route(r1, "agent1"));
    assert!(e.is_empty());
    let e = a.handle_add(route(v1, "agent0"));
    let flows = flows_of(&e);
    assert_eq!(flows.len(), 2);
    let k_in = make_flow_key(v1, r1);
    let k_out = make_flow_key(r1, v1);
    assert_eq!(flows[0], (k_in, "agent1".to_string(), flow_partition(&k_in, 4)));
    assert_eq!(flows[1], (k_out, "agent1".to_string(), flow_partition(&k_out, 4)));
}

#[test]
fn remote_route_meets_local_routes() {
    let mut a = Agent::new("agent0".to_string(), 4);
    let v1 = p(1, 1, 1, 1, 32);
    let v2 = p(1, 1, 1, 2, 32);
    let r1 = p(2, 1, 1, 1, 32);
    a.handle_add(vmi("vmi", v1, "agent0"));
    a.handle_add(vmi("vmi", v2, "agent0"));
    a.handle_add(route(v1, "agent0"));
    a.handle_add(route(v2, "agent0"));
    let e = a.handle_add(route(r1, "agent1"));
    let flows = flows_of(&e);
    assert_eq!(flows.len(), 4);
    let k = |s, d| make_flow_key(s, d);
    assert_eq!(flows[0], (k(r1, v1), "vmi0".to_string(), flow_partition(&k(r1, v1), 4)));
    assert_eq!(flows[1], (k(v1, r1), "agent1".to_string(), flow_partition(&k(v1, r1), 4)));
    assert_eq!(flows[2], (k(r1, v2), "vmi1".to_string(), flow_partition(&k(r1, v2), 4)));
    assert_eq!(flows[3], (k(v2, r1), "agent1".to_string(), flow_partition(&k(v2, r1), 4)));
    let remote = a.remote_routes();
    assert_eq!(remote.len(), 1);
    assert_eq!(remote[0].nh, "agent1");
}

#[test]
fn remote_route_replaced_keeps_one_entry() {
    let mut a = Agent::new("agent0".to_string(), 4);
    let r1 = p(2, 1, 1, 1, 32);
    a.handle_add(route(r1, "agent1"));
    a.handle_add(route(r1, "agent2"));
    let remote = a.remote_routes();
    assert_eq!(remote.len(), 1);
    assert_eq!(remote[0].nh, "agent2");
}

#[test]
fn flows_are_ignored_by_the_agent() {
    let mut a = Agent::new("agent0".to_string(), 4);
    let f = Flow { flow_key: make_flow_key(p(1, 1, 1, 1, 32), p(2, 2, 2, 2, 32)), nh: "x".to_string() };
    let e = a.handle_add(Add::Flow(f));
    assert!(e.is_empty());
    assert!(a.vmis().is_empty());
}

#[test]
fn local_route_without_vmi_is_refused() {
    let a = Agent::new("agent0".to_string(), 4);
    assert!(!a.can_handle(&route(p(1, 1, 1, 1, 32), "agent0")));
    assert!(a.can_handle(&route(p(1, 1, 1, 1, 32), "agent1")));
    assert!(a.can_handle(&vmi("vmi", p(1, 1, 1, 1, 32), "agent0")));
}

#[test]
fn route_flows_come_in_opposite_pairs_in_their_partitions() {
    let mut a = Agent::new("agent0".to_string(), 8);
    for i in 1..6u8 {
        a.handle_add(vmi("vmi", p(1, 1, 1, i, 32), "agent0"));
        a.handle_add(route(p(1, 1, 1, i, 32), "agent0"));
        a.handle_add(route(p(2, 1, 1, i, 32), "agent1"));
    }
    let e = a.handle_add(route(p(3, 1, 1, 1, 32), "agent2"));
    let flows = flows_of(&e);
    assert_eq!(flows.len(), 10);
    for pair in flows.chunks(2) {
        let (k1, _, p1) = &pair[0];
        let (k2, _, p2) = &pair[1];
        assert_eq!(k2.src_prefix, k1.dst_prefix);
        assert_eq!(k2.dst_prefix, k1.src_prefix);
        assert_eq!(*p1, flow_partition(k1, 8));
        assert_eq!(*p2, flow_partition(k2, 8));
    }
}

#[test]
fn agent_getters() {
    let a = Agent::new("agent7".to_string(), 3);
    assert_eq!(a.name(), "agent7");
    assert_eq!(a.partitions(), 3);
}

#[test]
fn n_mod_m_i64_is_non_negative() {
    assert_eq!(n_mod_m_i64(7, 3), 1);
    assert_eq!(n_mod_m_i64(-7, 3), 2);
    assert_eq!(n_mod_m_i64(-9, 3), 0);
    assert_eq!(n_mod_m_i64(0, 5), 0);
    assert_eq!(n_mod_m_i64(i64::MIN, 10), 2);
}

#[test]
fn agent_without_partitions_takes_vmis_and_lone_routes() {
    let mut a = Agent::new("agent0".to_string(), 0);
    let v1 = p(1, 1, 1, 1, 32);
    let v2 = p(1, 1, 1, 2, 32);
    let e = a.handle_add(vmi("vmi", v1, "agent0"));
    assert_eq!(e.len(), 1);
    a.handle_add(vmi("vmi", v2, "agent0"));
    assert!(a.can_handle(&route(v1, "agent0")));
    assert!(a.handle_add(route(v1, "agent0")).is_empty());
    // a second local route would make flows, with no partition to send them to
    assert!(!a.can_handle(&route(v2, "agent0")));
    assert!(!a.can_handle(&route(p(2, 1, 1, 1, 32), "agent1")));
    // the same prefix again makes no flow
    assert!(a.can_handle(&route(v1, "agent0")));
    let mut b = Agent::new("agent0".to_string(), -3);
    assert!(b.can_handle(&route(p(2, 1, 1, 1, 32), "agent1")));
    assert!(b.handle_add(route(p(2, 1, 1, 1, 32), "agent1")).is_empty());
    b.handle_add(vmi("vmi", v1, "agent0"));
    // a local route now meets a remote route
    assert!(!b.can_handle(&route(v1, "agent0")));
}
