use flowsim::agent::{make_flow_key, flow_partition, Add, Agent, AgentEffect};
use flowsim::config::Vmi;
use flowsim::control::Route;
use flowsim::flow::{Flow, FlowKey, FlowTable, FlowTablePartition, FlowTableStats, StatsSummary};
use flowsim::prefix::Prefix;

fn key(a: u32, b: u32) -> FlowKey {
    FlowKey { src_prefix: a, src_prefix_len: 32, dst_prefix: b, dst_prefix_len: 32 }
}

fn flow(a: u32, b: u32, nh: &str) -> Flow {
    Flow { flow_key: key(a, b), nh: nh.to_string() }
}

#[test]
fn new_partition_is_empty() {
    let part = FlowTablePartition::new(3, "agent0".to_string(), 100);
    assert_eq!(part.get_stats(), (0, 0, 3));
    assert_eq!(part.partition(), 3);
    assert_eq!(part.name(), "agent0");
    assert!(part.flows().is_empty());
    assert!(part.match_flow(&key(1, 2)).is_none());
}

#[test]
fn added_flow_is_matched() {
    let mut part = FlowTablePartition::new(0, "agent0".to_string(), 0);
    part.add_flow(flow(1, 2, "vmi0"), 10);
    let found = part.match_flow(&key(1, 2)).expect("flow stored");
    assert_eq!(found.flow_key, key(1, 2));
    assert_eq!(found.nh, "vmi0");
    assert!(part.match_flow(&key(2, 1)).is_none());
}

#[test]
fn replaced_flow_keeps_its_place_and_counts() {
    let mut part = FlowTablePartition::new(1, "agent0".to_string(), 0);
    part.add_flow(flow(1, 2, "a"), 5);
    part.add_flow(flow(3, 4, "b"), 7);
    part.add_flow(flow(1, 2, "c"), 9);
    let flows = part.flows();
    assert_eq!(flows.len(), 2);
    assert_eq!(flows[0].flow_key, key(1, 2));
    assert_eq!(flows[0].nh, "c");
    assert_eq!(flows[1].nh, "b");
    assert_eq!(part.match_flow(&key(1, 2)).unwrap().nh, "c");
    let stats = part.stats();
    assert_eq!(stats, FlowTableStats { duration: 4, counter: 3, partition: 1 });
}

#[test]
fn duration_runs_from_first_flow() {
    let mut part = FlowTablePartition::new(2, "agent0".to_string(), 1);
    part.add_flow(flow(1, 2, "a"), 1000);
    assert_eq!(part.get_stats(), (0, 1, 2));
    part.add_flow(flow(1, 3, "a"), 1500);
    assert_eq!(part.get_stats(), (500, 2, 2));
    // a clock reading before the first flow gives zero, as Instant::duration_since does
    part.add_flow(flow(1, 4, "a"), 900);
    assert_eq!(part.get_stats(), (0, 3, 2));
}

#[test]
fn flow_duplicate_copies() {
    let f = flow(5, 6, "x");
    let g = f.duplicate();
    assert_eq!(g.flow_key, f.flow_key);
    assert_eq!(g.nh, "x");
}

#[test]
fn summarize_sums_and_averages() {
    let stats = vec![
        FlowTableStats { duration: 4_000, counter: 10, partition: 0 },
        FlowTableStats { duration: 2_500, counter: 5, partition: 1 },
    ];
    let s = FlowTable::summarize(&stats).unwrap();
    assert_eq!(s, StatsSummary { total_flows: 15, total_duration: 6_500, partitions: 2, avg_micros: 3 });
    let one = vec![FlowTableStats { duration: 999, counter: 1, partition: 0 }];
    assert_eq!(FlowTable::summarize(&one).unwrap().avg_micros, 0);
}

#[test]
fn summarize_refuses_what_would_overflow_or_divide_by_zero() {
    assert_eq!(FlowTable::summarize(&Vec::new()), None);
    let flows = vec![
        FlowTableStats { duration: 1, counter: u32::MAX, partition: 0 },
        FlowTableStats { duration: 1, counter: 1, partition: 1 },
    ];
    assert_eq!(FlowTable::summarize(&flows), None);
    let dur = vec![
        FlowTableStats { duration: u64::MAX as u128, counter: 1, partition: 0 },
        FlowTableStats { duration: 1, counter: 1, partition: 1 },
    ];
    assert_eq!(FlowTable::summarize(&dur), None);
    let edge = vec![FlowTableStats { duration: u64::MAX as u128, counter: u32::MAX, partition: 0 }];
    let s = FlowTable::summarize(&edge).unwrap();
    assert_eq!(s.total_duration, u64::MAX);
    assert_eq!(s.total_flows, u32::MAX);
    assert_eq!(s.avg_micros, (u64::MAX / 1000) as u128);
}

#[test]
fn table_is_ready_when_all_partitions_run() {
    let mut t = FlowTable::new("agent0".to_string(), 3);
    assert_eq!(t.name(), "agent0");
    assert_eq!(t.partitions(), 3);
    assert!(!t.partition_ready(1));
    assert!(!t.partition_ready(1));
    assert!(t.partition_ready(1));
    assert!(!t.partition_ready(1));
}

#[test]
fn agent_flows_land_where_lookups_go() {
    // the flows an agent sends are stored in the partition their key hashes to,
    // so a lookup in that partition finds them
    let parts: i16 = 4;
    let mut a = Agent::new("agent0".to_string(), parts);
    let v1 = Prefix { addr: 0x0101_0101, len: 32 };
    let v2 = Prefix { addr: 0x0101_0102, len: 32 };
    for v in [v1, v2] {
        a.handle_add(Add::Vmi(Vmi { name: "vmi".to_string(), ip: v, agent: "agent0".to_string() }));
    }
    a.handle_add(Add::Route(Route { dst: v1, nh: "agent0".to_string() }));
    let effects = a.handle_add(Add::Route(Route { dst: v2, nh: "agent0".to_string() }));
    let mut partitions: Vec<FlowTablePartition> =
        (0..parts).map(|i| FlowTablePartition::new(i, "agent0".to_string(), 0)).collect();
    for e in effects {
        if let AgentEffect::SendFlow(f, p) = e {
            partitions[p as usize].add_flow(f, 1);
        }
    }
    let k = make_flow_key(v1, v2);
    let p = flow_partition(&k, parts) as usize;
    assert_eq!(partitions[p].match_flow(&k).unwrap().nh, "vmi1");
    let k = make_flow_key(v2, v1);
    let p = flow_partition(&k, parts) as usize;
    assert_eq!(partitions[p].match_flow(&k).unwrap().nh, "vmi0");
}
