use flowsim::agent::{calculate_hash, flow_partition};
use flowsim::flow::FlowKey;
use flowsim::packet::{Datapath, HostAddr, Packet};
use flowsim::prefix::{Prefix, PrefixParseError};
use flowsim::table::Table;

#[test]
fn random_picks_from_the_hosts() {
    let d = Datapath::new(vec![HostAddr::V4(10), HostAddr::V4(11)], vec![HostAddr::V4(20)], 4, "dp".to_string());
    assert_eq!(d.name(), "dp");
    for _ in 0..100 {
        let (s, t) = d.random();
        assert!(s == 10 || s == 11);
        assert_eq!(t, 20);
    }
}

#[test]
fn random_gives_zero_for_ipv6_hosts() {
    let d = Datapath::new(vec![HostAddr::V6(1)], vec![HostAddr::V4(7)], 4, "dp".to_string());
    assert_eq!(d.random(), (0, 7));
}

#[test]
fn try_packet_between_distinct_hosts() {
    let d = Datapath::new(vec![HostAddr::V4(10), HostAddr::V4(11)], vec![HostAddr::V4(20), HostAddr::V4(21)], 4, "dp".to_string());
    for _ in 0..100 {
        let p = d.try_packet().expect("hosts never coincide");
        assert!(p.src_ip == 10 || p.src_ip == 11);
        assert!(p.dst_ip == 20 || p.dst_ip == 21);
        assert!((1..65535).contains(&p.src_port));
        assert!((1..65535).contains(&p.dst_port));
    }
}

#[test]
fn try_packet_same_host_gives_none() {
    let d = Datapath::new(vec![HostAddr::V4(10)], vec![HostAddr::V4(10)], 4, "dp".to_string());
    assert!(d.try_packet().is_none());
}

#[test]
fn packet_looked_up_by_its_slash_32_key() {
    let d = Datapath::new(vec![HostAddr::V4(1)], vec![HostAddr::V4(2)], 8, "dp".to_string());
    let p = Packet { src_ip: 0x0101_0101, dst_ip: 0x0202_0202, src_port: 80, dst_port: 443 };
    let (k, part) = d.lookup_target(&p);
    let expected = FlowKey { src_prefix: 0x0101_0101, src_prefix_len: 32, dst_prefix: 0x0202_0202, dst_prefix_len: 32 };
    assert_eq!(k, expected);
    assert_eq!(p.flow_key(), expected);
    assert_eq!(part, flow_partition(&expected, 8));
    assert_eq!(part as u64, calculate_hash(&expected) % 8);
}

#[test]
fn hits_are_counted() {
    let mut d = Datapath::new(vec![HostAddr::V4(1)], vec![HostAddr::V4(2)], 8, "dp".to_string());
    assert_eq!(d.flow_counter(), 0);
    d.record_hit();
    d.record_hit();
    assert_eq!(d.flow_counter(), 2);
}

#[test]
fn prefix_parse_reads_networks() {
    assert_eq!(Prefix::parse("1.1.1.1/32"), Ok(Prefix { addr: 0x0101_0101, len: 32 }));
    assert_eq!(Prefix::parse("10.1.2.0/24"), Ok(Prefix { addr: 0x0A01_0200, len: 24 }));
    assert_eq!(Prefix::parse("50.1.1.50/32"), Ok(Prefix { addr: u32::from_be_bytes([50, 1, 1, 50]), len: 32 }));
    assert_eq!(Prefix::parse("0.0.0.0/0"), Ok(Prefix { addr: 0, len: 0 }));
}

#[test]
fn prefix_parse_refuses_malformed() {
    assert_eq!(Prefix::parse("1.1.1.1/33"), Err(PrefixParseError::Malformed));
    assert_eq!(Prefix::parse("1.1.1.1"), Err(PrefixParseError::Malformed));
    assert_eq!(Prefix::parse("256.1.1.1/8"), Err(PrefixParseError::Malformed));
    assert_eq!(Prefix::parse(""), Err(PrefixParseError::Malformed));
    assert_eq!(Prefix::parse("1.1.1.1/32 "), Err(PrefixParseError::Malformed));
}

#[test]
fn table_insert_get_replace() {
    let mut t: Table<Prefix> = Table::new();
    let a = Prefix { addr: 1, len: 32 };
    let b = Prefix { addr: 2, len: 32 };
    t.insert(a, "x".to_string());
    t.insert(b, "y".to_string());
    t.insert(a, "z".to_string());
    assert_eq!(t.len(), 2);
    assert_eq!(t.get(&a), Some("z".to_string()));
    assert_eq!(t.get(&b), Some("y".to_string()));
    assert_eq!(t.get(&Prefix { addr: 1, len: 24 }), None);
    assert!(t.contains_key(&b));
    assert_eq!(t.key_at(0), a);
    assert_eq!(t.value_at(1), "y");
}

#[test]
fn pick_and_packet_from_draw() {
    let d = Datapath::new(vec![HostAddr::V4(10), HostAddr::V6(5)], vec![HostAddr::V4(20), HostAddr::V4(10)], 4, "dp".to_string());
    assert_eq!(d.pick(0, 0), (10, 20));
    assert_eq!(d.pick(1, 1), (0, 10));
    assert_eq!(d.packet_from_draw(0, 0, 5, 6), Some(Packet { src_ip: 10, dst_ip: 20, src_port: 5, dst_port: 6 }));
    assert_eq!(d.packet_from_draw(0, 1, 5, 6), None);
    assert_eq!(d.packet_from_draw(1, 1, 1, 65534), Some(Packet { src_ip: 0, dst_ip: 10, src_port: 1, dst_port: 65534 }));
    assert_eq!(d.src_len(), 2);
    assert_eq!(d.dst_len(), 2);
    assert_eq!(d.partitions(), 4);
}
