use flowsim::agent::Add;
use flowsim::config::{Config, Vmi};
use flowsim::control::{Control, Route};
use flowsim::flow::{Flow, FlowKey};
use flowsim::prefix::Prefix;

fn pfx(last: u8) -> Prefix {
    Prefix { addr: u32::from_be_bytes([1, 1, 1, last]), len: 32 }
}

#[test]
fn control_broadcasts_routes_to_all_agents() {
    let mut c = Control::new();
    assert!(c.add_agent("agent0".to_string()).is_empty());
    assert!(c.add_agent("agent1".to_string()).is_empty());
    let sends = c.handle(Add::Route(Route { dst: pfx(1), nh: "agent0".to_string() }));
    assert_eq!(sends.len(), 2);
    assert_eq!(sends[0].0, "agent0");
    assert_eq!(sends[1].0, "agent1");
    for (_, r) in &sends {
        assert_eq!(r.dst, pfx(1));
        assert_eq!(r.nh, "agent0");
    }
    let routes = c.routes();
    assert_eq!(routes.len(), 1);
}

#[test]
fn late_agent_learns_known_routes() {
    let mut c = Control::new();
    c.add_agent("agent0".to_string());
    c.handle(Add::Route(Route { dst: pfx(1), nh: "agent0".to_string() }));
    c.handle(Add::Route(Route { dst: pfx(2), nh: "agent0".to_string() }));
    c.handle(Add::Route(Route { dst: pfx(1), nh: "agent3".to_string() }));
    let routes = c.add_agent("agent9".to_string());
    assert_eq!(routes.len(), 2);
    assert_eq!(routes[0].dst, pfx(1));
    assert_eq!(routes[0].nh, "agent3");
    assert_eq!(routes[1].dst, pfx(2));
    assert_eq!(c.agents(), vec!["agent0".to_string(), "agent9".to_string()]);
}

#[test]
fn control_registers_an_agent_once() {
    let mut c = Control::new();
    c.add_agent("agent0".to_string());
    c.add_agent("agent0".to_string());
    assert_eq!(c.agents().len(), 1);
    let sends = c.handle(Add::Route(Route { dst: pfx(1), nh: "agent0".to_string() }));
    assert_eq!(sends.len(), 1);
}

#[test]
fn control_ignores_what_is_not_a_route() {
    let mut c = Control::new();
    c.add_agent("agent0".to_string());
    let f = Flow { flow_key: FlowKey { src_prefix: 1, src_prefix_len: 32, dst_prefix: 2, dst_prefix_len: 32 }, nh: "x".to_string() };
    assert!(c.handle(Add::Flow(f)).is_empty());
    let v = Vmi { name: "vmi".to_string(), ip: pfx(1), agent: "agent0".to_string() };
    assert!(c.handle(Add::Vmi(v)).is_empty());
    assert!(c.routes().is_empty());
}

#[test]
fn route_duplicate_copies() {
    let r = Route { dst: pfx(4), nh: "agent1".to_string() };
    let s = r.duplicate();
    assert_eq!(s.dst, pfx(4));
    assert_eq!(s.nh, "agent1");
}

#[test]
fn config_sends_vmi_to_its_agent() {
    let mut c = Config::new();
    c.add_agent("agent0".to_string());
    let v = Vmi { name: "vmi".to_string(), ip: pfx(1), agent: "agent0".to_string() };
    match c.add_vmi(v) {
        Some(Add::Vmi(v)) => {
            assert_eq!(v.name, "vmi");
            assert_eq!(v.ip, pfx(1));
            assert_eq!(v.agent, "agent0");
        },
        _ => panic!("expected the VMI back"),
    }
}

#[test]
fn config_has_no_sender_for_unknown_agent() {
    let mut c = Config::new();
    c.add_agent("agent0".to_string());
    c.add_agent("agent0".to_string());
    assert_eq!(c.agents(), vec!["agent0".to_string()]);
    let v = Vmi { name: "vmi".to_string(), ip: pfx(1), agent: "agent5".to_string() };
    assert!(c.add_vmi(v).is_none());
}
