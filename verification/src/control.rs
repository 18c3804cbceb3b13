use vstd::prelude::*;
use crate::agent::Add;
use crate::prefix::Prefix;
use crate::table::{NameList, Table, assoc_insert, assoc_lookup, keys_unique, lemma_insert_lookup, lemma_insert_unique, lemma_key_index_unique, lemma_lookup_drop_last};

verus! {

/// A route: the prefix `dst` is reached through next hop `nh` (an agent's
/// name, or for a local route the name of the VMI).
pub struct Route {
    pub dst: Prefix,
    pub nh: String,
}

impl View for Route {
    type V = (Prefix, Seq<char>);

    open spec fn view(&self) -> (Prefix, Seq<char>) {
        (self.dst, self.nh@)
    }
}

impl Route {
    /// A copy of the route.
    pub fn duplicate(&self) -> (r: Route)
        ensures
            r@ == self@,
    {
        Route { dst: self.dst, nh: self.nh.clone() }
    }
}

/// The abstract values of a list of routes.
pub open spec fn routes_view(v: Seq<Route>) -> Seq<(Prefix, Seq<char>)> {
    v.map_values(|r: Route| r@)
}

/// The abstract values of a list of addressed routes.
pub open spec fn deliveries_view(v: Seq<(String, Route)>) -> Seq<(Seq<char>, (Prefix, Seq<char>))> {
    v.map_values(|d: (String, Route)| (d.0@, d.1@))
}

/// The entries of a table of routes, as routes, in table order.
pub fn routes_of(table: &Table<Prefix>) -> (routes: Vec<Route>)
    ensures
        routes_view(routes@) == table@,
{
    let n = table.len();
    let mut routes: Vec<Route> = Vec::new();
    let mut i: usize = 0;
    while i < n
        invariant
            n == table@.len(),
            i <= n,
            routes_view(routes@) == table@.take(i as int),
        decreases n - i,
    {
        let ghost prev = routes@;
        let r = Route { dst: table.key_at(i), nh: table.value_at(i) };
        routes.push(r);
        assert(routes@ =~= prev.push(r));
        assert(routes_view(routes@) =~= routes_view(prev).push(r@));
        assert(table@.take(i + 1) =~= table@.take(i as int).push(table@[i as int]));
        i = i + 1;
    }
    assert(table@.take(n as int) =~= table@);
    routes
}

/// The control node: the agents that registered with it, and every route
/// it has learnt, by prefix.
pub struct Control {
    agents: NameList,
    route_table: Table<Prefix>,
}

impl Control {
    /// The registered agents, in the order in which they first registered.
    pub closed spec fn agents_view(&self) -> Seq<Seq<char>> {
        self.agents@
    }

    /// The routes learnt: prefix and next hop.
    pub closed spec fn routes_view(&self) -> Seq<(Prefix, Seq<char>)> {
        self.route_table@
    }

    /// No agent is registered twice and no prefix has two routes.
    pub open spec fn wf(&self) -> bool {
        &&& self.agents_view().no_duplicates()
        &&& keys_unique(self.routes_view())
    }

    /// A control node with no agents and no routes.
    pub fn new() -> (c: Self)
        ensures
            c.wf(),
            c.agents_view() == Seq::<Seq<char>>::empty(),
            c.routes_view() == Seq::<(Prefix, Seq<char>)>::empty(),
    {
        Control { agents: NameList::new(), route_table: Table::new() }
    }

    /// Registers an agent (again, if it already was) and returns every
    /// route learnt so far, which the agent is to be sent.
    pub fn add_agent(&mut self, name: String) -> (routes: Vec<Route>)
        requires
            old(self).wf(),
        ensures
            final(self).wf(),
            final(self).agents_view() == (if old(self).agents_view().contains(name@) {
                old(self).agents_view()
            } else {
                old(self).agents_view().push(name@)
            }),
            final(self).routes_view() == old(self).routes_view(),
            routes_view(routes@) == old(self).routes_view(),
    {
        self.agents.insert(name);
        routes_of(&self.route_table)
    }

    /// The registered agents.
    pub fn agents(&self) -> (v: Vec<String>)
        ensures
            v@.map_values(|n: String| n@) == self.agents_view(),
    {
        self.agents.names()
    }

    /// Every route learnt, in table order.
    pub fn routes(&self) -> (v: Vec<Route>)
        ensures
            routes_view(v@) == self.routes_view(),
    {
        routes_of(&self.route_table)
    }

    /// Handles what the control node is handed: a route is learnt (replacing
    /// an older route to the same prefix) and sent to every registered
    /// agent; anything else is left alone.
    pub fn handle(&mut self, add: Add) -> (sends: Vec<(String, Route)>)
        requires
            old(self).wf(),
        ensures
            final(self).wf(),
            final(self).agents_view() == old(self).agents_view(),
            match add {
                Add::Route(r) => {
                    &&& final(self).routes_view() == assoc_insert(old(self).routes_view(), r.dst, r.nh@)
                    &&& deliveries_view(sends@) == old(self).agents_view().map_values(|a: Seq<char>| (a, r@))
                },
                _ => {
                    &&& final(self).routes_view() == old(self).routes_view()
                    &&& sends@.len() == 0
                },
            },
    {
        let mut sends: Vec<(String, Route)> = Vec::new();
        match add {
            Add::Route(route) => {
                proof {
                    lemma_insert_unique(self.route_table@, route.dst, route.nh@);
                }
                self.route_table.insert(route.dst, route.nh.clone());
                let n = self.agents.len();
                let mut i: usize = 0;
                while i < n
                    invariant
                        n == self.agents@.len(),
                        i <= n,
                        deliveries_view(sends@) == self.agents@.take(i as int).map_values(|a: Seq<char>| (a, route@)),
                    decreases n - i,
                {
                    let ghost prev = sends@;
                    let d = (self.agents.name_at(i), route.duplicate());
                    sends.push(d);
                    assert(sends@ =~= prev.push(d));
                    assert(deliveries_view(sends@) =~= deliveries_view(prev).push((d.0@, d.1@)));
                    assert(self.agents@.take(i + 1) =~= self.agents@.take(i as int).push(self.agents@[i as int]));
                    assert(self.agents@.take(i + 1).map_values(|a: Seq<char>| (a, route@)) =~= self.agents@.take(i as int).map_values(|a: Seq<char>| (a, route@)).push((self.agents@[i as int], route@)));
                    i = i + 1;
                }
                assert(self.agents@.take(n as int) =~= self.agents@);
            },
            _ => {},
        }
        sends
    }
}

/// A route learnt by the control node is among the routes it hands to an
/// agent that registers afterwards, with the latest next hop for its
/// prefix.
pub proof fn law_late_agent_learns_route(routes: Seq<(Prefix, Seq<char>)>, r: (Prefix, Seq<char>))
    requires
        keys_unique(routes),
    ensures
        assoc_lookup(assoc_insert(routes, r.0, r.1), r.0) == Some(r.1),
        assoc_insert(routes, r.0, r.1).contains(r),
{
    lemma_insert_lookup(routes, r.0, r.1, r.0);
    lemma_insert_unique(routes, r.0, r.1);
    let t = assoc_insert(routes, r.0, r.1);
    let i = crate::table::key_index(t, r.0);
    assert(t[i] == r);
}

/// What happens at the control node: an agent registers (`add_agent`), or a
/// route is learnt (`handle` of a route).
pub enum ControlEvent {
    Register(Seq<char>),
    Learn(Prefix, Seq<char>),
}

/// The control node after a run of events: the registered agents, the
/// routes learnt, and every route it sent, with the agent it went to, in the
/// order in which they were sent.
pub struct ControlModel {
    pub agents: Seq<Seq<char>>,
    pub routes: Seq<(Prefix, Seq<char>)>,
    pub sent: Seq<(Seq<char>, (Prefix, Seq<char>))>,
}

/// One event, as the contracts of `add_agent` and `handle` describe it: a
/// registering agent is sent every route known; a learnt route is stored
/// and sent to every registered agent.
pub open spec fn control_step(m: ControlModel, e: ControlEvent) -> ControlModel {
    match e {
        ControlEvent::Register(a) => ControlModel {
            agents: if m.agents.contains(a) { m.agents } else { m.agents.push(a) },
            routes: m.routes,
            sent: m.sent + m.routes.map_values(|r: (Prefix, Seq<char>)| (a, r)),
        },
        ControlEvent::Learn(d, nh) => ControlModel {
            agents: m.agents,
            routes: assoc_insert(m.routes, d, nh),
            sent: m.sent + m.agents.map_values(|b: Seq<char>| (b, (d, nh))),
        },
    }
}

/// The control node after the events `evs`, from a fresh one.
pub open spec fn control_run(evs: Seq<ControlEvent>) -> ControlModel
    decreases evs.len(),
{
    if evs.len() == 0 {
        ControlModel { agents: Seq::empty(), routes: Seq::empty(), sent: Seq::empty() }
    } else {
        control_step(control_run(evs.drop_last()), evs.last())
    }
}

/// The next hop of the last route for `d` sent to agent `a`, if any was.
pub open spec fn last_sent(sent: Seq<(Seq<char>, (Prefix, Seq<char>))>, a: Seq<char>, d: Prefix) -> Option<Seq<char>>
    decreases sent.len(),
{
    if sent.len() == 0 {
        None
    } else if sent.last().0 == a && sent.last().1.0 == d {
        Some(sent.last().1.1)
    } else {
        last_sent(sent.drop_last(), a, d)
    }
}

proof fn lemma_last_sent_append(x: Seq<(Seq<char>, (Prefix, Seq<char>))>, y: Seq<(Seq<char>, (Prefix, Seq<char>))>, a: Seq<char>, d: Prefix)
    ensures
        last_sent(x + y, a, d) == (if last_sent(y, a, d) is Some { last_sent(y, a, d) } else { last_sent(x, a, d) }),
    decreases y.len(),
{
    if y.len() == 0 {
        assert(x + y =~= x);
    } else {
        assert((x + y).drop_last() =~= x + y.drop_last());
        assert((x + y).last() == y.last());
        lemma_last_sent_append(x, y.drop_last(), a, d);
    }
}

proof fn lemma_last_sent_routes(routes: Seq<(Prefix, Seq<char>)>, a: Seq<char>, b: Seq<char>, d: Prefix)
    requires
        keys_unique(routes),
    ensures
        last_sent(routes.map_values(|r: (Prefix, Seq<char>)| (a, r)), b, d) == (if b == a { assoc_lookup(routes, d) } else { None }),
    decreases routes.len(),
{
    let m = routes.map_values(|r: (Prefix, Seq<char>)| (a, r));
    if routes.len() > 0 {
        let t = routes.drop_last();
        assert(m.drop_last() =~= t.map_values(|r: (Prefix, Seq<char>)| (a, r)));
        assert(m.last() == (a, routes.last()));
        lemma_last_sent_routes(t, a, b, d);
        if routes.last().0 == d {
            lemma_key_index_unique(routes, d, routes.len() - 1);
        } else {
            lemma_lookup_drop_last(routes, d);
        }
    }
}

proof fn lemma_last_sent_agents(agents: Seq<Seq<char>>, d0: Prefix, nh: Seq<char>, b: Seq<char>, d: Prefix)
    ensures
        last_sent(agents.map_values(|x: Seq<char>| (x, (d0, nh))), b, d) == (if agents.contains(b) && d == d0 { Some(nh) } else { None }),
    decreases agents.len(),
{
    let m = agents.map_values(|x: Seq<char>| (x, (d0, nh)));
    if agents.len() > 0 {
        let t = agents.drop_last();
        assert(m.drop_last() =~= t.map_values(|x: Seq<char>| (x, (d0, nh))));
        assert(m.last() == (agents.last(), (d0, nh)));
        lemma_last_sent_agents(t, d0, nh, b, d);
        if agents.contains(b) && agents.last() != b {
            let i = choose|i: int| 0 <= i < agents.len() && agents[i] == b;
            assert(t[i] == b);
        }
        if t.contains(b) {
            let i = choose|i: int| 0 <= i < t.len() && t[i] == b;
            assert(agents[i] == b);
        }
        if agents.last() == b {
            assert(agents[agents.len() - 1] == b);
        }
    }
}

proof fn lemma_control_run(evs: Seq<ControlEvent>)
    ensures
        keys_unique(control_run(evs).routes),
        forall|a: Seq<char>, d: Prefix| #![trigger last_sent(control_run(evs).sent, a, d)]
            control_run(evs).agents.contains(a) ==> last_sent(control_run(evs).sent, a, d) == assoc_lookup(control_run(evs).routes, d),
        forall|a: Seq<char>, d: Prefix| #![trigger last_sent(control_run(evs).sent, a, d)]
            !control_run(evs).agents.contains(a) ==> last_sent(control_run(evs).sent, a, d) is None,
    decreases evs.len(),
{
    if evs.len() > 0 {
        let prev = evs.drop_last();
        lemma_control_run(prev);
        let m = control_run(prev);
        let n = control_run(evs);
        match evs.last() {
            ControlEvent::Register(a0) => {
                assert forall|a: Seq<char>, d: Prefix| #![trigger last_sent(n.sent, a, d)]
                    (n.agents.contains(a) ==> last_sent(n.sent, a, d) == assoc_lookup(n.routes, d))
                    && (!n.agents.contains(a) ==> last_sent(n.sent, a, d) is None) by {
                    lemma_last_sent_append(m.sent, m.routes.map_values(|r: (Prefix, Seq<char>)| (a0, r)), a, d);
                    lemma_last_sent_routes(m.routes, a0, a, d);
                    assert(last_sent(m.sent, a, d) == last_sent(control_run(prev).sent, a, d));
                    if a == a0 && !m.agents.contains(a0) {
                        assert(n.agents[n.agents.len() - 1] == a0);
                    }
                    if n.agents.contains(a) && a != a0 && !m.agents.contains(a0) {
                        let i = choose|i: int| 0 <= i < n.agents.len() && n.agents[i] == a;
                        assert(m.agents[i] == a);
                    }
                    if m.agents.contains(a) && !m.agents.contains(a0) {
                        let i = choose|i: int| 0 <= i < m.agents.len() && m.agents[i] == a;
                        assert(n.agents[i] == a);
                    }
                }
            },
            ControlEvent::Learn(d0, nh) => {
                lemma_insert_unique(m.routes, d0, nh);
                assert forall|a: Seq<char>, d: Prefix| #![trigger last_sent(n.sent, a, d)]
                    (n.agents.contains(a) ==> last_sent(n.sent, a, d) == assoc_lookup(n.routes, d))
                    && (!n.agents.contains(a) ==> last_sent(n.sent, a, d) is None) by {
                    lemma_last_sent_append(m.sent, m.agents.map_values(|b: Seq<char>| (b, (d0, nh))), a, d);
                    lemma_last_sent_agents(m.agents, d0, nh, a, d);
                    lemma_insert_lookup(m.routes, d0, nh, d);
                    assert(last_sent(m.sent, a, d) == last_sent(control_run(prev).sent, a, d));
                }
            },
        }
    }
}

/// Over any run of registrations and learnt routes, every registered agent
/// has been sent a route for each prefix the control node knows, and the
/// last route for that prefix it was sent is the one the control node
/// holds; an agent was sent nothing for a prefix the node does not know.
pub proof fn law_agents_hold_latest_routes(evs: Seq<ControlEvent>, a: Seq<char>, d: Prefix)
    requires
        control_run(evs).agents.contains(a),
    ensures
        last_sent(control_run(evs).sent, a, d) == assoc_lookup(control_run(evs).routes, d),
{
    lemma_control_run(evs);
}

} // verus!
