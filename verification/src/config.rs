use vstd::prelude::*;
use crate::agent::Add;
use crate::prefix::Prefix;
use crate::table::NameList;

verus! {

/// A virtual machine interface: its name, its address, and the agent it is
/// attached to.
pub struct Vmi {
    pub name: String,
    pub ip: Prefix,
    pub agent: String,
}

impl View for Vmi {
    type V = (Seq<char>, Prefix, Seq<char>);

    open spec fn view(&self) -> (Seq<char>, Prefix, Seq<char>) {
        (self.name@, self.ip, self.agent@)
    }
}

/// The configuration node: the agents it can hand VMIs to.
pub struct Config {
    agent_list: NameList,
}

impl Config {
    /// The registered agents, in the order in which they first registered.
    pub closed spec fn agents_view(&self) -> Seq<Seq<char>> {
        self.agent_list@
    }

    /// No agent is registered twice.
    pub open spec fn wf(&self) -> bool {
        self.agents_view().no_duplicates()
    }

    /// A configuration node with no agents.
    pub fn new() -> (c: Self)
        ensures
            c.wf(),
            c.agents_view() == Seq::<Seq<char>>::empty(),
    {
        Config { agent_list: NameList::new() }
    }

    /// Registers an agent (again, if it already was).
    pub fn add_agent(&mut self, name: String)
        requires
            old(self).wf(),
        ensures
            final(self).wf(),
            final(self).agents_view() == (if old(self).agents_view().contains(name@) {
                old(self).agents_view()
            } else {
                old(self).agents_view().push(name@)
            }),
    {
        self.agent_list.insert(name);
    }

    /// The registered agents.
    pub fn agents(&self) -> (v: Vec<String>)
        ensures
            v@.map_values(|n: String| n@) == self.agents_view(),
    {
        self.agent_list.names()
    }

    /// Where a VMI goes: the message for the agent the VMI names, if that
    /// agent is registered; `None` ("no sender found") otherwise.
    pub fn add_vmi(&self, vmi: Vmi) -> (r: Option<Add>)
        ensures
            self.agents_view().contains(vmi.agent@) ==> (r matches Some(Add::Vmi(v)) && v@ == vmi@),
            !self.agents_view().contains(vmi.agent@) ==> r is None,
    {
        if self.agent_list.contains(&vmi.agent) {
            Some(Add::Vmi(vmi))
        } else {
            None
        }
    }
}

} // verus!
