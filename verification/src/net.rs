//! The interaction net itself: agents, wires, and the registries that own
//! them.
//!
//! Agents and wires live in dense id-indexed registries (an arena of ids):
//! a "pointer" is a plain integer, removal is an explicit deletion, and an
//! id is never reused while the net lives.  Id 0 is reserved as the
//! transient "unset" sentinel used while a net is under construction, so
//! slot 0 of either registry never holds a live entity.

use vstd::prelude::*;

verus! {

/// The kind of a graph node, which fixes its port arity: `Root` and
/// `Eraser` have one (principal) port, the rest have a principal port 0
/// and auxiliary ports 1 and 2.
#[derive(Debug, PartialEq, Eq, Structural, Copy, Clone)]
pub enum AgentKind {
    Application,
    Duplicator,
    Eraser,
    Lambda,
    Root,
}

/// The rewrite rule selected for a pair of agents, or requested by a
/// caller.  Selection is purely structural; a requested kind never
/// overrides the table.
#[derive(Debug, PartialEq, Eq, Structural, Copy, Clone)]
pub enum RuleKind {
    Auto,
    Cancel,
    Duplicate,
    Erase,
    NoRule,
}

/// A wire: an unordered pair of endpoints, each named by the id of the
/// agent it attaches to.  Which port of that agent the endpoint occupies
/// is recovered from the agent's own slots.  During construction an
/// endpoint may hold the sentinel 0, meaning "not yet attached".
///
/// Equality (`==` in executable code) treats the pair as unordered: a
/// wire equals its own swap.  Spec-level `==` on `Wire` values remains
/// structural; contracts that care about the unordered reading use
/// `eq_spec`.
#[derive(Debug, Copy, Clone)]
pub struct Wire {
    pub source: usize,
    pub target: usize,
}

impl PartialEq for Wire {
    fn eq(&self, other: &Wire) -> (r: bool) {
        (self.source == other.source && self.target == other.target) || (self.source
            == other.target && self.target == other.source)
    }
}

impl vstd::std_specs::cmp::PartialEqSpecImpl for Wire {
    open spec fn obeys_eq_spec() -> bool {
        true
    }

    open spec fn eq_spec(&self, other: &Wire) -> bool {
        (self.source == other.source && self.target == other.target) || (self.source
            == other.target && self.target == other.source)
    }
}

/// A wire compares equal to its own swap: the endpoint pair is
/// unordered.
pub proof fn lemma_wire_eq_unordered(a: usize, b: usize)
    ensures
        vstd::std_specs::cmp::PartialEqSpec::eq_spec(
            &(Wire { source: a, target: b }),
            &(Wire { source: b, target: a }),
        ),
{
}

impl Wire {
    pub fn new(source: usize, target: usize) -> (w: Wire)
        ensures
            w == (Wire { source, target }),
    {
        Wire { source, target }
    }

    /// Fill the still-unset endpoint with `id`.
    pub fn fill(&mut self, id: usize)
        ensures
            old(self).target == 0 ==> *final(self) == (Wire { source: old(self).source, target: id }),
            old(self).target != 0 ==> *final(self) == (Wire { source: id, target: old(self).target }),
    {
        if self.target == 0 {
            self.target = id;
        } else {
            self.source = id;
        }
    }

    /// Exchange the two endpoints; the pair is unordered, so the wire is
    /// the same.
    pub fn swap(&mut self)
        ensures
            *final(self) == (Wire { source: old(self).target, target: old(self).source }),
    {
        let temp = self.source;
        self.source = self.target;
        self.target = temp;
    }

    /// The two endpoints as a pair.
    pub fn unwrap(&self) -> (r: (usize, usize))
        ensures
            r == (self.source, self.target),
    {
        (self.source, self.target)
    }
}

/// A graph node: its kind, three wire-id slots (slots at and beyond the
/// arity hold 0), and cosmetic display fields.  `x` and `y` carry the bit
/// pattern of the host's floating-point screen position; the library never
/// interprets them.
#[derive(Debug)]
pub struct Agent {
    pub kind: AgentKind,
    pub label: String,
    pub title: String,
    pub x: u32,
    pub y: u32,
    pub fixed: bool,
    pub wires: Vec<usize>,
}

/// The mathematical value of an [`Agent`].
pub ghost struct AgentV {
    pub kind: AgentKind,
    pub label: Seq<char>,
    pub title: Seq<char>,
    pub x: u32,
    pub y: u32,
    pub fixed: bool,
    pub wires: Seq<usize>,
}

impl View for Agent {
    type V = AgentV;

    open spec fn view(&self) -> AgentV {
        AgentV {
            kind: self.kind,
            label: self.label@,
            title: self.title@,
            x: self.x,
            y: self.y,
            fixed: self.fixed,
            wires: self.wires@,
        }
    }
}

/// Port arity fixed by the kind.
pub open spec fn arity_of(k: AgentKind) -> int {
    match k {
        AgentKind::Eraser | AgentKind::Root => 1,
        _ => 3,
    }
}

impl Agent {
    /// A fresh agent of the given kind with the given port slots and blank
    /// cosmetics.
    pub fn new(kind: AgentKind, w0: usize, w1: usize, w2: usize) -> (a: Agent)
        ensures
            a@ == (AgentV {
                kind,
                label: Seq::<char>::empty(),
                title: Seq::<char>::empty(),
                x: 0u32,
                y: 0u32,
                fixed: false,
                wires: seq![w0, w1, w2],
            }),
    {
        let mut wires: Vec<usize> = Vec::new();
        wires.push(w0);
        wires.push(w1);
        wires.push(w2);
        let a = Agent {
            kind,
            label: String::new(),
            title: String::new(),
            x: 0,
            y: 0,
            fixed: false,
            wires,
        };
        proof {
            assert(a@.wires =~= seq![w0, w1, w2]);
            assert(a@ =~= (AgentV {
                kind,
                label: Seq::<char>::empty(),
                title: Seq::<char>::empty(),
                x: 0u32,
                y: 0u32,
                fixed: false,
                wires: seq![w0, w1, w2],
            }));
        }
        a
    }

    /// Number of ports of this agent.
    pub fn len(&self) -> (r: usize)
        ensures
            r == arity_of(self@.kind),
    {
        match self.kind {
            AgentKind::Duplicator | AgentKind::Lambda | AgentKind::Application => 3,
            AgentKind::Eraser | AgentKind::Root => 1,
        }
    }
}

/// How many of the agent's ports (slots below its arity) hold wire `wid`.
pub open spec fn slot_count(a: AgentV, wid: usize) -> int {
    (if a.wires[0] == wid {
        1int
    } else {
        0int
    }) + (if arity_of(a.kind) > 1 && a.wires[1] == wid {
        1int
    } else {
        0int
    }) + (if arity_of(a.kind) > 2 && a.wires[2] == wid {
        1int
    } else {
        0int
    })
}

/// Instantiation marker for the wire quantifier of [`NetV::wf`]; always
/// true, mentioned in proofs to name a wire id.
pub open spec fn wire_trig(wid: usize) -> bool {
    true
}

/// Instantiation marker for the agent quantifier of [`NetV::wf`]; always
/// true, mentioned in proofs to name an agent id.
pub open spec fn agent_trig(id: usize) -> bool {
    true
}

/// The mathematical value of a [`Net`]: the two registries, with `None`
/// for ids that are not (or no longer) live.
pub ghost struct NetV {
    pub agents: Seq<Option<AgentV>>,
    pub wires: Seq<Option<Wire>>,
}

impl NetV {
    pub open spec fn live_agent(self, id: usize) -> bool {
        id < self.agents.len() && self.agents[id as int] is Some
    }

    pub open spec fn live_wire(self, wid: usize) -> bool {
        wid < self.wires.len() && self.wires[wid as int] is Some
    }

    pub open spec fn agent_at(self, id: usize) -> AgentV {
        self.agents[id as int].unwrap()
    }

    pub open spec fn wire_at(self, wid: usize) -> Wire {
        self.wires[wid as int].unwrap()
    }

    /// The closure conditions seen from wire `wid`: both endpoints are
    /// live, and the endpoint agents hold the wire in exactly one port
    /// each — or, for a self-loop, the one agent holds it in exactly two.
    pub open spec fn wire_ok(self, wid: usize) -> bool {
        let w = self.wire_at(wid);
        &&& self.live_agent(w.source)
        &&& self.live_agent(w.target)
        &&& w.source != w.target ==> slot_count(self.agent_at(w.source), wid) == 1
            && slot_count(self.agent_at(w.target), wid) == 1
        &&& w.source == w.target ==> slot_count(self.agent_at(w.source), wid) == 2
    }

    /// Port `p` of agent `id` holds a live wire with an endpoint on the
    /// agent.
    pub open spec fn port_ok(self, id: usize, p: int) -> bool {
        let wid = self.agent_at(id).wires[p];
        &&& self.live_wire(wid)
        &&& self.wire_at(wid).source == id || self.wire_at(wid).target == id
    }

    /// The closure conditions seen from agent `id`: every port below the
    /// arity holds a live wire with an endpoint on this agent, and the
    /// slots beyond the arity hold the sentinel 0.
    pub open spec fn agent_ok(self, id: usize) -> bool {
        let a = self.agent_at(id);
        &&& a.wires.len() == 3
        &&& self.port_ok(id, 0)
        &&& arity_of(a.kind) > 1 ==> self.port_ok(id, 1) && self.port_ok(id, 2)
        &&& arity_of(a.kind) == 1 ==> a.wires[1] == 0 && a.wires[2] == 0
    }

    /// Graph closure: id 0 is reserved in both registries, every live wire
    /// is attached at exactly one port per endpoint, and every port of
    /// every live agent is wired.  Together these say that for each live
    /// (agent, port) pair exactly one live wire endpoint matches it.
    ///
    /// The quantifiers fire on the instantiation markers [`wire_trig`]
    /// and [`agent_trig`] alone, so a proof names the ids it reasons
    /// about instead of letting the solver walk the whole graph.
    pub open spec fn wf(self) -> bool {
        &&& 1 <= self.agents.len()
        &&& 1 <= self.wires.len()
        &&& self.agents[0] is None
        &&& self.wires[0] is None
        &&& forall|wid: usize| #[trigger] wire_trig(wid) ==> self.live_wire(wid)
            ==> self.wire_ok(wid)
        &&& forall|id: usize| #[trigger] agent_trig(id) ==> self.live_agent(id)
            ==> self.agent_ok(id)
    }

    /// Number of live agents.
    pub open spec fn agent_count(self) -> int {
        count_live_agents(self.agents)
    }

    /// Number of live wires.
    pub open spec fn wire_count(self) -> int {
        count_live_wires(self.wires)
    }
}

pub open spec fn count_live_agents(s: Seq<Option<AgentV>>) -> int
    decreases s.len(),
{
    if s.len() == 0 {
        0
    } else {
        count_live_agents(s.drop_last()) + if s.last() is Some {
            1int
        } else {
            0int
        }
    }
}

pub open spec fn count_live_wires(s: Seq<Option<Wire>>) -> int
    decreases s.len(),
{
    if s.len() == 0 {
        0
    } else {
        count_live_wires(s.drop_last()) + if s.last() is Some {
            1int
        } else {
            0int
        }
    }
}

/// The live agent registry and live wire registry of one net.
#[derive(Debug)]
pub struct Net {
    pub agents: Vec<Option<Agent>>,
    pub wires: Vec<Option<Wire>>,
}

impl View for Net {
    type V = NetV;

    open spec fn view(&self) -> NetV {
        NetV {
            agents: self.agents@.map_values(
                |oa: Option<Agent>|
                    match oa {
                        Option::Some(a) => Option::Some(a@),
                        Option::None => Option::None,
                    },
            ),
            wires: self.wires@,
        }
    }
}

impl Net {
    /// An empty net; ids start at 1, slot 0 of each registry is the
    /// reserved sentinel.
    pub fn new() -> (n: Net)
        ensures
            n@.wf(),
            n@.agents.len() == 1,
            n@.wires.len() == 1,
            n@.agents[0] is None,
            n@.wires[0] is None,
    {
        let mut agents: Vec<Option<Agent>> = Vec::new();
        agents.push(None);
        let mut wires: Vec<Option<Wire>> = Vec::new();
        wires.push(None);
        let n = Net { agents, wires };
        proof {
            assert(n@.agents =~= seq![Option::<AgentV>::None]);
            assert(n@.wires =~= seq![Option::<Wire>::None]);
            assert forall|wid: usize| wire_trig(wid) && n@.live_wire(wid) implies n@.wire_ok(
                wid,
            ) by {
                assert(!n@.live_wire(wid));
            }
            assert forall|id: usize| agent_trig(id) && n@.live_agent(id) implies n@.agent_ok(
                id,
            ) by {
                assert(!n@.live_agent(id));
            }
        }
        n
    }
}


impl Net {
    /// Whether `id` names a live agent.
    pub fn has_agent(&self, id: usize) -> (r: bool)
        ensures
            r == self@.live_agent(id),
    {
        id < self.agents.len() && self.agents[id].is_some()
    }

    /// Whether `wid` names a live wire.
    pub fn has_wire(&self, wid: usize) -> (r: bool)
        ensures
            r == self@.live_wire(wid),
    {
        wid < self.wires.len() && self.wires[wid].is_some()
    }

    /// The kind of a live agent.
    pub fn kind_of(&self, id: usize) -> (k: AgentKind)
        requires
            self@.live_agent(id),
        ensures
            k == self@.agent_at(id).kind,
    {
        match &self.agents[id] {
            Some(a) => a.kind,
            None => AgentKind::Root,
        }
    }

    /// The wire id held in port slot `p` of a live agent.
    pub fn slot(&self, id: usize, p: usize) -> (wid: usize)
        requires
            self@.live_agent(id),
            p < self@.agent_at(id).wires.len(),
        ensures
            wid == self@.agent_at(id).wires[p as int],
    {
        match &self.agents[id] {
            Some(a) => a.wires[p],
            None => 0,
        }
    }

    /// Put `wid` into port slot `p` of a live agent; everything else is
    /// unchanged.
    pub fn set_slot(&mut self, id: usize, p: usize, wid: usize)
        requires
            old(self)@.live_agent(id),
            p < old(self)@.agent_at(id).wires.len(),
        ensures
            final(self)@.agents == old(self)@.agents.update(
                id as int,
                Some(AgentV { wires: old(self)@.agent_at(id).wires.update(p as int, wid), ..old(self)@.agent_at(id) }),
            ),
            final(self)@.wires == old(self)@.wires,
    {
        self.agents.push(None);
        let oa = self.agents.swap_remove(id);
        match oa {
            Some(mut a) => {
                a.wires.set(p, wid);
                self.agents.set(id, Some(a));
                proof {
                    assert(final(self)@.agents =~= old(self)@.agents.update(
                        id as int,
                        Some(AgentV { wires: old(self)@.agent_at(id).wires.update(p as int, wid), ..old(self)@.agent_at(id) }),
                    ));
                }
            },
            None => {
                proof {
                    assert(false);
                }
            },
        }
    }

    /// The wire record of a live wire.
    pub fn get_wire(&self, wid: usize) -> (w: Wire)
        requires
            self@.live_wire(wid),
        ensures
            w == self@.wire_at(wid),
    {
        match &self.wires[wid] {
            Some(w) => *w,
            None => Wire { source: 0, target: 0 },
        }
    }

    /// Overwrite the record of a live wire; everything else is unchanged.
    pub fn set_wire(&mut self, wid: usize, w: Wire)
        requires
            old(self)@.live_wire(wid),
        ensures
            final(self)@.wires == old(self)@.wires.update(wid as int, Some(w)),
            final(self)@.agents == old(self)@.agents,
    {
        self.wires.set(wid, Some(w));
        proof {
            assert(final(self)@.agents =~= old(self)@.agents);
        }
    }

    /// Allocate a fresh agent id for `a`.
    pub fn add_agent(&mut self, a: Agent) -> (id: usize)
        ensures
            id == old(self)@.agents.len(),
            final(self)@.agents == old(self)@.agents.push(Some(a@)),
            final(self)@.wires == old(self)@.wires,
    {
        let id = self.agents.len();
        self.agents.push(Some(a));
        proof {
            assert(final(self)@.agents =~= old(self)@.agents.push(Some(a@)));
        }
        id
    }

    /// Allocate a fresh wire id for `w`.
    pub fn add_wire(&mut self, w: Wire) -> (wid: usize)
        ensures
            wid == old(self)@.wires.len(),
            final(self)@.wires == old(self)@.wires.push(Some(w)),
            final(self)@.agents == old(self)@.agents,
    {
        let wid = self.wires.len();
        self.wires.push(Some(w));
        proof {
            assert(final(self)@.agents =~= old(self)@.agents);
        }
        wid
    }

    /// Delete a live agent; its id is never handed out again.
    pub fn remove_agent(&mut self, id: usize)
        requires
            old(self)@.live_agent(id),
        ensures
            final(self)@.agents == old(self)@.agents.update(id as int, None),
            final(self)@.wires == old(self)@.wires,
    {
        self.agents.set(id, None);
        proof {
            assert(final(self)@.agents =~= old(self)@.agents.update(id as int, None));
        }
    }

    /// Delete a live wire; its id is never handed out again.
    pub fn remove_wire(&mut self, wid: usize)
        requires
            old(self)@.live_wire(wid),
        ensures
            final(self)@.wires == old(self)@.wires.update(wid as int, None),
            final(self)@.agents == old(self)@.agents,
    {
        self.wires.set(wid, None);
        proof {
            assert(final(self)@.agents =~= old(self)@.agents);
        }
    }
}

pub proof fn lemma_count_agents_update_none(s: Seq<Option<AgentV>>, i: int)
    requires
        0 <= i < s.len(),
        s[i] is Some,
    ensures
        count_live_agents(s.update(i, None)) == count_live_agents(s) - 1,
    decreases s.len(),
{
    if i == s.len() - 1 {
        assert(s.update(i, None).drop_last() =~= s.drop_last());
    } else {
        lemma_count_agents_update_none(s.drop_last(), i);
        assert(s.update(i, None).drop_last() =~= s.drop_last().update(i, None));
    }
}

pub proof fn lemma_count_agents_push(s: Seq<Option<AgentV>>, a: Option<AgentV>)
    ensures
        count_live_agents(s.push(a)) == count_live_agents(s) + if a is Some { 1int } else { 0int },
{
    assert(s.push(a).drop_last() =~= s);
}

pub proof fn lemma_count_agents_update_same(s: Seq<Option<AgentV>>, i: int, a: AgentV)
    requires
        0 <= i < s.len(),
        s[i] is Some,
    ensures
        count_live_agents(s.update(i, Some(a))) == count_live_agents(s),
    decreases s.len(),
{
    if i == s.len() - 1 {
        assert(s.update(i, Some(a)).drop_last() =~= s.drop_last());
    } else {
        lemma_count_agents_update_same(s.drop_last(), i, a);
        assert(s.update(i, Some(a)).drop_last() =~= s.drop_last().update(i, Some(a)));
    }
}

pub proof fn lemma_count_wires_update_none(s: Seq<Option<Wire>>, i: int)
    requires
        0 <= i < s.len(),
        s[i] is Some,
    ensures
        count_live_wires(s.update(i, None)) == count_live_wires(s) - 1,
    decreases s.len(),
{
    if i == s.len() - 1 {
        assert(s.update(i, None).drop_last() =~= s.drop_last());
    } else {
        lemma_count_wires_update_none(s.drop_last(), i);
        assert(s.update(i, None).drop_last() =~= s.drop_last().update(i, None));
    }
}

pub proof fn lemma_count_wires_push(s: Seq<Option<Wire>>, w: Option<Wire>)
    ensures
        count_live_wires(s.push(w)) == count_live_wires(s) + if w is Some { 1int } else { 0int },
{
    assert(s.push(w).drop_last() =~= s);
}

pub proof fn lemma_count_wires_update_same(s: Seq<Option<Wire>>, i: int, w: Wire)
    requires
        0 <= i < s.len(),
        s[i] is Some,
    ensures
        count_live_wires(s.update(i, Some(w))) == count_live_wires(s),
    decreases s.len(),
{
    if i == s.len() - 1 {
        assert(s.update(i, Some(w)).drop_last() =~= s.drop_last());
    } else {
        lemma_count_wires_update_same(s.drop_last(), i, w);
        assert(s.update(i, Some(w)).drop_last() =~= s.drop_last().update(i, Some(w)));
    }
}

} // verus!
