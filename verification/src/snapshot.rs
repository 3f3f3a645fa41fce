//! The serialization adapter: the net rendered to and rebuilt from the
//! graph-snapshot document exchanged with a visualising host, plus the
//! cosmetic-only update path.
//!
//! The `x` and `y` fields carry the bit pattern of the host's
//! floating-point screen positions; the library stores and returns them
//! untouched.

use vstd::prelude::*;

use crate::net::{
    agent_trig, arity_of, slot_count, wire_trig, Agent, AgentKind, Net, NetV, Wire,
};
use crate::reduce::{is_redex, the_port};

verus! {

/// One node of the cosmetic-only update document.
#[derive(Debug)]
pub struct NodeData {
    pub id: usize,
    pub x: u32,
    pub y: u32,
    pub fixed: bool,
    pub label: String,
    pub title: String,
}

/// The cosmetic-only update document.
#[derive(Debug)]
pub struct NodeDataArray {
    pub nodes: Vec<NodeData>,
}

/// One node of the full snapshot document.
#[derive(Debug)]
pub struct NodeFromJsonData {
    pub id: usize,
    pub x: u32,
    pub y: u32,
    pub fixed: bool,
    pub kind: String,
    pub label: String,
    pub title: String,
    pub p: Vec<usize>,
    pub ports: Vec<usize>,
    pub color: String,
    pub width: String,
}

/// Display angles of a link's two attachment points.
#[derive(Debug)]
pub struct LinkFromJsonDataPortAngles {
    pub s: usize,
    pub t: usize,
}

/// Port indices of a link's two attachment points.
#[derive(Debug)]
pub struct LinkFromJsonDataPortIndices {
    pub s: usize,
    pub t: usize,
}

/// One link of the full snapshot document.
#[derive(Debug)]
pub struct LinkFromJsonData {
    pub id: usize,
    pub source: usize,
    pub target: usize,
    pub ports: LinkFromJsonDataPortAngles,
    pub p: LinkFromJsonDataPortIndices,
    pub sid: usize,
    pub tid: usize,
    pub force: i32,
}

/// The full snapshot document.
#[derive(Debug)]
pub struct FromJsonData {
    pub nodes: Vec<NodeFromJsonData>,
    pub links: Vec<LinkFromJsonData>,
}

/// The snapshot name of each agent kind.
pub open spec fn spec_kind_name(k: AgentKind) -> Seq<char> {
    match k {
        AgentKind::Root => "root"@,
        AgentKind::Eraser => "eraser"@,
        AgentKind::Lambda => "lambda"@,
        AgentKind::Application => "application"@,
        AgentKind::Duplicator => "duplicator"@,
    }
}

/// The default display glyph of each agent kind.
pub open spec fn spec_kind_glyph(k: AgentKind) -> Seq<char> {
    match k {
        AgentKind::Root => "\u{211d}"@,
        AgentKind::Eraser => "e"@,
        AgentKind::Lambda => "\u{3bb}"@,
        AgentKind::Application => "@"@,
        AgentKind::Duplicator => "\u{25b3}"@,
    }
}

/// The fixed display angle of port `p` on an agent of kind `k`.
pub open spec fn spec_angle(k: AgentKind, p: int) -> usize {
    match k {
        AgentKind::Root => 90,
        AgentKind::Eraser => 270,
        AgentKind::Lambda => if p == 0 {
            270
        } else if p == 1 {
            45
        } else {
            135
        },
        AgentKind::Application => if p == 0 {
            135
        } else if p == 1 {
            270
        } else {
            45
        },
        AgentKind::Duplicator => if p == 0 {
            270
        } else if p == 1 {
            45
        } else {
            135
        },
    }
}

/// The second port of `a` holding `wid` (meaningful when two do).
pub open spec fn second_port(a: crate::net::AgentV, wid: usize) -> int {
    if a.wires[1] == wid && a.wires[0] == wid {
        1
    } else {
        2
    }
}

/// The kind a snapshot node's name denotes; anything unknown falls back
/// to an Eraser.
pub open spec fn spec_kind_of(s: Seq<char>) -> AgentKind {
    if s == "root"@ {
        AgentKind::Root
    } else if s == "eraser"@ {
        AgentKind::Eraser
    } else if s == "lambda"@ {
        AgentKind::Lambda
    } else if s == "application"@ {
        AgentKind::Application
    } else if s == "duplicator"@ {
        AgentKind::Duplicator
    } else {
        AgentKind::Eraser
    }
}

/// The rebuilt registry holds exactly what the snapshot node says.
pub open spec fn node_built(n: NetV, nd: NodeFromJsonData) -> bool {
    &&& n.live_agent(nd.id)
    &&& ({
        let a = n.agent_at(nd.id);
        &&& a.kind == spec_kind_of(nd.kind@)
        &&& a.x == nd.x && a.y == nd.y && a.fixed == nd.fixed
        &&& a.label == nd.label@ && a.title == nd.title@
        &&& a.wires.len() == 3
        &&& a.wires[0] == nd.p@[0]
        &&& (spec_kind_of(nd.kind@) == AgentKind::Root ==> a.wires[1] == 0 && a.wires[2] == 0)
        &&& (spec_kind_of(nd.kind@) != AgentKind::Root ==> a.wires[1] == nd.p@[1] && a.wires[2]
            == nd.p@[2])
    })
}

/// The rebuilt registry holds exactly the wire the snapshot link says.
pub open spec fn link_built(n: NetV, ld: LinkFromJsonData) -> bool {
    &&& n.live_wire(ld.id)
    &&& n.wire_at(ld.id) == Wire { source: ld.sid, target: ld.tid }
}

/// A snapshot node faithfully describes the live agent it names.
pub open spec fn node_matches(n: NetV, nd: NodeFromJsonData) -> bool {
    &&& n.live_agent(nd.id)
    &&& ({
        let a = n.agent_at(nd.id);
        &&& nd.x == a.x
        &&& nd.y == a.y
        &&& nd.fixed == a.fixed
        &&& nd.kind@ == spec_kind_name(a.kind)
        &&& nd.label@ == if a.label.len() == 0 {
            spec_kind_glyph(a.kind)
        } else {
            a.label
        }
        &&& nd.title@ == a.title
        &&& nd.p@.len() == 3
        &&& nd.p@[0] == a.wires[0] && nd.p@[1] == a.wires[1] && nd.p@[2] == a.wires[2]
        &&& nd.color@ == if is_redex(n, a.wires[0]) {
            "black"@
        } else {
            "white"@
        }
        &&& nd.width@ == if is_redex(n, a.wires[0]) {
            "3"@
        } else {
            "1"@
        }
        &&& nd.ports@.len() == arity_of(a.kind)
        &&& forall|p: int| 0 <= p < nd.ports@.len() ==> nd.ports@[p] == spec_angle(a.kind, p)
    })
}

/// A snapshot link faithfully describes the live wire it names.
pub open spec fn link_matches(n: NetV, ld: LinkFromJsonData) -> bool {
    &&& n.live_wire(ld.id)
    &&& ({
        let w = n.wire_at(ld.id);
        &&& ld.sid == w.source
        &&& ld.tid == w.target
        &&& (w.source != w.target ==> ld.p.s == the_port(n.agent_at(w.source), ld.id) && ld.p.t
            == the_port(n.agent_at(w.target), ld.id))
        &&& (w.source == w.target ==> ld.p.s == the_port(n.agent_at(w.source), ld.id) && ld.p.t
            == second_port(n.agent_at(w.source), ld.id))
        &&& ld.ports.s == spec_angle(n.agent_at(w.source).kind, ld.p.s as int)
        &&& ld.ports.t == spec_angle(n.agent_at(w.target).kind, ld.p.t as int)
        &&& ld.force == if (n.agent_at(w.source).kind == AgentKind::Duplicator && ld.p.s != 0) || (
            n.agent_at(w.target).kind == AgentKind::Duplicator && ld.p.t != 0) {
            0int
        } else {
            1int
        }
    })
}

impl Agent {
    /// The snapshot name, default glyph and port angles of this agent's
    /// kind.
    pub fn metadata(&self) -> (r: (String, String, Vec<usize>))
        ensures
            r.0@ == spec_kind_name(self@.kind),
            r.1@ == spec_kind_glyph(self@.kind),
            r.2@.len() == arity_of(self@.kind),
            forall|p: int| 0 <= p < r.2@.len() ==> r.2@[p] == spec_angle(self@.kind, p),
    {
        match self.kind {
            AgentKind::Root => {
                let mut v: Vec<usize> = Vec::new();
                v.push(90);
                (String::from_str("root"), String::from_str("\u{211d}"), v)
            },
            AgentKind::Eraser => {
                let mut v: Vec<usize> = Vec::new();
                v.push(270);
                (String::from_str("eraser"), String::from_str("e"), v)
            },
            AgentKind::Lambda => {
                let mut v: Vec<usize> = Vec::new();
                v.push(270);
                v.push(45);
                v.push(135);
                (String::from_str("lambda"), String::from_str("\u{3bb}"), v)
            },
            AgentKind::Application => {
                let mut v: Vec<usize> = Vec::new();
                v.push(135);
                v.push(270);
                v.push(45);
                (String::from_str("application"), String::from_str("@"), v)
            },
            AgentKind::Duplicator => {
                let mut v: Vec<usize> = Vec::new();
                v.push(270);
                v.push(45);
                v.push(135);
                (String::from_str("duplicator"), String::from_str("\u{25b3}"), v)
            },
        }
    }
}

/// `before` with its cosmetic fields replaced by those of the update
/// node `nd`.
pub open spec fn cosmetics_applied(before: crate::net::AgentV, nd: NodeData) -> crate::net::AgentV {
    crate::net::AgentV {
        x: nd.x,
        y: nd.y,
        fixed: nd.fixed,
        label: nd.label@,
        title: nd.title@,
        ..before
    }
}

impl Net {
    /// Overwrite the cosmetic fields of a live agent; kind and wiring
    /// stay as they are.
    fn set_cosmetics(&mut self, id: usize, x: u32, y: u32, fixed: bool, label: String, title: String)
        requires
            old(self)@.live_agent(id),
        ensures
            final(self)@.wires == old(self)@.wires,
            final(self)@.agents == old(self)@.agents.update(
                id as int,
                Some(
                    crate::net::AgentV {
                        x,
                        y,
                        fixed,
                        label: label@,
                        title: title@,
                        ..old(self)@.agent_at(id)
                    },
                ),
            ),
    {
        self.agents.push(None);
        let oa = self.agents.swap_remove(id);
        match oa {
            Some(mut a) => {
                a.x = x;
                a.y = y;
                a.fixed = fixed;
                a.label = label;
                a.title = title;
                self.agents.set(id, Some(a));
                proof {
                    assert(final(self)@.agents =~= old(self)@.agents.update(
                        id as int,
                        Some(
                            crate::net::AgentV {
                                x,
                                y,
                                fixed,
                                label: label@,
                                title: title@,
                                ..old(self)@.agent_at(id)
                            },
                        ),
                    ));
                }
            },
            None => {
                proof {
                    assert(false);
                }
            },
        }
    }

    /// Apply position and label edits by agent id; ids that name no live
    /// agent are ignored, and the wiring is never touched.
    pub fn update_from_json(&mut self, data: NodeDataArray)
        ensures
            final(self)@.wires == old(self)@.wires,
            final(self)@.agents.len() == old(self)@.agents.len(),
            forall|id: usize|
                final(self)@.live_agent(id) <==> #[trigger] old(self)@.live_agent(id),
            forall|id: usize|
                #[trigger] old(self)@.live_agent(id) ==> final(self)@.agent_at(id).kind == old(
                    self,
                )@.agent_at(id).kind && final(self)@.agent_at(id).wires == old(self)@.agent_at(
                    id,
                ).wires,
            forall|j: int|
                0 <= j < data.nodes@.len() && old(self)@.live_agent(data.nodes@[j].id) && (
                forall|j2: int|
                    j < j2 < data.nodes@.len() ==> (#[trigger] data.nodes@[j2].id)
                        != data.nodes@[j].id) ==> ({
                    let nd = #[trigger] data.nodes@[j];
                    final(self)@.agent_at(nd.id) == cosmetics_applied(
                        old(self)@.agent_at(nd.id),
                        nd,
                    )
                }),
            forall|id: usize|
                #[trigger] old(self)@.live_agent(id) && (forall|j: int|
                    0 <= j < data.nodes@.len() ==> (#[trigger] data.nodes@[j].id) != id)
                    ==> final(self)@.agent_at(id) == old(self)@.agent_at(id),
    {
        let ghost n0 = self@;
        let nodes = data.nodes;
        let n = nodes.len();
        let mut i: usize = 0;
        while i < n
            invariant
                i <= n,
                n == nodes@.len(),
                self@.wires == n0.wires,
                self@.agents.len() == n0.agents.len(),
                forall|id: usize| self@.live_agent(id) <==> #[trigger] n0.live_agent(id),
                forall|id: usize|
                    #[trigger] n0.live_agent(id) ==> self@.agent_at(id).kind == n0.agent_at(
                        id,
                    ).kind && self@.agent_at(id).wires == n0.agent_at(id).wires,
                forall|j: int|
                    0 <= j < i && n0.live_agent(nodes@[j].id) && (forall|j2: int|
                        j < j2 < i ==> (#[trigger] nodes@[j2].id) != nodes@[j].id)
                        ==> self@.agent_at((#[trigger] nodes@[j]).id) == cosmetics_applied(
                        n0.agent_at(nodes@[j].id),
                        nodes@[j],
                    ),
                forall|id: usize|
                    #[trigger] n0.live_agent(id) && (forall|j: int|
                        0 <= j < i ==> (#[trigger] nodes@[j].id) != id) ==> self@.agent_at(id)
                        == n0.agent_at(id),
            decreases n - i,
        {
            let id = nodes[i].id;
            let ghost nprev = self@;
            if self.has_agent(id) {
                let x = nodes[i].x;
                let y = nodes[i].y;
                let fixed = nodes[i].fixed;
                let label = nodes[i].label.clone();
                let title = nodes[i].title.clone();
                self.set_cosmetics(id, x, y, fixed, label, title);
            }
            proof {
                if n0.live_agent(id) {
                    assert(self@.agent_at(id) == cosmetics_applied(
                        n0.agent_at(id),
                        nodes@[i as int],
                    )) by {
                        assert(nprev.agent_at(id).kind == n0.agent_at(id).kind);
                        assert(nprev.agent_at(id).wires == n0.agent_at(id).wires);
                        assert(self@.agent_at(id) == cosmetics_applied(
                            nprev.agent_at(id),
                            nodes@[i as int],
                        ));
                    }
                }
                assert forall|j: int|
                    0 <= j < i + 1 && n0.live_agent(nodes@[j].id) && (forall|j2: int|
                        j < j2 < i + 1 ==> (#[trigger] nodes@[j2].id) != nodes@[j].id) implies
                    self@.agent_at((#[trigger] nodes@[j]).id) == cosmetics_applied(
                    n0.agent_at(nodes@[j].id),
                    nodes@[j],
                ) by {
                    if j < i {
                        assert(nodes@[j].id != id);
                        assert(self@.agent_at(nodes@[j].id) == nprev.agent_at(nodes@[j].id));
                    }
                }
            }
            i = i + 1;
        }
    }

    /// Rebuild a net from a full snapshot: agents from the nodes (their
    /// kind and `p` port slots), wires from the links' true endpoint
    /// ids.  Fresh ids continue after the largest id seen.
    pub fn from_json(data: FromJsonData) -> (r: Net)
        requires
            forall|j: int| 0 <= j < data.nodes@.len() ==> #[trigger] data.nodes@[j].id < usize::MAX - 1,
            forall|j: int| 0 <= j < data.links@.len() ==> #[trigger] data.links@[j].id < usize::MAX - 1,
            forall|j: int|
                0 <= j < data.nodes@.len() ==> (#[trigger] data.nodes@[j].kind@ == "root"@ ==> data.nodes@[j].p@.len() >= 1) && (data.nodes@[j].kind@ != "root"@
                    ==> data.nodes@[j].p@.len() >= 3),
        ensures
            forall|j: int|
                0 <= j < data.nodes@.len() && (forall|j2: int|
                    j < j2 < data.nodes@.len() ==> (#[trigger] data.nodes@[j2].id) != data.nodes@[j].id)
                    ==> node_built(r@, #[trigger] data.nodes@[j]),
            forall|j: int|
                0 <= j < data.links@.len() && (forall|j2: int|
                    j < j2 < data.links@.len() ==> (#[trigger] data.links@[j2].id) != data.links@[j].id)
                    ==> link_built(r@, #[trigger] data.links@[j]),
            forall|id: usize|
                #[trigger] r@.live_agent(id) ==> exists|j: int|
                    0 <= j < data.nodes@.len() && (#[trigger] data.nodes@[j].id) == id,
            forall|wid: usize|
                #[trigger] r@.live_wire(wid) ==> exists|j: int|
                    0 <= j < data.links@.len() && (#[trigger] data.links@[j].id) == wid,
    {
        proof {
            reveal_strlit("root");
            reveal_strlit("eraser");
            reveal_strlit("lambda");
            reveal_strlit("application");
            reveal_strlit("duplicator");
        }
        let nodes = data.nodes;
        let links = data.links;
        let mut max_agent: usize = 0;
        let mut j: usize = 0;
        let nn = nodes.len();
        while j < nn
            invariant
                nn == nodes@.len(),
                max_agent < usize::MAX - 1,
                forall|k: int| 0 <= k < nodes@.len() ==> #[trigger] nodes@[k].id < usize::MAX - 1,
                forall|k: int| 0 <= k < j ==> #[trigger] nodes@[k].id <= max_agent,
            decreases nn - j,
        {
            if nodes[j].id > max_agent {
                max_agent = nodes[j].id;
            }
            j = j + 1;
        }
        let mut max_link: usize = 0;
        let nl = links.len();
        j = 0;
        while j < nl
            invariant
                nl == links@.len(),
                max_link < usize::MAX - 1,
                forall|k: int| 0 <= k < links@.len() ==> #[trigger] links@[k].id < usize::MAX - 1,
                forall|k: int| 0 <= k < j ==> #[trigger] links@[k].id <= max_link,
            decreases nl - j,
        {
            if links[j].id > max_link {
                max_link = links[j].id;
            }
            j = j + 1;
        }
        let mut agents: Vec<Option<Agent>> = Vec::new();
        let mut k: usize = 0;
        while k < max_agent + 2
            invariant
                max_agent < usize::MAX - 1,
                k <= max_agent + 2,
                agents@.len() == k,
                forall|k2: int| 0 <= k2 < agents@.len() ==> agents@[k2] is None,
            decreases max_agent + 2 - k,
        {
            agents.push(None);
            k = k + 1;
        }
        let mut wires: Vec<Option<Wire>> = Vec::new();
        k = 0;
        while k < max_link + 2
            invariant
                max_link < usize::MAX - 1,
                k <= max_link + 2,
                wires@.len() == k,
                forall|k2: int| 0 <= k2 < wires@.len() ==> wires@[k2] is None,
            decreases max_link + 2 - k,
        {
            wires.push(None);
            k = k + 1;
        }
        let mut net = Net { agents, wires };
        let root_name = String::from_str("root");
        let eraser_name = String::from_str("eraser");
        let lambda_name = String::from_str("lambda");
        let application_name = String::from_str("application");
        let duplicator_name = String::from_str("duplicator");
        j = 0;
        while j < nn
            invariant
                j <= nn,
                nn == nodes@.len(),
                net@.wires.len() == max_link + 2,
                forall|kk: int|
                    0 <= kk < nodes@.len() ==> (#[trigger] nodes@[kk].kind@ == "root"@
                        ==> nodes@[kk].p@.len() >= 1) && (nodes@[kk].kind@ != "root"@
                        ==> nodes@[kk].p@.len() >= 3),
                root_name@ == "root"@,
                eraser_name@ == "eraser"@,
                lambda_name@ == "lambda"@,
                application_name@ == "application"@,
                duplicator_name@ == "duplicator"@,
                net@.agents.len() == max_agent + 2,
                forall|k: int| 0 <= k < nodes@.len() ==> #[trigger] nodes@[k].id <= max_agent,
                forall|k: int|
                    0 <= k < j && (forall|k2: int|
                        k < k2 < j ==> (#[trigger] nodes@[k2].id) != nodes@[k].id) ==> node_built(
                        net@,
                        #[trigger] nodes@[k],
                    ),
                forall|id: usize|
                    #[trigger] net@.live_agent(id) ==> exists|k: int|
                        0 <= k < j && (#[trigger] nodes@[k].id) == id,
                forall|k2: int| 0 <= k2 < net@.wires.len() ==> net@.wires[k2] is None,
            decreases nn - j,
        {
            let kind: AgentKind = if nodes[j].kind == root_name {
                AgentKind::Root
            } else if nodes[j].kind == eraser_name {
                AgentKind::Eraser
            } else if nodes[j].kind == lambda_name {
                AgentKind::Lambda
            } else if nodes[j].kind == application_name {
                AgentKind::Application
            } else if nodes[j].kind == duplicator_name {
                AgentKind::Duplicator
            } else {
                AgentKind::Eraser
            };
            let mut ws: Vec<usize> = Vec::new();
            if matches!(kind, AgentKind::Root) {
                ws.push(nodes[j].p[0]);
                ws.push(0);
                ws.push(0);
            } else {
                ws.push(nodes[j].p[0]);
                ws.push(nodes[j].p[1]);
                ws.push(nodes[j].p[2]);
            }
            let agent = Agent {
                kind,
                label: nodes[j].label.clone(),
                title: nodes[j].title.clone(),
                x: nodes[j].x,
                y: nodes[j].y,
                fixed: nodes[j].fixed,
                wires: ws,
            };
            let id = nodes[j].id;
            let ghost nprev = net@;
            let ghost agent_v = agent@;
            if id < net.agents.len() {
                net.agents.set(id, Some(agent));
            }
            proof {
                assert(net@.agents =~= nprev.agents.update(id as int, Some(agent_v)));
                assert(net@.wires == nprev.wires);
                assert(node_built(net@, nodes@[j as int]));
                assert forall|k: int|
                    0 <= k < j + 1 && (forall|k2: int|
                        k < k2 < j + 1 ==> (#[trigger] nodes@[k2].id) != nodes@[k].id) implies
                    node_built(net@, #[trigger] nodes@[k]) by {
                    if k < j {
                        assert(nodes@[k].id != id);
                        assert(node_built(nprev, nodes@[k]));
                    }
                }
                assert forall|id2: usize| #[trigger] net@.live_agent(id2) implies exists|k: int|
                    0 <= k < j + 1 && (#[trigger] nodes@[k].id) == id2 by {
                    if id2 != id {
                        assert(nprev.live_agent(id2));
                        let k0 = choose|k: int|
                            0 <= k < j && (#[trigger] nodes@[k].id) == id2;
                        assert(nodes@[k0].id == id2);
                    } else {
                        assert(nodes@[j as int].id == id2);
                    }
                }
            }
            j = j + 1;
        }
        let ghost after_nodes = net@;
        j = 0;
        while j < nl
            invariant
                j <= nl,
                nl == links@.len(),
                net@.wires.len() == max_link + 2,
                forall|k: int| 0 <= k < links@.len() ==> #[trigger] links@[k].id <= max_link,
                net@.agents == after_nodes.agents,
                forall|k: int|
                    0 <= k < nodes@.len() && (forall|k2: int|
                        k < k2 < nodes@.len() ==> (#[trigger] nodes@[k2].id) != nodes@[k].id)
                        ==> node_built(net@, #[trigger] nodes@[k]),
                forall|k: int|
                    0 <= k < j && (forall|k2: int|
                        k < k2 < j ==> (#[trigger] links@[k2].id) != links@[k].id) ==> link_built(
                        net@,
                        #[trigger] links@[k],
                    ),
                forall|id: usize|
                    #[trigger] net@.live_agent(id) ==> exists|k: int|
                        0 <= k < nodes@.len() && (#[trigger] nodes@[k].id) == id,
                forall|wid: usize|
                    #[trigger] net@.live_wire(wid) ==> exists|k: int|
                        0 <= k < j && (#[trigger] links@[k].id) == wid,
            decreases nl - j,
        {
            let id = links[j].id;
            let ghost nprev = net@;
            let sid = links[j].sid;
            let tid = links[j].tid;
            if id < net.wires.len() {
                net.wires.set(id, Some(Wire { source: sid, target: tid }));
            }
            proof {
                assert(net@.agents == nprev.agents);
                assert(link_built(net@, links@[j as int]));
                assert forall|k: int|
                    0 <= k < j + 1 && (forall|k2: int|
                        k < k2 < j + 1 ==> (#[trigger] links@[k2].id) != links@[k].id) implies
                    link_built(net@, #[trigger] links@[k]) by {
                    if k < j {
                        assert(links@[k].id != id);
                        assert(link_built(nprev, links@[k]));
                    }
                }
                assert forall|k: int|
                    0 <= k < nodes@.len() && (forall|k2: int|
                        k < k2 < nodes@.len() ==> (#[trigger] nodes@[k2].id) != nodes@[k].id)
                        implies node_built(net@, #[trigger] nodes@[k]) by {
                    assert(node_built(nprev, nodes@[k]));
                }
                assert forall|id2: usize| #[trigger] net@.live_agent(id2) implies exists|k: int|
                    0 <= k < nodes@.len() && (#[trigger] nodes@[k].id) == id2 by {
                    assert(nprev.live_agent(id2));
                    let k0 = choose|k: int|
                        0 <= k < nodes@.len() && (#[trigger] nodes@[k].id) == id2;
                    assert(nodes@[k0].id == id2);
                }
                assert forall|wid: usize| #[trigger] net@.live_wire(wid) implies exists|k: int|
                    0 <= k < j + 1 && (#[trigger] links@[k].id) == wid by {
                    if wid != id {
                        assert(nprev.live_wire(wid));
                        let k0 = choose|k: int|
                            0 <= k < j && (#[trigger] links@[k].id) == wid;
                        assert(links@[k0].id == wid);
                    } else {
                        assert(links@[j as int].id == wid);
                    }
                }
            }
            j = j + 1;
        }
        proof {
            assert forall|id: usize| #[trigger] net@.live_agent(id) implies exists|j2: int|
                0 <= j2 < data.nodes@.len() && (#[trigger] data.nodes@[j2].id) == id by {
                let k0 = choose|k: int| 0 <= k < nodes@.len() && (#[trigger] nodes@[k].id) == id;
                assert(data.nodes@[k0].id == id);
            }
            assert forall|wid: usize| #[trigger] net@.live_wire(wid) implies exists|j2: int|
                0 <= j2 < data.links@.len() && (#[trigger] data.links@[j2].id) == wid by {
                let k0 = choose|k: int| 0 <= k < links@.len() && (#[trigger] links@[k].id) == wid;
                assert(data.links@[k0].id == wid);
            }
        }
        net
    }
}

/// The display angle of port `p` on kind `k`.
fn angle_of(k: AgentKind, p: usize) -> (r: usize)
    ensures
        r == spec_angle(k, p as int),
{
    match k {
        AgentKind::Root => 90,
        AgentKind::Eraser => 270,
        AgentKind::Lambda => if p == 0 {
            270
        } else if p == 1 {
            45
        } else {
            135
        },
        AgentKind::Application => if p == 0 {
            135
        } else if p == 1 {
            270
        } else {
            45
        },
        AgentKind::Duplicator => if p == 0 {
            270
        } else if p == 1 {
            45
        } else {
            135
        },
    }
}

impl Net {
    /// The two ports of a live agent that share the self-looped wire
    /// `wid`.
    fn port_pair(&self, id: usize, wid: usize) -> (r: (usize, usize))
        requires
            self@.live_agent(id),
            self@.agent_at(id).wires.len() == 3,
            slot_count(self@.agent_at(id), wid) == 2,
        ensures
            r.0 == the_port(self@.agent_at(id), wid),
            r.1 == second_port(self@.agent_at(id), wid),
            r.0 < 3 && r.1 < 3,
    {
        let w0 = self.slot(id, 0);
        let w1 = self.slot(id, 1);
        let p0: usize = if w0 == wid {
            0
        } else {
            1
        };
        let p1: usize = if w0 == wid && w1 == wid {
            1
        } else {
            2
        };
        (p0, p1)
    }

    /// Render the whole net as a snapshot document: one node per live
    /// agent in id order, one link per live wire in id order, each link
    /// naming its nodes both by position in the node list and by true
    /// agent id.
    pub fn to_json(&self) -> (r: FromJsonData)
        requires
            self@.wf(),
        ensures
            forall|j: int| 0 <= j < r.nodes@.len() ==> node_matches(self@, #[trigger] r.nodes@[j]),
            forall|j: int| 0 <= j < r.links@.len() ==> link_matches(self@, #[trigger] r.links@[j]),
            forall|j: int|
                0 <= j < r.links@.len() ==> ({
                    let ld = #[trigger] r.links@[j];
                    &&& ld.source < r.nodes@.len()
                    &&& ld.target < r.nodes@.len()
                    &&& r.nodes@[ld.source as int].id == ld.sid
                    &&& r.nodes@[ld.target as int].id == ld.tid
                }),
            forall|id: usize|
                #[trigger] self@.live_agent(id) ==> exists|j: int|
                    0 <= j < r.nodes@.len() && (#[trigger] r.nodes@[j].id) == id,
            forall|wid: usize|
                #[trigger] self@.live_wire(wid) ==> exists|j: int|
                    0 <= j < r.links@.len() && (#[trigger] r.links@[j].id) == wid,
            forall|j1: int, j2: int|
                0 <= j1 < j2 < r.nodes@.len() ==> (#[trigger] r.nodes@[j1].id) < (
                #[trigger] r.nodes@[j2].id),
            forall|j1: int, j2: int|
                0 <= j1 < j2 < r.links@.len() ==> (#[trigger] r.links@[j1].id) < (
                #[trigger] r.links@[j2].id),
    {
        let mut nodes: Vec<NodeFromJsonData> = Vec::new();
        let alen = self.agents.len();
        let mut posmap: Vec<usize> = Vec::new();
        let mut k: usize = 0;
        while k < alen
            invariant
                k <= alen,
                posmap@.len() == k,
            decreases alen - k,
        {
            posmap.push(0);
            k = k + 1;
        }
        let mut i: usize = 0;
        while i < alen
            invariant
                i <= alen,
                self@.wf(),
                alen == self@.agents.len(),
                posmap@.len() == alen,
                forall|j: int| 0 <= j < nodes@.len() ==> node_matches(self@, #[trigger] nodes@[j]),
                forall|id: usize|
                    id < i && #[trigger] self@.live_agent(id) ==> posmap@[id as int]
                        < nodes@.len() && nodes@[posmap@[id as int] as int].id == id,
                forall|j: int| 0 <= j < nodes@.len() ==> (#[trigger] nodes@[j].id) < i,
                forall|j1: int, j2: int|
                    0 <= j1 < j2 < nodes@.len() ==> (#[trigger] nodes@[j1].id) < (
                    #[trigger] nodes@[j2].id),
            decreases alen - i,
        {
            if self.has_agent(i) {
                proof {
                    assert(crate::net::agent_trig(i));
                    assert(self@.agent_ok(i));
                }
                let critical = self.redex_at(i);
                let color = if critical {
                    String::from_str("black")
                } else {
                    String::from_str("white")
                };
                let width = if critical {
                    String::from_str("3")
                } else {
                    String::from_str("1")
                };
                let w0 = self.slot(i, 0);
                let w1 = self.slot(i, 1);
                let w2 = self.slot(i, 2);
                let mut p: Vec<usize> = Vec::new();
                p.push(w0);
                p.push(w1);
                p.push(w2);
                match &self.agents[i] {
                    Some(a) => {
                        let m = a.metadata();
                        let label = if a.label.as_str().is_empty() {
                            m.1
                        } else {
                            a.label.clone()
                        };
                        let node = NodeFromJsonData {
                            id: i,
                            x: a.x,
                            y: a.y,
                            fixed: a.fixed,
                            kind: m.0,
                            label,
                            title: a.title.clone(),
                            p,
                            ports: m.2,
                            color,
                            width,
                        };
                        let ghost nprev = nodes@;
                        posmap.set(i, nodes.len());
                        nodes.push(node);
                        proof {
                            assert(node_matches(self@, nodes@.last()));
                            assert forall|j: int| 0 <= j < nodes@.len() implies node_matches(
                                self@,
                                #[trigger] nodes@[j],
                            ) by {
                                if j < nprev.len() {
                                    assert(nodes@[j] == nprev[j]);
                                }
                            }
                        }
                    },
                    None => {
                        proof {
                            assert(false);
                        }
                    },
                }
            }
            i = i + 1;
        }
        proof {
            assert forall|id: usize| #[trigger] self@.live_agent(id) implies exists|j: int|
                0 <= j < nodes@.len() && (#[trigger] nodes@[j].id) == id by {
                assert(nodes@[posmap@[id as int] as int].id == id);
            }
        }
        let mut links: Vec<LinkFromJsonData> = Vec::new();
        let wlen = self.wires.len();
        let mut w: usize = 0;
        while w < wlen
            invariant
                w <= wlen,
                self@.wf(),
                wlen == self@.wires.len(),
                posmap@.len() == self@.agents.len(),
                forall|j: int| 0 <= j < nodes@.len() ==> node_matches(self@, #[trigger] nodes@[j]),
                forall|id: usize|
                    #[trigger] self@.live_agent(id) ==> posmap@[id as int] < nodes@.len()
                        && nodes@[posmap@[id as int] as int].id == id,
                forall|j: int| 0 <= j < links@.len() ==> link_matches(self@, #[trigger] links@[j]),
                forall|j: int|
                    0 <= j < links@.len() ==> ({
                        let ld = #[trigger] links@[j];
                        &&& ld.source < nodes@.len()
                        &&& ld.target < nodes@.len()
                        &&& nodes@[ld.source as int].id == ld.sid
                        &&& nodes@[ld.target as int].id == ld.tid
                    }),
                forall|id: usize|
                    #[trigger] self@.live_agent(id) ==> exists|j: int|
                        0 <= j < nodes@.len() && (#[trigger] nodes@[j].id) == id,
                forall|x: usize|
                    x < w && #[trigger] self@.live_wire(x) ==> exists|j: int|
                        0 <= j < links@.len() && (#[trigger] links@[j].id) == x,
                forall|j: int| 0 <= j < links@.len() ==> (#[trigger] links@[j].id) < w,
                forall|j1: int, j2: int|
                    0 <= j1 < j2 < links@.len() ==> (#[trigger] links@[j1].id) < (
                    #[trigger] links@[j2].id),
            decreases wlen - w,
        {
            if self.has_wire(w) {
                proof {
                    assert(crate::net::wire_trig(w));
                    assert(self@.wire_ok(w));
                    assert(crate::net::agent_trig(self@.wire_at(w).source));
                    assert(crate::net::agent_trig(self@.wire_at(w).target));
                    assert(self@.agent_ok(self@.wire_at(w).source));
                    assert(self@.agent_ok(self@.wire_at(w).target));
                }
                let wire = self.get_wire(w);
                let (ps, pt) = if wire.source == wire.target {
                    self.port_pair(wire.source, w)
                } else {
                    (self.port_of(wire.source, w), self.port_of(wire.target, w))
                };
                let skind = self.kind_of(wire.source);
                let tkind = self.kind_of(wire.target);
                let sangle = angle_of(skind, ps);
                let tangle = angle_of(tkind, pt);
                let force: i32 = if (matches!(skind, AgentKind::Duplicator) && ps != 0) || (
                matches!(tkind, AgentKind::Duplicator) && pt != 0) {
                    0
                } else {
                    1
                };
                let source_pos = posmap[wire.source];
                let target_pos = posmap[wire.target];
                let ghost lprev = links@;
                let link = LinkFromJsonData {
                    id: w,
                    source: source_pos,
                    target: target_pos,
                    ports: LinkFromJsonDataPortAngles { s: sangle, t: tangle },
                    p: LinkFromJsonDataPortIndices { s: ps, t: pt },
                    sid: wire.source,
                    tid: wire.target,
                    force,
                };
                links.push(link);
                proof {
                    assert(link_matches(self@, links@.last()));
                    assert forall|j: int| 0 <= j < links@.len() implies link_matches(
                        self@,
                        #[trigger] links@[j],
                    ) by {
                        if j < lprev.len() {
                            assert(links@[j] == lprev[j]);
                        }
                    }
                    assert forall|j: int| 0 <= j < links@.len() implies ({
                        let ld = #[trigger] links@[j];
                        &&& ld.source < nodes@.len()
                        &&& ld.target < nodes@.len()
                        &&& nodes@[ld.source as int].id == ld.sid
                        &&& nodes@[ld.target as int].id == ld.tid
                    }) by {
                        if j < lprev.len() {
                            assert(links@[j] == lprev[j]);
                        }
                    }
                    assert forall|x: usize| x < w + 1 && #[trigger] self@.live_wire(x) implies
                        exists|j: int| 0 <= j < links@.len() && (#[trigger] links@[j].id) == x by {
                        if x < w {
                            let j0 = choose|j: int|
                                0 <= j < lprev.len() && (#[trigger] lprev[j].id) == x;
                            assert(links@[j0].id == x);
                        } else {
                            assert(links@[links@.len() - 1].id == x);
                        }
                    }
                }
            }
            w = w + 1;
        }
        let ghost nseq = nodes@;
        let ghost lseq = links@;
        let result = FromJsonData { nodes, links };
        proof {
            assert forall|id: usize| #[trigger] self@.live_agent(id) implies exists|j: int|
                0 <= j < result.nodes@.len() && (#[trigger] result.nodes@[j].id) == id by {
                let j0 = choose|j: int| 0 <= j < nseq.len() && (#[trigger] nseq[j].id) == id;
                assert(result.nodes@[j0].id == id);
            }
            assert forall|wid: usize| #[trigger] self@.live_wire(wid) implies exists|j: int|
                0 <= j < result.links@.len() && (#[trigger] result.links@[j].id) == wid by {
                let j0 = choose|j: int| 0 <= j < lseq.len() && (#[trigger] lseq[j].id) == wid;
                assert(result.links@[j0].id == wid);
            }
        }
        result
    }
}

} // verus!
