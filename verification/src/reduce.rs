//! The reduction engine: rule selection and the three local rewrite
//! rules — Erase, Cancel and Duplicate — together with the proof that
//! every step preserves the graph-closure invariant.

use vstd::prelude::*;

use crate::net::{
    agent_trig, arity_of, count_live_agents, count_live_wires, slot_count, wire_trig, Agent,
    AgentKind, AgentV, Net, NetV, RuleKind, Wire,
};

verus! {

/// The structural rule table, symmetric in its two arguments.  An Eraser
/// erases anything (Root included); Lambda meets Application and
/// Duplicator meets Duplicator in annihilation; a Duplicator copies a
/// Lambda or an Application; every other pairing has no rule.
pub open spec fn rule_for(a: AgentKind, b: AgentKind) -> RuleKind {
    if a == AgentKind::Eraser || b == AgentKind::Eraser {
        RuleKind::Erase
    } else if (a == AgentKind::Lambda && b == AgentKind::Application) || (a
        == AgentKind::Application && b == AgentKind::Lambda) {
        RuleKind::Cancel
    } else if a == AgentKind::Duplicator && b == AgentKind::Duplicator {
        RuleKind::Cancel
    } else if a == AgentKind::Duplicator && (b == AgentKind::Lambda || b
        == AgentKind::Application) {
        RuleKind::Duplicate
    } else if (a == AgentKind::Lambda || a == AgentKind::Application) && b
        == AgentKind::Duplicator {
        RuleKind::Duplicate
    } else {
        RuleKind::NoRule
    }
}

/// Wire `wid` joins the principal ports of two distinct agents.
pub open spec fn is_principal_pair(n: NetV, wid: usize) -> bool {
    &&& n.live_wire(wid)
    &&& n.wire_at(wid).source != n.wire_at(wid).target
    &&& n.agent_at(n.wire_at(wid).source).wires[0] == wid
    &&& n.agent_at(n.wire_at(wid).target).wires[0] == wid
}

/// The kind of the agent a firing Erase removes alongside the Eraser: the
/// non-Eraser side if there is one, otherwise the target side.
pub open spec fn erase_partner_kind(n: NetV, wid: usize) -> AgentKind {
    if n.agent_at(n.wire_at(wid).source).kind == AgentKind::Eraser {
        n.agent_at(n.wire_at(wid).target).kind
    } else {
        n.agent_at(n.wire_at(wid).source).kind
    }
}

/// Rule selection as executable code.
pub fn select_rule(a: AgentKind, b: AgentKind) -> (r: RuleKind)
    ensures
        r == rule_for(a, b),
{
    if a == AgentKind::Eraser || b == AgentKind::Eraser {
        RuleKind::Erase
    } else if (a == AgentKind::Lambda && b == AgentKind::Application) || (a
        == AgentKind::Application && b == AgentKind::Lambda) {
        RuleKind::Cancel
    } else if a == AgentKind::Duplicator && b == AgentKind::Duplicator {
        RuleKind::Cancel
    } else if a == AgentKind::Duplicator && (b == AgentKind::Lambda || b
        == AgentKind::Application) {
        RuleKind::Duplicate
    } else if (a == AgentKind::Lambda || a == AgentKind::Application) && b
        == AgentKind::Duplicator {
        RuleKind::Duplicate
    } else {
        RuleKind::NoRule
    }
}

/// `w` with its endpoint on agent `from` moved to agent `to`; if both
/// endpoints lie on `from`, only the source side moves.
pub open spec fn redirected(w: Wire, from: usize, to: usize) -> Wire {
    if w.source == from {
        Wire { source: to, target: w.target }
    } else {
        Wire { source: w.source, target: to }
    }
}


/// The registries after deleting one live wire.
pub open spec fn minus_wire(n: NetV, r: usize) -> NetV {
    NetV { agents: n.agents, wires: n.wires.update(r as int, None) }
}

/// The registries after deleting the two agents of the redex on `wid`
/// and the principal wire itself.
pub open spec fn without_pair(n0: NetV, wid: usize) -> NetV {
    let aid = n0.wire_at(wid).source;
    let pid = n0.wire_at(wid).target;
    NetV {
        agents: n0.agents.update(aid as int, None).update(pid as int, None),
        wires: n0.wires.update(wid as int, None),
    }
}

/// The exact net an Erase at `wid` leaves behind: the Eraser and its
/// partner are gone; an arity-3 partner leaves two fresh Erasers, each
/// adopting one former auxiliary wire of the partner (its endpoint on
/// the partner moves to the fresh Eraser) and carrying the partner's
/// position.
pub open spec fn erase_post(n0: NetV, wid: usize, n2: NetV) -> bool {
    let w = n0.wire_at(wid);
    let eid = if n0.agent_at(w.source).kind == AgentKind::Eraser {
        w.source
    } else {
        w.target
    };
    let pid = if n0.agent_at(w.source).kind == AgentKind::Eraser {
        w.target
    } else {
        w.source
    };
    if arity_of(n0.agent_at(pid).kind) == 1 {
        &&& n2.agents == n0.agents.update(eid as int, None).update(pid as int, None)
        &&& n2.wires == n0.wires.update(wid as int, None)
    } else {
        let partner = n0.agent_at(pid);
        let p1 = partner.wires[1];
        let p2 = partner.wires[2];
        let e1id = n0.agents.len() as usize;
        let e2id = (n0.agents.len() + 1) as usize;
        let e1v = AgentV {
            kind: AgentKind::Eraser,
            label: Seq::<char>::empty(),
            title: Seq::<char>::empty(),
            x: partner.x,
            y: partner.y,
            fixed: partner.fixed,
            wires: seq![p1, 0, 0],
        };
        let e2v = AgentV {
            kind: AgentKind::Eraser,
            label: Seq::<char>::empty(),
            title: Seq::<char>::empty(),
            x: partner.x,
            y: partner.y,
            fixed: partner.fixed,
            wires: seq![p2, 0, 0],
        };
        let r1 = redirected(n0.wire_at(p1), pid, e1id);
        let w2mid: Wire = if p2 == p1 {
            r1
        } else {
            n0.wire_at(p2)
        };
        let r2 = redirected(w2mid, pid, e2id);
        &&& n0.agents.len() + 2 <= usize::MAX
        &&& n2.agents == n0.agents.update(eid as int, None).update(pid as int, None).push(
            Some(e1v),
        ).push(Some(e2v))
        &&& n2.wires == n0.wires.update(wid as int, None).update(p1 as int, Some(r1)).update(
            p2 as int,
            Some(r2),
        )
    }
}

/// The exact net a Cancel at `wid` leaves behind: the pair is deleted
/// and the same-indexed auxiliary wires reconnect through their external
/// endpoints — for a Lambda/Application pair this joins body to parent
/// and argument to binder (beta).  Each coincidence pattern discards
/// exactly the wires that become internal to the removed pair.
pub open spec fn cancel_post(n0: NetV, wid: usize, n2: NetV) -> bool {
    let aid = n0.wire_at(wid).source;
    let pid = n0.wire_at(wid).target;
    let a1 = n0.agent_at(aid).wires[1];
    let a2 = n0.agent_at(aid).wires[2];
    let p1 = n0.agent_at(pid).wires[1];
    let p2 = n0.agent_at(pid).wires[2];
    let base = without_pair(n0, wid);
    if a1 == a2 && p1 == p2 {
        n2 == minus_wire(minus_wire(base, a1), p1)
    } else if a1 == a2 {
        n2 == bridged(minus_wire(base, a1), p1, pid, p2, pid)
    } else if p1 == p2 {
        n2 == bridged(minus_wire(base, p1), a1, aid, a2, aid)
    } else if a1 == p1 && a2 == p2 {
        n2 == minus_wire(minus_wire(base, a1), a2)
    } else if a1 == p1 {
        n2 == bridged(minus_wire(base, a1), a2, aid, p2, pid)
    } else if a2 == p2 {
        n2 == bridged(minus_wire(base, a2), a1, aid, p1, pid)
    } else if a1 == p2 && a2 == p1 {
        n2 == minus_wire(minus_wire(base, a1), a2)
    } else if a1 == p2 {
        n2 == bridged(minus_wire(base, a1), a2, aid, p1, pid)
    } else if a2 == p1 {
        n2 == bridged(minus_wire(base, a2), a1, aid, p2, pid)
    } else {
        n2 == bridged(bridged(base, a1, aid, p1, pid), a2, aid, p2, pid)
    }
}

/// The exact net a Duplicate at `wid` leaves behind: both agents are
/// cloned, the four fresh criss-cross wires join each copy of one side
/// to both copies of the other on their auxiliary ports, and each
/// former auxiliary wire of the pair is adopted by the matching copy's
/// principal port (see [`duplicate_pre`] for the full equations).
pub open spec fn duplicate_post(n0: NetV, wid: usize, n2: NetV) -> bool {
    let aid = n0.wire_at(wid).source;
    let pid = n0.wire_at(wid).target;
    let s1 = n0.agents.len() as usize;
    let s2 = (n0.agents.len() + 1) as usize;
    let t1 = (n0.agents.len() + 2) as usize;
    let t2 = (n0.agents.len() + 3) as usize;
    let w11 = n0.wires.len() as usize;
    let w12 = (n0.wires.len() + 1) as usize;
    let w21 = (n0.wires.len() + 2) as usize;
    let w22 = (n0.wires.len() + 3) as usize;
    &&& n0.agents.len() + 3 <= usize::MAX
    &&& n0.wires.len() + 3 <= usize::MAX
    &&& duplicate_pre(n0, wid, aid, pid, s1, s2, t1, t2, w11, w12, w21, w22, n2)
}

impl Net {
    /// Move the endpoint of wire `wid` that lies on agent `from` over to
    /// agent `to`; the port slots of the agents are untouched.
    fn redirect(&mut self, wid: usize, from: usize, to: usize)
        requires
            old(self)@.live_wire(wid),
            old(self)@.wire_at(wid).source == from || old(self)@.wire_at(wid).target == from,
        ensures
            final(self)@.agents == old(self)@.agents,
            final(self)@.wires == old(self)@.wires.update(
                wid as int,
                Some(redirected(old(self)@.wire_at(wid), from, to)),
            ),
    {
        let w = self.get_wire(wid);
        if w.source == from {
            self.set_wire(wid, Wire { source: to, target: w.target });
        } else {
            self.set_wire(wid, Wire { source: w.source, target: to });
        }
    }

    /// An exact copy of a live agent (used when a Duplicate step clones
    /// the pair).
    fn clone_agent(&self, id: usize) -> (a: Agent)
        requires
            self@.live_agent(id),
            self@.agent_at(id).wires.len() == 3,
        ensures
            a@ == self@.agent_at(id),
    {
        match &self.agents[id] {
            Some(orig) => {
                let mut wires: Vec<usize> = Vec::new();
                wires.push(orig.wires[0]);
                wires.push(orig.wires[1]);
                wires.push(orig.wires[2]);
                let a = Agent {
                    kind: orig.kind,
                    label: orig.label.clone(),
                    title: orig.title.clone(),
                    x: orig.x,
                    y: orig.y,
                    fixed: orig.fixed,
                    wires,
                };
                proof {
                    assert(a@.wires =~= self@.agent_at(id).wires);
                    assert(a@ =~= self@.agent_at(id));
                }
                a
            },
            None => {
                proof {
                    assert(false);
                }
                Agent::new(AgentKind::Root, 0, 0, 0)
            },
        }
    }

    /// The Erase rule: remove the Eraser and its partner, and seal each
    /// auxiliary neighbour of the partner with a fresh Eraser.
    fn apply_erase(&mut self, wid: usize)
        requires
            old(self)@.wf(),
            is_principal_pair(old(self)@, wid),
            rule_for(
                old(self)@.agent_at(old(self)@.wire_at(wid).source).kind,
                old(self)@.agent_at(old(self)@.wire_at(wid).target).kind,
            ) == RuleKind::Erase,
        ensures
            final(self)@.wf(),
            !final(self)@.live_agent(old(self)@.wire_at(wid).source),
            !final(self)@.live_agent(old(self)@.wire_at(wid).target),
            final(self)@.agent_count() == old(self)@.agent_count() - 2 + (arity_of(
                erase_partner_kind(old(self)@, wid),
            ) - 1),
            final(self)@.wire_count() == old(self)@.wire_count() - 1,
            erase_post(old(self)@, wid, final(self)@),
    {
        let ghost n0 = self@;
        let w = self.get_wire(wid);
        proof {
            assert(wire_trig(wid));
            assert(agent_trig(w.source));
            assert(agent_trig(w.target));
        }
        let (eid, pid) = if self.kind_of(w.source) == AgentKind::Eraser {
            (w.source, w.target)
        } else {
            (w.target, w.source)
        };
        let pk = self.kind_of(pid);
        if pk == AgentKind::Eraser || pk == AgentKind::Root {
            self.erase_simple(wid, eid, pid);
        } else {
            self.erase_full(wid, eid, pid);
        }
    }

    /// Erase against an arity-1 partner: both agents and their principal
    /// wire vanish, nothing else moves.
    fn erase_simple(&mut self, wid: usize, eid: usize, pid: usize)
        requires
            old(self)@.wf(),
            old(self)@.live_wire(wid),
            old(self)@.wire_at(wid).source != old(self)@.wire_at(wid).target,
            (eid == old(self)@.wire_at(wid).source && pid == old(self)@.wire_at(wid).target) || (
            eid == old(self)@.wire_at(wid).target && pid == old(self)@.wire_at(wid).source),
            arity_of(old(self)@.agent_at(eid).kind) == 1,
            arity_of(old(self)@.agent_at(pid).kind) == 1,
            old(self)@.agent_at(eid).wires[0] == wid,
            old(self)@.agent_at(pid).wires[0] == wid,
        ensures
            final(self)@.wf(),
            !final(self)@.live_agent(eid),
            !final(self)@.live_agent(pid),
            final(self)@.agent_count() == old(self)@.agent_count() - 2,
            final(self)@.wire_count() == old(self)@.wire_count() - 1,
            final(self)@.agents == old(self)@.agents.update(eid as int, None).update(
                pid as int,
                None,
            ),
            final(self)@.wires == old(self)@.wires.update(wid as int, None),
    {
        let ghost n0 = self@;
        proof {
            assert(wire_trig(wid));
            assert(agent_trig(eid));
            assert(agent_trig(pid));
        }
        self.remove_wire(wid);
        self.remove_agent(eid);
        self.remove_agent(pid);
        proof {
            crate::net::lemma_count_wires_update_none(n0.wires, wid as int);
            crate::net::lemma_count_agents_update_none(n0.agents, eid as int);
            crate::net::lemma_count_agents_update_none(
                n0.agents.update(eid as int, None),
                pid as int,
            );
            let n2 = self@;
            assert forall|x: usize| wire_trig(x) && n2.live_wire(x) implies n2.wire_ok(x) by {
                assert(x != wid);
                assert(n0.live_wire(x));
                let wx = n0.wire_at(x);
                assert(agent_trig(wx.source));
                assert(agent_trig(wx.target));
                assert(wx.source != eid && wx.target != eid && wx.source != pid && wx.target
                    != pid) by {
                    if wx.source == eid || wx.target == eid {
                        assert(slot_count(n0.agent_at(eid), x) >= 1);
                    }
                    if wx.source == pid || wx.target == pid {
                        assert(slot_count(n0.agent_at(pid), x) >= 1);
                    }
                }
                assert(n2.wire_at(x) == wx);
                assert(n2.agent_at(wx.source) == n0.agent_at(wx.source));
                assert(n2.agent_at(wx.target) == n0.agent_at(wx.target));
            }
            assert forall|aid: usize| agent_trig(aid) && n2.live_agent(aid) implies n2.agent_ok(
                aid,
            ) by {
                assert(aid != eid && aid != pid);
                assert(n0.live_agent(aid));
                let a = n0.agent_at(aid);
                assert(n2.agent_at(aid) == a);
                assert(wire_trig(a.wires[0]));
                assert(wire_trig(a.wires[1]));
                assert(wire_trig(a.wires[2]));
                assert(a.wires[0] != wid && (arity_of(a.kind) > 1 ==> a.wires[1] != wid
                    && a.wires[2] != wid)) by {
                    assert(n0.wire_at(wid).source == eid || n0.wire_at(wid).source == pid);
                    assert(n0.wire_at(wid).target == eid || n0.wire_at(wid).target == pid);
                }
                assert(n2.agent_ok(aid));
            }
        }
    }

    /// Erase against an arity-3 partner: the pair and its principal wire
    /// vanish and two fresh Erasers take over the partner's auxiliary
    /// wires.
    fn erase_full(&mut self, wid: usize, eid: usize, pid: usize)
        requires
            old(self)@.wf(),
            old(self)@.live_wire(wid),
            old(self)@.wire_at(wid).source != old(self)@.wire_at(wid).target,
            (eid == old(self)@.wire_at(wid).source && pid == old(self)@.wire_at(wid).target) || (
            eid == old(self)@.wire_at(wid).target && pid == old(self)@.wire_at(wid).source),
            arity_of(old(self)@.agent_at(eid).kind) == 1,
            arity_of(old(self)@.agent_at(pid).kind) == 3,
            old(self)@.agent_at(eid).wires[0] == wid,
            old(self)@.agent_at(pid).wires[0] == wid,
        ensures
            final(self)@.wf(),
            !final(self)@.live_agent(eid),
            !final(self)@.live_agent(pid),
            final(self)@.agent_count() == old(self)@.agent_count(),
            final(self)@.wire_count() == old(self)@.wire_count() - 1,
            ({
                let n0 = old(self)@;
                let partner = n0.agent_at(pid);
                let p1 = partner.wires[1];
                let p2 = partner.wires[2];
                let e1id = n0.agents.len() as usize;
                let e2id = (n0.agents.len() + 1) as usize;
                let e1v = AgentV {
                    kind: AgentKind::Eraser,
                    label: Seq::<char>::empty(),
                    title: Seq::<char>::empty(),
                    x: partner.x,
                    y: partner.y,
                    fixed: partner.fixed,
                    wires: seq![p1, 0, 0],
                };
                let e2v = AgentV {
                    kind: AgentKind::Eraser,
                    label: Seq::<char>::empty(),
                    title: Seq::<char>::empty(),
                    x: partner.x,
                    y: partner.y,
                    fixed: partner.fixed,
                    wires: seq![p2, 0, 0],
                };
                let r1 = redirected(n0.wire_at(p1), pid, e1id);
                let w2mid: Wire = if p2 == p1 {
                    r1
                } else {
                    n0.wire_at(p2)
                };
                let r2 = redirected(w2mid, pid, e2id);
                &&& n0.agents.len() + 2 <= usize::MAX
                &&& final(self)@.agents == n0.agents.update(eid as int, None).update(
                    pid as int,
                    None,
                ).push(Some(e1v)).push(Some(e2v))
                &&& final(self)@.wires == n0.wires.update(wid as int, None).update(
                    p1 as int,
                    Some(r1),
                ).update(p2 as int, Some(r2))
            }),
    {
        let ghost n0 = self@;
        proof {
            assert(wire_trig(wid));
            assert(agent_trig(eid));
            assert(agent_trig(pid));
        }
        let p1 = self.slot(pid, 1);
        let p2 = self.slot(pid, 2);
        let (px, py, pfixed) = match &self.agents[pid] {
            Some(a) => (a.x, a.y, a.fixed),
            None => (0u32, 0u32, false),
        };
        proof {
            assert(wire_trig(p1));
            assert(wire_trig(p2));
            assert(p1 != wid && p2 != wid) by {
                assert(slot_count(n0.agent_at(pid), wid) == 1);
            }
            lemma_aux_wire_shape(n0, pid, p1, p2);
        }
        self.remove_wire(wid);
        self.remove_agent(eid);
        self.remove_agent(pid);
        let mut e1 = Agent::new(AgentKind::Eraser, p1, 0, 0);
        e1.x = px;
        e1.y = py;
        e1.fixed = pfixed;
        let mut e2 = Agent::new(AgentKind::Eraser, p2, 0, 0);
        e2.x = px;
        e2.y = py;
        e2.fixed = pfixed;
        let e1id = self.add_agent(e1);
        let e2id = self.add_agent(e2);
        let cap = self.agents.len();
        proof {
            assert(self@.agents.len() == self.agents@.len());
            assert(self@.agents.len() == n0.agents.len() + 2);
            assert(cap == n0.agents.len() + 2);
        }
        self.redirect(p1, pid, e1id);
        self.redirect(p2, pid, e2id);
        proof {
            let n2 = self@;
            let r1 = redirected(n0.wire_at(p1), pid, e1id);
            let w2mid: Wire = if p2 == p1 {
                r1
            } else {
                n0.wire_at(p2)
            };
            let r2 = redirected(w2mid, pid, e2id);
            assert(n2.agents =~= n0.agents.update(eid as int, None).update(pid as int, None).push(
                Some(e1@),
            ).push(Some(e2@)));
            assert(n2.wires =~= n0.wires.update(wid as int, None).update(
                p1 as int,
                Some(r1),
            ).update(p2 as int, Some(r2)));
            crate::net::lemma_count_wires_update_none(n0.wires, wid as int);
            crate::net::lemma_count_wires_update_same(
                n0.wires.update(wid as int, None),
                p1 as int,
                r1,
            );
            crate::net::lemma_count_wires_update_same(
                n0.wires.update(wid as int, None).update(p1 as int, Some(r1)),
                p2 as int,
                r2,
            );
            crate::net::lemma_count_agents_update_none(n0.agents, eid as int);
            crate::net::lemma_count_agents_update_none(
                n0.agents.update(eid as int, None),
                pid as int,
            );
            crate::net::lemma_count_agents_push(
                n0.agents.update(eid as int, None).update(pid as int, None),
                Some(e1@),
            );
            crate::net::lemma_count_agents_push(
                n0.agents.update(eid as int, None).update(pid as int, None).push(Some(e1@)),
                Some(e2@),
            );
            lemma_erase_full_wf(n0, wid, eid, pid, e1id, e2id, e1@, e2@, n2);
        }
    }
}

/// An auxiliary wire of an arity-3 agent has an endpoint on that agent;
/// if both its endpoints lie there it occupies both auxiliary slots, and
/// otherwise its far endpoint is some other agent.
proof fn lemma_aux_wire_shape(n0: NetV, pid: usize, p1: usize, p2: usize)
    requires
        n0.wf(),
        n0.live_agent(pid),
        arity_of(n0.agent_at(pid).kind) == 3,
        p1 == n0.agent_at(pid).wires[1],
        p2 == n0.agent_at(pid).wires[2],
        n0.agent_at(pid).wires[0] != p1,
        n0.agent_at(pid).wires[0] != p2,
    ensures
        n0.live_wire(p1) && n0.live_wire(p2),
        n0.wire_at(p1).source == pid || n0.wire_at(p1).target == pid,
        n0.wire_at(p2).source == pid || n0.wire_at(p2).target == pid,
        (n0.wire_at(p1).source == pid && n0.wire_at(p1).target == pid) <==> p1 == p2,
        p1 != p2 ==> n0.wire_at(p1).source != n0.wire_at(p1).target,
        p1 != p2 ==> n0.wire_at(p2).source != n0.wire_at(p2).target,
{
    assert(agent_trig(pid));
    assert(wire_trig(p1));
    assert(wire_trig(p2));
    assert(n0.agent_ok(pid));
    assert(n0.live_wire(p1) && n0.live_wire(p2));
    assert(n0.wire_ok(p1));
    assert(n0.wire_ok(p2));
    let w1 = n0.wire_at(p1);
    let w2 = n0.wire_at(p2);
    if w1.source == pid && w1.target == pid {
        assert(slot_count(n0.agent_at(pid), p1) == 2);
        assert(p1 == p2);
    }
    if p1 == p2 {
        assert(slot_count(n0.agent_at(pid), p1) >= 2);
        if w1.source != w1.target {
            assert(slot_count(n0.agent_at(w1.source), p1) == 1);
            assert(slot_count(n0.agent_at(w1.target), p1) == 1);
            assert(w1.source == pid || w1.target == pid);
            assert(false);
        }
        assert(w1.source == pid);
    }
    if p1 != p2 {
        if w1.source == w1.target {
            assert(slot_count(n0.agent_at(w1.source), p1) == 2);
            assert(w1.source == pid);
            assert(false);
        }
        if w2.source == w2.target {
            assert(slot_count(n0.agent_at(w2.source), p2) == 2);
            assert(w2.source == pid);
            assert(false);
        }
    }
}

/// Everything `lemma_erase_full_wf` assumes about the states before and
/// after an Erase against an arity-3 partner.
pub open spec fn erase_full_pre(
    n0: NetV,
    wid: usize,
    eid: usize,
    pid: usize,
    e1id: usize,
    e2id: usize,
    e1v: AgentV,
    e2v: AgentV,
    n2: NetV,
) -> bool {
    &&& n0.wf()
    &&& e1id == n0.agents.len()
    &&& e2id == n0.agents.len() + 1
    &&& n0.live_wire(wid)
    &&& n0.wire_at(wid).source != n0.wire_at(wid).target
    &&& (eid == n0.wire_at(wid).source && pid == n0.wire_at(wid).target) || (eid == n0.wire_at(
        wid,
    ).target && pid == n0.wire_at(wid).source)
    &&& arity_of(n0.agent_at(eid).kind) == 1
    &&& arity_of(n0.agent_at(pid).kind) == 3
    &&& n0.agent_at(eid).wires[0] == wid
    &&& n0.agent_at(pid).wires[0] == wid
    &&& e1v.kind == AgentKind::Eraser
    &&& e2v.kind == AgentKind::Eraser
    &&& e1v.wires.len() == 3
    &&& e2v.wires.len() == 3
    &&& e1v.wires[0] == n0.agent_at(pid).wires[1]
    &&& e2v.wires[0] == n0.agent_at(pid).wires[2]
    &&& e1v.wires[1] == 0 && e1v.wires[2] == 0
    &&& e2v.wires[1] == 0 && e2v.wires[2] == 0
    &&& n2.agents == n0.agents.update(eid as int, None).update(pid as int, None).push(
        Some(e1v),
    ).push(Some(e2v))
    &&& ({
        let p1 = n0.agent_at(pid).wires[1];
        let p2 = n0.agent_at(pid).wires[2];
        let r1 = redirected(n0.wire_at(p1), pid, e1id);
        let w2mid: Wire = if p2 == p1 {
            r1
        } else {
            n0.wire_at(p2)
        };
        let r2 = redirected(w2mid, pid, e2id);
        n2.wires == n0.wires.update(wid as int, None).update(p1 as int, Some(r1)).update(
            p2 as int,
            Some(r2),
        )
    })
}

/// After erasing a pair whose partner has arity 3, the net with the two
/// fresh Erasers attached to the partner's auxiliary wires is again
/// closed.
proof fn lemma_erase_full_wf(
    n0: NetV,
    wid: usize,
    eid: usize,
    pid: usize,
    e1id: usize,
    e2id: usize,
    e1v: AgentV,
    e2v: AgentV,
    n2: NetV,
)
    requires
        erase_full_pre(n0, wid, eid, pid, e1id, e2id, e1v, e2v, n2),
    ensures
        n2.wf(),
{
    assert(wire_trig(wid));
    assert(n0.wire_ok(wid));
    assert(n0.live_agent(eid) && n0.live_agent(pid));
    assert(eid != 0 && pid != 0);
    assert(wire_trig(n0.agent_at(pid).wires[1]));
    assert(wire_trig(n0.agent_at(pid).wires[2]));
    assert(agent_trig(pid));
    assert(n0.agent_ok(pid));
    assert(n0.agent_at(pid).wires[1] != 0 && n0.agent_at(pid).wires[2] != 0);
    assert(n2.agents[0] is None && n2.wires[0] is None);
    lemma_erase_full_wires(n0, wid, eid, pid, e1id, e2id, e1v, e2v, n2);
    lemma_erase_full_agents(n0, wid, eid, pid, e1id, e2id, e1v, e2v, n2);
}

/// Wire side of `lemma_erase_full_wf`.
proof fn lemma_erase_full_wires(
    n0: NetV,
    wid: usize,
    eid: usize,
    pid: usize,
    e1id: usize,
    e2id: usize,
    e1v: AgentV,
    e2v: AgentV,
    n2: NetV,
)
    requires
        erase_full_pre(n0, wid, eid, pid, e1id, e2id, e1v, e2v, n2),
    ensures
        forall|x: usize| #[trigger] wire_trig(x) ==> n2.live_wire(x) ==> n2.wire_ok(x),
{
    let p1 = n0.agent_at(pid).wires[1];
    let p2 = n0.agent_at(pid).wires[2];
    let w1 = n0.wire_at(p1);
    let w2 = n0.wire_at(p2);
    assert(wire_trig(wid));
    assert(agent_trig(eid));
    assert(agent_trig(pid));
    assert(p1 != wid && p2 != wid) by {
        assert(slot_count(n0.agent_at(pid), wid) == 1);
    }
    lemma_aux_wire_shape(n0, pid, p1, p2);
    assert(n2.live_agent(e1id) && n2.agent_at(e1id) == e1v);
    assert(n2.live_agent(e2id) && n2.agent_at(e2id) == e2v);
    assert(eid != e1id && eid != e2id && pid != e1id && pid != e2id);
    assert forall|x: usize| wire_trig(x) && n2.live_wire(x) implies n2.wire_ok(x) by {
        assert(x != wid);
        assert(n0.live_wire(x));
        assert(n0.wire_ok(x));
        let wx = n0.wire_at(x);
        assert(agent_trig(wx.source));
        assert(agent_trig(wx.target));
        assert(wx.source != eid && wx.target != eid) by {
            if wx.source == eid || wx.target == eid {
                assert(slot_count(n0.agent_at(eid), x) >= 1);
            }
        }
        assert((wx.source == pid || wx.target == pid) ==> (x == p1 || x == p2)) by {
            if wx.source == pid || wx.target == pid {
                assert(slot_count(n0.agent_at(pid), x) >= 1);
            }
        }
        if x == p1 && x == p2 {
            assert(n2.wire_at(x) == Wire { source: e1id, target: e2id });
            assert(slot_count(n2.agent_at(e1id), x) == 1);
            assert(slot_count(n2.agent_at(e2id), x) == 1);
        } else if x == p1 {
            let far = if w1.source == pid {
                w1.target
            } else {
                w1.source
            };
            assert(n2.wire_at(x) == redirected(w1, pid, e1id));
            assert(far != pid);
            assert(far != eid);
            assert(n2.live_agent(far));
            assert(n2.agent_at(far) == n0.agent_at(far));
            assert(slot_count(n0.agent_at(far), x) == 1);
            assert(slot_count(n2.agent_at(e1id), x) == 1);
            assert(far != e1id && far != e2id);
        } else if x == p2 {
            let far = if w2.source == pid {
                w2.target
            } else {
                w2.source
            };
            assert(n2.wire_at(x) == redirected(w2, pid, e2id));
            assert(far != pid && far != eid);
            assert(n2.live_agent(far));
            assert(n2.agent_at(far) == n0.agent_at(far));
            assert(slot_count(n0.agent_at(far), x) == 1);
            assert(slot_count(n2.agent_at(e2id), x) == 1);
            assert(far != e1id && far != e2id);
        } else {
            assert(n2.wire_at(x) == wx);
            assert(wx.source != pid && wx.target != pid);
            assert(n2.agent_at(wx.source) == n0.agent_at(wx.source));
            assert(n2.agent_at(wx.target) == n0.agent_at(wx.target));
        }
    }
}

/// Agent side of `lemma_erase_full_wf`.
proof fn lemma_erase_full_agents(
    n0: NetV,
    wid: usize,
    eid: usize,
    pid: usize,
    e1id: usize,
    e2id: usize,
    e1v: AgentV,
    e2v: AgentV,
    n2: NetV,
)
    requires
        erase_full_pre(n0, wid, eid, pid, e1id, e2id, e1v, e2v, n2),
    ensures
        forall|aid: usize| #[trigger] agent_trig(aid) ==> n2.live_agent(aid) ==> n2.agent_ok(aid),
{
    let p1 = n0.agent_at(pid).wires[1];
    let p2 = n0.agent_at(pid).wires[2];
    assert(wire_trig(wid));
    assert(agent_trig(eid));
    assert(agent_trig(pid));
    assert(p1 != wid && p2 != wid) by {
        assert(slot_count(n0.agent_at(pid), wid) == 1);
    }
    lemma_aux_wire_shape(n0, pid, p1, p2);
    assert forall|aid: usize| agent_trig(aid) && n2.live_agent(aid) implies n2.agent_ok(aid) by {
        assert(aid != eid && aid != pid);
        if aid == e1id {
            assert(n2.live_wire(p1));
            assert(n2.wire_at(p1).source == e1id || n2.wire_at(p1).target == e1id);
            assert(n2.agent_ok(aid));
        } else if aid == e2id {
            assert(n2.live_wire(p2));
            assert(n2.wire_at(p2).source == e2id || n2.wire_at(p2).target == e2id);
            assert(n2.agent_ok(aid));
        } else {
            assert(n0.live_agent(aid));
            let a = n0.agent_at(aid);
            assert(n0.agent_ok(aid));
            assert(n2.agent_at(aid) == a);
            assert(wire_trig(a.wires[0]));
            assert(wire_trig(a.wires[1]));
            assert(wire_trig(a.wires[2]));
            assert(a.wires[0] != wid && (arity_of(a.kind) > 1 ==> a.wires[1] != wid && a.wires[2]
                != wid)) by {
                assert(n0.wire_at(wid).source == eid || n0.wire_at(wid).source == pid);
                assert(n0.wire_at(wid).target == eid || n0.wire_at(wid).target == pid);
            }
            assert(n2.agent_ok(aid));
        }
    }
}

/// The far endpoint of `w` seen from agent `d`: the endpoint that is not
/// on `d`; for a self-loop on `d` it is `d` itself.
pub open spec fn far_of(w: Wire, d: usize) -> usize {
    if w.source == d {
        w.target
    } else {
        w.source
    }
}

/// The first port of `a` whose slot holds `wid` (meaningful when at least
/// one does).
pub open spec fn the_port(a: AgentV, wid: usize) -> int {
    if a.wires[0] == wid {
        0
    } else if a.wires[1] == wid {
        1
    } else {
        2
    }
}

/// `a` with port slot `p` overwritten by `wid`.
pub open spec fn set_port(a: AgentV, p: int, wid: usize) -> AgentV {
    AgentV { wires: a.wires.update(p, wid), ..a }
}

/// The net after a bridging step: wires `w1` and `w2` (each dangling
/// toward a removed agent, `d1` resp. `d2`) are deleted and their two far
/// endpoints are joined by one fresh wire.
pub open spec fn bridged(n: NetV, w1: usize, d1: usize, w2: usize, d2: usize) -> NetV {
    let f1 = far_of(n.wire_at(w1), d1);
    let f2 = far_of(n.wire_at(w2), d2);
    let nid = n.wires.len() as usize;
    let a1 = set_port(n.agent_at(f1), the_port(n.agent_at(f1), w1), nid);
    let agents1 = n.agents.update(f1 as int, Some(a1));
    let af2 = agents1[f2 as int].unwrap();
    let a2 = set_port(af2, the_port(af2, w2), nid);
    NetV {
        agents: agents1.update(f2 as int, Some(a2)),
        wires: n.wires.update(w1 as int, None).update(w2 as int, None).push(
            Some(Wire { source: f1, target: f2 }),
        ),
    }
}

/// Wire `m` is live but one endpoint, on agent `dd`, points at a removed
/// agent; its far endpoint is intact: a live agent holding `m` in exactly
/// one port.
pub open spec fn dangling_wire(n: NetV, m: usize, dd: usize) -> bool {
    &&& n.live_wire(m)
    &&& (n.wire_at(m).source == dd || n.wire_at(m).target == dd)
    &&& !n.live_agent(dd)
    &&& ({
        let f = far_of(n.wire_at(m), dd);
        &&& f != dd
        &&& n.live_agent(f)
        &&& n.agent_at(f).wires.len() == 3
        &&& slot_count(n.agent_at(f), m) == 1
    })
}

/// Closure everywhere except that the wires in `ds` are excused from
/// their own wire-side conditions (they may dangle toward removed
/// agents); every live agent is still fully wired.
pub open spec fn wf_except(n: NetV, ds: Set<usize>) -> bool {
    &&& 1 <= n.agents.len()
    &&& 1 <= n.wires.len()
    &&& n.agents[0] is None
    &&& n.wires[0] is None
    &&& forall|wid: usize| #[trigger] wire_trig(wid) ==> n.live_wire(wid) ==> !ds.contains(wid)
        ==> n.wire_ok(wid)
    &&& forall|id: usize| #[trigger] agent_trig(id) ==> n.live_agent(id) ==> n.agent_ok(id)
}

/// What every Cancel branch knows about the redex: a principal-principal
/// wire between two distinct live arity-3 agents.
pub open spec fn cancel_ctx(n0: NetV, wid: usize, aid: usize, pid: usize) -> bool {
    &&& n0.wf()
    &&& n0.live_wire(wid)
    &&& n0.wire_at(wid).source == aid
    &&& n0.wire_at(wid).target == pid
    &&& aid != pid
    &&& n0.agent_at(aid).wires[0] == wid
    &&& n0.agent_at(pid).wires[0] == wid
    &&& arity_of(n0.agent_at(aid).kind) == 3
    &&& arity_of(n0.agent_at(pid).kind) == 3
}

/// An auxiliary wire `m` of removed agent `dd` that coincides with no
/// other slot of the removed pair reaches an agent outside the pair.
proof fn lemma_kept_far(
    n0: NetV,
    wid: usize,
    aid: usize,
    pid: usize,
    m: usize,
    dd: usize,
    o: usize,
)
    requires
        cancel_ctx(n0, wid, aid, pid),
        dd == aid || dd == pid,
        m == n0.agent_at(dd).wires[1] || m == n0.agent_at(dd).wires[2],
        o == if dd == aid { pid } else { aid },
        m != n0.agent_at(dd).wires[1] || m != n0.agent_at(dd).wires[2] || n0.agent_at(
            dd,
        ).wires[1] != n0.agent_at(dd).wires[2],
        m != n0.agent_at(o).wires[1],
        m != n0.agent_at(o).wires[2],
    ensures
        n0.live_wire(m),
        n0.wire_at(m).source == dd || n0.wire_at(m).target == dd,
        far_of(n0.wire_at(m), dd) != aid,
        far_of(n0.wire_at(m), dd) != pid,
        m != wid,
        slot_count(n0.agent_at(far_of(n0.wire_at(m), dd)), m) == 1,
        n0.live_agent(far_of(n0.wire_at(m), dd)),
        n0.agent_at(far_of(n0.wire_at(m), dd)).wires.len() == 3,
    {
    assert(wire_trig(wid));
    assert(n0.wire_ok(wid));
    assert(agent_trig(aid));
    assert(agent_trig(pid));
    assert(n0.agent_ok(aid) && n0.agent_ok(pid));
    assert(m != wid) by {
        assert(slot_count(n0.agent_at(dd), wid) == 1);
    }
    assert(n0.live_wire(m));
    assert(wire_trig(m));
    assert(n0.wire_ok(m));
    let w = n0.wire_at(m);
    assert(w.source == dd || w.target == dd);
    let f = far_of(w, dd);
    if f == dd {
        assert(w.source == dd && w.target == dd);
        assert(slot_count(n0.agent_at(dd), m) == 2);
        assert(n0.agent_at(dd).wires[1] == m && n0.agent_at(dd).wires[2] == m);
        assert(false);
    }
    if f == o {
        assert(w.source == o || w.target == o);
        assert(slot_count(n0.agent_at(o), m) >= 1);
        assert(false);
    }
    assert(slot_count(n0.agent_at(f), m) == 1);
    assert(agent_trig(f));
    assert(n0.agent_ok(f));
}

/// A Cancel whose four auxiliary slots pair off entirely inside the
/// removed pair: deleting the two agents, the principal wire and the two
/// internal wires restores closure outright.
proof fn lemma_cancel_removed_only(
    n0: NetV,
    wid: usize,
    aid: usize,
    pid: usize,
    r1: usize,
    r2: usize,
    n1: NetV,
)
    requires
        cancel_ctx(n0, wid, aid, pid),
        r1 != r2,
        r1 != wid,
        r2 != wid,
        n0.agent_at(aid).wires[1] == r1 || n0.agent_at(aid).wires[1] == r2,
        n0.agent_at(aid).wires[2] == r1 || n0.agent_at(aid).wires[2] == r2,
        n0.agent_at(pid).wires[1] == r1 || n0.agent_at(pid).wires[1] == r2,
        n0.agent_at(pid).wires[2] == r1 || n0.agent_at(pid).wires[2] == r2,
        n0.wire_at(r1).source == aid || n0.wire_at(r1).source == pid,
        n0.wire_at(r1).target == aid || n0.wire_at(r1).target == pid,
        n0.wire_at(r2).source == aid || n0.wire_at(r2).source == pid,
        n0.wire_at(r2).target == aid || n0.wire_at(r2).target == pid,
        r1 == n0.agent_at(aid).wires[1] || r1 == n0.agent_at(aid).wires[2] || r1 == n0.agent_at(
            pid,
        ).wires[1] || r1 == n0.agent_at(pid).wires[2],
        r2 == n0.agent_at(aid).wires[1] || r2 == n0.agent_at(aid).wires[2] || r2 == n0.agent_at(
            pid,
        ).wires[1] || r2 == n0.agent_at(pid).wires[2],
        n1.agents == n0.agents.update(aid as int, None).update(pid as int, None),
        n1.wires == n0.wires.update(wid as int, None).update(r1 as int, None).update(
            r2 as int,
            None,
        ),
    ensures
        n1.wf(),
{
    assert(n0.wf());
    assert(n0.live_wire(wid));
    assert(wire_trig(wid));
    assert(n0.wire_ok(wid));
    assert(n0.wire_at(wid).source == aid);
    assert(n0.live_agent(aid));
    assert(agent_trig(aid));
    assert(agent_trig(pid));
    assert(n0.agent_ok(aid) && n0.agent_ok(pid));
    assert(aid != 0 && pid != 0);
    assert(n0.live_wire(r1) && n0.live_wire(r2));
    assert forall|x: usize| wire_trig(x) && n1.live_wire(x) implies n1.wire_ok(x) by {
        assert(x != wid && x != r1 && x != r2);
        assert(n0.live_wire(x));
        assert(n0.wire_ok(x));
        let wx = n0.wire_at(x);
        assert(wx.source != aid && wx.target != aid && wx.source != pid && wx.target != pid) by {
            if wx.source == aid || wx.target == aid {
                assert(slot_count(n0.agent_at(aid), x) >= 1);
            }
            if wx.source == pid || wx.target == pid {
                assert(slot_count(n0.agent_at(pid), x) >= 1);
            }
        }
        assert(n1.wire_at(x) == wx);
        assert(n1.agent_at(wx.source) == n0.agent_at(wx.source));
        assert(n1.agent_at(wx.target) == n0.agent_at(wx.target));
    }
    assert forall|aid2: usize| agent_trig(aid2) && n1.live_agent(aid2) implies n1.agent_ok(
        aid2,
    ) by {
        assert(aid2 != aid && aid2 != pid);
        assert(n0.live_agent(aid2));
        assert(n0.agent_ok(aid2));
        let a = n0.agent_at(aid2);
        assert(n1.agent_at(aid2) == a);
        assert(wire_trig(a.wires[0]));
        assert(wire_trig(a.wires[1]));
        assert(wire_trig(a.wires[2]));
        assert(n1.agent_ok(aid2)) by {
            assert(a.wires[0] != wid && a.wires[0] != r1 && a.wires[0] != r2);
            assert(arity_of(a.kind) > 1 ==> a.wires[1] != wid && a.wires[1] != r1 && a.wires[1]
                != r2 && a.wires[2] != wid && a.wires[2] != r1 && a.wires[2] != r2);
        }
    }
}

/// A Cancel with one internal wire `r` removed and two auxiliary wires
/// kept: after deleting the pair, the principal wire and `r`, the net is
/// closed except for the two kept wires, which dangle toward the pair.
proof fn lemma_cancel_keep2(
    n0: NetV,
    wid: usize,
    aid: usize,
    pid: usize,
    r: usize,
    m1: usize,
    dd1: usize,
    m2: usize,
    dd2: usize,
    n1: NetV,
)
    requires
        cancel_ctx(n0, wid, aid, pid),
        r != wid,
        m1 != wid && m1 != r,
        m2 != wid && m2 != r,
        m1 != m2,
        dd1 == aid || dd1 == pid,
        dd2 == aid || dd2 == pid,
        n0.wire_at(r).source == aid || n0.wire_at(r).source == pid,
        n0.wire_at(r).target == aid || n0.wire_at(r).target == pid,
        n0.live_wire(r),
        n0.agent_at(aid).wires[1] == r || n0.agent_at(aid).wires[1] == m1 || n0.agent_at(
            aid,
        ).wires[1] == m2,
        n0.agent_at(aid).wires[2] == r || n0.agent_at(aid).wires[2] == m1 || n0.agent_at(
            aid,
        ).wires[2] == m2,
        n0.agent_at(pid).wires[1] == r || n0.agent_at(pid).wires[1] == m1 || n0.agent_at(
            pid,
        ).wires[1] == m2,
        n0.agent_at(pid).wires[2] == r || n0.agent_at(pid).wires[2] == m1 || n0.agent_at(
            pid,
        ).wires[2] == m2,
        n0.live_wire(m1),
        n0.live_wire(m2),
        n0.wire_at(m1).source == dd1 || n0.wire_at(m1).target == dd1,
        n0.wire_at(m2).source == dd2 || n0.wire_at(m2).target == dd2,
        far_of(n0.wire_at(m1), dd1) != aid && far_of(n0.wire_at(m1), dd1) != pid,
        far_of(n0.wire_at(m2), dd2) != aid && far_of(n0.wire_at(m2), dd2) != pid,
        n1.agents == n0.agents.update(aid as int, None).update(pid as int, None),
        n1.wires == n0.wires.update(wid as int, None).update(r as int, None),
    ensures
        wf_except(n1, set![m1, m2]),
        dangling_wire(n1, m1, dd1),
        dangling_wire(n1, m2, dd2),
{
    assert(wire_trig(wid));
    assert(n0.wire_ok(wid));
    assert(agent_trig(aid));
    assert(agent_trig(pid));
    assert(n0.agent_ok(aid) && n0.agent_ok(pid));
    assert(aid != 0 && pid != 0);
    assert(wire_trig(m1));
    assert(wire_trig(m2));
    assert(n0.wire_ok(m1) && n0.wire_ok(m2));
    let f1 = far_of(n0.wire_at(m1), dd1);
    let f2 = far_of(n0.wire_at(m2), dd2);
    assert(agent_trig(f1));
    assert(agent_trig(f2));
    assert(slot_count(n0.agent_at(f1), m1) == 1);
    assert(slot_count(n0.agent_at(f2), m2) == 1);
    assert(n0.agent_ok(f1) && n0.agent_ok(f2));
    assert(dangling_wire(n1, m1, dd1));
    assert(dangling_wire(n1, m2, dd2));
    assert forall|x: usize| wire_trig(x) && n1.live_wire(x) && !set![m1, m2].contains(x) implies
        n1.wire_ok(x) by {
        assert(x != wid && x != r && x != m1 && x != m2);
        assert(n0.live_wire(x));
        assert(n0.wire_ok(x));
        let wx = n0.wire_at(x);
        assert(wx.source != aid && wx.target != aid && wx.source != pid && wx.target != pid) by {
            if wx.source == aid || wx.target == aid {
                assert(slot_count(n0.agent_at(aid), x) >= 1);
            }
            if wx.source == pid || wx.target == pid {
                assert(slot_count(n0.agent_at(pid), x) >= 1);
            }
        }
        assert(n1.wire_at(x) == wx);
        assert(n1.agent_at(wx.source) == n0.agent_at(wx.source));
        assert(n1.agent_at(wx.target) == n0.agent_at(wx.target));
    }
    assert forall|aid2: usize| agent_trig(aid2) && n1.live_agent(aid2) implies n1.agent_ok(
        aid2,
    ) by {
        assert(aid2 != aid && aid2 != pid);
        assert(n0.live_agent(aid2));
        assert(n0.agent_ok(aid2));
        let a = n0.agent_at(aid2);
        assert(n1.agent_at(aid2) == a);
        assert(wire_trig(a.wires[0]));
        assert(wire_trig(a.wires[1]));
        assert(wire_trig(a.wires[2]));
        assert(n1.agent_ok(aid2)) by {
            assert(a.wires[0] != wid && a.wires[0] != r);
            assert(arity_of(a.kind) > 1 ==> a.wires[1] != wid && a.wires[1] != r && a.wires[2]
                != wid && a.wires[2] != r);
        }
    }
}

/// A Cancel with no coincidences: after deleting the pair and the
/// principal wire, the net is closed except for the four kept auxiliary
/// wires, which dangle toward the pair.
proof fn lemma_cancel_keep4(
    n0: NetV,
    wid: usize,
    aid: usize,
    pid: usize,
    m1: usize,
    m2: usize,
    m3: usize,
    m4: usize,
    n1: NetV,
)
    requires
        cancel_ctx(n0, wid, aid, pid),
        m1 == n0.agent_at(aid).wires[1],
        m2 == n0.agent_at(aid).wires[2],
        m3 == n0.agent_at(pid).wires[1],
        m4 == n0.agent_at(pid).wires[2],
        m1 != m2 && m1 != m3 && m1 != m4 && m2 != m3 && m2 != m4 && m3 != m4,
        far_of(n0.wire_at(m1), aid) != aid && far_of(n0.wire_at(m1), aid) != pid,
        far_of(n0.wire_at(m2), aid) != aid && far_of(n0.wire_at(m2), aid) != pid,
        far_of(n0.wire_at(m3), pid) != aid && far_of(n0.wire_at(m3), pid) != pid,
        far_of(n0.wire_at(m4), pid) != aid && far_of(n0.wire_at(m4), pid) != pid,
        n1.agents == n0.agents.update(aid as int, None).update(pid as int, None),
        n1.wires == n0.wires.update(wid as int, None),
    ensures
        wf_except(n1, set![m1, m2, m3, m4]),
        dangling_wire(n1, m1, aid),
        dangling_wire(n1, m2, aid),
        dangling_wire(n1, m3, pid),
        dangling_wire(n1, m4, pid),
{
    assert(wire_trig(wid));
    assert(n0.wire_ok(wid));
    assert(agent_trig(aid));
    assert(agent_trig(pid));
    assert(n0.agent_ok(aid) && n0.agent_ok(pid));
    assert(aid != 0 && pid != 0);
    assert(m1 != wid && m2 != wid && m3 != wid && m4 != wid) by {
        assert(slot_count(n0.agent_at(aid), wid) == 1);
        assert(slot_count(n0.agent_at(pid), wid) == 1);
    }
    assert(wire_trig(m1));
    assert(wire_trig(m2));
    assert(wire_trig(m3));
    assert(wire_trig(m4));
    assert(n0.wire_ok(m1) && n0.wire_ok(m2) && n0.wire_ok(m3) && n0.wire_ok(m4));
    let f1 = far_of(n0.wire_at(m1), aid);
    let f2 = far_of(n0.wire_at(m2), aid);
    let f3 = far_of(n0.wire_at(m3), pid);
    let f4 = far_of(n0.wire_at(m4), pid);
    assert(agent_trig(f1));
    assert(agent_trig(f2));
    assert(agent_trig(f3));
    assert(agent_trig(f4));
    assert(n0.wire_at(m1).source == aid || n0.wire_at(m1).target == aid);
    assert(n0.wire_at(m2).source == aid || n0.wire_at(m2).target == aid);
    assert(n0.wire_at(m3).source == pid || n0.wire_at(m3).target == pid);
    assert(n0.wire_at(m4).source == pid || n0.wire_at(m4).target == pid);
    assert(slot_count(n0.agent_at(f1), m1) == 1);
    assert(slot_count(n0.agent_at(f2), m2) == 1);
    assert(slot_count(n0.agent_at(f3), m3) == 1);
    assert(slot_count(n0.agent_at(f4), m4) == 1);
    assert(n0.agent_ok(f1) && n0.agent_ok(f2) && n0.agent_ok(f3) && n0.agent_ok(f4));
    assert(dangling_wire(n1, m1, aid));
    assert(dangling_wire(n1, m2, aid));
    assert(dangling_wire(n1, m3, pid));
    assert(dangling_wire(n1, m4, pid));
    assert forall|x: usize|
        wire_trig(x) && n1.live_wire(x) && !set![m1, m2, m3, m4].contains(x) implies n1.wire_ok(
        x,
    ) by {
        assert(x != wid && x != m1 && x != m2 && x != m3 && x != m4);
        assert(n0.live_wire(x));
        assert(n0.wire_ok(x));
        let wx = n0.wire_at(x);
        assert(wx.source != aid && wx.target != aid && wx.source != pid && wx.target != pid) by {
            if wx.source == aid || wx.target == aid {
                assert(slot_count(n0.agent_at(aid), x) >= 1);
            }
            if wx.source == pid || wx.target == pid {
                assert(slot_count(n0.agent_at(pid), x) >= 1);
            }
        }
        assert(n1.wire_at(x) == wx);
        assert(n1.agent_at(wx.source) == n0.agent_at(wx.source));
        assert(n1.agent_at(wx.target) == n0.agent_at(wx.target));
    }
    assert forall|aid2: usize| agent_trig(aid2) && n1.live_agent(aid2) implies n1.agent_ok(
        aid2,
    ) by {
        assert(aid2 != aid && aid2 != pid);
        assert(n0.live_agent(aid2));
        assert(n0.agent_ok(aid2));
        let a = n0.agent_at(aid2);
        assert(n1.agent_at(aid2) == a);
        assert(wire_trig(a.wires[0]));
        assert(wire_trig(a.wires[1]));
        assert(wire_trig(a.wires[2]));
        assert(n1.agent_ok(aid2)) by {
            assert(a.wires[0] != wid);
            assert(arity_of(a.kind) > 1 ==> a.wires[1] != wid && a.wires[2] != wid);
        }
    }
}

/// Bridging two dangling wires removes them from the excused set: the
/// fresh wire joining their far endpoints satisfies closure, every other
/// dangling wire still dangles, and the live counts change by exactly one
/// wire and no agent.
#[verifier::rlimit(100)]
#[verifier::spinoff_prover]
proof fn lemma_bridge_step(
    n: NetV,
    w1: usize,
    d1: usize,
    w2: usize,
    d2: usize,
    rest: Set<usize>,
)
    requires
        wf_except(n, rest.insert(w1).insert(w2)),
        dangling_wire(n, w1, d1),
        dangling_wire(n, w2, d2),
        w1 != w2,
        !rest.contains(w1),
        !rest.contains(w2),
        n.wires.len() < usize::MAX,
    ensures
        wf_except(bridged(n, w1, d1, w2, d2), rest),
        forall|m: usize, dd: usize|
            dangling_wire(n, m, dd) && m != w1 && m != w2 ==> #[trigger] dangling_wire(
                bridged(n, w1, d1, w2, d2),
                m,
                dd,
            ),
        count_live_agents(bridged(n, w1, d1, w2, d2).agents) == count_live_agents(n.agents),
        count_live_wires(bridged(n, w1, d1, w2, d2).wires) == count_live_wires(n.wires) - 1,
{
    let f1 = far_of(n.wire_at(w1), d1);
    let f2 = far_of(n.wire_at(w2), d2);
    let nid = n.wires.len() as usize;
    let n2 = bridged(n, w1, d1, w2, d2);
    let q1 = the_port(n.agent_at(f1), w1);
    let a1 = set_port(n.agent_at(f1), q1, nid);
    let agents1 = n.agents.update(f1 as int, Some(a1));
    let af2 = agents1[f2 as int].unwrap();
    let q2 = the_port(af2, w2);
    let a2 = set_port(af2, q2, nid);
    assert(agent_trig(f1));
    assert(agent_trig(f2));
    assert(n.agent_ok(f1) && n.agent_ok(f2));
    assert(wire_trig(w1));
    assert(wire_trig(w2));
    // The fresh id is distinct from every live wire id, in particular
    // from every slot of a live agent.
    assert(forall|id: usize| #[trigger] agent_trig(id) && n.live_agent(id) ==> n.agent_at(
        id,
    ).wires[0] != nid && n.agent_at(id).wires[1] != nid && n.agent_at(id).wires[2] != nid) by {
        assert forall|id: usize| #[trigger] agent_trig(id) && n.live_agent(id) implies n.agent_at(
            id,
        ).wires[0] != nid && n.agent_at(id).wires[1] != nid && n.agent_at(id).wires[2] != nid by {
            let a = n.agent_at(id);
            assert(n.agent_ok(id));
            assert(wire_trig(a.wires[0]));
            assert(wire_trig(a.wires[1]));
            assert(wire_trig(a.wires[2]));
            if arity_of(a.kind) == 1 {
                assert(a.wires[1] == 0 && a.wires[2] == 0);
                assert(n.live_wire(a.wires[0]));
            } else {
                assert(n.live_wire(a.wires[0]) && n.live_wire(a.wires[1]) && n.live_wire(
                    a.wires[2],
                ));
            }
        }
    }
    // Port bookkeeping at the far endpoints.
    assert(0 <= q1 < arity_of(n.agent_at(f1).kind) && n.agent_at(f1).wires[q1] == w1) by {
        assert(slot_count(n.agent_at(f1), w1) == 1);
        if arity_of(n.agent_at(f1).kind) == 1 {
            assert(n.agent_at(f1).wires[1] == 0 && n.agent_at(f1).wires[2] == 0);
            assert(n.live_wire(w1));
        }
    }
    assert(f1 != f2 ==> af2 == n.agent_at(f2));
    assert(slot_count(af2, w2) == slot_count(n.agent_at(f2), w2)) by {
        if f1 == f2 {
            assert(af2 == a1);
            assert(n.agent_at(f1).wires[q1] == w1 && w1 != w2);
        }
    }
    assert(slot_count(n.agent_at(f2), w2) == 1);
    assert(0 <= q2 < arity_of(af2.kind) && af2.wires[q2] == w2) by {
        assert(slot_count(af2, w2) == 1);
        if arity_of(af2.kind) == 1 {
            assert(n.agent_ok(f2));
            if f1 == f2 {
                assert(q1 == 0);
                assert(af2.wires[1] == 0 && af2.wires[2] == 0);
                assert(n.live_wire(w2));
                assert(false);
            } else {
                assert(af2.wires[1] == 0 && af2.wires[2] == 0);
                assert(n.live_wire(w2));
            }
        }
    }
    assert(q1 != q2 || f1 != f2);
    // Counts.
    crate::net::lemma_count_agents_update_same(n.agents, f1 as int, a1);
    crate::net::lemma_count_agents_update_same(agents1, f2 as int, a2);
    crate::net::lemma_count_wires_update_none(n.wires, w1 as int);
    crate::net::lemma_count_wires_update_none(n.wires.update(w1 as int, None), w2 as int);
    crate::net::lemma_count_wires_push(
        n.wires.update(w1 as int, None).update(w2 as int, None),
        Some(Wire { source: f1, target: f2 }),
    );
    // The new wire is closed.
    assert(n2.live_wire(nid) && n2.wire_at(nid) == Wire { source: f1, target: f2 });
    assert(n2.agent_at(f2) == a2);
    assert(f1 != f2 ==> n2.agent_at(f1) == a1);
    assert(slot_count(n2.agent_at(f1), nid) + if f1 == f2 {
        0int
    } else {
        slot_count(n2.agent_at(f2), nid)
    } >= 1);
    assert(n2.wire_ok(nid)) by {
        if f1 == f2 {
            assert(slot_count(a2, nid) == 2) by {
                assert(a2.wires[q1] == nid && a2.wires[q2] == nid && q1 != q2);
                assert(slot_count(n.agent_at(f1), nid) == 0);
            }
        } else {
            assert(slot_count(n2.agent_at(f1), nid) == 1) by {
                assert(a1.wires[q1] == nid);
                assert(slot_count(n.agent_at(f1), nid) == 0);
            }
            assert(slot_count(n2.agent_at(f2), nid) == 1) by {
                assert(a2.wires[q2] == nid);
                assert(slot_count(n.agent_at(f2), nid) == 0);
            }
        }
    }
    // Every other live wire keeps closure.
    assert forall|x: usize| wire_trig(x) && n2.live_wire(x) && !rest.contains(x) implies
        n2.wire_ok(x) by {
        if x != nid {
            assert(x != w1 && x != w2);
            assert(n.live_wire(x));
            assert(n.wire_ok(x));
            let wx = n.wire_at(x);
            assert(agent_trig(wx.source));
            assert(agent_trig(wx.target));
            assert(n2.wire_at(x) == wx);
            assert(slot_count(n2.agent_at(wx.source), x) == slot_count(n.agent_at(wx.source), x))
                by {
                if wx.source == f1 || wx.source == f2 {
                    assert(x != nid && x != w1 && x != w2);
                }
            }
            assert(slot_count(n2.agent_at(wx.target), x) == slot_count(n.agent_at(wx.target), x))
                by {
                if wx.target == f1 || wx.target == f2 {
                    assert(x != nid && x != w1 && x != w2);
                }
            }
        }
    }
    // Every live agent keeps all ports wired.
    assert forall|id: usize| agent_trig(id) && n2.live_agent(id) implies n2.agent_ok(id) by {
        assert(n.live_agent(id));
        assert(n.agent_ok(id));
        let a = n.agent_at(id);
        assert(wire_trig(a.wires[0]));
        assert(wire_trig(a.wires[1]));
        assert(wire_trig(a.wires[2]));
        if id == f1 || id == f2 {
            assert(a.wires[0] != w2 || (id == f2 && q2 == 0));
            assert(n2.agent_ok(id)) by {
                assert(n2.live_wire(nid));
                assert(n2.wire_at(nid).source == f1 && n2.wire_at(nid).target == f2);
                assert(a.wires[0] != w1 || (id == f1 && q1 == 0) || (id == f2 && f1 == f2));
                assert(slot_count(n.agent_at(f1), w1) == 1);
                assert(slot_count(n.agent_at(f2), w2) == 1);
            }
        } else {
            assert(n2.agent_at(id) == a);
            assert(n2.agent_ok(id)) by {
                assert(a.wires[0] != w1 && a.wires[0] != w2) by {
                    if a.wires[0] == w1 {
                        assert(n.wire_at(w1).source == id || n.wire_at(w1).target == id);
                        assert(!n.live_agent(d1));
                    }
                    if a.wires[0] == w2 {
                        assert(n.wire_at(w2).source == id || n.wire_at(w2).target == id);
                    }
                }
                assert(arity_of(a.kind) > 1 ==> a.wires[1] != w1 && a.wires[1] != w2 && a.wires[2]
                    != w1 && a.wires[2] != w2) by {
                    if arity_of(a.kind) > 1 {
                        if a.wires[1] == w1 || a.wires[2] == w1 {
                            assert(n.wire_at(w1).source == id || n.wire_at(w1).target == id);
                        }
                        if a.wires[1] == w2 || a.wires[2] == w2 {
                            assert(n.wire_at(w2).source == id || n.wire_at(w2).target == id);
                        }
                    }
                }
            }
        }
    }
    // Remaining dangling wires are untouched.
    assert forall|m: usize, dd: usize| dangling_wire(n, m, dd) && m != w1 && m != w2 implies
        #[trigger] dangling_wire(n2, m, dd) by {
        let f = far_of(n.wire_at(m), dd);
        assert(n2.live_wire(m) && n2.wire_at(m) == n.wire_at(m));
        assert(n2.live_agent(f));
        assert(m != nid);
        assert(slot_count(n2.agent_at(f), m) == slot_count(n.agent_at(f), m)) by {
            if f == f1 || f == f2 {
                assert(m != nid && m != w1 && m != w2);
            }
        }
        assert(!n2.live_agent(dd)) by {
            assert(dd != f1 && dd != f2);
        }
    }
}

/// `wf_except` over the empty excuse set is exactly closure.
proof fn lemma_wf_except_empty(n: NetV)
    requires
        wf_except(n, Set::empty()),
    ensures
        n.wf(),
{
    assert forall|wid: usize| wire_trig(wid) && n.live_wire(wid) implies n.wire_ok(wid) by {
        assert(!Set::<usize>::empty().contains(wid));
    }
}

impl Net {
    /// The first port of a live agent whose slot holds `wid`.
    pub(crate) fn port_of(&self, id: usize, wid: usize) -> (p: usize)
        requires
            self@.live_agent(id),
            self@.agent_at(id).wires.len() == 3,
            slot_count(self@.agent_at(id), wid) >= 1,
        ensures
            p == the_port(self@.agent_at(id), wid),
            p < 3,
            self@.agent_at(id).wires[p as int] == wid,
            p < arity_of(self@.agent_at(id).kind),
    {
        let w0 = self.slot(id, 0);
        let w1 = self.slot(id, 1);
        if w0 == wid {
            0
        } else if w1 == wid {
            1
        } else {
            proof {
                assert(self@.agent_at(id).wires[2] == wid);
            }
            2
        }
    }

    /// Delete two wires that dangle toward removed agents and join their
    /// far endpoints with one fresh wire.
    fn bridge(&mut self, w1: usize, d1: usize, w2: usize, d2: usize)
        requires
            dangling_wire(old(self)@, w1, d1),
            dangling_wire(old(self)@, w2, d2),
            w1 != w2,
        ensures
            final(self)@ == bridged(old(self)@, w1, d1, w2, d2),
            old(self)@.wires.len() < usize::MAX,
    {
        let ghost n0 = self@;
        let wr1 = self.get_wire(w1);
        let f1 = if wr1.source == d1 {
            wr1.target
        } else {
            wr1.source
        };
        let wr2 = self.get_wire(w2);
        let f2 = if wr2.source == d2 {
            wr2.target
        } else {
            wr2.source
        };
        self.remove_wire(w1);
        self.remove_wire(w2);
        let nid = self.add_wire(Wire { source: f1, target: f2 });
        let new_len = self.wires.len();
        proof {
            assert(new_len == n0.wires.len() + 1);
        }
        let q1 = self.port_of(f1, w1);
        self.set_slot(f1, q1, nid);
        proof {
            if f2 == f1 {
                assert(self@.agent_at(f2).wires[q1 as int] == nid);
                assert(slot_count(self@.agent_at(f2), w2) == slot_count(n0.agent_at(f2), w2));
            } else {
                assert(self@.agent_at(f2) == n0.agent_at(f2));
            }
        }
        let q2 = self.port_of(f2, w2);
        self.set_slot(f2, q2, nid);
        proof {
            assert(self@.agents =~= bridged(n0, w1, d1, w2, d2).agents);
            assert(self@.wires =~= bridged(n0, w1, d1, w2, d2).wires);
            assert(self@ =~= bridged(n0, w1, d1, w2, d2));
        }
    }

    /// A Cancel whose auxiliary wires pair off entirely inside the
    /// removed pair: everything internal is deleted, nothing is rewired.
    fn cancel_internal(&mut self, wid: usize, aid: usize, pid: usize, r1: usize, r2: usize)
        requires
            cancel_ctx(old(self)@, wid, aid, pid),
            old(self)@.live_wire(r1),
            old(self)@.live_wire(r2),
            r1 != r2,
            r1 != wid,
            r2 != wid,
            old(self)@.agent_at(aid).wires[1] == r1 || old(self)@.agent_at(aid).wires[1] == r2,
            old(self)@.agent_at(aid).wires[2] == r1 || old(self)@.agent_at(aid).wires[2] == r2,
            old(self)@.agent_at(pid).wires[1] == r1 || old(self)@.agent_at(pid).wires[1] == r2,
            old(self)@.agent_at(pid).wires[2] == r1 || old(self)@.agent_at(pid).wires[2] == r2,
            old(self)@.wire_at(r1).source == aid || old(self)@.wire_at(r1).source == pid,
            old(self)@.wire_at(r1).target == aid || old(self)@.wire_at(r1).target == pid,
            old(self)@.wire_at(r2).source == aid || old(self)@.wire_at(r2).source == pid,
            old(self)@.wire_at(r2).target == aid || old(self)@.wire_at(r2).target == pid,
            r1 == old(self)@.agent_at(aid).wires[1] || r1 == old(self)@.agent_at(aid).wires[2]
                || r1 == old(self)@.agent_at(pid).wires[1] || r1 == old(self)@.agent_at(
                pid,
            ).wires[2],
            r2 == old(self)@.agent_at(aid).wires[1] || r2 == old(self)@.agent_at(aid).wires[2]
                || r2 == old(self)@.agent_at(pid).wires[1] || r2 == old(self)@.agent_at(
                pid,
            ).wires[2],
        ensures
            final(self)@.wf(),
            !final(self)@.live_agent(aid),
            !final(self)@.live_agent(pid),
            final(self)@.agent_count() == old(self)@.agent_count() - 2,
            final(self)@.wire_count() == old(self)@.wire_count() - 3,
            final(self)@ == minus_wire(minus_wire(without_pair(old(self)@, wid), r1), r2),
    {
        let ghost n0 = self@;
        proof {
            assert(wire_trig(wid));
            assert(agent_trig(aid));
            assert(agent_trig(pid));
        }
        self.remove_wire(wid);
        self.remove_agent(aid);
        self.remove_agent(pid);
        self.remove_wire(r1);
        self.remove_wire(r2);
        proof {
            assert(self@ =~= minus_wire(minus_wire(without_pair(n0, wid), r1), r2));
        }
        proof {
            crate::net::lemma_count_wires_update_none(n0.wires, wid as int);
            crate::net::lemma_count_wires_update_none(
                n0.wires.update(wid as int, None),
                r1 as int,
            );
            crate::net::lemma_count_wires_update_none(
                n0.wires.update(wid as int, None).update(r1 as int, None),
                r2 as int,
            );
            crate::net::lemma_count_agents_update_none(n0.agents, aid as int);
            crate::net::lemma_count_agents_update_none(
                n0.agents.update(aid as int, None),
                pid as int,
            );
            lemma_cancel_removed_only(n0, wid, aid, pid, r1, r2, self@);
        }
    }

    /// A Cancel with one internal wire: delete it, then bridge the two
    /// remaining auxiliary wires of the pair.
    fn cancel_one_bridge(
        &mut self,
        wid: usize,
        aid: usize,
        pid: usize,
        r: usize,
        m1: usize,
        dd1: usize,
        m2: usize,
        dd2: usize,
    )
        requires
            cancel_ctx(old(self)@, wid, aid, pid),
            old(self)@.live_wire(r),
            old(self)@.live_wire(m1),
            old(self)@.live_wire(m2),
            r != wid,
            m1 != wid && m1 != r,
            m2 != wid && m2 != r,
            m1 != m2,
            dd1 == aid || dd1 == pid,
            dd2 == aid || dd2 == pid,
            old(self)@.wire_at(r).source == aid || old(self)@.wire_at(r).source == pid,
            old(self)@.wire_at(r).target == aid || old(self)@.wire_at(r).target == pid,
            old(self)@.agent_at(aid).wires[1] == r || old(self)@.agent_at(aid).wires[1] == m1
                || old(self)@.agent_at(aid).wires[1] == m2,
            old(self)@.agent_at(aid).wires[2] == r || old(self)@.agent_at(aid).wires[2] == m1
                || old(self)@.agent_at(aid).wires[2] == m2,
            old(self)@.agent_at(pid).wires[1] == r || old(self)@.agent_at(pid).wires[1] == m1
                || old(self)@.agent_at(pid).wires[1] == m2,
            old(self)@.agent_at(pid).wires[2] == r || old(self)@.agent_at(pid).wires[2] == m1
                || old(self)@.agent_at(pid).wires[2] == m2,
            old(self)@.wire_at(m1).source == dd1 || old(self)@.wire_at(m1).target == dd1,
            old(self)@.wire_at(m2).source == dd2 || old(self)@.wire_at(m2).target == dd2,
            far_of(old(self)@.wire_at(m1), dd1) != aid && far_of(old(self)@.wire_at(m1), dd1)
                != pid,
            far_of(old(self)@.wire_at(m2), dd2) != aid && far_of(old(self)@.wire_at(m2), dd2)
                != pid,
        ensures
            final(self)@.wf(),
            !final(self)@.live_agent(aid),
            !final(self)@.live_agent(pid),
            final(self)@.agent_count() == old(self)@.agent_count() - 2,
            final(self)@.wire_count() == old(self)@.wire_count() - 3,
            final(self)@ == bridged(minus_wire(without_pair(old(self)@, wid), r), m1, dd1, m2, dd2),
    {
        let ghost n0 = self@;
        proof {
            assert(wire_trig(wid));
            assert(agent_trig(aid));
            assert(agent_trig(pid));
        }
        self.remove_wire(wid);
        self.remove_agent(aid);
        self.remove_agent(pid);
        self.remove_wire(r);
        let ghost n1 = self@;
        proof {
            assert(n1 =~= minus_wire(without_pair(n0, wid), r));
        }
        proof {
            crate::net::lemma_count_wires_update_none(n0.wires, wid as int);
            crate::net::lemma_count_wires_update_none(n0.wires.update(wid as int, None), r as int);
            crate::net::lemma_count_agents_update_none(n0.agents, aid as int);
            crate::net::lemma_count_agents_update_none(
                n0.agents.update(aid as int, None),
                pid as int,
            );
            lemma_cancel_keep2(n0, wid, aid, pid, r, m1, dd1, m2, dd2, n1);
        }
        self.bridge(m1, dd1, m2, dd2);
        proof {
            assert(Set::empty().insert(m1).insert(m2) =~= set![m1, m2]);
            lemma_bridge_step(n1, m1, dd1, m2, dd2, Set::empty());
            lemma_wf_except_empty(self@);
            assert(!self@.live_agent(aid)) by {
                assert(!n1.live_agent(aid));
            }
            assert(!self@.live_agent(pid)) by {
                assert(!n1.live_agent(pid));
            }
        }
    }

    /// A Cancel with no coincidences among the four auxiliary wires: the
    /// same-indexed auxiliary wires of the two agents are bridged
    /// pairwise.
    fn cancel_two_bridges(
        &mut self,
        wid: usize,
        aid: usize,
        pid: usize,
        a1: usize,
        a2: usize,
        p1: usize,
        p2: usize,
    )
        requires
            cancel_ctx(old(self)@, wid, aid, pid),
            a1 == old(self)@.agent_at(aid).wires[1],
            a2 == old(self)@.agent_at(aid).wires[2],
            p1 == old(self)@.agent_at(pid).wires[1],
            p2 == old(self)@.agent_at(pid).wires[2],
            a1 != a2 && a1 != p1 && a1 != p2 && a2 != p1 && a2 != p2 && p1 != p2,
            far_of(old(self)@.wire_at(a1), aid) != aid && far_of(old(self)@.wire_at(a1), aid)
                != pid,
            far_of(old(self)@.wire_at(a2), aid) != aid && far_of(old(self)@.wire_at(a2), aid)
                != pid,
            far_of(old(self)@.wire_at(p1), pid) != aid && far_of(old(self)@.wire_at(p1), pid)
                != pid,
            far_of(old(self)@.wire_at(p2), pid) != aid && far_of(old(self)@.wire_at(p2), pid)
                != pid,
        ensures
            final(self)@.wf(),
            !final(self)@.live_agent(aid),
            !final(self)@.live_agent(pid),
            final(self)@.agent_count() == old(self)@.agent_count() - 2,
            final(self)@.wire_count() == old(self)@.wire_count() - 3,
            final(self)@ == bridged(
                bridged(without_pair(old(self)@, wid), a1, aid, p1, pid),
                a2,
                aid,
                p2,
                pid,
            ),
    {
        let ghost n0 = self@;
        proof {
            assert(wire_trig(wid));
            assert(agent_trig(aid));
            assert(agent_trig(pid));
        }
        self.remove_wire(wid);
        self.remove_agent(aid);
        self.remove_agent(pid);
        let ghost n1 = self@;
        proof {
            assert(n1 =~= without_pair(n0, wid));
        }
        proof {
            crate::net::lemma_count_wires_update_none(n0.wires, wid as int);
            crate::net::lemma_count_agents_update_none(n0.agents, aid as int);
            crate::net::lemma_count_agents_update_none(
                n0.agents.update(aid as int, None),
                pid as int,
            );
            lemma_cancel_keep4(n0, wid, aid, pid, a1, a2, p1, p2, n1);
        }
        self.bridge(a1, aid, p1, pid);
        let ghost nmid = self@;
        proof {
            assert(set![a2, p2].insert(a1).insert(p1) =~= set![a1, a2, p1, p2]);
            lemma_bridge_step(n1, a1, aid, p1, pid, set![a2, p2]);
            assert(nmid == bridged(n1, a1, aid, p1, pid));
            assert(dangling_wire(nmid, a2, aid));
            assert(dangling_wire(nmid, p2, pid));
            assert(a2 != p2);
        }
        self.bridge(a2, aid, p2, pid);
        proof {
            assert(Set::empty().insert(a2).insert(p2) =~= set![a2, p2]);
            lemma_bridge_step(nmid, a2, aid, p2, pid, Set::empty());
            lemma_wf_except_empty(self@);
            assert(!self@.live_agent(aid)) by {
                assert(!n1.live_agent(aid) && !nmid.live_agent(aid));
            }
            assert(!self@.live_agent(pid)) by {
                assert(!n1.live_agent(pid) && !nmid.live_agent(pid));
            }
        }
    }

    /// The Cancel rule: remove the two agents and reconnect their
    /// same-indexed auxiliary wires, discarding exactly the wires that
    /// become internal to the removed pair.
    fn apply_cancel(&mut self, wid: usize)
        requires
            old(self)@.wf(),
            is_principal_pair(old(self)@, wid),
            rule_for(
                old(self)@.agent_at(old(self)@.wire_at(wid).source).kind,
                old(self)@.agent_at(old(self)@.wire_at(wid).target).kind,
            ) == RuleKind::Cancel,
        ensures
            final(self)@.wf(),
            !final(self)@.live_agent(old(self)@.wire_at(wid).source),
            !final(self)@.live_agent(old(self)@.wire_at(wid).target),
            final(self)@.agent_count() == old(self)@.agent_count() - 2,
            final(self)@.wire_count() == old(self)@.wire_count() - 3,
            cancel_post(old(self)@, wid, final(self)@),
    {
        let ghost n0 = self@;
        let w = self.get_wire(wid);
        let aid = w.source;
        let pid = w.target;
        proof {
            assert(wire_trig(wid));
            assert(n0.wire_ok(wid));
            assert(agent_trig(aid));
            assert(agent_trig(pid));
            assert(n0.agent_ok(aid) && n0.agent_ok(pid));
            assert(cancel_ctx(n0, wid, aid, pid));
        }
        let a1 = self.slot(aid, 1);
        let a2 = self.slot(aid, 2);
        let p1 = self.slot(pid, 1);
        let p2 = self.slot(pid, 2);
        proof {
            assert(a1 != wid && a2 != wid && p1 != wid && p2 != wid) by {
                assert(slot_count(n0.agent_at(aid), wid) == 1);
                assert(slot_count(n0.agent_at(pid), wid) == 1);
            }
            assert(wire_trig(a1));
            assert(wire_trig(a2));
            assert(wire_trig(p1));
            assert(wire_trig(p2));
            assert(n0.wire_ok(a1) && n0.wire_ok(a2) && n0.wire_ok(p1) && n0.wire_ok(p2));
            lemma_aux_wire_shape(n0, aid, a1, a2);
            lemma_aux_wire_shape(n0, pid, p1, p2);
        }
        if a1 == a2 && p1 == p2 {
            proof {
                assert(a1 != p1) by {
                    assert(n0.wire_at(a1).source == aid);
                    assert(n0.wire_at(p1).source == pid);
                }
            }
            self.cancel_internal(wid, aid, pid, a1, p1);
        } else if a1 == a2 {
            proof {
                assert(p1 != a1 && p2 != a1) by {
                    assert(n0.wire_at(a1).source == aid && n0.wire_at(a1).target == aid);
                    assert(n0.wire_at(p1).source == pid || n0.wire_at(p1).target == pid);
                    assert(n0.wire_at(p2).source == pid || n0.wire_at(p2).target == pid);
                }
                lemma_kept_far(n0, wid, aid, pid, p1, pid, aid);
                lemma_kept_far(n0, wid, aid, pid, p2, pid, aid);
            }
            self.cancel_one_bridge(wid, aid, pid, a1, p1, pid, p2, pid);
        } else if p1 == p2 {
            proof {
                assert(a1 != p1 && a2 != p1) by {
                    assert(n0.wire_at(p1).source == pid && n0.wire_at(p1).target == pid);
                    assert(n0.wire_at(a1).source == aid || n0.wire_at(a1).target == aid);
                    assert(n0.wire_at(a2).source == aid || n0.wire_at(a2).target == aid);
                }
                lemma_kept_far(n0, wid, aid, pid, a1, aid, pid);
                lemma_kept_far(n0, wid, aid, pid, a2, aid, pid);
            }
            self.cancel_one_bridge(wid, aid, pid, p1, a1, aid, a2, aid);
        } else if a1 == p1 && a2 == p2 {
            self.cancel_internal(wid, aid, pid, a1, a2);
        } else if a1 == p1 {
            proof {
                lemma_kept_far(n0, wid, aid, pid, a2, aid, pid);
                lemma_kept_far(n0, wid, aid, pid, p2, pid, aid);
            }
            self.cancel_one_bridge(wid, aid, pid, a1, a2, aid, p2, pid);
        } else if a2 == p2 {
            proof {
                lemma_kept_far(n0, wid, aid, pid, a1, aid, pid);
                lemma_kept_far(n0, wid, aid, pid, p1, pid, aid);
            }
            self.cancel_one_bridge(wid, aid, pid, a2, a1, aid, p1, pid);
        } else if a1 == p2 && a2 == p1 {
            self.cancel_internal(wid, aid, pid, a1, a2);
        } else if a1 == p2 {
            proof {
                lemma_kept_far(n0, wid, aid, pid, a2, aid, pid);
                lemma_kept_far(n0, wid, aid, pid, p1, pid, aid);
            }
            self.cancel_one_bridge(wid, aid, pid, a1, a2, aid, p1, pid);
        } else if a2 == p1 {
            proof {
                lemma_kept_far(n0, wid, aid, pid, a1, aid, pid);
                lemma_kept_far(n0, wid, aid, pid, p2, pid, aid);
            }
            self.cancel_one_bridge(wid, aid, pid, a2, a1, aid, p2, pid);
        } else {
            proof {
                lemma_kept_far(n0, wid, aid, pid, a1, aid, pid);
                lemma_kept_far(n0, wid, aid, pid, a2, aid, pid);
                lemma_kept_far(n0, wid, aid, pid, p1, pid, aid);
                lemma_kept_far(n0, wid, aid, pid, p2, pid, aid);
            }
            self.cancel_two_bridges(wid, aid, pid, a1, a2, p1, p2);
        }
    }
}

/// Everything the Duplicate lemmas assume: the redex context, the ids of
/// the four copies and four criss-cross wires, and the exact state after
/// the rewrite.  The four auxiliary wires of the pair keep their ids;
/// each of their endpoints on the removed pair moves to the copy that
/// names the wire in its principal slot.
pub open spec fn duplicate_pre(
    n0: NetV,
    wid: usize,
    aid: usize,
    pid: usize,
    s1: usize,
    s2: usize,
    t1: usize,
    t2: usize,
    w11: usize,
    w12: usize,
    w21: usize,
    w22: usize,
    n2: NetV,
) -> bool {
    let a1 = n0.agent_at(aid).wires[1];
    let a2 = n0.agent_at(aid).wires[2];
    let p1 = n0.agent_at(pid).wires[1];
    let p2 = n0.agent_at(pid).wires[2];
    let s1v = AgentV { wires: seq![p1, w11, w12], ..n0.agent_at(aid) };
    let s2v = AgentV { wires: seq![p2, w21, w22], ..n0.agent_at(aid) };
    let t1v = AgentV { wires: seq![a1, w11, w21], ..n0.agent_at(pid) };
    let t2v = AgentV { wires: seq![a2, w12, w22], ..n0.agent_at(pid) };
    let u0 = n0.wires.update(wid as int, None).push(Some(Wire { source: s1, target: t1 })).push(
        Some(Wire { source: s1, target: t2 }),
    ).push(Some(Wire { source: s2, target: t1 })).push(Some(Wire { source: s2, target: t2 }));
    let c1 = redirected(u0[p1 as int].unwrap(), pid, s1);
    let u1 = u0.update(p1 as int, Some(c1));
    let c2 = redirected(u1[p2 as int].unwrap(), pid, s2);
    let u2 = u1.update(p2 as int, Some(c2));
    let c3 = redirected(u2[a1 as int].unwrap(), aid, t1);
    let u3 = u2.update(a1 as int, Some(c3));
    let c4 = redirected(u3[a2 as int].unwrap(), aid, t2);
    let u4 = u3.update(a2 as int, Some(c4));
    &&& cancel_ctx(n0, wid, aid, pid)
    &&& s1 == n0.agents.len()
    &&& s2 == n0.agents.len() + 1
    &&& t1 == n0.agents.len() + 2
    &&& t2 == n0.agents.len() + 3
    &&& w11 == n0.wires.len()
    &&& w12 == n0.wires.len() + 1
    &&& w21 == n0.wires.len() + 2
    &&& w22 == n0.wires.len() + 3
    &&& n2.agents == n0.agents.update(aid as int, None).update(pid as int, None).push(
        Some(s1v),
    ).push(Some(s2v)).push(Some(t1v)).push(Some(t2v))
    &&& n2.wires == u4
}

/// Wire side of the Duplicate closure proof.
#[verifier::rlimit(100)]
#[verifier::spinoff_prover]
proof fn lemma_dup_wires(
    n0: NetV,
    wid: usize,
    aid: usize,
    pid: usize,
    s1: usize,
    s2: usize,
    t1: usize,
    t2: usize,
    w11: usize,
    w12: usize,
    w21: usize,
    w22: usize,
    n2: NetV,
)
    requires
        duplicate_pre(n0, wid, aid, pid, s1, s2, t1, t2, w11, w12, w21, w22, n2),
    ensures
        forall|x: usize| #[trigger] wire_trig(x) ==> n2.live_wire(x) ==> n2.wire_ok(x),
{
    let a1 = n0.agent_at(aid).wires[1];
    let a2 = n0.agent_at(aid).wires[2];
    let p1 = n0.agent_at(pid).wires[1];
    let p2 = n0.agent_at(pid).wires[2];
    assert(wire_trig(wid));
    assert(agent_trig(aid));
    assert(agent_trig(pid));
    assert(n0.wire_ok(wid));
    assert(n0.agent_ok(aid) && n0.agent_ok(pid));
    assert(a1 != wid && a2 != wid && p1 != wid && p2 != wid) by {
        assert(slot_count(n0.agent_at(aid), wid) == 1);
        assert(slot_count(n0.agent_at(pid), wid) == 1);
    }
    lemma_aux_wire_shape(n0, aid, a1, a2);
    lemma_aux_wire_shape(n0, pid, p1, p2);
    assert(n2.agent_at(s1) == AgentV { wires: seq![p1, w11, w12], ..n0.agent_at(aid) });
    assert(n2.agent_at(s2) == AgentV { wires: seq![p2, w21, w22], ..n0.agent_at(aid) });
    assert(n2.agent_at(t1) == AgentV { wires: seq![a1, w11, w21], ..n0.agent_at(pid) });
    assert(n2.agent_at(t2) == AgentV { wires: seq![a2, w12, w22], ..n0.agent_at(pid) });
    assert(arity_of(n2.agent_at(s1).kind) == 3 && arity_of(n2.agent_at(s2).kind) == 3 && arity_of(
        n2.agent_at(t1).kind,
    ) == 3 && arity_of(n2.agent_at(t2).kind) == 3);
    assert forall|x: usize| wire_trig(x) && n2.live_wire(x) implies n2.wire_ok(x) by {
        assert(x != wid);
        if x == w11 {
            assert(n2.wire_at(x) == Wire { source: s1, target: t1 });
            assert(slot_count(n2.agent_at(s1), x) == 1);
            assert(slot_count(n2.agent_at(t1), x) == 1);
        } else if x == w12 {
            assert(n2.wire_at(x) == Wire { source: s1, target: t2 });
            assert(slot_count(n2.agent_at(s1), x) == 1);
            assert(slot_count(n2.agent_at(t2), x) == 1);
        } else if x == w21 {
            assert(n2.wire_at(x) == Wire { source: s2, target: t1 });
            assert(slot_count(n2.agent_at(s2), x) == 1);
            assert(slot_count(n2.agent_at(t1), x) == 1);
        } else if x == w22 {
            assert(n2.wire_at(x) == Wire { source: s2, target: t2 });
            assert(slot_count(n2.agent_at(s2), x) == 1);
            assert(slot_count(n2.agent_at(t2), x) == 1);
        } else if x == p1 || x == p2 || x == a1 || x == a2 {
            assert(n0.live_wire(x));
            assert(n0.wire_ok(x));
            let w = n0.wire_at(x);
            if x == p1 && x == p2 {
                // Self loop on the partner: the copies of the agent side
                // are joined principal to principal.
                assert(w.source == pid && w.target == pid);
                assert(x != a1 && x != a2);
                assert(n2.wire_at(x) == Wire { source: s1, target: s2 });
                assert(slot_count(n2.agent_at(s1), x) == 1);
                assert(slot_count(n2.agent_at(s2), x) == 1);
            } else if x == a1 && x == a2 {
                assert(w.source == aid && w.target == aid);
                assert(x != p1 && x != p2);
                assert(n2.wire_at(x) == Wire { source: t1, target: t2 });
                assert(slot_count(n2.agent_at(t1), x) == 1);
                assert(slot_count(n2.agent_at(t2), x) == 1);
            } else if x == p1 && x == a1 {
                assert((w.source == pid && w.target == aid) || (w.source == aid && w.target
                    == pid));
                assert(x != p2 && x != a2);
                assert(n2.wire_at(x) == Wire { source: s1, target: t1 } || n2.wire_at(x) == Wire {
                    source: t1,
                    target: s1,
                });
                assert(slot_count(n2.agent_at(s1), x) == 1);
                assert(slot_count(n2.agent_at(t1), x) == 1);
                assert(s1 != t1);
            } else if x == p1 && x == a2 {
                assert(x != p2 && x != a1);
                assert(n2.wire_at(x) == Wire { source: s1, target: t2 } || n2.wire_at(x) == Wire {
                    source: t2,
                    target: s1,
                });
                assert(slot_count(n2.agent_at(s1), x) == 1);
                assert(slot_count(n2.agent_at(t2), x) == 1);
                assert(s1 != t2);
            } else if x == p2 && x == a1 {
                assert(x != p1 && x != a2);
                assert(n2.wire_at(x) == Wire { source: s2, target: t1 } || n2.wire_at(x) == Wire {
                    source: t1,
                    target: s2,
                });
                assert(slot_count(n2.agent_at(s2), x) == 1);
                assert(slot_count(n2.agent_at(t1), x) == 1);
                assert(s2 != t1);
            } else if x == p2 && x == a2 {
                assert(x != p1 && x != a1);
                assert(n2.wire_at(x) == Wire { source: s2, target: t2 } || n2.wire_at(x) == Wire {
                    source: t2,
                    target: s2,
                });
                assert(slot_count(n2.agent_at(s2), x) == 1);
                assert(slot_count(n2.agent_at(t2), x) == 1);
                assert(s2 != t2);
            } else if x == p1 {
                let far = far_of(w, pid);
                assert(far != pid && far != aid) by {
                    if far == aid {
                        assert(slot_count(n0.agent_at(aid), x) >= 1);
                    }
                }
                assert(agent_trig(far));
                assert(n2.wire_at(x) == redirected(w, pid, s1));
                assert(slot_count(n0.agent_at(far), x) == 1);
                assert(n2.agent_at(far) == n0.agent_at(far));
                assert(slot_count(n2.agent_at(s1), x) == 1);
                assert(far != s1);
            } else if x == p2 {
                let far = far_of(w, pid);
                assert(far != pid && far != aid) by {
                    if far == aid {
                        assert(slot_count(n0.agent_at(aid), x) >= 1);
                    }
                }
                assert(agent_trig(far));
                assert(n2.wire_at(x) == redirected(w, pid, s2));
                assert(slot_count(n0.agent_at(far), x) == 1);
                assert(n2.agent_at(far) == n0.agent_at(far));
                assert(slot_count(n2.agent_at(s2), x) == 1);
                assert(far != s2);
            } else if x == a1 {
                let far = far_of(w, aid);
                assert(far != aid && far != pid) by {
                    if far == pid {
                        assert(slot_count(n0.agent_at(pid), x) >= 1);
                    }
                }
                assert(agent_trig(far));
                assert(n2.wire_at(x) == redirected(w, aid, t1));
                assert(slot_count(n0.agent_at(far), x) == 1);
                assert(n2.agent_at(far) == n0.agent_at(far));
                assert(slot_count(n2.agent_at(t1), x) == 1);
                assert(far != t1);
            } else {
                let far = far_of(w, aid);
                assert(far != aid && far != pid) by {
                    if far == pid {
                        assert(slot_count(n0.agent_at(pid), x) >= 1);
                    }
                }
                assert(agent_trig(far));
                assert(n2.wire_at(x) == redirected(w, aid, t2));
                assert(slot_count(n0.agent_at(far), x) == 1);
                assert(n2.agent_at(far) == n0.agent_at(far));
                assert(slot_count(n2.agent_at(t2), x) == 1);
                assert(far != t2);
            }
        } else {
            assert(n0.live_wire(x));
            assert(n0.wire_ok(x));
            let wx = n0.wire_at(x);
            assert(wx.source != aid && wx.target != aid && wx.source != pid && wx.target != pid)
                by {
                if wx.source == aid || wx.target == aid {
                    assert(slot_count(n0.agent_at(aid), x) >= 1);
                }
                if wx.source == pid || wx.target == pid {
                    assert(slot_count(n0.agent_at(pid), x) >= 1);
                }
            }
            assert(agent_trig(wx.source));
            assert(agent_trig(wx.target));
            assert(n2.wire_at(x) == wx);
            assert(n2.agent_at(wx.source) == n0.agent_at(wx.source));
            assert(n2.agent_at(wx.target) == n0.agent_at(wx.target));
        }
    }
}

/// Agent side of the Duplicate closure proof.
#[verifier::rlimit(100)]
#[verifier::spinoff_prover]
proof fn lemma_dup_agents(
    n0: NetV,
    wid: usize,
    aid: usize,
    pid: usize,
    s1: usize,
    s2: usize,
    t1: usize,
    t2: usize,
    w11: usize,
    w12: usize,
    w21: usize,
    w22: usize,
    n2: NetV,
)
    requires
        duplicate_pre(n0, wid, aid, pid, s1, s2, t1, t2, w11, w12, w21, w22, n2),
    ensures
        forall|id: usize| #[trigger] agent_trig(id) ==> n2.live_agent(id) ==> n2.agent_ok(id),
{
    let a1 = n0.agent_at(aid).wires[1];
    let a2 = n0.agent_at(aid).wires[2];
    let p1 = n0.agent_at(pid).wires[1];
    let p2 = n0.agent_at(pid).wires[2];
    assert(wire_trig(wid));
    assert(agent_trig(aid));
    assert(agent_trig(pid));
    assert(n0.wire_ok(wid));
    assert(n0.agent_ok(aid) && n0.agent_ok(pid));
    assert(a1 != wid && a2 != wid && p1 != wid && p2 != wid) by {
        assert(slot_count(n0.agent_at(aid), wid) == 1);
        assert(slot_count(n0.agent_at(pid), wid) == 1);
    }
    lemma_aux_wire_shape(n0, aid, a1, a2);
    lemma_aux_wire_shape(n0, pid, p1, p2);
    assert(wire_trig(a1));
    assert(wire_trig(a2));
    assert(wire_trig(p1));
    assert(wire_trig(p2));
    // Where each auxiliary wire of the pair ends up after the rewrite:
    // still live, with the matching copy as an endpoint.
    assert(n2.live_wire(p1) && (n2.wire_at(p1).source == s1 || n2.wire_at(p1).target == s1));
    assert(n2.live_wire(p2) && (n2.wire_at(p2).source == s2 || n2.wire_at(p2).target == s2));
    assert(n2.live_wire(a1) && (n2.wire_at(a1).source == t1 || n2.wire_at(a1).target == t1));
    assert(n2.live_wire(a2) && (n2.wire_at(a2).source == t2 || n2.wire_at(a2).target == t2));
    assert(n2.live_wire(w11) && n2.wire_at(w11) == Wire { source: s1, target: t1 });
    assert(n2.live_wire(w12) && n2.wire_at(w12) == Wire { source: s1, target: t2 });
    assert(n2.live_wire(w21) && n2.wire_at(w21) == Wire { source: s2, target: t1 });
    assert(n2.live_wire(w22) && n2.wire_at(w22) == Wire { source: s2, target: t2 });
    assert forall|id: usize| agent_trig(id) && n2.live_agent(id) implies n2.agent_ok(id) by {
        assert(id != aid && id != pid);
        if id == s1 || id == s2 || id == t1 || id == t2 {
            assert(n2.agent_ok(id));
        } else {
            assert(n0.live_agent(id));
            assert(n0.agent_ok(id));
            let a = n0.agent_at(id);
            assert(n2.agent_at(id) == a);
            assert(wire_trig(a.wires[0]));
            assert(wire_trig(a.wires[1]));
            assert(wire_trig(a.wires[2]));
            assert(a.wires[0] != wid && (arity_of(a.kind) > 1 ==> a.wires[1] != wid && a.wires[2]
                != wid)) by {
                assert(n0.wire_at(wid).source == aid && n0.wire_at(wid).target == pid);
            }
            assert(n2.agent_ok(id)) by {
                assert(forall|q: int| 0 <= q < 3 && n0.live_wire(#[trigger] a.wires[q]) && (
                n0.wire_at(a.wires[q]).source == id || n0.wire_at(a.wires[q]).target == id)
                    ==> n2.live_wire(a.wires[q]) && (n2.wire_at(a.wires[q]).source == id
                    || n2.wire_at(a.wires[q]).target == id));
            }
        }
    }
}

/// After a Duplicate the net is closed again.
proof fn lemma_duplicate_wf(
    n0: NetV,
    wid: usize,
    aid: usize,
    pid: usize,
    s1: usize,
    s2: usize,
    t1: usize,
    t2: usize,
    w11: usize,
    w12: usize,
    w21: usize,
    w22: usize,
    n2: NetV,
)
    requires
        duplicate_pre(n0, wid, aid, pid, s1, s2, t1, t2, w11, w12, w21, w22, n2),
    ensures
        n2.wf(),
{
    assert(wire_trig(wid));
    assert(n0.wire_ok(wid));
    assert(n0.live_agent(aid) && n0.live_agent(pid));
    assert(aid != 0 && pid != 0);
    assert(agent_trig(aid));
    assert(agent_trig(pid));
    assert(n0.agent_ok(aid) && n0.agent_ok(pid));
    assert(wire_trig(n0.agent_at(aid).wires[1]));
    assert(wire_trig(n0.agent_at(aid).wires[2]));
    assert(wire_trig(n0.agent_at(pid).wires[1]));
    assert(wire_trig(n0.agent_at(pid).wires[2]));
    assert(n0.agent_at(aid).wires[1] != 0 && n0.agent_at(aid).wires[2] != 0 && n0.agent_at(
        pid,
    ).wires[1] != 0 && n0.agent_at(pid).wires[2] != 0);
    assert(n2.agents[0] is None && n2.wires[0] is None);
    lemma_dup_wires(n0, wid, aid, pid, s1, s2, t1, t2, w11, w12, w21, w22, n2);
    lemma_dup_agents(n0, wid, aid, pid, s1, s2, t1, t2, w11, w12, w21, w22, n2);
}

/// An agent pair joined principal-to-principal is a valid redex for the
/// critical-pair scan iff neither is Root, they are not both Lambda and
/// not both Application.
pub open spec fn scan_kinds_ok(a: AgentKind, b: AgentKind) -> bool {
    &&& a != AgentKind::Root
    &&& b != AgentKind::Root
    &&& !(a == AgentKind::Lambda && b == AgentKind::Lambda)
    &&& !(a == AgentKind::Application && b == AgentKind::Application)
}

/// Wire `wid` carries a redex: a principal-to-principal pair whose kinds
/// the scan accepts.
pub open spec fn is_redex(n: NetV, wid: usize) -> bool {
    &&& is_principal_pair(n, wid)
    &&& scan_kinds_ok(
        n.agent_at(n.wire_at(wid).source).kind,
        n.agent_at(n.wire_at(wid).target).kind,
    )
}

impl Net {
    /// Clone the two agents of a Duplicate redex, allocate the four
    /// criss-cross wires, and fill the copies' port slots; the four
    /// external wires are not yet redirected.
    fn duplicate_make(&mut self, wid: usize, aid: usize, pid: usize) -> (ids: (
        usize,
        usize,
        usize,
        usize,
        usize,
        usize,
        usize,
        usize,
    ))
        requires
            cancel_ctx(old(self)@, wid, aid, pid),
        ensures
            ({
                let (s1, s2, t1, t2, w11, w12, w21, w22) = ids;
                let n0 = old(self)@;
                let a1 = n0.agent_at(aid).wires[1];
                let a2 = n0.agent_at(aid).wires[2];
                let p1 = n0.agent_at(pid).wires[1];
                let p2 = n0.agent_at(pid).wires[2];
                let s1v = AgentV { wires: seq![p1, w11, w12], ..n0.agent_at(aid) };
                let s2v = AgentV { wires: seq![p2, w21, w22], ..n0.agent_at(aid) };
                let t1v = AgentV { wires: seq![a1, w11, w21], ..n0.agent_at(pid) };
                let t2v = AgentV { wires: seq![a2, w12, w22], ..n0.agent_at(pid) };
                &&& s1 == n0.agents.len()
                &&& s2 == n0.agents.len() + 1
                &&& t1 == n0.agents.len() + 2
                &&& t2 == n0.agents.len() + 3
                &&& w11 == n0.wires.len()
                &&& w12 == n0.wires.len() + 1
                &&& w21 == n0.wires.len() + 2
                &&& w22 == n0.wires.len() + 3
                &&& final(self)@.agents == n0.agents.update(aid as int, None).update(
                    pid as int,
                    None,
                ).push(Some(s1v)).push(Some(s2v)).push(Some(t1v)).push(Some(t2v))
                &&& final(self)@.wires == n0.wires.update(wid as int, None).push(
                    Some(Wire { source: s1, target: t1 }),
                ).push(Some(Wire { source: s1, target: t2 })).push(
                    Some(Wire { source: s2, target: t1 }),
                ).push(Some(Wire { source: s2, target: t2 }))
            }),
    {
        let ghost n0 = self@;
        proof {
            assert(wire_trig(wid));
            assert(n0.wire_ok(wid));
            assert(agent_trig(aid));
            assert(agent_trig(pid));
            assert(n0.agent_ok(aid) && n0.agent_ok(pid));
        }
        let a1 = self.slot(aid, 1);
        let a2 = self.slot(aid, 2);
        let p1 = self.slot(pid, 1);
        let p2 = self.slot(pid, 2);
        let ca1 = self.clone_agent(aid);
        let ca2 = self.clone_agent(aid);
        let cp1 = self.clone_agent(pid);
        let cp2 = self.clone_agent(pid);
        self.remove_wire(wid);
        self.remove_agent(aid);
        self.remove_agent(pid);
        let s1 = self.add_agent(ca1);
        let s2 = self.add_agent(ca2);
        let t1 = self.add_agent(cp1);
        let t2 = self.add_agent(cp2);
        let w11 = self.add_wire(Wire { source: s1, target: t1 });
        let w12 = self.add_wire(Wire { source: s1, target: t2 });
        let w21 = self.add_wire(Wire { source: s2, target: t1 });
        let w22 = self.add_wire(Wire { source: s2, target: t2 });
        self.set_slot(s1, 0, p1);
        self.set_slot(s1, 1, w11);
        self.set_slot(s1, 2, w12);
        self.set_slot(s2, 0, p2);
        self.set_slot(s2, 1, w21);
        self.set_slot(s2, 2, w22);
        self.set_slot(t1, 0, a1);
        self.set_slot(t1, 1, w11);
        self.set_slot(t1, 2, w21);
        self.set_slot(t2, 0, a2);
        self.set_slot(t2, 1, w12);
        self.set_slot(t2, 2, w22);
        proof {
            let s1v = AgentV { wires: seq![p1, w11, w12], ..n0.agent_at(aid) };
            let s2v = AgentV { wires: seq![p2, w21, w22], ..n0.agent_at(aid) };
            let t1v = AgentV { wires: seq![a1, w11, w21], ..n0.agent_at(pid) };
            let t2v = AgentV { wires: seq![a2, w12, w22], ..n0.agent_at(pid) };
            assert(ca1@.wires.update(0, p1).update(1, w11).update(2, w12) =~= seq![p1, w11, w12]);
            assert(ca2@.wires.update(0, p2).update(1, w21).update(2, w22) =~= seq![p2, w21, w22]);
            assert(cp1@.wires.update(0, a1).update(1, w11).update(2, w21) =~= seq![a1, w11, w21]);
            assert(cp2@.wires.update(0, a2).update(1, w12).update(2, w22) =~= seq![a2, w12, w22]);
            assert(self@.agents =~= n0.agents.update(aid as int, None).update(
                pid as int,
                None,
            ).push(Some(s1v)).push(Some(s2v)).push(Some(t1v)).push(Some(t2v)));
            assert(self@.wires =~= n0.wires.update(wid as int, None).push(
                Some(Wire { source: s1, target: t1 }),
            ).push(Some(Wire { source: s1, target: t2 })).push(
                Some(Wire { source: s2, target: t1 }),
            ).push(Some(Wire { source: s2, target: t2 })));
        }
        (s1, s2, t1, t2, w11, w12, w21, w22)
    }

    /// The Duplicate rule: both agents are cloned; each copy of one side
    /// is wired to both copies of the other on their auxiliary ports,
    /// and the four external wires of the pair are adopted, one by each
    /// copy's principal port.
    fn apply_duplicate(&mut self, wid: usize)
        requires
            old(self)@.wf(),
            is_principal_pair(old(self)@, wid),
            rule_for(
                old(self)@.agent_at(old(self)@.wire_at(wid).source).kind,
                old(self)@.agent_at(old(self)@.wire_at(wid).target).kind,
            ) == RuleKind::Duplicate,
        ensures
            final(self)@.wf(),
            !final(self)@.live_agent(old(self)@.wire_at(wid).source),
            !final(self)@.live_agent(old(self)@.wire_at(wid).target),
            final(self)@.agent_count() == old(self)@.agent_count() + 2,
            final(self)@.wire_count() == old(self)@.wire_count() + 3,
            duplicate_post(old(self)@, wid, final(self)@),
    {
        let ghost n0 = self@;
        let w = self.get_wire(wid);
        let aid = w.source;
        let pid = w.target;
        proof {
            assert(wire_trig(wid));
            assert(n0.wire_ok(wid));
            assert(agent_trig(aid));
            assert(agent_trig(pid));
            assert(n0.agent_ok(aid) && n0.agent_ok(pid));
            assert(cancel_ctx(n0, wid, aid, pid));
        }
        let a1 = self.slot(aid, 1);
        let a2 = self.slot(aid, 2);
        let p1 = self.slot(pid, 1);
        let p2 = self.slot(pid, 2);
        proof {
            assert(a1 != wid && a2 != wid && p1 != wid && p2 != wid) by {
                assert(slot_count(n0.agent_at(aid), wid) == 1);
                assert(slot_count(n0.agent_at(pid), wid) == 1);
            }
            assert(wire_trig(a1));
            assert(wire_trig(a2));
            assert(wire_trig(p1));
            assert(wire_trig(p2));
            assert(n0.wire_ok(a1) && n0.wire_ok(a2) && n0.wire_ok(p1) && n0.wire_ok(p2));
            lemma_aux_wire_shape(n0, aid, a1, a2);
            lemma_aux_wire_shape(n0, pid, p1, p2);
        }
        let (s1, s2, t1, t2, w11, w12, w21, w22) = self.duplicate_make(wid, aid, pid);
        let ghost nmade = self@;
        proof {
            assert(self@.live_wire(p1) && self@.wire_at(p1) == n0.wire_at(p1));
        }
        self.redirect(p1, pid, s1);
        proof {
            assert(self@.live_wire(p2));
            if p2 == p1 {
                assert(n0.wire_at(p1).source == pid && n0.wire_at(p1).target == pid);
                assert(self@.wire_at(p2) == redirected(n0.wire_at(p1), pid, s1));
                assert(self@.wire_at(p2).target == pid);
            } else {
                assert(self@.wire_at(p2) == n0.wire_at(p2));
            }
        }
        self.redirect(p2, pid, s2);
        proof {
            assert(self@.live_wire(a1));
            assert(self@.wire_at(a1).source == aid || self@.wire_at(a1).target == aid) by {
                assert(n0.wire_at(a1).source == aid || n0.wire_at(a1).target == aid);
                if a1 == p1 || a1 == p2 {
                    assert(a1 != a2);
                }
            }
        }
        self.redirect(a1, aid, t1);
        proof {
            assert(self@.live_wire(a2));
            assert(self@.wire_at(a2).source == aid || self@.wire_at(a2).target == aid) by {
                assert(n0.wire_at(a2).source == aid || n0.wire_at(a2).target == aid);
                if a2 == a1 {
                    assert(n0.wire_at(a1).source == aid && n0.wire_at(a1).target == aid);
                }
            }
        }
        self.redirect(a2, aid, t2);
        proof {
            let n2 = self@;
            assert(n0.agents.len() + 3 <= usize::MAX) by {
                assert(t2 == n0.agents.len() + 3);
            }
            assert(n0.wires.len() + 3 <= usize::MAX) by {
                assert(w22 == n0.wires.len() + 3);
            }
            assert(duplicate_pre(n0, wid, aid, pid, s1, s2, t1, t2, w11, w12, w21, w22, n2));
            lemma_duplicate_wf(n0, wid, aid, pid, s1, s2, t1, t2, w11, w12, w21, w22, n2);
            lemma_duplicate_counts(n0, wid, aid, pid, s1, s2, t1, t2, w11, w12, w21, w22, n2);
        }
    }

    /// One reduction step at agent `id`: the structural rule for the
    /// principal pair of `id` is applied, if there is one.  The
    /// `requested` kind never overrides the table: on a pair without a
    /// structural rule the step is a no-op and the net is unchanged.
    pub fn reduction_step(&mut self, id: usize, requested: RuleKind)
        requires
            old(self)@.wf(),
            old(self)@.live_agent(id),
        ensures
            final(self)@.wf(),
            ({
                let n0 = old(self)@;
                let wid = n0.agent_at(id).wires[0];
                let w = n0.wire_at(wid);
                let r = rule_for(n0.agent_at(w.source).kind, n0.agent_at(w.target).kind);
                let fin = final(self)@;
                &&& (!is_principal_pair(n0, wid) ==> fin == n0)
                &&& (is_principal_pair(n0, wid) && r == RuleKind::NoRule ==> fin == n0)
                &&& (is_principal_pair(n0, wid) && r != RuleKind::NoRule ==> !fin.live_agent(
                    w.source,
                ) && !fin.live_agent(w.target))
                &&& (is_principal_pair(n0, wid) && r == RuleKind::Erase ==> fin.agent_count()
                    == n0.agent_count() - 2 + (arity_of(erase_partner_kind(n0, wid)) - 1)
                    && fin.wire_count() == n0.wire_count() - 1)
                &&& (is_principal_pair(n0, wid) && r == RuleKind::Cancel ==> fin.agent_count()
                    == n0.agent_count() - 2 && fin.wire_count() == n0.wire_count() - 3)
                &&& (is_principal_pair(n0, wid) && r == RuleKind::Duplicate ==> fin.agent_count()
                    == n0.agent_count() + 2 && fin.wire_count() == n0.wire_count() + 3)
                &&& (is_principal_pair(n0, wid) && r == RuleKind::Erase ==> erase_post(
                    n0,
                    wid,
                    fin,
                ))
                &&& (is_principal_pair(n0, wid) && r == RuleKind::Cancel ==> cancel_post(
                    n0,
                    wid,
                    fin,
                ))
                &&& (is_principal_pair(n0, wid) && r == RuleKind::Duplicate ==> duplicate_post(
                    n0,
                    wid,
                    fin,
                ))
            }),
    {
        let ghost n0 = self@;
        proof {
            assert(agent_trig(id));
            assert(n0.agent_ok(id));
        }
        let wid = self.slot(id, 0);
        proof {
            assert(wire_trig(wid));
            assert(n0.wire_ok(wid));
        }
        let w = self.get_wire(wid);
        if w.source == w.target {
            return ;
        }
        proof {
            assert(agent_trig(w.source));
            assert(agent_trig(w.target));
            assert(n0.agent_ok(w.source) && n0.agent_ok(w.target));
        }
        let s0 = self.slot(w.source, 0);
        let t0 = self.slot(w.target, 0);
        if s0 != wid || t0 != wid {
            return ;
        }
        let ka = self.kind_of(w.source);
        let kb = self.kind_of(w.target);
        let selected = select_rule(ka, kb);
        let _ = requested;
        match selected {
            RuleKind::Erase => self.apply_erase(wid),
            RuleKind::Cancel => self.apply_cancel(wid),
            RuleKind::Duplicate => self.apply_duplicate(wid),
            _ => {},
        }
    }

    /// Whether the principal wire of live agent `id` carries a redex the
    /// scanner reports.
    pub(crate) fn redex_at(&self, id: usize) -> (r: bool)
        requires
            self@.wf(),
            self@.live_agent(id),
        ensures
            r == is_redex(self@, self@.agent_at(id).wires[0]),
    {
        proof {
            assert(agent_trig(id));
            assert(self@.agent_ok(id));
        }
        let wid = self.slot(id, 0);
        proof {
            assert(wire_trig(wid));
            assert(self@.wire_ok(wid));
        }
        let w = self.get_wire(wid);
        if w.source == w.target {
            proof {
                assert(self@.agent_at(w.source).wires[0] == wid ==> !is_principal_pair(
                    self@,
                    wid,
                ));
            }
            return false;
        }
        proof {
            assert(agent_trig(w.source));
            assert(agent_trig(w.target));
            assert(self@.agent_ok(w.source) && self@.agent_ok(w.target));
        }
        let s0 = self.slot(w.source, 0);
        let t0 = self.slot(w.target, 0);
        if s0 != wid || t0 != wid {
            return false;
        }
        let ka = self.kind_of(w.source);
        let kb = self.kind_of(w.target);
        ka != AgentKind::Root && kb != AgentKind::Root && !(ka == AgentKind::Lambda && kb
            == AgentKind::Lambda) && !(ka == AgentKind::Application && kb
            == AgentKind::Application)
    }

    /// Every live agent whose principal wire carries a redex, in id
    /// order.  The net is in normal form exactly when this is empty.
    pub fn find_critical_agents(&self) -> (r: Vec<usize>)
        requires
            self@.wf(),
        ensures
            forall|j: int|
                0 <= j < r@.len() ==> self@.live_agent(#[trigger] r@[j]) && is_redex(
                    self@,
                    self@.agent_at(r@[j]).wires[0],
                ),
            forall|id: usize|
                #[trigger] self@.live_agent(id) && is_redex(self@, self@.agent_at(id).wires[0])
                    ==> r@.contains(id),
    {
        let mut r: Vec<usize> = Vec::new();
        let mut i: usize = 0;
        let n = self.agents.len();
        while i < n
            invariant
                self@.wf(),
                n == self@.agents.len(),
                i <= n,
                forall|j: int|
                    0 <= j < r@.len() ==> self@.live_agent(#[trigger] r@[j]) && is_redex(
                        self@,
                        self@.agent_at(r@[j]).wires[0],
                    ),
                forall|id: usize|
                    id < i && #[trigger] self@.live_agent(id) && is_redex(
                        self@,
                        self@.agent_at(id).wires[0],
                    ) ==> r@.contains(id),
            decreases n - i,
        {
            if self.has_agent(i) {
                if self.redex_at(i) {
                    let ghost rold = r@;
                    r.push(i);
                    proof {
                        assert forall|id: usize| rold.contains(id) implies r@.contains(id) by {
                            let j = choose|j: int| 0 <= j < rold.len() && rold[j] == id;
                            assert(r@[j] == id);
                        }
                        assert(r@[r@.len() - 1] == i);
                        assert(r@.contains(i));
                    }
                }
            }
            i = i + 1;
        }
        r
    }
}


/// A Duplicate adds two live agents and three live wires on balance.
proof fn lemma_duplicate_counts(
    n0: NetV,
    wid: usize,
    aid: usize,
    pid: usize,
    s1: usize,
    s2: usize,
    t1: usize,
    t2: usize,
    w11: usize,
    w12: usize,
    w21: usize,
    w22: usize,
    n2: NetV,
)
    requires
        duplicate_pre(n0, wid, aid, pid, s1, s2, t1, t2, w11, w12, w21, w22, n2),
    ensures
        count_live_agents(n2.agents) == count_live_agents(n0.agents) + 2,
        count_live_wires(n2.wires) == count_live_wires(n0.wires) + 3,
{
    let a1 = n0.agent_at(aid).wires[1];
    let a2 = n0.agent_at(aid).wires[2];
    let p1 = n0.agent_at(pid).wires[1];
    let p2 = n0.agent_at(pid).wires[2];
    let s1v = AgentV { wires: seq![p1, w11, w12], ..n0.agent_at(aid) };
    let s2v = AgentV { wires: seq![p2, w21, w22], ..n0.agent_at(aid) };
    let t1v = AgentV { wires: seq![a1, w11, w21], ..n0.agent_at(pid) };
    let t2v = AgentV { wires: seq![a2, w12, w22], ..n0.agent_at(pid) };
    assert(wire_trig(wid));
    assert(n0.wire_ok(wid));
    assert(agent_trig(aid));
    assert(agent_trig(pid));
    assert(n0.agent_ok(aid) && n0.agent_ok(pid));
    assert(a1 != wid && a2 != wid && p1 != wid && p2 != wid) by {
        assert(slot_count(n0.agent_at(aid), wid) == 1);
        assert(slot_count(n0.agent_at(pid), wid) == 1);
    }
    crate::net::lemma_count_agents_update_none(n0.agents, aid as int);
    crate::net::lemma_count_agents_update_none(n0.agents.update(aid as int, None), pid as int);
    let base = n0.agents.update(aid as int, None).update(pid as int, None);
    crate::net::lemma_count_agents_push(base, Some(s1v));
    crate::net::lemma_count_agents_push(base.push(Some(s1v)), Some(s2v));
    crate::net::lemma_count_agents_push(base.push(Some(s1v)).push(Some(s2v)), Some(t1v));
    crate::net::lemma_count_agents_push(
        base.push(Some(s1v)).push(Some(s2v)).push(Some(t1v)),
        Some(t2v),
    );
    crate::net::lemma_count_wires_update_none(n0.wires, wid as int);
    let wbase = n0.wires.update(wid as int, None);
    let u0 = wbase.push(Some(Wire { source: s1, target: t1 })).push(
        Some(Wire { source: s1, target: t2 }),
    ).push(Some(Wire { source: s2, target: t1 })).push(Some(Wire { source: s2, target: t2 }));
    crate::net::lemma_count_wires_push(wbase, Some(Wire { source: s1, target: t1 }));
    crate::net::lemma_count_wires_push(
        wbase.push(Some(Wire { source: s1, target: t1 })),
        Some(Wire { source: s1, target: t2 }),
    );
    crate::net::lemma_count_wires_push(
        wbase.push(Some(Wire { source: s1, target: t1 })).push(
            Some(Wire { source: s1, target: t2 }),
        ),
        Some(Wire { source: s2, target: t1 }),
    );
    crate::net::lemma_count_wires_push(
        wbase.push(Some(Wire { source: s1, target: t1 })).push(
            Some(Wire { source: s1, target: t2 }),
        ).push(Some(Wire { source: s2, target: t1 })),
        Some(Wire { source: s2, target: t2 }),
    );
    let c1 = redirected(u0[p1 as int].unwrap(), pid, s1);
    let u1 = u0.update(p1 as int, Some(c1));
    let c2 = redirected(u1[p2 as int].unwrap(), pid, s2);
    let u2 = u1.update(p2 as int, Some(c2));
    let c3 = redirected(u2[a1 as int].unwrap(), aid, t1);
    let u3 = u2.update(a1 as int, Some(c3));
    let c4 = redirected(u3[a2 as int].unwrap(), aid, t2);
    crate::net::lemma_count_wires_update_same(u0, p1 as int, c1);
    crate::net::lemma_count_wires_update_same(u1, p2 as int, c2);
    crate::net::lemma_count_wires_update_same(u2, a1 as int, c3);
    crate::net::lemma_count_wires_update_same(u3, a2 as int, c4);
}

/// The rule table is symmetric: which rewrite fires does not depend on
/// which side of the wire a pair's agents stand.
pub proof fn lemma_rule_symmetric(a: AgentKind, b: AgentKind)
    ensures
        rule_for(a, b) == rule_for(b, a),
{
}

} // verus!
