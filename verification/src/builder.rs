//! The net builder: recursive translation of a closed lambda-term tree
//! into an initial interaction net, with a binder stack in place of a
//! name map (variables carry de Bruijn indices) and a left-leaning chain
//! of Duplicators for repeated occurrences of one binder.
//!
//! During construction some wires are still half open (their target is
//! the sentinel 0) and a Lambda's use port may still be a hole; the
//! invariant [`cwf`] captures exactly that relaxation of closure, and
//! the post-pass that seals vacuous binders restores closure itself.

use vstd::prelude::*;

use crate::net::{agent_trig, arity_of, slot_count, wire_trig, Agent, AgentKind, Net, NetV, Wire};
use crate::tree::Tree;

verus! {

/// The one construction failure: a variable occurrence with no enclosing
/// binder.  Interaction nets are defined here only for closed terms.
#[derive(Debug, PartialEq, Eq, Structural, Copy, Clone)]
pub enum BuildError {
    FreeVariable,
}

/// Every variable occurrence has an enclosing binder of its name, under
/// the stack of binder names `stack` (innermost last): the builder
/// succeeds on exactly these trees.
pub open spec fn bound_ok(t: Tree, stack: Seq<Seq<char>>) -> bool
    decreases t,
{
    match t {
        Tree::Var(name, _) => crate::tree::spec_find(stack, name@) >= 0,
        Tree::Abs(name, body) => bound_ok(*body, stack.push(name@)),
        Tree::App(l, r) => bound_ok(*l, stack) && bound_ok(*r, stack),
    }
}

/// A found binder position lies inside the stack.
proof fn lemma_spec_find_range(stack: Seq<Seq<char>>, name: Seq<char>)
    ensures
        -1 <= crate::tree::spec_find(stack, name) < stack.len(),
    decreases stack.len(),
{
    if stack.len() > 0 && stack.last() != name {
        lemma_spec_find_range(stack.drop_last(), name);
    }
}

/// Closure conditions for one wire during construction: a half-open wire
/// (target still 0) hangs off exactly one port of its source agent; a
/// closed wire satisfies the ordinary closure conditions.
pub open spec fn cwire_ok(n: NetV, wid: usize) -> bool {
    let w = n.wire_at(wid);
    if w.target == 0 {
        &&& n.live_agent(w.source)
        &&& slot_count(n.agent_at(w.source), wid) == 1
    } else {
        &&& n.live_agent(w.source)
        &&& n.live_agent(w.target)
        &&& (w.source != w.target ==> slot_count(n.agent_at(w.source), wid) == 1 && slot_count(
            n.agent_at(w.target),
            wid,
        ) == 1)
        &&& (w.source == w.target ==> slot_count(n.agent_at(w.source), wid) == 2)
    }
}

/// Closure conditions for one port during construction: the slot holds a
/// live wire with an endpoint here, or it is the still-unfilled use port
/// of a Lambda.
pub open spec fn cport_ok(n: NetV, id: usize, p: int) -> bool {
    let wid = n.agent_at(id).wires[p];
    if wid == 0 {
        n.agent_at(id).kind == AgentKind::Lambda && p == 2
    } else {
        &&& n.live_wire(wid)
        &&& (n.wire_at(wid).source == id || n.wire_at(wid).target == id)
    }
}

/// Closure conditions for one agent during construction.
pub open spec fn cagent_ok(n: NetV, id: usize) -> bool {
    let a = n.agent_at(id);
    &&& a.wires.len() == 3
    &&& cport_ok(n, id, 0)
    &&& arity_of(a.kind) > 1 ==> cport_ok(n, id, 1) && cport_ok(n, id, 2)
    &&& arity_of(a.kind) == 1 ==> a.wires[1] == 0 && a.wires[2] == 0
}

/// Closure under construction: as [`NetV::wf`], except that wires may be
/// half open and a Lambda's use port may be a hole.
pub open spec fn cwf(n: NetV) -> bool {
    &&& 1 <= n.agents.len()
    &&& 1 <= n.wires.len()
    &&& n.agents[0] is None
    &&& n.wires[0] is None
    &&& forall|wid: usize| #[trigger] wire_trig(wid) ==> n.live_wire(wid) ==> cwire_ok(n, wid)
    &&& forall|id: usize| #[trigger] agent_trig(id) ==> n.live_agent(id) ==> cagent_ok(n, id)
}

/// Every Lambda whose use port (slot 2) is already filled points there at
/// a live, fully attached wire with an endpoint on the Lambda itself.
pub open spec fn use_ok(n: NetV) -> bool {
    forall|id: usize|
        #[trigger] agent_trig(id) ==> n.live_agent(id) ==> (n.agent_at(id).kind
            == AgentKind::Lambda && n.agent_at(id).wires[2] != 0) ==> (n.live_wire(
            n.agent_at(id).wires[2],
        ) && n.wire_at(n.agent_at(id).wires[2]).target != 0 && (n.wire_at(
            n.agent_at(id).wires[2],
        ).source == id || n.wire_at(n.agent_at(id).wires[2]).target == id))
}

/// No wire is still half open.
pub open spec fn all_closed(n: NetV) -> bool {
    forall|wid: usize|
        #[trigger] wire_trig(wid) ==> n.live_wire(wid) ==> n.wire_at(wid).target != 0
}

/// No Lambda still has a hole at its use port.
pub open spec fn no_holes(n: NetV) -> bool {
    forall|id: usize|
        #[trigger] agent_trig(id) ==> n.live_agent(id) ==> (n.agent_at(id).kind
            == AgentKind::Lambda ==> n.agent_at(id).wires[2] != 0)
}

/// A fully attached, hole-free construction state is closed.
proof fn lemma_cwf_closed(n: NetV)
    requires
        cwf(n),
        all_closed(n),
        no_holes(n),
    ensures
        n.wf(),
{
    assert forall|wid: usize| wire_trig(wid) && n.live_wire(wid) implies n.wire_ok(wid) by {
        assert(cwire_ok(n, wid));
    }
    assert forall|id: usize| agent_trig(id) && n.live_agent(id) implies n.agent_ok(id) by {
        assert(cagent_ok(n, id));
        let a = n.agent_at(id);
        assert(a.wires[0] != 0) by {
            assert(cport_ok(n, id, 0));
        }
        assert(arity_of(a.kind) > 1 ==> a.wires[1] != 0 && a.wires[2] != 0) by {
            if arity_of(a.kind) > 1 {
                assert(cport_ok(n, id, 1));
                assert(cport_ok(n, id, 2));
                if a.wires[2] == 0 {
                    assert(a.kind == AgentKind::Lambda);
                }
            }
        }
    }
}


/// Number of live agents of kind `k`.
pub open spec fn count_kind(s: Seq<Option<crate::net::AgentV>>, k: AgentKind) -> int
    decreases s.len(),
{
    if s.len() == 0 {
        0
    } else {
        count_kind(s.drop_last(), k) + (match s.last() {
            Some(a) => if a.kind == k {
                1int
            } else {
                0int
            },
            None => 0int,
        })
    }
}

/// One when `a` is a Lambda whose use port is still a hole.
pub open spec fn is_hole(a: crate::net::AgentV) -> int {
    if a.kind == AgentKind::Lambda && a.wires[2] == 0 {
        1
    } else {
        0
    }
}

/// Number of live Lambdas whose use port is still a hole.
pub open spec fn count_holes(s: Seq<Option<crate::net::AgentV>>) -> int
    decreases s.len(),
{
    if s.len() == 0 {
        0
    } else {
        count_holes(s.drop_last()) + (match s.last() {
            Some(a) => is_hole(a),
            None => 0int,
        })
    }
}

proof fn lemma_counts_push(s: Seq<Option<crate::net::AgentV>>, a: Option<crate::net::AgentV>)
    ensures
        forall|k: AgentKind|
            #[trigger] count_kind(s.push(a), k) == count_kind(s, k) + (match a {
                Some(x) => if x.kind == k {
                    1int
                } else {
                    0int
                },
                None => 0int,
            }),
        count_holes(s.push(a)) == count_holes(s) + (match a {
            Some(x) => is_hole(x),
            None => 0int,
        }),
{
    assert(s.push(a).drop_last() =~= s);
}

proof fn lemma_counts_update(s: Seq<Option<crate::net::AgentV>>, i: int, a: crate::net::AgentV)
    requires
        0 <= i < s.len(),
        s[i] is Some,
        a.kind == s[i].unwrap().kind,
    ensures
        forall|k: AgentKind|
            #[trigger] count_kind(s.update(i, Some(a)), k) == count_kind(s, k),
        count_holes(s.update(i, Some(a))) == count_holes(s) - is_hole(s[i].unwrap()) + is_hole(a),
    decreases s.len(),
{
    if i == s.len() - 1 {
        assert(s.update(i, Some(a)).drop_last() =~= s.drop_last());
        assert(s.update(i, Some(a)).last() == Some(a));
    } else {
        lemma_counts_update(s.drop_last(), i, a);
        assert(s.update(i, Some(a)).drop_last() =~= s.drop_last().update(i, Some(a)));
        assert forall|k: AgentKind| #[trigger] count_kind(s.update(i, Some(a)), k) == count_kind(
            s,
            k,
        ) by {
            assert(count_kind(s.drop_last().update(i, Some(a)), k) == count_kind(
                s.drop_last(),
                k,
            ));
        }
    }
}

/// A registry with no Lambda holes counts zero holes.
proof fn lemma_count_holes_zero(s: Seq<Option<crate::net::AgentV>>)
    requires
        forall|i: int|
            0 <= i < s.len() && (#[trigger] s[i]) is Some ==> is_hole(s[i].unwrap()) == 0,
    ensures
        count_holes(s) == 0,
    decreases s.len(),
{
    if s.len() > 0 {
        lemma_count_holes_zero(s.drop_last());
    }
}

/// Abstraction nodes of a term.
pub open spec fn num_abs(t: Tree) -> int
    decreases t,
{
    match t {
        Tree::Var(_, _) => 0,
        Tree::Abs(_, body) => 1 + num_abs(*body),
        Tree::App(l, r) => num_abs(*l) + num_abs(*r),
    }
}

/// Application nodes of a term.
pub open spec fn num_apps(t: Tree) -> int
    decreases t,
{
    match t {
        Tree::Var(_, _) => 0,
        Tree::Abs(_, body) => num_apps(*body),
        Tree::App(l, r) => 1 + num_apps(*l) + num_apps(*r),
    }
}

/// Variable occurrences of a term.
pub open spec fn num_vars(t: Tree) -> int
    decreases t,
{
    match t {
        Tree::Var(_, _) => 1,
        Tree::Abs(_, body) => num_vars(*body),
        Tree::App(l, r) => num_vars(*l) + num_vars(*r),
    }
}

/// The builder's walk over `t` as it touches binder use ports: `filled`
/// says, per enclosing binder, whether its use port already holds a
/// wire; the result counts the ports newly filled (each bound variable's
/// first occurrence) and gives the state after the walk.  Occurrences
/// beyond the first each cost one Duplicator instead.
pub open spec fn fills(t: Tree, names: Seq<Seq<char>>, filled: Seq<bool>) -> (int, Seq<bool>)
    decreases t,
{
    match t {
        Tree::Var(name, _) => {
            let j = crate::tree::spec_find(names, name@);
            if j >= 0 && !filled[j] {
                (1int, filled.update(j, true))
            } else {
                (0int, filled)
            }
        },
        Tree::Abs(name, body) => {
            let r = fills(*body, names.push(name@), filled.push(false));
            (r.0, r.1.drop_last())
        },
        Tree::App(l, r) => {
            let x = fills(*l, names, filled);
            let y = fills(*r, names, x.1);
            (x.0 + y.0, y.1)
        },
    }
}

/// The builder's walk keeps one state entry per enclosing binder.
proof fn lemma_fills_len(t: Tree, names: Seq<Seq<char>>, filled: Seq<bool>)
    requires
        names.len() == filled.len(),
    ensures
        fills(t, names, filled).1.len() == filled.len(),
    decreases t,
{
    match t {
        Tree::Var(name, _) => {
            lemma_spec_find_range(names, name@);
        },
        Tree::Abs(name, body) => {
            lemma_fills_len(*body, names.push(name@), filled.push(false));
        },
        Tree::App(l, r) => {
            lemma_fills_len(*l, names, filled);
            lemma_fills_len(*r, names, fills(*l, names, filled).1);
        },
    }
}

impl Net {
    /// Attach the subtree `tree` to the half-open wire `dangling`,
    /// allocating agents as needed; `names` is the stack of enclosing
    /// binder names and `lambdas` the matching stack of their Lambda
    /// agents, innermost last.  Each occurrence resolves to the innermost
    /// binder of its name, as lexical shadowing asks; an occurrence with
    /// no matching binder is the one failure.
    #[verifier::rlimit(100)]
    #[verifier::spinoff_prover]
    fn from_tree_helper(
        &mut self,
        tree: &Tree,
        dangling: usize,
        names: &mut Vec<String>,
        lambdas: &mut Vec<usize>,
    ) -> (r: Result<(), BuildError>)
        requires
            cwf(old(self)@),
            use_ok(old(self)@),
            old(self)@.live_wire(dangling),
            old(self)@.wire_at(dangling).target == 0,
            old(names)@.len() == old(lambdas)@.len(),
            forall|i: int|
                0 <= i < old(lambdas)@.len() ==> old(self)@.live_agent(
                    #[trigger] old(lambdas)@[i],
                ) && old(self)@.agent_at(old(lambdas)@[i]).kind == AgentKind::Lambda,
            forall|i: int, i2: int|
                0 <= i < i2 < old(lambdas)@.len() ==> (#[trigger] old(lambdas)@[i]) != (
                #[trigger] old(lambdas)@[i2]),
        ensures
            cwf(final(self)@),
            use_ok(final(self)@),
            final(names)@ == old(names)@,
            final(lambdas)@ == old(lambdas)@,
            r is Ok <==> bound_ok(*tree, old(names)@.map_values(|s: String| s@)),
            r is Ok ==> ({
                let fr = fills(
                    *tree,
                    old(names)@.map_values(|s: String| s@),
                    Seq::new(
                        old(lambdas)@.len() as nat,
                        |i: int| old(self)@.agent_at(old(lambdas)@[i]).wires[2] != 0,
                    ),
                );
                &&& count_kind(final(self)@.agents, AgentKind::Lambda) == count_kind(
                    old(self)@.agents,
                    AgentKind::Lambda,
                ) + num_abs(*tree)
                &&& count_kind(final(self)@.agents, AgentKind::Application) == count_kind(
                    old(self)@.agents,
                    AgentKind::Application,
                ) + num_apps(*tree)
                &&& count_kind(final(self)@.agents, AgentKind::Root) == count_kind(
                    old(self)@.agents,
                    AgentKind::Root,
                )
                &&& count_kind(final(self)@.agents, AgentKind::Eraser) == count_kind(
                    old(self)@.agents,
                    AgentKind::Eraser,
                )
                &&& count_kind(final(self)@.agents, AgentKind::Duplicator) == count_kind(
                    old(self)@.agents,
                    AgentKind::Duplicator,
                ) + num_vars(*tree) - fr.0
                &&& count_holes(final(self)@.agents) == count_holes(old(self)@.agents) + num_abs(
                    *tree,
                ) - fr.0
                &&& forall|i: int|
                    0 <= i < old(lambdas)@.len() ==> ((final(self)@.agent_at(
                        #[trigger] old(lambdas)@[i],
                    ).wires[2] != 0) <==> fr.1[i])
            }),
            forall|id: usize|
                #[trigger] agent_trig(id) ==> old(self)@.live_agent(id) ==> (final(self)@.live_agent(id) && final(self)@.agent_at(id).kind == old(self)@.agent_at(
                    id,
                ).kind),
            forall|w: usize|
                #[trigger] wire_trig(w) ==> old(self)@.live_wire(w) ==> final(self)@.live_wire(w),
            forall|w: usize|
                #[trigger] wire_trig(w) ==> old(self)@.live_wire(w) ==> w != dangling ==> old(self)@.wire_at(w).target == 0 ==> final(self)@.wire_at(w) == old(self)@.wire_at(w),
            r is Ok ==> forall|w: usize|
                #[trigger] wire_trig(w) ==> final(self)@.live_wire(w) ==> final(self)@.wire_at(
                    w,
                ).target == 0 ==> (old(self)@.live_wire(w) && old(self)@.wire_at(w).target == 0
                    && w != dangling),
        decreases tree,
    {
        match tree {
            Tree::Var(name, _) => {
                let found = crate::tree::find_binder(names, name);
                let j = match found {
                    Some(j) => j,
                    None => {
                        return Err(BuildError::FreeVariable);
                    },
                };
                proof {
                    lemma_spec_find_range(old(names)@.map_values(|s: String| s@), name@);
                }
                let lambda_id = lambdas[j];
                let ghost n0 = self@;
                proof {
                    assert(agent_trig(lambda_id));
                    assert(cagent_ok(n0, lambda_id));
                    assert(wire_trig(dangling));
                    assert(cwire_ok(n0, dangling));
                    assert(lambda_id != 0);
                }
                let use_slot = self.slot(lambda_id, 2);
                if use_slot == 0 {
                    self.set_slot(lambda_id, 2, dangling);
                    let dw = self.get_wire(dangling);
                    self.set_wire(dangling, Wire { source: dw.source, target: lambda_id });
                    proof {
                        let n2 = self@;
                        let src = n0.wire_at(dangling).source;
                        assert(agent_trig(src));
                        assert(cagent_ok(n0, src));
                        assert(n2.agent_at(lambda_id).wires =~= n0.agent_at(
                            lambda_id,
                        ).wires.update(2, dangling));
                        assert forall|w: usize| wire_trig(w) && n2.live_wire(w) implies cwire_ok(
                            n2,
                            w,
                        ) by {
                            assert(n0.live_wire(w));
                            assert(cwire_ok(n0, w));
                            let wr = n0.wire_at(w);
                            if w == dangling {
                                assert(slot_count(n2.agent_at(lambda_id), w) == slot_count(
                                    n0.agent_at(lambda_id),
                                    w,
                                ) + 1);
                                if src == lambda_id {
                                    assert(slot_count(n0.agent_at(lambda_id), w) == 1);
                                    assert(slot_count(n2.agent_at(lambda_id), w) == 2);
                                } else {
                                    assert(slot_count(n0.agent_at(lambda_id), w) == 0) by {
                                        assert(cagent_ok(n0, lambda_id));
                                        assert(cport_ok(n0, lambda_id, 0));
                                        assert(cport_ok(n0, lambda_id, 1));
                                        assert(lambda_id != 0);
                                    }
                                    assert(slot_count(n2.agent_at(src), w) == slot_count(
                                        n0.agent_at(src),
                                        w,
                                    ));
                                }
                            } else {
                                assert(n2.wire_at(w) == wr);
                                if wr.target == 0 {
                                    assert(slot_count(n2.agent_at(wr.source), w) == slot_count(
                                        n0.agent_at(wr.source),
                                        w,
                                    ));
                                } else {
                                    assert(agent_trig(wr.source));
                                    assert(agent_trig(wr.target));
                                    assert(slot_count(n2.agent_at(wr.source), w) == slot_count(
                                        n0.agent_at(wr.source),
                                        w,
                                    ));
                                    assert(slot_count(n2.agent_at(wr.target), w) == slot_count(
                                        n0.agent_at(wr.target),
                                        w,
                                    ));
                                }
                            }
                        }
                        assert forall|id: usize| agent_trig(id) && n2.live_agent(id) implies
                            cagent_ok(n2, id) by {
                            assert(n0.live_agent(id));
                            assert(cagent_ok(n0, id));
                            if id == lambda_id {
                                assert(cport_ok(n2, id, 2));
                                assert(cport_ok(n2, id, 0)) by {
                                    let w0 = n0.agent_at(id).wires[0];
                                    assert(cport_ok(n0, id, 0));
                                    if w0 != 0 {
                                        assert(wire_trig(w0));
                                        if w0 == dangling {
                                            assert(n2.wire_at(w0).source == id || n2.wire_at(
                                                w0,
                                            ).target == id);
                                        }
                                    }
                                }
                                assert(cport_ok(n2, id, 1)) by {
                                    let w1 = n0.agent_at(id).wires[1];
                                    assert(cport_ok(n0, id, 1));
                                    if w1 != 0 {
                                        assert(wire_trig(w1));
                                        if w1 == dangling {
                                            assert(n2.wire_at(w1).source == id || n2.wire_at(
                                                w1,
                                            ).target == id);
                                        }
                                    }
                                }
                            } else {
                                assert(n2.agent_at(id) == n0.agent_at(id));
                                assert(cport_ok(n2, id, 0)) by {
                                    lemma_port_keeps(n0, n2, id, 0, dangling, lambda_id);
                                }
                                assert(arity_of(n0.agent_at(id).kind) > 1 ==> cport_ok(n2, id, 1)
                                    && cport_ok(n2, id, 2)) by {
                                    if arity_of(n0.agent_at(id).kind) > 1 {
                                        lemma_port_keeps(n0, n2, id, 1, dangling, lambda_id);
                                        lemma_port_keeps(n0, n2, id, 2, dangling, lambda_id);
                                    }
                                }
                            }
                        }
                        assert forall|id: usize|
                            agent_trig(id) && n2.live_agent(id) && (n2.agent_at(id).kind
                                == AgentKind::Lambda && n2.agent_at(id).wires[2] != 0) implies (
                        n2.live_wire(n2.agent_at(id).wires[2]) && n2.wire_at(
                            n2.agent_at(id).wires[2],
                        ).target != 0 && (n2.wire_at(n2.agent_at(id).wires[2]).source == id
                            || n2.wire_at(n2.agent_at(id).wires[2]).target == id)) by {
                            assert(n0.live_agent(id));
                            if id != lambda_id {
                                let u = n0.agent_at(id).wires[2];
                                assert(wire_trig(u));
                                assert(u != dangling);
                            }
                        }
                        // Census: the first occurrence fills its binder's
                        // use port and allocates nothing.
                        let nm = old(names)@.map_values(|s: String| s@);
                        let filled0 = Seq::new(
                            old(lambdas)@.len() as nat,
                            |i: int| n0.agent_at(old(lambdas)@[i]).wires[2] != 0,
                        );
                        assert(crate::tree::spec_find(nm, name@) == j);
                        assert(!filled0[j as int]);
                        let lamv2 = crate::net::AgentV {
                            wires: n0.agent_at(lambda_id).wires.update(2, dangling),
                            ..n0.agent_at(lambda_id)
                        };
                        lemma_counts_update(n0.agents, lambda_id as int, lamv2);
                        assert(dangling != 0);
                        assert(is_hole(n0.agent_at(lambda_id)) == 1);
                        assert(is_hole(lamv2) == 0);
                        assert(n2.agents == n0.agents.update(lambda_id as int, Some(lamv2)));
                        assert forall|i: int| 0 <= i < old(lambdas)@.len() implies ((n2.agent_at(
                            #[trigger] old(lambdas)@[i],
                        ).wires[2] != 0) <==> filled0.update(j as int, true)[i]) by {
                            if i != j {
                                assert(old(lambdas)@[i] != lambda_id);
                                assert(n2.agent_at(old(lambdas)@[i]) == n0.agent_at(
                                    old(lambdas)@[i],
                                ));
                            }
                        }
                    }
                    Ok(())
                } else {
                    let prev = use_slot;
                    let ghost nstart = self@;
                    proof {
                        assert(wire_trig(prev));
                        assert(cwire_ok(nstart, prev));
                    }
                    let dup = self.add_agent(Agent::new(AgentKind::Duplicator, 0, prev, dangling));
                    let nw = self.add_wire(Wire::new(lambda_id, dup));
                    self.set_slot(dup, 0, nw);
                    self.set_slot(lambda_id, 2, nw);
                    proof {
                        assert(wire_trig(nw));
                        assert(wire_trig(dangling));
                        assert(self@.live_wire(prev));
                        assert(self@.wire_at(prev) == n0.wire_at(prev));
                        assert(self@.wire_at(prev).source == lambda_id || self@.wire_at(
                            prev,
                        ).target == lambda_id);
                    }
                    self.redirect_endpoint(prev, lambda_id, dup);
                    let dw = self.get_wire(dangling);
                    self.set_wire(dangling, Wire { source: dw.source, target: dup });
                    proof {
                        // Census: a repeated occurrence allocates exactly
                        // one Duplicator and fills no use port.
                        let nm = old(names)@.map_values(|s: String| s@);
                        let filled0 = Seq::new(
                            old(lambdas)@.len() as nat,
                            |i: int| n0.agent_at(old(lambdas)@[i]).wires[2] != 0,
                        );
                        assert(crate::tree::spec_find(nm, name@) == j);
                        assert(filled0[j as int]);
                        let dupv = crate::net::AgentV {
                            kind: AgentKind::Duplicator,
                            label: Seq::<char>::empty(),
                            title: Seq::<char>::empty(),
                            x: 0u32,
                            y: 0u32,
                            fixed: false,
                            wires: seq![nw, prev, dangling],
                        };
                        let lamv2 = crate::net::AgentV {
                            wires: n0.agent_at(lambda_id).wires.update(2, nw),
                            ..n0.agent_at(lambda_id)
                        };
                        lemma_counts_push(n0.agents, Some(dupv));
                        lemma_counts_update(
                            n0.agents.push(Some(dupv)),
                            lambda_id as int,
                            lamv2,
                        );
                        assert(nw != 0);
                        assert(is_hole(n0.agent_at(lambda_id)) == 0);
                        assert(is_hole(lamv2) == 0);
                        assert(is_hole(dupv) == 0);
                        assert(seq![0usize, prev, dangling].update(0, nw) =~= seq![
                            nw,
                            prev,
                            dangling,
                        ]);
                        assert(self@.agents =~= n0.agents.push(Some(dupv)).update(
                            lambda_id as int,
                            Some(lamv2),
                        ));
                        assert forall|i: int| 0 <= i < old(lambdas)@.len() implies ((
                        self@.agent_at(#[trigger] old(lambdas)@[i]).wires[2] != 0)
                            <==> filled0[i]) by {
                            if old(lambdas)@[i] != lambda_id {
                                assert(old(lambdas)@[i] < n0.agents.len());
                                assert(self@.agent_at(old(lambdas)@[i]) == n0.agent_at(
                                    old(lambdas)@[i],
                                ));
                            } else {
                                assert(self@.agent_at(old(lambdas)@[i]).wires[2] == nw);
                            }
                        }
                    }
                    proof {
                        let dupv = crate::net::AgentV {
                            kind: AgentKind::Duplicator,
                            label: Seq::<char>::empty(),
                            title: Seq::<char>::empty(),
                            x: 0u32,
                            y: 0u32,
                            fixed: false,
                            wires: seq![nw, prev, dangling],
                        };
                        let lamv = crate::net::AgentV {
                            wires: n0.agent_at(lambda_id).wires.update(2, nw),
                            ..n0.agent_at(lambda_id)
                        };
                        let w0 = n0.wire_at(prev);
                        let redirected_prev = if w0.source == lambda_id {
                            Wire { source: dup, target: w0.target }
                        } else {
                            Wire { source: w0.source, target: dup }
                        };
                        assert(seq![0usize, prev, dangling].update(0, nw) =~= seq![
                            nw,
                            prev,
                            dangling,
                        ]);
                        assert(self@.agents =~= n0.agents.push(Some(dupv)).update(
                            lambda_id as int,
                            Some(lamv),
                        ));
                        assert(self@.wires =~= n0.wires.push(
                            Some(Wire { source: lambda_id, target: dup }),
                        ).update(prev as int, Some(redirected_prev)).update(
                            dangling as int,
                            Some(Wire { source: n0.wire_at(dangling).source, target: dup }),
                        ));
                        lemma_var_dup_ok(n0, self@, lambda_id, dup, nw, prev, dangling);
                    }
                    Ok(())
                }
            },
            Tree::Abs(name, body) => {
                let ghost n0 = self@;
                let lam = self.add_agent(Agent::new(AgentKind::Lambda, dangling, 0, 0));
                let bw = self.add_wire(Wire::new(lam, 0));
                self.set_slot(lam, 1, bw);
                let dw = self.get_wire(dangling);
                self.set_wire(dangling, Wire { source: dw.source, target: lam });
                names.push(name.clone());
                lambdas.push(lam);
                proof {
                    assert(wire_trig(bw));
                    assert(wire_trig(dangling));
                    assert(agent_trig(lam));
                    ({
                        let lamv = crate::net::AgentV {
                            kind: AgentKind::Lambda,
                            label: Seq::<char>::empty(),
                            title: Seq::<char>::empty(),
                            x: 0u32,
                            y: 0u32,
                            fixed: false,
                            wires: seq![dangling, bw, 0],
                        };
                        assert(seq![dangling, 0usize, 0usize].update(1, bw) =~= seq![
                            dangling,
                            bw,
                            0usize,
                        ]);
                        assert(self@.agents =~= n0.agents.push(Some(lamv)));
                        assert(self@.wires =~= n0.wires.push(
                            Some(Wire { source: lam, target: 0 }),
                        ).update(
                            dangling as int,
                            Some(Wire { source: n0.wire_at(dangling).source, target: lam }),
                        ));
                    });
                    lemma_attach_ok(n0, self@, lam, bw, dangling);
                    assert(names@.map_values(|s: String| s@) =~= old(names)@.map_values(
                        |s: String| s@,
                    ).push(name@));
                    assert forall|i: int| 0 <= i < lambdas@.len() implies self@.live_agent(
                        #[trigger] lambdas@[i],
                    ) && self@.agent_at(lambdas@[i]).kind == AgentKind::Lambda by {
                        assert(agent_trig(lambdas@[i]));
                        if lambdas@[i] != lam {
                            assert(n0.live_agent(lambdas@[i]));
                        }
                    }
                }
                let ghost m0 = self@;
                proof {
                    assert forall|i: int, i2: int|
                        0 <= i < i2 < lambdas@.len() implies (#[trigger] lambdas@[i]) != (
                    #[trigger] lambdas@[i2]) by {
                        if i2 < lambdas@.len() - 1 {
                        } else {
                            assert(old(lambdas)@[i] < n0.agents.len());
                        }
                    }
                }
                let res = self.from_tree_helper(body, bw, names, lambdas);
                names.pop();
                lambdas.pop();
                proof {
                    assert(final(names)@ =~= old(names)@);
                    assert(final(lambdas)@ =~= old(lambdas)@);
                    assert(old(names)@.map_values(|s: String| s@).push(name@) =~= names@.map_values(
                        |s: String| s@,
                    ).push(name@));
                    if res is Ok {
                        // Census: the abstraction adds one Lambda with a
                        // fresh hole; the body's walk starts with that
                        // hole open and every older binder unchanged.
                        let nm = old(names)@.map_values(|s: String| s@);
                        let filled0 = Seq::new(
                            old(lambdas)@.len() as nat,
                            |i: int| n0.agent_at(old(lambdas)@[i]).wires[2] != 0,
                        );
                        let lamv0 = crate::net::AgentV {
                            kind: AgentKind::Lambda,
                            label: Seq::<char>::empty(),
                            title: Seq::<char>::empty(),
                            x: 0u32,
                            y: 0u32,
                            fixed: false,
                            wires: seq![dangling, 0, 0],
                        };
                        let lamv1 = crate::net::AgentV {
                            wires: lamv0.wires.update(1, bw),
                            ..lamv0
                        };
                        lemma_counts_push(n0.agents, Some(lamv0));
                        lemma_counts_update(n0.agents.push(Some(lamv0)), lam as int, lamv1);
                        assert(is_hole(lamv0) == 1 && is_hole(lamv1) == 1);
                        assert(m0.agents == n0.agents.push(Some(lamv0)).update(
                            lam as int,
                            Some(lamv1),
                        ));
                        let mid_filled = Seq::new(
                            (old(lambdas)@.len() + 1) as nat,
                            |i: int| m0.agent_at(old(lambdas)@.push(lam)[i]).wires[2] != 0,
                        );
                        assert(mid_filled =~= filled0.push(false)) by {
                            assert forall|i: int| 0 <= i < old(lambdas)@.len() implies
                                mid_filled[i] == filled0[i] by {
                                assert(old(lambdas)@[i] < n0.agents.len());
                                assert(m0.agent_at(old(lambdas)@[i]) == n0.agent_at(
                                    old(lambdas)@[i],
                                ));
                            }
                            assert(m0.agent_at(lam).wires[2] == 0);
                        }
                        let frb = fills(**body, nm.push(name@), filled0.push(false));
                        lemma_fills_len(**body, nm.push(name@), filled0.push(false));
                        let fr = fills(*tree, nm, filled0);
                        assert(fr.0 == frb.0 && fr.1 == frb.1.drop_last());
                        assert forall|i: int| 0 <= i < old(lambdas)@.len() implies ((
                        final(self)@.agent_at(#[trigger] old(lambdas)@[i]).wires[2] != 0)
                            <==> fr.1[i]) by {
                            assert(old(lambdas)@.push(lam)[i] == old(lambdas)@[i]);
                            assert(frb.1[i] == frb.1.drop_last()[i]);
                        }
                    }
                }
                res
            },
            Tree::App(l, r) => {
                let ghost n0 = self@;
                let app = self.add_agent(Agent::new(AgentKind::Application, 0, dangling, 0));
                let lw = self.add_wire(Wire::new(app, 0));
                let rw = self.add_wire(Wire::new(app, 0));
                self.set_slot(app, 0, lw);
                self.set_slot(app, 2, rw);
                let dw = self.get_wire(dangling);
                self.set_wire(dangling, Wire { source: dw.source, target: app });
                proof {
                    assert(wire_trig(lw));
                    assert(wire_trig(rw));
                    assert(wire_trig(dangling));
                    assert(agent_trig(app));
                    ({
                        let appv = crate::net::AgentV {
                            kind: AgentKind::Application,
                            label: Seq::<char>::empty(),
                            title: Seq::<char>::empty(),
                            x: 0u32,
                            y: 0u32,
                            fixed: false,
                            wires: seq![lw, dangling, rw],
                        };
                        assert(seq![0usize, dangling, 0usize].update(0, lw).update(2, rw) =~= seq![
                            lw,
                            dangling,
                            rw,
                        ]);
                        assert(self@.agents =~= n0.agents.push(Some(appv)));
                        assert(self@.wires =~= n0.wires.push(
                            Some(Wire { source: app, target: 0 }),
                        ).push(Some(Wire { source: app, target: 0 })).update(
                            dangling as int,
                            Some(Wire { source: n0.wire_at(dangling).source, target: app }),
                        ));
                    });
                    lemma_attach_app_ok(n0, self@, app, lw, rw, dangling);
                    assert forall|i: int| 0 <= i < lambdas@.len() implies self@.live_agent(
                        #[trigger] lambdas@[i],
                    ) && self@.agent_at(lambdas@[i]).kind == AgentKind::Lambda by {
                        assert(agent_trig(lambdas@[i]));
                        assert(n0.live_agent(lambdas@[i]));
                    }
                }
                let ghost m0 = self@;
                let left_result = self.from_tree_helper(l, lw, names, lambdas);
                match left_result {
                    Ok(()) => {
                        let ghost m1 = self@;
                        proof {
                            assert(wire_trig(rw));
                            assert forall|i: int| 0 <= i < lambdas@.len() implies self@.live_agent(
                                #[trigger] lambdas@[i],
                            ) && self@.agent_at(lambdas@[i]).kind == AgentKind::Lambda by {
                                assert(agent_trig(lambdas@[i]));
                            }
                        }
                        let right_result = self.from_tree_helper(r, rw, names, lambdas);
                        proof {
                            if right_result is Ok {
                                // Census: an application adds one
                                // Application agent; the right subterm's
                                // walk starts from the binder states the
                                // left one leaves.
                                let nm = old(names)@.map_values(|s: String| s@);
                                let filled0 = Seq::new(
                                    old(lambdas)@.len() as nat,
                                    |i: int| n0.agent_at(old(lambdas)@[i]).wires[2] != 0,
                                );
                                let appv0 = crate::net::AgentV {
                                    kind: AgentKind::Application,
                                    label: Seq::<char>::empty(),
                                    title: Seq::<char>::empty(),
                                    x: 0u32,
                                    y: 0u32,
                                    fixed: false,
                                    wires: seq![0, dangling, 0],
                                };
                                let appv1 = crate::net::AgentV {
                                    wires: appv0.wires.update(0, lw).update(2, rw),
                                    ..appv0
                                };
                                lemma_counts_push(n0.agents, Some(appv0));
                                lemma_counts_update(
                                    n0.agents.push(Some(appv0)),
                                    app as int,
                                    crate::net::AgentV {
                                        wires: appv0.wires.update(0, lw),
                                        ..appv0
                                    },
                                );
                                lemma_counts_update(
                                    n0.agents.push(Some(appv0)).update(
                                        app as int,
                                        Some(
                                            crate::net::AgentV {
                                                wires: appv0.wires.update(0, lw),
                                                ..appv0
                                            },
                                        ),
                                    ),
                                    app as int,
                                    appv1,
                                );
                                assert(is_hole(appv0) == 0 && is_hole(appv1) == 0 && is_hole(
                                    crate::net::AgentV {
                                        wires: appv0.wires.update(0, lw),
                                        ..appv0
                                    },
                                ) == 0);
                                assert(m0.agents =~= n0.agents.push(Some(appv0)).update(
                                    app as int,
                                    Some(
                                        crate::net::AgentV {
                                            wires: appv0.wires.update(0, lw),
                                            ..appv0
                                        },
                                    ),
                                ).update(app as int, Some(appv1)));
                                let left_filled = Seq::new(
                                    old(lambdas)@.len() as nat,
                                    |i: int| m0.agent_at(old(lambdas)@[i]).wires[2] != 0,
                                );
                                assert(left_filled =~= filled0) by {
                                    assert forall|i: int| 0 <= i < old(lambdas)@.len() implies
                                        left_filled[i] == filled0[i] by {
                                        assert(old(lambdas)@[i] < n0.agents.len());
                                        assert(m0.agent_at(old(lambdas)@[i]) == n0.agent_at(
                                            old(lambdas)@[i],
                                        ));
                                    }
                                }
                                let fl = fills(**l, nm, filled0);
                                lemma_fills_len(**l, nm, filled0);
                                let mid_filled = Seq::new(
                                    old(lambdas)@.len() as nat,
                                    |i: int| m1.agent_at(old(lambdas)@[i]).wires[2] != 0,
                                );
                                assert(mid_filled =~= fl.1) by {
                                    assert forall|i: int| 0 <= i < old(lambdas)@.len() implies
                                        mid_filled[i] == fl.1[i] by {
                                        assert(old(lambdas)@[i] == lambdas@[i]);
                                    }
                                }
                                let frr = fills(**r, nm, fl.1);
                                lemma_fills_len(**r, nm, fl.1);
                                let fr = fills(*tree, nm, filled0);
                                assert(fr.0 == fl.0 + frr.0 && fr.1 == frr.1);
                            }
                        }
                        right_result
                    },
                    Err(e) => Err(e),
                }
            },
        }
    }

    /// Move the endpoint of `wid` that lies on `from` over to `to`; a
    /// builder-local twin of the reduction engine's rewiring step.
    fn redirect_endpoint(&mut self, wid: usize, from: usize, to: usize)
        requires
            old(self)@.live_wire(wid),
            old(self)@.wire_at(wid).source == from || old(self)@.wire_at(wid).target == from,
        ensures
            final(self)@.agents == old(self)@.agents,
            ({
                let w = old(self)@.wire_at(wid);
                final(self)@.wires == old(self)@.wires.update(
                    wid as int,
                    Some(
                        if w.source == from {
                            Wire { source: to, target: w.target }
                        } else {
                            Wire { source: w.source, target: to }
                        },
                    ),
                )
            }),
    {
        let w = self.get_wire(wid);
        if w.source == from {
            self.set_wire(wid, Wire { source: to, target: w.target });
        } else {
            self.set_wire(wid, Wire { source: w.source, target: to });
        }
    }

    /// Close every Lambda whose bound name never occurred by wiring a
    /// fresh Eraser to its use port, so that construction ends with the
    /// net closed.
    fn fix_dangling_lambdas(&mut self)
        requires
            cwf(old(self)@),
            use_ok(old(self)@),
            all_closed(old(self)@),
        ensures
            final(self)@.wf(),
            forall|id: usize|
                #[trigger] agent_trig(id) ==> old(self)@.live_agent(id) ==> (final(self)@.live_agent(id) && final(self)@.agent_at(id).kind == old(self)@.agent_at(
                    id,
                ).kind),
            count_kind(final(self)@.agents, AgentKind::Eraser) == count_kind(
                old(self)@.agents,
                AgentKind::Eraser,
            ) + count_holes(old(self)@.agents),
            forall|k: AgentKind|
                k != AgentKind::Eraser ==> #[trigger] count_kind(final(self)@.agents, k)
                    == count_kind(old(self)@.agents, k),
            forall|id: usize|
                #[trigger] agent_trig(id) ==> old(self)@.live_agent(id) ==> (final(self)@.agent_at(id).wires[0] == old(self)@.agent_at(id).wires[0] && final(self)@.agent_at(id).wires[1] == old(self)@.agent_at(id).wires[1]),
            forall|id: usize|
                #[trigger] agent_trig(id) ==> old(self)@.live_agent(id) ==> (old(self)@.agent_at(id).kind != AgentKind::Lambda || old(self)@.agent_at(id).wires[2] != 0)
                    ==> final(self)@.agent_at(id) == old(self)@.agent_at(id),
            forall|w: usize|
                #[trigger] wire_trig(w) ==> old(self)@.live_wire(w) ==> (final(self)@.live_wire(w)
                    && final(self)@.wire_at(w) == old(self)@.wire_at(w)),
    {
        let n = self.agents.len();
        let mut holes: Vec<usize> = Vec::new();
        let mut i: usize = 0;
        while i < n
            invariant
                i <= n,
                cwf(self@),
                n == self@.agents.len(),
                forall|j: int|
                    0 <= j < holes@.len() ==> self@.live_agent(#[trigger] holes@[j])
                        && self@.agent_at(holes@[j]).kind == AgentKind::Lambda,
                forall|id: usize|
                    id < i && #[trigger] agent_trig(id) && self@.live_agent(id) && self@.agent_at(
                        id,
                    ).kind == AgentKind::Lambda && self@.agent_at(id).wires[2] == 0 ==> holes@.contains(id),
            decreases n - i,
        {
            if self.has_agent(i) {
                proof {
                    assert(agent_trig(i));
                }
                if self.kind_of(i) == AgentKind::Lambda {
                    if self.slot(i, 2) == 0 {
                        let ghost hprev = holes@;
                        holes.push(i);
                        proof {
                            assert(holes@[holes@.len() - 1] == i);
                            assert forall|id: usize| hprev.contains(id) implies holes@.contains(
                                id,
                            ) by {
                                let j = choose|j: int| 0 <= j < hprev.len() && hprev[j] == id;
                                assert(holes@[j] == id);
                            }
                        }
                    }
                }
            }
            i = i + 1;
        }
        let ghost n0 = self@;
        let m = holes.len();
        let mut k: usize = 0;
        while k < m
            invariant
                k <= m,
                cwf(self@),
                use_ok(self@),
                all_closed(self@),
                m == holes@.len(),
                forall|j: int|
                    0 <= j < holes@.len() ==> self@.live_agent(#[trigger] holes@[j])
                        && self@.agent_at(holes@[j]).kind == AgentKind::Lambda,
                forall|id: usize|
                    #[trigger] agent_trig(id) && self@.live_agent(id) && self@.agent_at(id).kind
                        == AgentKind::Lambda && self@.agent_at(id).wires[2] == 0 ==> exists|j: int|
                        k <= j < holes@.len() && holes@[j] == id,
                forall|id: usize|
                    #[trigger] agent_trig(id) ==> n0.live_agent(id) ==> (self@.live_agent(id)
                        && self@.agent_at(id).kind == n0.agent_at(id).kind),
                count_kind(self@.agents, AgentKind::Eraser) == count_kind(
                    n0.agents,
                    AgentKind::Eraser,
                ) + count_holes(n0.agents) - count_holes(self@.agents),
                forall|kk: AgentKind|
                    kk != AgentKind::Eraser ==> #[trigger] count_kind(self@.agents, kk)
                        == count_kind(n0.agents, kk),
                forall|id: usize|
                    #[trigger] agent_trig(id) ==> n0.live_agent(id) ==> (self@.agent_at(
                        id,
                    ).wires[0] == n0.agent_at(id).wires[0] && self@.agent_at(id).wires[1]
                        == n0.agent_at(id).wires[1]),
                forall|id: usize|
                    #[trigger] agent_trig(id) ==> n0.live_agent(id) ==> (n0.agent_at(id).kind
                        != AgentKind::Lambda || n0.agent_at(id).wires[2] != 0) ==> self@.agent_at(
                        id,
                    ) == n0.agent_at(id),
                forall|w: usize|
                    #[trigger] wire_trig(w) ==> n0.live_wire(w) ==> (self@.live_wire(w)
                        && self@.wire_at(w) == n0.wire_at(w)),
            decreases m - k,
        {
            let h = holes[k];
            proof {
                assert(agent_trig(h));
                assert(cagent_ok(self@, h));
            }
            if self.slot(h, 2) == 0 {
                let ghost npre = self@;
                let e = self.add_agent(Agent::new(AgentKind::Eraser, 0, 0, 0));
                let w = self.add_wire(Wire::new(h, e));
                self.set_slot(e, 0, w);
                self.set_slot(h, 2, w);
                proof {
                    ({
                        let ev = crate::net::AgentV {
                            kind: AgentKind::Eraser,
                            label: Seq::<char>::empty(),
                            title: Seq::<char>::empty(),
                            x: 0u32,
                            y: 0u32,
                            fixed: false,
                            wires: seq![w, 0, 0],
                        };
                        let hv = crate::net::AgentV {
                            wires: npre.agent_at(h).wires.update(2, w),
                            ..npre.agent_at(h)
                        };
                        assert(seq![0usize, 0usize, 0usize].update(0, w) =~= seq![
                            w,
                            0usize,
                            0usize,
                        ]);
                        assert(self@.agents =~= npre.agents.push(Some(ev)).update(
                            h as int,
                            Some(hv),
                        ));
                        assert(self@.wires =~= npre.wires.push(
                            Some(Wire { source: h, target: e }),
                        ));
                    });
                    lemma_seal_ok(npre, self@, h, e, w);
                    ({
                        let ev = crate::net::AgentV {
                            kind: AgentKind::Eraser,
                            label: Seq::<char>::empty(),
                            title: Seq::<char>::empty(),
                            x: 0u32,
                            y: 0u32,
                            fixed: false,
                            wires: seq![0usize, 0usize, 0usize],
                        };
                        let ev1 = crate::net::AgentV { wires: ev.wires.update(0, w), ..ev };
                        let hv = crate::net::AgentV {
                            wires: npre.agent_at(h).wires.update(2, w),
                            ..npre.agent_at(h)
                        };
                        lemma_counts_push(npre.agents, Some(ev));
                        lemma_counts_update(npre.agents.push(Some(ev)), e as int, ev1);
                        lemma_counts_update(
                            npre.agents.push(Some(ev)).update(e as int, Some(ev1)),
                            h as int,
                            hv,
                        );
                        assert(w != 0);
                        assert(is_hole(npre.agent_at(h)) == 1);
                        assert(is_hole(hv) == 0);
                        assert(is_hole(ev) == 0 && is_hole(ev1) == 0);
                        assert(self@.agents =~= npre.agents.push(Some(ev)).update(
                            e as int,
                            Some(ev1),
                        ).update(h as int, Some(hv)));
                    });
                    assert forall|id: usize|
                        agent_trig(id) && self@.live_agent(id) && self@.agent_at(id).kind
                            == AgentKind::Lambda && self@.agent_at(id).wires[2] == 0 implies
                        exists|j: int| k + 1 <= j < holes@.len() && holes@[j] == id by {
                        assert(npre.live_agent(id) && npre.agent_at(id).wires[2] == 0);
                        let j = choose|j: int|
                            k <= j < holes@.len() && #[trigger] holes@[j] == id;
                        assert(id != h);
                        assert(j != k);
                    }
                }
            } else {
                proof {
                    assert forall|id: usize|
                        agent_trig(id) && self@.live_agent(id) && self@.agent_at(id).kind
                            == AgentKind::Lambda && self@.agent_at(id).wires[2] == 0 implies
                        exists|j: int| k + 1 <= j < holes@.len() && holes@[j] == id by {
                        let j = choose|j: int|
                            k <= j < holes@.len() && #[trigger] holes@[j] == id;
                        assert(id != h);
                        assert(j != k);
                    }
                }
            }
            k = k + 1;
        }
        proof {
            assert forall|id: usize|
                agent_trig(id) && self@.live_agent(id) implies (self@.agent_at(id).kind
                == AgentKind::Lambda ==> self@.agent_at(id).wires[2] != 0) by {
                if self@.agent_at(id).kind == AgentKind::Lambda && self@.agent_at(id).wires[2]
                    == 0 {
                    let j = choose|j: int|
                        m <= j < holes@.len() && #[trigger] holes@[j] == id;
                    assert(false);
                }
            }
            lemma_cwf_closed(self@);
        }
        let total = self.agents.len();
        proof {
            assert(total == self@.agents.len());
            assert forall|i: int|
                0 <= i < self@.agents.len() && (#[trigger] self@.agents[i]) is Some implies
                is_hole(self@.agents[i].unwrap()) == 0 by {
                assert(agent_trig(i as usize));
                assert(self@.live_agent(i as usize));
            }
            lemma_count_holes_zero(self@.agents);
        }
    }

    /// Compile a closed lambda-term tree into a fresh interaction net:
    /// one Root agent (id 1) wired to the term's translation, vacuous
    /// binders sealed with Erasers, and the whole net closed.  A
    /// variable with no enclosing binder is a construction error and no
    /// net is produced.
    pub fn from_tree(tree: &Tree) -> (r: Result<Net, BuildError>)
        ensures
            r is Ok <==> bound_ok(*tree, Seq::<Seq<char>>::empty()),
            r is Ok ==> {
                let n = r.unwrap()@;
                let fr = fills(*tree, Seq::<Seq<char>>::empty(), Seq::<bool>::empty());
                &&& n.wf()
                &&& n.live_agent(1)
                &&& n.agent_at(1).kind == AgentKind::Root
                &&& count_kind(n.agents, AgentKind::Root) == 1
                &&& count_kind(n.agents, AgentKind::Lambda) == num_abs(*tree)
                &&& count_kind(n.agents, AgentKind::Application) == num_apps(*tree)
                &&& count_kind(n.agents, AgentKind::Duplicator) == num_vars(*tree) - fr.0
                &&& count_kind(n.agents, AgentKind::Eraser) == num_abs(*tree) - fr.0
            },
    {
        let mut net = Net::new();
        let root = net.add_agent(Agent::new(AgentKind::Root, 0, 0, 0));
        let rw = net.add_wire(Wire::new(root, 0));
        net.set_slot(root, 0, rw);
        proof {
            assert(root == 1 && rw == 1);
            assert forall|id: usize| agent_trig(id) && net@.live_agent(id) implies cagent_ok(
                net@,
                id,
            ) by {
                assert(id == 1);
                assert(net@.agent_at(1).wires =~= seq![1usize, 0usize, 0usize]);
                assert(cport_ok(net@, 1, 0));
            }
            assert forall|w: usize| wire_trig(w) && net@.live_wire(w) implies cwire_ok(
                net@,
                w,
            ) by {
                assert(w == 1);
                assert(slot_count(net@.agent_at(1), 1) == 1);
            }
            assert forall|id: usize|
                agent_trig(id) && net@.live_agent(id) && (net@.agent_at(id).kind
                    == AgentKind::Lambda && net@.agent_at(id).wires[2] != 0) implies false by {
                assert(id == 1);
            }
            assert(agent_trig(root));
        }
        let mut names: Vec<String> = Vec::new();
        let mut lambdas: Vec<usize> = Vec::new();
        proof {
            assert(names@.map_values(|s: String| s@) =~= Seq::<Seq<char>>::empty());
            // Counts of the two-slot starter net: one Root, nothing else.
            let rootv = crate::net::AgentV {
                kind: AgentKind::Root,
                label: Seq::<char>::empty(),
                title: Seq::<char>::empty(),
                x: 0u32,
                y: 0u32,
                fixed: false,
                wires: seq![0usize, 0usize, 0usize],
            };
            let rootv1 = crate::net::AgentV { wires: rootv.wires.update(0, rw), ..rootv };
            assert(Seq::<Option<crate::net::AgentV>>::empty().push(None) =~= seq![
                Option::<crate::net::AgentV>::None,
            ]);
            lemma_counts_push(Seq::<Option<crate::net::AgentV>>::empty(), None);
            lemma_counts_push(seq![Option::<crate::net::AgentV>::None], Some(rootv));
            lemma_counts_update(
                seq![Option::<crate::net::AgentV>::None].push(Some(rootv)),
                1,
                rootv1,
            );
            assert(is_hole(rootv) == 0 && is_hole(rootv1) == 0);
            assert(net@.agents =~= seq![Option::<crate::net::AgentV>::None].push(
                Some(rootv),
            ).update(1, Some(rootv1)));
            assert forall|k: AgentKind| #[trigger] count_kind(net@.agents, k) == (if k
                == AgentKind::Root {
                1int
            } else {
                0int
            }) by {
                assert(count_kind(Seq::<Option<crate::net::AgentV>>::empty(), k) == 0);
            }
            assert(count_holes(net@.agents) == 0);
            assert(Seq::new(lambdas@.len() as nat, |i: int| net@.agent_at(lambdas@[i]).wires[2]
                != 0) =~= Seq::<bool>::empty());
        }
        match net.from_tree_helper(tree, rw, &mut names, &mut lambdas) {
            Ok(()) => {
                proof {
                    assert(agent_trig(1));
                    assert forall|w: usize| wire_trig(w) && net@.live_wire(w) implies net@.wire_at(
                        w,
                    ).target != 0 by {
                        if net@.wire_at(w).target == 0 {
                            assert(w != rw);
                        }
                    }
                }
                net.fix_dangling_lambdas();
                proof {
                    assert(agent_trig(1));
                }
                Ok(net)
            },
            Err(e) => Err(e),
        }
    }
}

/// An untouched port stays well attached when one agent gains a wire in
/// its use slot and that wire's free end is filled.
proof fn lemma_port_keeps(n0: NetV, n2: NetV, id: usize, p: int, dangling: usize, lambda_id: usize)
    requires
        cwf(n0),
        n0.live_agent(id),
        id != lambda_id,
        0 <= p < 3,
        cport_ok(n0, id, p),
        n0.live_agent(lambda_id),
        n0.live_wire(dangling),
        n0.wire_at(dangling).target == 0,
        n2.agents == n0.agents.update(
            lambda_id as int,
            Some(
                crate::net::AgentV {
                    wires: n0.agent_at(lambda_id).wires.update(2, dangling),
                    ..n0.agent_at(lambda_id)
                },
            ),
        ),
        n2.wires == n0.wires.update(
            dangling as int,
            Some(Wire { source: n0.wire_at(dangling).source, target: lambda_id }),
        ),
    ensures
        cport_ok(n2, id, p),
{
    let wid = n0.agent_at(id).wires[p];
    assert(n2.agent_at(id) == n0.agent_at(id));
    if wid != 0 {
        assert(wire_trig(wid));
        if wid == dangling {
            assert(n0.wire_at(wid).source == id || n0.wire_at(wid).target == id);
            assert(n0.wire_at(wid).target == 0);
            assert(id != 0);
            assert(n2.wire_at(wid).source == id);
        } else {
            assert(n2.wire_at(wid) == n0.wire_at(wid));
        }
    }
}

/// After inserting a Duplicator for a repeated occurrence, construction
/// closure and use-port coherence hold again.
#[verifier::rlimit(100)]
#[verifier::spinoff_prover]
proof fn lemma_var_dup_ok(
    n0: NetV,
    n2: NetV,
    lambda_id: usize,
    dup: usize,
    nw: usize,
    prev: usize,
    dangling: usize,
)
    requires
        cwf(n0),
        use_ok(n0),
        n0.live_agent(lambda_id),
        n0.agent_at(lambda_id).kind == AgentKind::Lambda,
        n0.agent_at(lambda_id).wires[2] == prev,
        prev != 0,
        n0.live_wire(dangling),
        n0.wire_at(dangling).target == 0,
        dup == n0.agents.len(),
        nw == n0.wires.len(),
        ({
            let dupv = crate::net::AgentV {
                kind: AgentKind::Duplicator,
                label: Seq::<char>::empty(),
                title: Seq::<char>::empty(),
                x: 0u32,
                y: 0u32,
                fixed: false,
                wires: seq![nw, prev, dangling],
            };
            let lamv = crate::net::AgentV {
                wires: n0.agent_at(lambda_id).wires.update(2, nw),
                ..n0.agent_at(lambda_id)
            };
            let w0 = n0.wire_at(prev);
            let redirected_prev = if w0.source == lambda_id {
                Wire { source: dup, target: w0.target }
            } else {
                Wire { source: w0.source, target: dup }
            };
            &&& n2.agents == n0.agents.push(Some(dupv)).update(lambda_id as int, Some(lamv))
            &&& n2.wires == n0.wires.push(Some(Wire { source: lambda_id, target: dup })).update(
                prev as int,
                Some(redirected_prev),
            ).update(
                dangling as int,
                Some(Wire { source: n0.wire_at(dangling).source, target: dup }),
            )
        }),
    ensures
        cwf(n2),
        use_ok(n2),
        forall|id: usize|
            #[trigger] agent_trig(id) ==> n0.live_agent(id) ==> (n2.live_agent(id)
                && n2.agent_at(id).kind == n0.agent_at(id).kind),
        forall|w: usize| #[trigger] wire_trig(w) ==> n0.live_wire(w) ==> n2.live_wire(w),
        forall|w: usize|
            #[trigger] wire_trig(w) ==> n0.live_wire(w) ==> w != dangling ==> n0.wire_at(
                w,
            ).target == 0 ==> n2.wire_at(w) == n0.wire_at(w),
        forall|w: usize|
            #[trigger] wire_trig(w) ==> n2.live_wire(w) ==> n2.wire_at(w).target == 0 ==> (
            n0.live_wire(w) && n0.wire_at(w).target == 0 && w != dangling),
    {
    let w0 = n0.wire_at(prev);
    assert(agent_trig(lambda_id));
    assert(agent_trig(dup));
    assert(cagent_ok(n0, lambda_id));
    assert(wire_trig(prev));
    assert(wire_trig(nw));
    assert(wire_trig(dangling));
    assert(cwire_ok(n0, prev));
    assert(cwire_ok(n0, dangling));
    assert(use_ok(n0));
    assert(n0.live_wire(prev) && w0.target != 0 && (w0.source == lambda_id || w0.target
        == lambda_id));
    assert(lambda_id != 0 && dup != 0);
    assert(prev != dangling) by {
        assert(n0.wire_at(dangling).target == 0);
    }
    assert(prev != nw && dangling != nw);
    let src = n0.wire_at(dangling).source;
    assert(agent_trig(src));
    assert(cagent_ok(n0, src));
    // The use wire occupies exactly slot 2 of the Lambda, plus possibly
    // one more slot when it loops back onto the Lambda itself.
    assert forall|w: usize| wire_trig(w) && n2.live_wire(w) implies cwire_ok(n2, w) by {
        if w == nw {
            assert(n2.wire_at(w) == Wire { source: lambda_id, target: dup });
            assert(slot_count(n2.agent_at(dup), w) == 1);
            assert(slot_count(n2.agent_at(lambda_id), w) == 1) by {
                assert(n0.agent_at(lambda_id).wires[0] != nw && n0.agent_at(lambda_id).wires[1]
                    != nw) by {
                    assert(cport_ok(n0, lambda_id, 0));
                    assert(cport_ok(n0, lambda_id, 1));
                    if n0.agent_at(lambda_id).wires[0] != 0 {
                        assert(wire_trig(n0.agent_at(lambda_id).wires[0]));
                    }
                    if n0.agent_at(lambda_id).wires[1] != 0 {
                        assert(wire_trig(n0.agent_at(lambda_id).wires[1]));
                    }
                }
            }
        } else if w == prev {
            assert(n0.live_wire(w));
            let far = if w0.source == lambda_id {
                w0.target
            } else {
                w0.source
            };
            if w0.source == lambda_id && w0.target == lambda_id {
                assert(slot_count(n0.agent_at(lambda_id), w) == 2);
                assert(n2.wire_at(w) == Wire { source: dup, target: lambda_id });
                assert(slot_count(n2.agent_at(lambda_id), w) == 1);
                assert(slot_count(n2.agent_at(dup), w) == 1);
            } else {
                assert(n2.wire_at(w) == if w0.source == lambda_id {
                    Wire { source: dup, target: w0.target }
                } else {
                    Wire { source: w0.source, target: dup }
                });
                assert(agent_trig(far));
                assert(slot_count(n0.agent_at(lambda_id), w) == 1);
                assert(n0.agent_at(lambda_id).wires[0] != w && n0.agent_at(lambda_id).wires[1]
                    != w);
                if far != lambda_id {
                    assert(slot_count(n2.agent_at(far), w) == slot_count(n0.agent_at(far), w));
                    assert(slot_count(n2.agent_at(dup), w) == 1);
                    assert(far != dup);
                    assert(n2.live_agent(far));
                } else {
                    assert(false);
                }
            }
        } else if w == dangling {
            assert(n2.wire_at(w) == Wire { source: src, target: dup });
            assert(slot_count(n2.agent_at(dup), w) == 1);
            if src == dup {
                assert(false);
            }
            if src == lambda_id {
                assert(slot_count(n2.agent_at(lambda_id), w) == slot_count(
                    n0.agent_at(lambda_id),
                    w,
                ));
                assert(slot_count(n0.agent_at(lambda_id), w) == 1) by {
                    assert(n0.agent_at(lambda_id).wires[2] == prev && prev != w);
                }
            } else {
                assert(slot_count(n2.agent_at(src), w) == slot_count(n0.agent_at(src), w));
            }
        } else {
            assert(n0.live_wire(w));
            assert(cwire_ok(n0, w));
            assert(n2.wire_at(w) == n0.wire_at(w));
            let wr = n0.wire_at(w);
            assert(slot_count(n2.agent_at(wr.source), w) == slot_count(n0.agent_at(wr.source), w))
                by {
                assert(agent_trig(wr.source));
                if wr.source == lambda_id {
                    assert(n0.agent_at(lambda_id).wires[2] == prev && prev != w);
                }
            }
            if wr.target != 0 {
                assert(agent_trig(wr.target));
                assert(slot_count(n2.agent_at(wr.target), w) == slot_count(
                    n0.agent_at(wr.target),
                    w,
                )) by {
                    if wr.target == lambda_id {
                        assert(n0.agent_at(lambda_id).wires[2] == prev && prev != w);
                    }
                }
            }
        }
    }
    assert forall|id: usize| agent_trig(id) && n2.live_agent(id) implies cagent_ok(n2, id) by {
        if id == dup {
            assert(cport_ok(n2, id, 0));
            assert(cport_ok(n2, id, 1)) by {
                assert(n2.wire_at(prev).source == dup || n2.wire_at(prev).target == dup);
            }
            assert(cport_ok(n2, id, 2)) by {
                assert(n2.wire_at(dangling).target == dup);
            }
        } else if id == lambda_id {
            assert(cport_ok(n2, id, 2)) by {
                assert(n2.wire_at(nw).source == lambda_id);
            }
            assert(cport_ok(n2, id, 0)) by {
                let wp = n0.agent_at(id).wires[0];
                assert(cport_ok(n0, id, 0));
                if wp != 0 {
                    assert(wire_trig(wp));
                    assert(wp != nw);
                    if wp == prev {
                        assert(n2.wire_at(wp).source == id || n2.wire_at(wp).target == id);
                    } else if wp == dangling {
                        assert(n2.wire_at(wp).source == id);
                    }
                }
            }
            assert(cport_ok(n2, id, 1)) by {
                let wp = n0.agent_at(id).wires[1];
                assert(cport_ok(n0, id, 1));
                if wp != 0 {
                    assert(wire_trig(wp));
                    assert(wp != nw);
                    if wp == prev {
                        assert(n2.wire_at(wp).source == id || n2.wire_at(wp).target == id);
                    } else if wp == dangling {
                        assert(n2.wire_at(wp).source == id);
                    }
                }
            }
        } else {
            assert(n0.live_agent(id));
            assert(cagent_ok(n0, id));
            assert(n2.agent_at(id) == n0.agent_at(id));
            assert(cport_ok(n2, id, 0)) by {
                lemma_dup_port_keeps(n0, n2, id, 0, lambda_id, dup, nw, prev, dangling);
            }
            assert(arity_of(n0.agent_at(id).kind) > 1 ==> cport_ok(n2, id, 1) && cport_ok(
                n2,
                id,
                2,
            )) by {
                if arity_of(n0.agent_at(id).kind) > 1 {
                    lemma_dup_port_keeps(n0, n2, id, 1, lambda_id, dup, nw, prev, dangling);
                    lemma_dup_port_keeps(n0, n2, id, 2, lambda_id, dup, nw, prev, dangling);
                }
            }
        }
    }
    assert forall|id: usize|
        agent_trig(id) && n2.live_agent(id) && (n2.agent_at(id).kind == AgentKind::Lambda
            && n2.agent_at(id).wires[2] != 0) implies (n2.live_wire(n2.agent_at(id).wires[2])
        && n2.wire_at(n2.agent_at(id).wires[2]).target != 0 && (n2.wire_at(
        n2.agent_at(id).wires[2],
    ).source == id || n2.wire_at(n2.agent_at(id).wires[2]).target == id)) by {
        if id == dup {
            assert(n2.agent_at(id).kind == AgentKind::Duplicator);
        } else if id == lambda_id {
            assert(n2.agent_at(id).wires[2] == nw);
            assert(n2.wire_at(nw).source == lambda_id && n2.wire_at(nw).target == dup);
        } else {
            assert(n0.live_agent(id));
            let u = n0.agent_at(id).wires[2];
            assert(wire_trig(u));
            assert(u != dangling && u != nw);
            if u == prev {
                let wr = n0.wire_at(prev);
                assert(wr.source == id || wr.target == id);
                assert(n2.wire_at(prev).source == id || n2.wire_at(prev).target == id) by {
                    if wr.source == lambda_id && wr.target == lambda_id {
                        assert(id == lambda_id);
                    }
                }
                assert(n2.wire_at(prev).target != 0);
            }
        }
    }
}

/// Ports of agents away from the Duplicator insertion stay well
/// attached.
proof fn lemma_dup_port_keeps(
    n0: NetV,
    n2: NetV,
    id: usize,
    p: int,
    lambda_id: usize,
    dup: usize,
    nw: usize,
    prev: usize,
    dangling: usize,
)
    requires
        cwf(n0),
        n0.live_agent(id),
        id != lambda_id,
        id != dup,
        0 <= p < 3,
        cport_ok(n0, id, p),
        dup == n0.agents.len(),
        nw == n0.wires.len(),
        n0.live_wire(prev),
        n0.live_wire(dangling),
        n0.wire_at(dangling).target == 0,
        n2.agents.len() == n0.agents.len() + 1,
        n2.agents[id as int] == n0.agents[id as int],
        n2.wires.len() == n0.wires.len() + 1,
        prev != dangling,
        n2.wires[prev as int] is Some,
        n2.wires[dangling as int] is Some,
        n2.wire_at(dangling).source == n0.wire_at(dangling).source,
        n0.wire_at(prev).source == lambda_id || n0.wire_at(prev).target == lambda_id,
        ({
            let w0 = n0.wire_at(prev);
            n2.wire_at(prev) == if w0.source == lambda_id {
                Wire { source: dup, target: w0.target }
            } else {
                Wire { source: w0.source, target: dup }
            }
        }),
        forall|w: usize|
            w != prev && w != dangling && w != nw && n0.live_wire(w) ==> n2.wires[w as int]
                == n0.wires[w as int],
    ensures
        cport_ok(n2, id, p),
{
    let wid = n0.agent_at(id).wires[p];
    assert(n2.agent_at(id) == n0.agent_at(id));
    if wid != 0 {
        assert(wire_trig(wid));
        assert(n0.live_wire(wid));
        assert(n2.live_wire(wid));
        if wid == prev {
            let w0 = n0.wire_at(prev);
            assert(w0.source == id || w0.target == id);
            assert(n2.wire_at(prev).source == id || n2.wire_at(prev).target == id) by {
                if w0.source == lambda_id {
                    assert(w0.target == id);
                } else {
                    assert(w0.target == lambda_id);
                    assert(w0.source == id);
                }
            }
        } else if wid == dangling {
            assert(n0.wire_at(dangling).source == id);
            assert(n2.wire_at(dangling).source == id);
        } else {
            assert(n2.wire_at(wid) == n0.wire_at(wid));
        }
    }
}

/// After allocating a Lambda for an abstraction and closing the parent's
/// wire onto it, construction closure and use-port coherence hold.
#[verifier::rlimit(100)]
#[verifier::spinoff_prover]
proof fn lemma_attach_ok(n0: NetV, n2: NetV, lam: usize, bw: usize, dangling: usize)
    requires
        cwf(n0),
        use_ok(n0),
        n0.live_wire(dangling),
        n0.wire_at(dangling).target == 0,
        lam == n0.agents.len(),
        bw == n0.wires.len(),
        ({
            let lamv = crate::net::AgentV {
                kind: AgentKind::Lambda,
                label: Seq::<char>::empty(),
                title: Seq::<char>::empty(),
                x: 0u32,
                y: 0u32,
                fixed: false,
                wires: seq![dangling, bw, 0],
            };
            &&& n2.agents == n0.agents.push(Some(lamv))
            &&& n2.wires == n0.wires.push(Some(Wire { source: lam, target: 0 })).update(
                dangling as int,
                Some(Wire { source: n0.wire_at(dangling).source, target: lam }),
            )
        }),
    ensures
        cwf(n2),
        use_ok(n2),
        n2.live_wire(bw),
        n2.wire_at(bw).target == 0,
        n2.live_agent(lam),
        n2.agent_at(lam).kind == AgentKind::Lambda,
        forall|id: usize|
            #[trigger] agent_trig(id) ==> n0.live_agent(id) ==> (n2.live_agent(id)
                && n2.agent_at(id).kind == n0.agent_at(id).kind),
        forall|w: usize| #[trigger] wire_trig(w) ==> n0.live_wire(w) ==> n2.live_wire(w),
        forall|w: usize|
            #[trigger] wire_trig(w) ==> n0.live_wire(w) ==> w != dangling ==> n0.wire_at(
                w,
            ).target == 0 ==> n2.wire_at(w) == n0.wire_at(w),
        forall|w: usize|
            #[trigger] wire_trig(w) ==> n2.live_wire(w) ==> n2.wire_at(w).target == 0 ==> (w == bw
                || (n0.live_wire(w) && n0.wire_at(w).target == 0 && w != dangling)),
{
    let src = n0.wire_at(dangling).source;
    assert(wire_trig(dangling));
    assert(cwire_ok(n0, dangling));
    assert(agent_trig(src));
    assert(cagent_ok(n0, src));
    assert(agent_trig(lam));
    assert(src != lam);
    assert(lam != 0);
    assert(bw != dangling);
    assert forall|w: usize| wire_trig(w) && n2.live_wire(w) implies cwire_ok(n2, w) by {
        if w == bw {
            assert(n2.wire_at(w) == Wire { source: lam, target: 0 });
            assert(slot_count(n2.agent_at(lam), w) == 1) by {
                assert(dangling != bw);
            }
        } else if w == dangling {
            assert(n2.wire_at(w) == Wire { source: src, target: lam });
            assert(slot_count(n2.agent_at(src), w) == slot_count(n0.agent_at(src), w));
            assert(slot_count(n2.agent_at(lam), w) == 1);
        } else {
            assert(n0.live_wire(w));
            assert(cwire_ok(n0, w));
            assert(n2.wire_at(w) == n0.wire_at(w));
            let wr = n0.wire_at(w);
            assert(agent_trig(wr.source));
            assert(slot_count(n2.agent_at(wr.source), w) == slot_count(n0.agent_at(wr.source), w));
            if wr.target != 0 {
                assert(agent_trig(wr.target));
                assert(slot_count(n2.agent_at(wr.target), w) == slot_count(
                    n0.agent_at(wr.target),
                    w,
                ));
            }
        }
    }
    assert forall|id: usize| agent_trig(id) && n2.live_agent(id) implies cagent_ok(n2, id) by {
        if id == lam {
            assert(cport_ok(n2, id, 0)) by {
                assert(n2.wire_at(dangling).target == lam);
            }
            assert(cport_ok(n2, id, 1)) by {
                assert(n2.wire_at(bw).source == lam);
            }
            assert(cport_ok(n2, id, 2));
        } else {
            assert(n0.live_agent(id));
            assert(cagent_ok(n0, id));
            assert(n2.agent_at(id) == n0.agent_at(id));
            assert forall|p: int| 0 <= p < 3 && cport_ok(n0, id, p) implies cport_ok(n2, id, p) by {
                let wid = n0.agent_at(id).wires[p];
                if wid != 0 {
                    assert(wire_trig(wid));
                    assert(wid != bw);
                    if wid == dangling {
                        assert(n0.wire_at(dangling).source == id);
                        assert(n2.wire_at(dangling).source == id);
                    } else {
                        assert(n2.wire_at(wid) == n0.wire_at(wid));
                    }
                }
            }
        }
    }
    assert forall|id: usize|
        agent_trig(id) && n2.live_agent(id) && (n2.agent_at(id).kind == AgentKind::Lambda
            && n2.agent_at(id).wires[2] != 0) implies (n2.live_wire(n2.agent_at(id).wires[2])
        && n2.wire_at(n2.agent_at(id).wires[2]).target != 0 && (n2.wire_at(
        n2.agent_at(id).wires[2],
    ).source == id || n2.wire_at(n2.agent_at(id).wires[2]).target == id)) by {
        if id != lam {
            assert(n0.live_agent(id));
            let u = n0.agent_at(id).wires[2];
            assert(wire_trig(u));
            assert(u != dangling && u != bw);
        }
    }
}

/// After allocating an Application and closing the parent's wire onto
/// it, construction closure and use-port coherence hold.
#[verifier::rlimit(100)]
#[verifier::spinoff_prover]
proof fn lemma_attach_app_ok(n0: NetV, n2: NetV, app: usize, lw: usize, rw: usize, dangling: usize)
    requires
        cwf(n0),
        use_ok(n0),
        n0.live_wire(dangling),
        n0.wire_at(dangling).target == 0,
        app == n0.agents.len(),
        lw == n0.wires.len(),
        rw == n0.wires.len() + 1,
        ({
            let appv = crate::net::AgentV {
                kind: AgentKind::Application,
                label: Seq::<char>::empty(),
                title: Seq::<char>::empty(),
                x: 0u32,
                y: 0u32,
                fixed: false,
                wires: seq![lw, dangling, rw],
            };
            &&& n2.agents == n0.agents.push(Some(appv))
            &&& n2.wires == n0.wires.push(Some(Wire { source: app, target: 0 })).push(
                Some(Wire { source: app, target: 0 }),
            ).update(
                dangling as int,
                Some(Wire { source: n0.wire_at(dangling).source, target: app }),
            )
        }),
    ensures
        cwf(n2),
        use_ok(n2),
        n2.live_wire(lw),
        n2.wire_at(lw).target == 0,
        n2.live_wire(rw),
        n2.wire_at(rw).target == 0,
        forall|id: usize|
            #[trigger] agent_trig(id) ==> n0.live_agent(id) ==> (n2.live_agent(id)
                && n2.agent_at(id).kind == n0.agent_at(id).kind),
        forall|w: usize| #[trigger] wire_trig(w) ==> n0.live_wire(w) ==> n2.live_wire(w),
        forall|w: usize|
            #[trigger] wire_trig(w) ==> n0.live_wire(w) ==> w != dangling ==> n0.wire_at(
                w,
            ).target == 0 ==> n2.wire_at(w) == n0.wire_at(w),
        forall|w: usize|
            #[trigger] wire_trig(w) ==> n2.live_wire(w) ==> n2.wire_at(w).target == 0 ==> (w == lw
                || w == rw || (n0.live_wire(w) && n0.wire_at(w).target == 0 && w != dangling)),
{
    let src = n0.wire_at(dangling).source;
    assert(wire_trig(dangling));
    assert(cwire_ok(n0, dangling));
    assert(agent_trig(src));
    assert(cagent_ok(n0, src));
    assert(agent_trig(app));
    assert(src != app);
    assert(app != 0);
    assert(lw != dangling && rw != dangling && lw != rw);
    assert forall|w: usize| wire_trig(w) && n2.live_wire(w) implies cwire_ok(n2, w) by {
        if w == lw {
            assert(n2.wire_at(w) == Wire { source: app, target: 0 });
            assert(slot_count(n2.agent_at(app), w) == 1);
        } else if w == rw {
            assert(n2.wire_at(w) == Wire { source: app, target: 0 });
            assert(slot_count(n2.agent_at(app), w) == 1);
        } else if w == dangling {
            assert(n2.wire_at(w) == Wire { source: src, target: app });
            assert(slot_count(n2.agent_at(src), w) == slot_count(n0.agent_at(src), w));
            assert(slot_count(n2.agent_at(app), w) == 1);
        } else {
            assert(n0.live_wire(w));
            assert(cwire_ok(n0, w));
            assert(n2.wire_at(w) == n0.wire_at(w));
            let wr = n0.wire_at(w);
            assert(agent_trig(wr.source));
            assert(slot_count(n2.agent_at(wr.source), w) == slot_count(n0.agent_at(wr.source), w));
            if wr.target != 0 {
                assert(agent_trig(wr.target));
                assert(slot_count(n2.agent_at(wr.target), w) == slot_count(
                    n0.agent_at(wr.target),
                    w,
                ));
            }
        }
    }
    assert forall|id: usize| agent_trig(id) && n2.live_agent(id) implies cagent_ok(n2, id) by {
        if id == app {
            assert(cport_ok(n2, id, 0)) by {
                assert(n2.wire_at(lw).source == app);
            }
            assert(cport_ok(n2, id, 1)) by {
                assert(n2.wire_at(dangling).target == app);
            }
            assert(cport_ok(n2, id, 2)) by {
                assert(n2.wire_at(rw).source == app);
            }
        } else {
            assert(n0.live_agent(id));
            assert(cagent_ok(n0, id));
            assert(n2.agent_at(id) == n0.agent_at(id));
            assert forall|p: int| 0 <= p < 3 && cport_ok(n0, id, p) implies cport_ok(n2, id, p) by {
                let wid = n0.agent_at(id).wires[p];
                if wid != 0 {
                    assert(wire_trig(wid));
                    assert(wid != lw && wid != rw);
                    if wid == dangling {
                        assert(n0.wire_at(dangling).source == id);
                        assert(n2.wire_at(dangling).source == id);
                    } else {
                        assert(n2.wire_at(wid) == n0.wire_at(wid));
                    }
                }
            }
        }
    }
    assert forall|id: usize|
        agent_trig(id) && n2.live_agent(id) && (n2.agent_at(id).kind == AgentKind::Lambda
            && n2.agent_at(id).wires[2] != 0) implies (n2.live_wire(n2.agent_at(id).wires[2])
        && n2.wire_at(n2.agent_at(id).wires[2]).target != 0 && (n2.wire_at(
        n2.agent_at(id).wires[2],
    ).source == id || n2.wire_at(n2.agent_at(id).wires[2]).target == id)) by {
        if id != app {
            assert(n0.live_agent(id));
            let u = n0.agent_at(id).wires[2];
            assert(wire_trig(u));
            assert(u != dangling && u != lw && u != rw);
        }
    }
}

/// Sealing one vacuous binder with a fresh Eraser keeps construction
/// closure, use-port coherence, and full attachment.
#[verifier::rlimit(100)]
#[verifier::spinoff_prover]
proof fn lemma_seal_ok(n0: NetV, n2: NetV, h: usize, e: usize, w: usize)
    requires
        cwf(n0),
        use_ok(n0),
        all_closed(n0),
        n0.live_agent(h),
        n0.agent_at(h).kind == AgentKind::Lambda,
        n0.agent_at(h).wires[2] == 0,
        e == n0.agents.len(),
        w == n0.wires.len(),
        ({
            let ev = crate::net::AgentV {
                kind: AgentKind::Eraser,
                label: Seq::<char>::empty(),
                title: Seq::<char>::empty(),
                x: 0u32,
                y: 0u32,
                fixed: false,
                wires: seq![w, 0, 0],
            };
            let hv = crate::net::AgentV {
                wires: n0.agent_at(h).wires.update(2, w),
                ..n0.agent_at(h)
            };
            &&& n2.agents == n0.agents.push(Some(ev)).update(h as int, Some(hv))
            &&& n2.wires == n0.wires.push(Some(Wire { source: h, target: e }))
        }),
    ensures
        cwf(n2),
        use_ok(n2),
        all_closed(n2),
        n2.agent_at(h).wires[2] != 0,
        forall|id: usize|
            #[trigger] agent_trig(id) ==> n0.live_agent(id) ==> (n2.live_agent(id)
                && n2.agent_at(id).kind == n0.agent_at(id).kind),
        forall|id: usize|
            #[trigger] agent_trig(id) ==> id != h && id != e && n2.live_agent(id)
                ==> n2.agents[id as int] == n0.agents[id as int],
{
    assert(agent_trig(h));
    assert(agent_trig(e));
    assert(cagent_ok(n0, h));
    assert(h != 0 && e != 0 && h != e);
    assert forall|x: usize| wire_trig(x) && n2.live_wire(x) implies cwire_ok(n2, x) by {
        if x == w {
            assert(n2.wire_at(x) == Wire { source: h, target: e });
            assert(slot_count(n2.agent_at(e), x) == 1);
            assert(slot_count(n2.agent_at(h), x) == 1) by {
                assert(cport_ok(n0, h, 0));
                assert(cport_ok(n0, h, 1));
                if n0.agent_at(h).wires[0] != 0 {
                    assert(wire_trig(n0.agent_at(h).wires[0]));
                }
                if n0.agent_at(h).wires[1] != 0 {
                    assert(wire_trig(n0.agent_at(h).wires[1]));
                }
            }
        } else {
            assert(n0.live_wire(x));
            assert(cwire_ok(n0, x));
            assert(n2.wire_at(x) == n0.wire_at(x));
            let wr = n0.wire_at(x);
            assert(agent_trig(wr.source));
            assert(slot_count(n2.agent_at(wr.source), x) == slot_count(n0.agent_at(wr.source), x))
                by {
                if wr.source == h {
                    assert(n0.agent_at(h).wires[2] == 0 && x != 0);
                }
            }
            if wr.target != 0 {
                assert(agent_trig(wr.target));
                assert(slot_count(n2.agent_at(wr.target), x) == slot_count(
                    n0.agent_at(wr.target),
                    x,
                )) by {
                    if wr.target == h {
                        assert(n0.agent_at(h).wires[2] == 0 && x != 0);
                    }
                }
            }
        }
    }
    assert forall|id: usize| agent_trig(id) && n2.live_agent(id) implies cagent_ok(n2, id) by {
        if id == e {
            assert(cport_ok(n2, id, 0));
        } else if id == h {
            assert(cport_ok(n2, id, 2)) by {
                assert(n2.wire_at(w).source == h);
            }
            assert(cport_ok(n2, id, 0)) by {
                let wp = n0.agent_at(id).wires[0];
                assert(cport_ok(n0, id, 0));
                if wp != 0 {
                    assert(wire_trig(wp));
                    assert(wp != w);
                    assert(n2.wire_at(wp) == n0.wire_at(wp));
                }
            }
            assert(cport_ok(n2, id, 1)) by {
                let wp = n0.agent_at(id).wires[1];
                assert(cport_ok(n0, id, 1));
                if wp != 0 {
                    assert(wire_trig(wp));
                    assert(wp != w);
                    assert(n2.wire_at(wp) == n0.wire_at(wp));
                }
            }
        } else {
            assert(n0.live_agent(id));
            assert(cagent_ok(n0, id));
            assert(n2.agent_at(id) == n0.agent_at(id));
            assert forall|p: int| 0 <= p < 3 && cport_ok(n0, id, p) implies cport_ok(n2, id, p) by {
                let wid = n0.agent_at(id).wires[p];
                if wid != 0 {
                    assert(wire_trig(wid));
                    assert(wid != w);
                    assert(n2.wire_at(wid) == n0.wire_at(wid));
                }
            }
        }
    }
    assert forall|id: usize|
        agent_trig(id) && n2.live_agent(id) && (n2.agent_at(id).kind == AgentKind::Lambda
            && n2.agent_at(id).wires[2] != 0) implies (n2.live_wire(n2.agent_at(id).wires[2])
        && n2.wire_at(n2.agent_at(id).wires[2]).target != 0 && (n2.wire_at(
        n2.agent_at(id).wires[2],
    ).source == id || n2.wire_at(n2.agent_at(id).wires[2]).target == id)) by {
        if id == h {
            assert(n2.agent_at(h).wires[2] == w);
            assert(n2.wire_at(w).source == h && n2.wire_at(w).target == e);
        } else if id != e {
            assert(n0.live_agent(id));
            let u = n0.agent_at(id).wires[2];
            assert(wire_trig(u));
            assert(u != w);
        }
    }
    assert forall|x: usize| wire_trig(x) && n2.live_wire(x) implies n2.wire_at(x).target != 0 by {
        if x != w {
            assert(n0.live_wire(x));
        }
    }
}

} // verus!
