//! End-to-end checks of the interaction-net engine: building nets from
//! terms, the closure invariant around every reduction, the rewrite
//! rules' agent and wire deltas, snapshot round trips, and the scenario
//! behaviours of the session operations.

use lambda_nets::builder::BuildError;
use lambda_nets::lexer::Lexer;
use lambda_nets::net::{AgentKind, Net, RuleKind, Wire, Agent};
use lambda_nets::parser::Parser;
use lambda_nets::snapshot::{NodeData, NodeDataArray};
use lambda_nets::tree::Tree;
use std::collections::{HashMap, VecDeque};

fn parse(term: &str) -> Tree {
    let input = term.as_bytes();
    let lexer = Lexer::new(input);
    let mut parser = Parser::new(input, lexer);
    parser.parse().expect("term should parse")
}

fn build(term: &str) -> Net {
    Net::from_tree(&parse(term)).expect("term should be closed")
}

/// The closure invariant, checked directly over the registries: every
/// live wire is held in exactly one port per endpoint (two for a self
/// loop), and every port of every live agent holds a live wire with an
/// endpoint on that agent.
fn is_closed(net: &Net) -> bool {
    let arity = |k: &AgentKind| match k {
        AgentKind::Eraser | AgentKind::Root => 1usize,
        _ => 3usize,
    };
    let live_agent = |id: usize| id < net.agents.len() && net.agents[id].is_some();
    let slot_count = |id: usize, wid: usize| -> usize {
        let a = net.agents[id].as_ref().unwrap();
        (0..arity(&a.kind)).filter(|&p| a.wires[p] == wid).count()
    };
    for wid in 0..net.wires.len() {
        if let Some(w) = &net.wires[wid] {
            if !live_agent(w.source) || !live_agent(w.target) {
                return false;
            }
            if w.source != w.target {
                if slot_count(w.source, wid) != 1 || slot_count(w.target, wid) != 1 {
                    return false;
                }
            } else if slot_count(w.source, wid) != 2 {
                return false;
            }
        }
    }
    for id in 0..net.agents.len() {
        if let Some(a) = &net.agents[id] {
            if a.wires.len() != 3 {
                return false;
            }
            for p in 0..arity(&a.kind) {
                let wid = a.wires[p];
                if wid >= net.wires.len() {
                    return false;
                }
                match &net.wires[wid] {
                    Some(w) => {
                        if w.source != id && w.target != id {
                            return false;
                        }
                    }
                    None => return false,
                }
            }
        }
    }
    true
}

fn live_agents(net: &Net) -> usize {
    net.agents.iter().filter(|a| a.is_some()).count()
}

fn live_wires(net: &Net) -> usize {
    net.wires.iter().filter(|w| w.is_some()).count()
}

fn kind_count(net: &Net, kind: AgentKind) -> usize {
    net.agents
        .iter()
        .filter(|a| matches!(a, Some(ag) if ag.kind == kind))
        .count()
}

fn reduce_to_normal_form(net: &mut Net) -> usize {
    let mut steps = 0;
    loop {
        assert!(is_closed(net), "closure invariant broken after {steps} steps");
        let critical = net.find_critical_agents();
        if critical.is_empty() {
            break;
        }
        net.reduction_step(critical[0], RuleKind::Auto);
        steps += 1;
        assert!(steps < 10_000, "reduction did not terminate");
    }
    steps
}

/// A canonical description of the net's shape reachable from the Root,
/// independent of concrete ids: breadth-first from the root's principal
/// wire, agents numbered in discovery order.
fn canonical_signature(net: &Net) -> String {
    let root = net
        .agents
        .iter()
        .position(|a| matches!(a, Some(ag) if ag.kind == AgentKind::Root))
        .expect("net should have a root");
    let mut order: HashMap<usize, usize> = HashMap::new();
    let mut queue = VecDeque::new();
    order.insert(root, 0);
    queue.push_back(root);
    let mut sig = String::new();
    while let Some(id) = queue.pop_front() {
        let a = net.agents[id].as_ref().unwrap();
        let arity = match a.kind {
            AgentKind::Eraser | AgentKind::Root => 1,
            _ => 3,
        };
        sig.push_str(&format!("{:?}(", a.kind));
        for p in 0..arity {
            let w = net.wires[a.wires[p]].as_ref().unwrap();
            let other = if w.source == id && w.target == id {
                id
            } else if w.source == id {
                w.target
            } else {
                w.source
            };
            if !order.contains_key(&other) {
                order.insert(other, order.len());
                queue.push_back(other);
            }
            let mark = order[&other];
            sig.push_str(&format!("{mark},"));
        }
        sig.push(')');
    }
    sig
}

#[test]
fn identity_builds_one_lambda() {
    let net = build("\\x.x");
    assert!(is_closed(&net));
    let snapshot = net.to_json();
    let lambdas = snapshot.nodes.iter().filter(|n| n.kind == "lambda").count();
    let roots = snapshot.nodes.iter().filter(|n| n.kind == "root").count();
    let erasers = snapshot.nodes.iter().filter(|n| n.kind == "eraser").count();
    let duplicators = snapshot.nodes.iter().filter(|n| n.kind == "duplicator").count();
    assert_eq!(lambdas, 1);
    assert_eq!(roots, 1);
    assert_eq!(erasers, 0);
    assert_eq!(duplicators, 0);
    assert_eq!(snapshot.nodes.len(), 2);
}

#[test]
fn vacuous_binder_gets_one_eraser_on_use_port() {
    let net = build("\\x.\\y.x");
    assert!(is_closed(&net));
    let snapshot = net.to_json();
    let erasers: Vec<_> = snapshot.nodes.iter().filter(|n| n.kind == "eraser").collect();
    assert_eq!(erasers.len(), 1);
    let eraser_id = erasers[0].id;
    // The eraser's one wire ends on the third port (index 2) of a lambda.
    let wid = erasers[0].p[0];
    let link = snapshot.links.iter().find(|l| l.id == wid).expect("eraser wire in snapshot");
    let (lambda_id, lambda_port) = if link.sid == eraser_id {
        (link.tid, link.p.t)
    } else {
        (link.sid, link.p.s)
    };
    let lambda = snapshot.nodes.iter().find(|n| n.id == lambda_id).unwrap();
    assert_eq!(lambda.kind, "lambda");
    assert_eq!(lambda_port, 2);
    // It is the inner lambda: its principal port faces the outer lambda's body port.
    let principal = snapshot.links.iter().find(|l| l.id == lambda.p[0]).unwrap();
    let (outer_id, outer_port) = if principal.sid == lambda_id {
        (principal.tid, principal.p.t)
    } else {
        (principal.sid, principal.p.s)
    };
    let outer = snapshot.nodes.iter().find(|n| n.id == outer_id).unwrap();
    assert_eq!(outer.kind, "lambda");
    assert_eq!(outer_port, 1);
}

#[test]
fn self_application_normalises_to_one_lambda() {
    let mut net = build("(\\x.x x) (\\y.y)");
    assert!(is_closed(&net));
    let steps = reduce_to_normal_form(&mut net);
    assert!(steps > 0);
    let snapshot = net.to_json();
    let lambdas = snapshot.nodes.iter().filter(|n| n.kind == "lambda").count();
    let applications = snapshot.nodes.iter().filter(|n| n.kind == "application").count();
    let duplicators = snapshot.nodes.iter().filter(|n| n.kind == "duplicator").count();
    assert_eq!(lambdas, 1);
    assert_eq!(applications, 0);
    assert_eq!(duplicators, 0);
    // The reference tree reducer agrees on the same source text.
    let tree = parse("(\\x.x x) (\\y.y)");
    let mut gas = 1000;
    let reduced = Tree::reduce_with_gas(tree, &mut gas);
    assert!(reduced.is_normal());
    assert_eq!(reduced.to_string(), "\u{3bb}y.y");
}

fn two_agent_net(kind_a: AgentKind, kind_b: AgentKind) -> Net {
    // Two arity-1 agents joined principal to principal; ids 1 and 2,
    // wire id 1, slot 0 of each registry reserved.
    let agent = |kind: AgentKind, w0: usize| Agent {
        kind,
        label: String::new(),
        title: String::new(),
        x: 0,
        y: 0,
        fixed: false,
        wires: vec![w0, 0, 0],
    };
    Net {
        agents: vec![None, Some(agent(kind_a, 1)), Some(agent(kind_b, 1))],
        wires: vec![None, Some(Wire { source: 1, target: 2 })],
    }
}

#[test]
fn forced_cancel_on_erase_pair_still_erases() {
    let mut net = two_agent_net(AgentKind::Eraser, AgentKind::Eraser);
    assert!(is_closed(&net));
    net.reduction_step(1, RuleKind::Cancel);
    assert!(is_closed(&net));
    assert_eq!(live_agents(&net), 0);
    assert_eq!(live_wires(&net), 0);
}

#[test]
fn no_rule_step_leaves_net_identical() {
    let mut net = build("\\x.x");
    let before = format!("{:?}", net);
    // The root faces the lambda: no structural rule.
    let root = net
        .agents
        .iter()
        .position(|a| matches!(a, Some(ag) if ag.kind == AgentKind::Root))
        .unwrap();
    net.reduction_step(root, RuleKind::Auto);
    assert_eq!(before, format!("{:?}", net));
    // An explicitly requested rule is not applied either.
    net.reduction_step(root, RuleKind::Cancel);
    assert_eq!(before, format!("{:?}", net));
}

/// A Lambda/Application pair with four Erasers sealing the auxiliary
/// ports: Cancel removes exactly two agents and three wires.
#[test]
fn cancel_removes_two_agents() {
    let agent = |kind: AgentKind, w: [usize; 3]| Agent {
        kind,
        label: String::new(),
        title: String::new(),
        x: 0,
        y: 0,
        fixed: false,
        wires: vec![w[0], w[1], w[2]],
    };
    let mut net = Net {
        agents: vec![
            None,
            Some(agent(AgentKind::Lambda, [1, 2, 3])),
            Some(agent(AgentKind::Application, [1, 4, 5])),
            Some(agent(AgentKind::Eraser, [2, 0, 0])),
            Some(agent(AgentKind::Eraser, [3, 0, 0])),
            Some(agent(AgentKind::Eraser, [4, 0, 0])),
            Some(agent(AgentKind::Eraser, [5, 0, 0])),
        ],
        wires: vec![
            None,
            Some(Wire { source: 1, target: 2 }),
            Some(Wire { source: 1, target: 3 }),
            Some(Wire { source: 1, target: 4 }),
            Some(Wire { source: 2, target: 5 }),
            Some(Wire { source: 2, target: 6 }),
        ],
    };
    assert!(is_closed(&net));
    let agents_before = live_agents(&net);
    let wires_before = live_wires(&net);
    net.reduction_step(1, RuleKind::Auto);
    assert!(is_closed(&net));
    assert_eq!(live_agents(&net), agents_before - 2);
    assert_eq!(live_wires(&net), wires_before - 3);
}

/// A Duplicator/Lambda pair with four Erasers: Duplicate removes the two
/// and adds four, a net gain of two agents and three wires.
#[test]
fn duplicate_adds_two_agents() {
    let agent = |kind: AgentKind, w: [usize; 3]| Agent {
        kind,
        label: String::new(),
        title: String::new(),
        x: 0,
        y: 0,
        fixed: false,
        wires: vec![w[0], w[1], w[2]],
    };
    let mut net = Net {
        agents: vec![
            None,
            Some(agent(AgentKind::Duplicator, [1, 2, 3])),
            Some(agent(AgentKind::Lambda, [1, 4, 5])),
            Some(agent(AgentKind::Eraser, [2, 0, 0])),
            Some(agent(AgentKind::Eraser, [3, 0, 0])),
            Some(agent(AgentKind::Eraser, [4, 0, 0])),
            Some(agent(AgentKind::Eraser, [5, 0, 0])),
        ],
        wires: vec![
            None,
            Some(Wire { source: 1, target: 2 }),
            Some(Wire { source: 1, target: 3 }),
            Some(Wire { source: 1, target: 4 }),
            Some(Wire { source: 2, target: 5 }),
            Some(Wire { source: 2, target: 6 }),
        ],
    };
    assert!(is_closed(&net));
    let agents_before = live_agents(&net);
    let wires_before = live_wires(&net);
    net.reduction_step(1, RuleKind::Auto);
    assert!(is_closed(&net));
    assert_eq!(live_agents(&net), agents_before + 2);
    assert_eq!(live_wires(&net), wires_before + 3);
}

/// Erase against an arity-3 partner: two agents go, two fresh Erasers
/// come, one wire goes.
#[test]
fn erase_spawns_erasers_per_auxiliary_port() {
    let agent = |kind: AgentKind, w: [usize; 3]| Agent {
        kind,
        label: String::new(),
        title: String::new(),
        x: 0,
        y: 0,
        fixed: false,
        wires: vec![w[0], w[1], w[2]],
    };
    let mut net = Net {
        agents: vec![
            None,
            Some(agent(AgentKind::Eraser, [1, 0, 0])),
            Some(agent(AgentKind::Lambda, [1, 2, 3])),
            Some(agent(AgentKind::Eraser, [2, 0, 0])),
            Some(agent(AgentKind::Eraser, [3, 0, 0])),
        ],
        wires: vec![
            None,
            Some(Wire { source: 1, target: 2 }),
            Some(Wire { source: 2, target: 3 }),
            Some(Wire { source: 2, target: 4 }),
        ],
    };
    assert!(is_closed(&net));
    let agents_before = live_agents(&net);
    let wires_before = live_wires(&net);
    net.reduction_step(1, RuleKind::Auto);
    assert!(is_closed(&net));
    // minus the pair, plus (arity - 1) = 2 fresh erasers
    assert_eq!(live_agents(&net), agents_before - 2 + 2);
    assert_eq!(live_wires(&net), wires_before - 1);
    assert_eq!(kind_count(&net, AgentKind::Lambda), 0);
}

#[test]
fn snapshot_round_trip_is_exact() {
    let net = build("(\\x.x x) (\\y.y)");
    let snapshot = net.to_json();
    let rebuilt = Net::from_json(snapshot);
    assert!(is_closed(&rebuilt));
    let first = format!("{:?}", net.to_json());
    let second = format!("{:?}", rebuilt.to_json());
    assert_eq!(first, second);
}

#[test]
fn update_ignores_unknown_ids_and_touches_only_cosmetics() {
    let mut net = build("\\x.x");
    let before = format!("{:?}", net);
    net.update_from_json(NodeDataArray {
        nodes: vec![NodeData {
            id: 999,
            x: 7,
            y: 8,
            fixed: true,
            label: String::from("ghostly"),
            title: String::from("nothing"),
        }],
    });
    assert_eq!(before, format!("{:?}", net));
    let wires_before = format!("{:?}", net.wires);
    let kinds_before: Vec<_> = net.agents.iter().map(|a| a.as_ref().map(|x| x.kind)).collect();
    let slots_before: Vec<_> =
        net.agents.iter().map(|a| a.as_ref().map(|x| x.wires.clone())).collect();
    net.update_from_json(NodeDataArray {
        nodes: vec![NodeData {
            id: 1,
            x: 42,
            y: 43,
            fixed: true,
            label: String::from("here"),
            title: String::from("title"),
        }],
    });
    assert_eq!(wires_before, format!("{:?}", net.wires));
    let kinds_after: Vec<_> = net.agents.iter().map(|a| a.as_ref().map(|x| x.kind)).collect();
    let slots_after: Vec<_> =
        net.agents.iter().map(|a| a.as_ref().map(|x| x.wires.clone())).collect();
    assert_eq!(kinds_before, kinds_after);
    assert_eq!(slots_before, slots_after);
    let touched = net.agents[1].as_ref().unwrap();
    assert_eq!(touched.x, 42);
    assert_eq!(touched.label, "here");
}

#[test]
fn disjoint_critical_pairs_commute() {
    // (\z.z) ((\x.x) (\y.y)) holds two disjoint redexes: the outer
    // application against \z and the inner application against \x.
    let term = "(\\z.z) ((\\x.x) (\\y.y))";
    let find_redex_pairs = |net: &Net| -> Vec<usize> { net.find_critical_agents() };
    let mut first = build(term);
    let mut second = build(term);
    let redexes = find_redex_pairs(&first);
    assert!(redexes.len() >= 4, "expected two redexes, i.e. four marked agents");
    // Reduce in ascending order in one copy, descending in the other.
    first.reduction_step(redexes[0], RuleKind::Auto);
    assert!(is_closed(&first));
    reduce_to_normal_form(&mut first);
    second.reduction_step(*redexes.last().unwrap(), RuleKind::Auto);
    assert!(is_closed(&second));
    reduce_to_normal_form(&mut second);
    assert_eq!(canonical_signature(&first), canonical_signature(&second));
    assert_eq!(kind_count(&first, AgentKind::Lambda), 1);
}

#[test]
fn free_variable_is_a_construction_error() {
    let tree = parse("\\x.y");
    assert!(matches!(Net::from_tree(&tree), Err(BuildError::FreeVariable)));
    // and nothing about x being bound rescues an unbound sibling
    let tree = parse("x");
    assert!(Net::from_tree(&tree).is_err());
}

#[test]
fn repeated_occurrence_builds_one_duplicator() {
    let net = build("\\x.x x");
    assert!(is_closed(&net));
    assert_eq!(kind_count(&net, AgentKind::Duplicator), 1);
    assert_eq!(kind_count(&net, AgentKind::Lambda), 1);
    assert_eq!(kind_count(&net, AgentKind::Application), 1);
    assert_eq!(kind_count(&net, AgentKind::Eraser), 0);
}

#[test]
fn normal_form_reports_no_critical_pairs() {
    let net = build("\\x.x");
    assert!(net.find_critical_agents().is_empty());
    let busy = build("(\\x.x) (\\y.y)");
    assert!(!busy.find_critical_agents().is_empty());
}

#[test]
fn free_variable_under_many_binders_is_still_an_error() {
    // Deep nesting must not let the unbound-name sentinel index alias a
    // real binder: the builder resolves occurrences by name.
    let mut source = String::new();
    for _ in 0..120 {
        source.push_str("\\x.");
    }
    source.push('y');
    let tree = parse(&source);
    assert!(matches!(Net::from_tree(&tree), Err(BuildError::FreeVariable)));
    // The same nesting with a bound body still builds, and is closed.
    let mut bound = String::new();
    for _ in 0..120 {
        bound.push_str("\\x.");
    }
    bound.push('x');
    let net = Net::from_tree(&parse(&bound)).expect("deeply nested closed term builds");
    assert!(is_closed(&net));
    assert_eq!(kind_count(&net, AgentKind::Lambda), 120);
}

#[test]
fn wire_equality_is_unordered() {
    let w1 = Wire::new(3, 9);
    let w2 = Wire::new(9, 3);
    assert!(w1 == w2);
    let mut w3 = Wire::new(3, 9);
    w3.swap();
    assert!(w3 == w1);
    assert!(Wire::new(3, 9) != Wire::new(3, 8));
}
