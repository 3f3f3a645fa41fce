//! The lambda-term tree: the shape the parser produces and the input the
//! net builder consumes, together with the naive substitution-based
//! reference reducer used as an oracle beside the net engine.

use vstd::prelude::*;

verus! {

/// A lambda term: a variable (name and de Bruijn index), an abstraction
/// (bound name and body), or an application.
#[derive(Debug)]
pub enum Tree {
    Var(String, usize),
    Abs(String, Box<Tree>),
    App(Box<Tree>, Box<Tree>),
}

/// Decimal digits of `n`, most significant first.
pub open spec fn spec_decimal(n: nat) -> Seq<char>
    decreases n,
{
    let digit = seq![((('0' as u8) + (n % 10)) as u8) as char];
    if n < 10 {
        digit
    } else {
        spec_decimal(n / 10) + digit
    }
}

/// The de Bruijn rendering of a term: indices for variables, a lambda
/// glyph per abstraction, parentheses around non-variable left parts.
pub open spec fn spec_indexed_string(t: Tree) -> Seq<char>
    decreases t,
{
    match t {
        Tree::Var(_, index) => spec_decimal(index as nat),
        Tree::Abs(_, body) => seq!['\u{3bb}'] + spec_indexed_string(*body),
        Tree::App(l, r) => {
            let left = match *l {
                Tree::Var(_, _) => spec_indexed_string(*l),
                _ => seq!['('] + spec_indexed_string(*l) + seq![')'],
            };
            left + seq![' '] + spec_indexed_string(*r)
        },
    }
}

/// The named rendering of a term; `in_abstraction` elides the lambda of
/// a directly nested abstraction, so runs of binders print as one head.
pub open spec fn spec_named_string(t: Tree, in_abstraction: bool) -> Seq<char>
    decreases t,
{
    match t {
        Tree::Var(name, _) => name@,
        Tree::Abs(name, body) => {
            let head = if in_abstraction {
                Seq::<char>::empty()
            } else {
                seq!['\u{3bb}']
            };
            let continued = (*body) matches Tree::Abs(_, _);
            let sep = if continued {
                seq![' ']
            } else {
                seq!['.']
            };
            head + name@ + sep + spec_named_string(*body, continued)
        },
        Tree::App(l, r) => {
            let left = match *l {
                Tree::Var(_, _) => spec_named_string(*l, false),
                _ => seq!['('] + spec_named_string(*l, false) + seq![')'],
            };
            left + seq![' '] + spec_named_string(*r, false)
        },
    }
}

/// Indices at or above `cutoff` move up by one.  An index or cutoff
/// already at the numeric limit stays put; no term the parser builds
/// comes near that.
pub open spec fn spec_shift_up(t: Tree, cutoff: usize) -> Tree
    decreases t,
{
    match t {
        Tree::Var(name, index) => Tree::Var(
            name,
            if index < cutoff || index == usize::MAX {
                index
            } else {
                (index + 1) as usize
            },
        ),
        Tree::Abs(name, body) => Tree::Abs(
            name,
            Box::new(
                spec_shift_up(
                    *body,
                    if cutoff == usize::MAX {
                        cutoff
                    } else {
                        (cutoff + 1) as usize
                    },
                ),
            ),
        ),
        Tree::App(l, r) => Tree::App(
            Box::new(spec_shift_up(*l, cutoff)),
            Box::new(spec_shift_up(*r, cutoff)),
        ),
    }
}

/// Indices at or above `cutoff` move down by one (index 0 stays put,
/// which a closed term never asks for).
pub open spec fn spec_shift_down(t: Tree, cutoff: usize) -> Tree
    decreases t,
{
    match t {
        Tree::Var(name, index) => Tree::Var(
            name,
            if index < cutoff || index == 0 {
                index
            } else {
                (index - 1) as usize
            },
        ),
        Tree::Abs(name, body) => Tree::Abs(
            name,
            Box::new(
                spec_shift_down(
                    *body,
                    if cutoff == usize::MAX {
                        cutoff
                    } else {
                        (cutoff + 1) as usize
                    },
                ),
            ),
        ),
        Tree::App(l, r) => Tree::App(
            Box::new(spec_shift_down(*l, cutoff)),
            Box::new(spec_shift_down(*r, cutoff)),
        ),
    }
}

/// Capture-avoiding substitution of `arg` for the variable bound at
/// depth `depth`.
pub open spec fn spec_substitute(t: Tree, arg: Tree, depth: usize) -> Tree
    decreases t,
{
    match t {
        Tree::Var(name, index) => if index == depth {
            arg
        } else {
            Tree::Var(name, index)
        },
        Tree::Abs(name, body) => Tree::Abs(
            name,
            Box::new(
                spec_substitute(
                    *body,
                    spec_shift_up(arg, 0),
                    if depth == usize::MAX {
                        depth
                    } else {
                        (depth + 1) as usize
                    },
                ),
            ),
        ),
        Tree::App(l, r) => Tree::App(
            Box::new(spec_substitute(*l, arg, depth)),
            Box::new(spec_substitute(*r, arg, depth)),
        ),
    }
}

/// No beta redex anywhere in the term.
pub open spec fn spec_is_normal(t: Tree) -> bool
    decreases t,
{
    match t {
        Tree::Var(_, _) => true,
        Tree::Abs(_, body) => spec_is_normal(*body),
        Tree::App(l, r) => if (*l) matches Tree::Abs(_, _) {
            false
        } else {
            spec_is_normal(*l) && spec_is_normal(*r)
        },
    }
}

/// One parallel pass of beta reduction: each application whose left part
/// is an abstraction is contracted, other nodes recurse.
pub open spec fn spec_step(t: Tree) -> Tree
    decreases t,
{
    match t {
        Tree::Var(name, index) => Tree::Var(name, index),
        Tree::Abs(name, body) => Tree::Abs(name, Box::new(spec_step(*body))),
        Tree::App(l, r) => match *l {
            Tree::Abs(_, body) => spec_shift_down(
                spec_substitute(*body, spec_shift_up(*r, 0), 0),
                0,
            ),
            _ => Tree::App(Box::new(spec_step(*l)), Box::new(spec_step(*r))),
        },
    }
}

/// What is left to do after one pass: stop on a normal form or when the
/// gas runs out, else pay one gas and pass again.
pub open spec fn spec_reduce_cont(t: Tree, gas: nat) -> (Tree, nat)
    decreases gas,
{
    if spec_is_normal(t) {
        (t, gas)
    } else if gas == 0 {
        (t, gas)
    } else {
        let r = spec_step(t);
        if spec_is_normal(r) {
            (r, (gas - 1) as nat)
        } else if gas - 1 == 0 {
            (r, 0)
        } else {
            spec_reduce_cont(r, (gas - 1) as nat)
        }
    }
}

/// The gas-bounded reference reduction: pass repeatedly until a normal
/// form appears or the budget is spent, returning the last term and the
/// gas that is left.
pub open spec fn spec_reduce_gas(t: Tree, gas: nat) -> (Tree, nat) {
    let r = spec_step(t);
    if spec_is_normal(r) {
        (r, gas)
    } else if gas == 0 {
        (r, gas)
    } else {
        spec_reduce_cont(spec_step(r), (gas - 1) as nat)
    }
}

/// The last binder for `name`, scanning from the top of the stack;
/// negative when the name is unbound.
pub open spec fn spec_find(stack: Seq<Seq<char>>, name: Seq<char>) -> int
    decreases stack.len(),
{
    if stack.len() == 0 {
        -1
    } else if stack.last() == name {
        stack.len() - 1
    } else {
        spec_find(stack.drop_last(), name)
    }
}

/// Recompute every variable's de Bruijn index from the stack of
/// enclosing binder names; an unbound name gets the sentinel index 100.
pub open spec fn spec_fix(t: Tree, stack: Seq<Seq<char>>) -> Tree
    decreases t,
{
    match t {
        Tree::Var(name, _) => {
            let j = spec_find(stack, name@);
            Tree::Var(
                name,
                if j < 0 {
                    100
                } else {
                    (stack.len() - 1 - j) as usize
                },
            )
        },
        Tree::Abs(name, body) => {
            let pushed = stack.push(name@);
            Tree::Abs(name, Box::new(spec_fix(*body, pushed)))
        },
        Tree::App(l, r) => Tree::App(
            Box::new(spec_fix(*l, stack)),
            Box::new(spec_fix(*r, stack)),
        ),
    }
}

impl Tree {
    /// A structurally equal copy of the term.
    pub fn duplicate(&self) -> (r: Tree)
        ensures
            r == *self,
        decreases self,
    {
        match self {
            Tree::Var(name, index) => Tree::Var(name.clone(), *index),
            Tree::Abs(name, body) => Tree::Abs(name.clone(), Box::new(body.duplicate())),
            Tree::App(l, rr) => Tree::App(Box::new(l.duplicate()), Box::new(rr.duplicate())),
        }
    }

    /// Render the term with de Bruijn indices in place of names.
    pub fn to_indexed_string(&self) -> (r: String)
        ensures
            r@ == spec_indexed_string(*self),
        decreases self,
    {
        match self {
            Tree::Var(_, index) => decimal_string(*index),
            Tree::Abs(_, body) => {
                let mut result = String::new();
                result.append("\u{3bb}");
                let inner = body.to_indexed_string();
                result.append(inner.as_str());
                proof {
                    reveal_strlit("\u{3bb}");
                    assert(result@ =~= spec_indexed_string(*self));
                }
                result
            },
            Tree::App(l, r) => {
                let mut result = String::new();
                let left_in_parens = !(matches!(**l, Tree::Var(_, _)));
                if left_in_parens {
                    result.append("(");
                }
                let left = l.to_indexed_string();
                result.append(left.as_str());
                if left_in_parens {
                    result.append(")");
                }
                result.append(" ");
                let right = r.to_indexed_string();
                result.append(right.as_str());
                proof {
                    reveal_strlit("(");
                    reveal_strlit(")");
                    reveal_strlit(" ");
                    assert(result@ =~= spec_indexed_string(*self));
                }
                result
            },
        }
    }

    /// Render the term with its names.
    pub fn to_string(&self) -> (r: String)
        ensures
            r@ == spec_named_string(*self, false),
    {
        self.to_string_helper(false)
    }

    fn to_string_helper(&self, in_abstraction: bool) -> (r: String)
        ensures
            r@ == spec_named_string(*self, in_abstraction),
        decreases self,
    {
        match self {
            Tree::Var(name, _) => name.clone(),
            Tree::Abs(name, body) => {
                let mut result = String::new();
                if !in_abstraction {
                    result.append("\u{3bb}");
                }
                let continued = matches!(**body, Tree::Abs(_, _));
                result.append(name.as_str());
                if continued {
                    result.append(" ");
                } else {
                    result.append(".");
                }
                let inner = body.to_string_helper(continued);
                result.append(inner.as_str());
                proof {
                    reveal_strlit("\u{3bb}");
                    reveal_strlit(" ");
                    reveal_strlit(".");
                    assert(result@ =~= spec_named_string(*self, in_abstraction));
                }
                result
            },
            Tree::App(l, r) => {
                let mut result = String::new();
                let left_in_parens = !(matches!(**l, Tree::Var(_, _)));
                if left_in_parens {
                    result.append("(");
                }
                let left = l.to_string_helper(false);
                result.append(left.as_str());
                if left_in_parens {
                    result.append(")");
                }
                result.append(" ");
                let right = r.to_string_helper(false);
                result.append(right.as_str());
                proof {
                    reveal_strlit("(");
                    reveal_strlit(")");
                    reveal_strlit(" ");
                    assert(result@ =~= spec_named_string(*self, in_abstraction));
                }
                result
            },
        }
    }

    fn shift_up(tree: Tree, cutoff: usize) -> (r: Tree)
        ensures
            r == spec_shift_up(tree, cutoff),
        decreases tree,
    {
        match tree {
            Tree::Var(name, index) => {
                let new_index = if index < cutoff || index == usize::MAX {
                    index
                } else {
                    index + 1
                };
                Tree::Var(name, new_index)
            },
            Tree::Abs(name, body) => {
                let next = if cutoff == usize::MAX {
                    cutoff
                } else {
                    cutoff + 1
                };
                Tree::Abs(name, Box::new(Tree::shift_up(*body, next)))
            },
            Tree::App(l, r) => Tree::App(
                Box::new(Tree::shift_up(*l, cutoff)),
                Box::new(Tree::shift_up(*r, cutoff)),
            ),
        }
    }

    fn shift_down(tree: Tree, cutoff: usize) -> (r: Tree)
        ensures
            r == spec_shift_down(tree, cutoff),
        decreases tree,
    {
        match tree {
            Tree::Var(name, index) => {
                let new_index = if index < cutoff || index == 0 {
                    index
                } else {
                    index - 1
                };
                Tree::Var(name, new_index)
            },
            Tree::Abs(name, body) => {
                let next = if cutoff == usize::MAX {
                    cutoff
                } else {
                    cutoff + 1
                };
                Tree::Abs(name, Box::new(Tree::shift_down(*body, next)))
            },
            Tree::App(l, r) => Tree::App(
                Box::new(Tree::shift_down(*l, cutoff)),
                Box::new(Tree::shift_down(*r, cutoff)),
            ),
        }
    }

    /// Whether the term holds no beta redex.
    pub fn is_normal(&self) -> (r: bool)
        ensures
            r == spec_is_normal(*self),
        decreases self,
    {
        match self {
            Tree::Var(_, _) => true,
            Tree::Abs(_, body) => body.is_normal(),
            Tree::App(l, r) => {
                if matches!(**l, Tree::Abs(_, _)) {
                    false
                } else {
                    let ln = l.is_normal();
                    ln && r.is_normal()
                }
            },
        }
    }

    fn substitute(tree: Tree, argument: Tree, depth: usize) -> (r: Tree)
        ensures
            r == spec_substitute(tree, argument, depth),
        decreases tree,
    {
        match tree {
            Tree::Var(name, index) => {
                if index == depth {
                    argument
                } else {
                    Tree::Var(name, index)
                }
            },
            Tree::Abs(name, body) => {
                let next = if depth == usize::MAX {
                    depth
                } else {
                    depth + 1
                };
                Tree::Abs(
                    name,
                    Box::new(Tree::substitute(*body, Tree::shift_up(argument, 0), next)),
                )
            },
            Tree::App(l, r) => {
                let arg2 = argument.duplicate();
                Tree::App(
                    Box::new(Tree::substitute(*l, arg2, depth)),
                    Box::new(Tree::substitute(*r, argument, depth)),
                )
            },
        }
    }

    /// One parallel pass of beta reduction over the whole term.
    pub fn reduction_step(tree: Tree) -> (r: Tree)
        ensures
            r == spec_step(tree),
        decreases tree,
    {
        match tree {
            Tree::Var(name, index) => Tree::Var(name, index),
            Tree::Abs(name, body) => Tree::Abs(name, Box::new(Tree::reduction_step(*body))),
            Tree::App(l, r) => {
                if matches!(*l, Tree::Abs(_, _)) {
                    match *l {
                        Tree::Abs(_, body) => Tree::shift_down(
                            Tree::substitute(*body, Tree::shift_up(*r, 0), 0),
                            0,
                        ),
                        _ => Tree::Var(String::new(), 0),
                    }
                } else {
                    Tree::App(
                        Box::new(Tree::reduction_step(*l)),
                        Box::new(Tree::reduction_step(*r)),
                    )
                }
            },
        }
    }

    /// Reduce until normal form or until the gas budget is spent; the
    /// budget left is written back through `gas`.
    pub fn reduce_with_gas(tree: Tree, gas: &mut usize) -> (r: Tree)
        ensures
            (r, *final(gas) as nat) == spec_reduce_gas(tree, *old(gas) as nat),
    {
        let ghost target = spec_reduce_gas(tree, *old(gas) as nat);
        let mut result = Tree::reduction_step(tree);
        while !(result.is_normal() || *gas == 0)
            invariant
                spec_reduce_cont(result, *gas as nat) == target,
            decreases *gas,
        {
            *gas = *gas - 1;
            result = Tree::reduction_step(result);
        }
        result
    }

    /// Recompute every variable's index from the names of its enclosing
    /// binders (innermost binder first), leaving names untouched.
    pub fn fix_indices(tree: Tree) -> (r: Tree)
        ensures
            r == spec_fix(tree, Seq::<Seq<char>>::empty()),
    {
        let mut stack: Vec<String> = Vec::new();
        proof {
            assert(stack@.map_values(|s: String| s@) =~= Seq::<Seq<char>>::empty());
        }
        Tree::fix_indices_helper(tree, &mut stack)
    }

    fn fix_indices_helper(tree: Tree, stack: &mut Vec<String>) -> (r: Tree)
        ensures
            r == spec_fix(tree, old(stack)@.map_values(|s: String| s@)),
            final(stack)@ == old(stack)@,
        decreases tree,
    {
        match tree {
            Tree::Var(name, _) => {
                let found = find_binder(stack, &name);
                let depth = stack.len();
                match found {
                    Some(j) => Tree::Var(name, depth - 1 - j),
                    None => Tree::Var(name, 100),
                }
            },
            Tree::Abs(name, body) => {
                stack.push(name.clone());
                proof {
                    assert(stack@.map_values(|s: String| s@) =~= old(stack)@.map_values(
                        |s: String| s@,
                    ).push(name@));
                }
                let new_body = Tree::fix_indices_helper(*body, stack);
                stack.pop();
                proof {
                    assert(final(stack)@ =~= old(stack)@);
                }
                Tree::Abs(name, Box::new(new_body))
            },
            Tree::App(l, r) => {
                let nl = Tree::fix_indices_helper(*l, stack);
                let nr = Tree::fix_indices_helper(*r, stack);
                Tree::App(Box::new(nl), Box::new(nr))
            },
        }
    }
}

/// The decimal rendering of `n`.
pub fn decimal_string(n: usize) -> (r: String)
    ensures
        r@ == spec_decimal(n as nat),
    decreases n,
{
    let digit: &str = match n % 10 {
        0 => "0",
        1 => "1",
        2 => "2",
        3 => "3",
        4 => "4",
        5 => "5",
        6 => "6",
        7 => "7",
        8 => "8",
        _ => "9",
    };
    proof {
        reveal_strlit("0");
        reveal_strlit("1");
        reveal_strlit("2");
        reveal_strlit("3");
        reveal_strlit("4");
        reveal_strlit("5");
        reveal_strlit("6");
        reveal_strlit("7");
        reveal_strlit("8");
        reveal_strlit("9");
        assert(digit@ =~= seq![((('0' as u8) + ((n as nat) % 10)) as u8) as char]);
    }
    if n < 10 {
        let mut s = String::new();
        s.append(digit);
        proof {
            assert(s@ =~= spec_decimal(n as nat));
        }
        s
    } else {
        let mut s = decimal_string(n / 10);
        s.append(digit);
        proof {
            assert(s@ =~= spec_decimal(n as nat));
        }
        s
    }
}

/// The position of the last (innermost) binder named `name`, if any.
pub(crate) fn find_binder(stack: &Vec<String>, name: &String) -> (r: Option<usize>)
    ensures
        ({
            let f = spec_find(stack@.map_values(|s: String| s@), name@);
            &&& (r is Some ==> f == r.unwrap() && r.unwrap() < stack@.len())
            &&& (r is None ==> f == -1)
        }),
{
    let ghost views = stack@.map_values(|s: String| s@);
    let mut i: usize = stack.len();
    proof {
        assert(views.take(i as int) =~= views);
    }
    while i > 0
        invariant
            i <= stack@.len(),
            views == stack@.map_values(|s: String| s@),
            spec_find(views, name@) == spec_find(views.take(i as int), name@),
        decreases i,
    {
        i = i - 1;
        if stack[i] == *name {
            proof {
                lemma_spec_find_take(views, name@, i as int);
            }
            return Some(i);
        }
        proof {
            assert(views.take(i as int + 1).drop_last() =~= views.take(i as int));
            assert(views.take(i as int + 1).last() == views[i as int]);
        }
    }
    proof {
        assert(views.take(0) =~= Seq::<Seq<char>>::empty());
    }
    None
}

/// When the top of the truncated stack matches, the search ends there.
proof fn lemma_spec_find_take(views: Seq<Seq<char>>, name: Seq<char>, i: int)
    requires
        0 <= i < views.len(),
        views[i] == name,
    ensures
        spec_find(views.take(i + 1), name) == i,
{
    assert(views.take(i + 1).last() == views[i]);
}

/// The mathematical value of a term: names as character sequences.
pub ghost enum TreeV {
    Var { name: Seq<char>, index: usize },
    Abs { name: Seq<char>, body: Box<TreeV> },
    App { l: Box<TreeV>, r: Box<TreeV> },
}

/// The view of a term.
pub open spec fn view_of(t: Tree) -> TreeV
    decreases t,
{
    match t {
        Tree::Var(name, index) => TreeV::Var { name: name@, index },
        Tree::Abs(name, body) => TreeV::Abs { name: name@, body: Box::new(view_of(*body)) },
        Tree::App(l, r) => TreeV::App { l: Box::new(view_of(*l)), r: Box::new(view_of(*r)) },
    }
}

/// Rename binders to successive decimal numerals, resolving each
/// variable to the innermost enclosing binder with its original name;
/// an unbound name becomes `X`.  Returns the renamed term and the next
/// unused numeral.
pub open spec fn spec_canon(
    t: TreeV,
    names: Seq<Seq<char>>,
    fresh: Seq<Seq<char>>,
    counter: usize,
) -> (TreeV, usize)
    decreases t,
{
    match t {
        TreeV::Var { name, index } => {
            let j = spec_find(names, name);
            let new_name = if j < 0 {
                seq!['X']
            } else {
                fresh[j]
            };
            (TreeV::Var { name: new_name, index }, counter)
        },
        TreeV::Abs { name, body } => {
            let new_name = spec_decimal(counter as nat);
            let next = if counter == usize::MAX {
                counter
            } else {
                (counter + 1) as usize
            };
            let (b, c) = spec_canon(*body, names.push(name), fresh.push(new_name), next);
            (TreeV::Abs { name: new_name, body: Box::new(b) }, c)
        },
        TreeV::App { l, r } => {
            let (nl, c1) = spec_canon(*l, names, fresh, counter);
            let (nr, c2) = spec_canon(*r, names, fresh, c1);
            (TreeV::App { l: Box::new(nl), r: Box::new(nr) }, c2)
        },
    }
}

impl Tree {
    /// Rename all binders to successive numerals, resolving variables by
    /// ordinary lexical shadowing; unbound names become `X`.
    pub fn canonicalize_names(&self) -> (r: Tree)
        ensures
            view_of(r) == spec_canon(
                view_of(*self),
                Seq::<Seq<char>>::empty(),
                Seq::<Seq<char>>::empty(),
                0,
            ).0,
    {
        let mut names: Vec<String> = Vec::new();
        let mut fresh: Vec<String> = Vec::new();
        let mut counter: usize = 0;
        proof {
            assert(names@.map_values(|s: String| s@) =~= Seq::<Seq<char>>::empty());
            assert(fresh@.map_values(|s: String| s@) =~= Seq::<Seq<char>>::empty());
        }
        let copy = self.duplicate();
        Tree::canonicalize_names_helper(copy, &mut names, &mut fresh, &mut counter)
    }

    fn canonicalize_names_helper(
        tree: Tree,
        names: &mut Vec<String>,
        fresh: &mut Vec<String>,
        counter: &mut usize,
    ) -> (r: Tree)
        requires
            old(names)@.len() == old(fresh)@.len(),
        ensures
            ({
                let (rv, rc) = spec_canon(
                    view_of(tree),
                    old(names)@.map_values(|s: String| s@),
                    old(fresh)@.map_values(|s: String| s@),
                    *old(counter),
                );
                view_of(r) == rv && *final(counter) == rc
            }),
            final(names)@ == old(names)@,
            final(fresh)@ == old(fresh)@,
        decreases tree,
    {
        match tree {
            Tree::Var(name, index) => {
                let found = find_binder(names, &name);
                match found {
                    Some(j) => {
                        let nn = fresh[j].clone();
                        proof {
                            assert(nn@ == old(fresh)@.map_values(|s: String| s@)[j as int]);
                        }
                        Tree::Var(nn, index)
                    },
                    None => {
                        let mut nn = String::new();
                        nn.append("X");
                        proof {
                            reveal_strlit("X");
                            assert(nn@ =~= seq!['X']);
                        }
                        Tree::Var(nn, index)
                    },
                }
            },
            Tree::Abs(name, body) => {
                let new_name = decimal_string(*counter);
                if *counter < usize::MAX {
                    *counter = *counter + 1;
                }
                names.push(name);
                fresh.push(new_name.clone());
                proof {
                    assert(names@.map_values(|s: String| s@) =~= old(names)@.map_values(
                        |s: String| s@,
                    ).push(names@.last()@));
                    assert(fresh@.map_values(|s: String| s@) =~= old(fresh)@.map_values(
                        |s: String| s@,
                    ).push(new_name@));
                }
                let nb = Tree::canonicalize_names_helper(*body, names, fresh, counter);
                names.pop();
                fresh.pop();
                proof {
                    assert(final(names)@ =~= old(names)@);
                    assert(final(fresh)@ =~= old(fresh)@);
                }
                Tree::Abs(new_name, Box::new(nb))
            },
            Tree::App(l, r) => {
                let nl = Tree::canonicalize_names_helper(*l, names, fresh, counter);
                let nr = Tree::canonicalize_names_helper(*r, names, fresh, counter);
                Tree::App(Box::new(nl), Box::new(nr))
            },
        }
    }
}

} // verus!
