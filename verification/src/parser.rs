//! The surface-syntax parser: tokens to a lambda-term tree, with
//! de Bruijn indices recomputed at the end.

use vstd::prelude::*;

use crate::lexer::{Lexer, Token};
use crate::tree::Tree;

verus! {

/// What can go wrong in the surface syntax.
#[derive(Debug, PartialEq, Eq, Structural, Copy, Clone)]
pub enum ParseError {
    MisplacedDot,
    UnclosedParen,
    UnopenedParen,
    EmptyExpression,
    EmptyAbstraction,
    EmptyName,
    ParenInAbstraction,
    NestedAbstraction,
}

/// Relies on `String::push` of std: appends the given character to the
/// end of the string.
#[verifier::external_body]
fn push_char(s: &mut String, c: char)
    ensures
        final(s)@ == old(s)@.push(c),
{
    s.push(c);
}

/// The recursive-descent parser over one input slice.
pub struct Parser<'a> {
    pub input: &'a [u8],
    pub lexer: Lexer<'a>,
    pub stack: Vec<Token>,
}

impl<'a> Parser<'a> {
    /// The lexer reads the same bytes the parser slices names from.
    pub open spec fn wf(self) -> bool {
        &&& self.lexer.wf()
        &&& self.lexer.input@ == self.input@
    }

    /// A parser over `input`, reading tokens from `lexer`.
    pub fn new(input: &'a [u8], lexer: Lexer<'a>) -> (r: Parser<'a>)
        requires
            lexer.wf(),
            lexer.input@ == input@,
        ensures
            r.wf(),
            r.input@ == input@,
    {
        Parser { input, lexer, stack: Vec::new() }
    }

    /// The name the token sliced out of the input, each byte read as one
    /// character; an empty slice is an error.
    fn parse_name(&self, start: usize, length: usize) -> (r: Result<Tree, ParseError>)
        requires
            start + length <= self.input@.len(),
        ensures
            length == 0 <==> r == Result::<Tree, ParseError>::Err(ParseError::EmptyName),
            r matches Ok(t) ==> t matches Tree::Var(_, 0),
    {
        if length == 0 {
            return Err(ParseError::EmptyName);
        }
        let n = self.input.len();
        let mut name = String::new();
        let mut i: usize = 0;
        while i < length
            invariant
                i <= length,
                start + length <= n,
                n == self.input@.len(),
            decreases length - i,
        {
            push_char(&mut name, self.input[start + i] as char);
            i = i + 1;
        }
        Ok(Tree::Var(name, 0))
    }

    /// A binder list closed by a dot, then the body: the abstractions
    /// fold up with the last name innermost.
    fn parse_abstraction(&mut self) -> (r: Result<Tree, ParseError>)
        requires
            old(self).wf(),
        ensures
            final(self).wf(),
            final(self).input@ == old(self).input@,
            final(self).lexer.measure() <= old(self).lexer.measure(),
        decreases old(self).lexer.measure(), 1int,
    {
        let mut names: Vec<Tree> = Vec::new();
        loop
            invariant
                self.wf(),
                self.input@ == old(self).input@,
                self.lexer.measure() <= old(self).lexer.measure(),
            decreases self.lexer.measure(),
        {
            match self.lexer.next() {
                Some(Token::Name(start, length)) => {
                    match self.parse_name(start, length) {
                        Ok(t) => names.push(t),
                        Err(e) => {
                            return Err(e);
                        },
                    }
                },
                Some(Token::Dot) => {
                    if names.len() == 0 {
                        return Err(ParseError::EmptyAbstraction);
                    }
                    break;
                },
                Some(Token::OpenParen) => {
                    return Err(ParseError::ParenInAbstraction);
                },
                Some(Token::CloseParen) => {
                    return Err(ParseError::ParenInAbstraction);
                },
                Some(Token::Lambda) => {
                    return Err(ParseError::NestedAbstraction);
                },
                None => {
                    return Err(ParseError::EmptyAbstraction);
                },
            }
        }
        let body = match self.parse_application() {
            Ok(t) => t,
            Err(e) => {
                return Err(e);
            },
        };
        let mut accumulator = body;
        while names.len() > 0
            invariant
                self.wf(),
                self.input@ == old(self).input@,
                self.lexer.measure() <= old(self).lexer.measure(),
            decreases names.len(),
        {
            let name_tree = match names.pop() {
                Some(t) => t,
                None => Tree::Var(String::new(), 0),
            };
            let id = match name_tree {
                Tree::Var(id, _) => id,
                Tree::Abs(id, _) => id,
                Tree::App(_, _) => String::new(),
            };
            accumulator = Tree::Abs(id, Box::new(accumulator));
        }
        Ok(accumulator)
    }

    /// A run of parts folded into left-associated applications; a
    /// closing parenthesis or the end of input ends the run.
    fn parse_application(&mut self) -> (r: Result<Tree, ParseError>)
        requires
            old(self).wf(),
        ensures
            final(self).wf(),
            final(self).input@ == old(self).input@,
            final(self).lexer.measure() <= old(self).lexer.measure(),
        decreases old(self).lexer.measure(), 0int,
    {
        let mut trees: Vec<Tree> = Vec::new();
        loop
            invariant
                self.wf(),
                self.input@ == old(self).input@,
                self.lexer.measure() <= old(self).lexer.measure(),
            decreases self.lexer.measure(),
        {
            let tok = self.lexer.next();
            let part: Tree = match tok {
                Some(Token::OpenParen) => {
                    self.stack.push(Token::OpenParen);
                    let inner = match self.parse_application() {
                        Ok(t) => t,
                        Err(e) => {
                            return Err(e);
                        },
                    };
                    match self.lexer.next() {
                        Some(Token::CloseParen) => {
                            self.stack.pop();
                            inner
                        },
                        _ => {
                            return Err(ParseError::UnclosedParen);
                        },
                    }
                },
                Some(Token::Lambda) => {
                    match self.parse_abstraction() {
                        Ok(t) => t,
                        Err(e) => {
                            return Err(e);
                        },
                    }
                },
                Some(Token::Name(start, length)) => {
                    match self.parse_name(start, length) {
                        Ok(t) => t,
                        Err(e) => {
                            return Err(e);
                        },
                    }
                },
                Some(Token::CloseParen) => {
                    if self.stack.len() > 0 {
                        self.lexer.backtrack(1);
                        break;
                    } else {
                        return Err(ParseError::UnopenedParen);
                    }
                },
                Some(Token::Dot) => {
                    return Err(ParseError::MisplacedDot);
                },
                None => {
                    if self.stack.len() == 0 {
                        break;
                    } else {
                        return Err(ParseError::UnclosedParen);
                    }
                },
            };
            trees.push(part);
        }
        if trees.len() == 0 {
            return Err(ParseError::EmptyExpression);
        }
        let mut accumulator = trees.remove(0);
        while trees.len() > 0
            invariant
                self.wf(),
                self.input@ == old(self).input@,
                self.lexer.measure() <= old(self).lexer.measure(),
            decreases trees.len(),
        {
            let nxt = trees.remove(0);
            accumulator = Tree::App(Box::new(accumulator), Box::new(nxt));
        }
        Ok(accumulator)
    }

    /// Parse the whole input and recompute de Bruijn indices.
    pub fn parse(&mut self) -> (r: Result<Tree, ParseError>)
        requires
            old(self).wf(),
        ensures
            final(self).wf(),
    {
        match self.parse_application() {
            Ok(t) => Ok(Tree::fix_indices(t)),
            Err(e) => Err(e),
        }
    }
}

} // verus!
