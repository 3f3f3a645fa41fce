//! The surface-syntax lexer: bytes to tokens, with a replayable history
//! so the parser can hand one token back.

use vstd::prelude::*;

verus! {

/// One token: a name (byte offset and length in the input), a
/// parenthesis, a lambda head, or the dot closing a binder list.
#[derive(Debug, Copy, Clone, PartialEq, Eq, Structural)]
pub enum Token {
    Name(usize, usize),
    OpenParen,
    CloseParen,
    Lambda,
    Dot,
}

/// ASCII whitespace as the lexer sees it: space, tab, line feed, form
/// feed, carriage return.
pub open spec fn spec_is_ws(b: u8) -> bool {
    b == 32 || b == 9 || b == 10 || b == 12 || b == 13
}

fn is_ws(b: u8) -> (r: bool)
    ensures
        r == spec_is_ws(b),
{
    b == 32 || b == 9 || b == 10 || b == 12 || b == 13
}

/// A name token stays inside the input and is never empty.
pub open spec fn token_ok(t: Token, n: int) -> bool {
    match t {
        Token::Name(start, length) => start + length <= n && length >= 1,
        _ => true,
    }
}

/// Whether the byte at `at`, if any, extends a name token.
fn name_continues(input: &[u8], at: usize) -> (r: bool)
    ensures
        r ==> at < input@.len(),
{
    if at < input.len() {
        let c = input[at];
        c != 40 && c != 41 && c != 92 && c != 46 && !is_ws(c)
    } else {
        false
    }
}

/// The byte lexer over one input slice.
pub struct Lexer<'a> {
    pub input: &'a [u8],
    pub location: usize,
    pub history: Vec<Token>,
    pub history_index: usize,
}

impl<'a> Lexer<'a> {
    /// Cursors inside bounds and every remembered token valid.
    pub open spec fn wf(self) -> bool {
        &&& self.location <= self.input@.len()
        &&& self.history_index <= self.history@.len()
        &&& forall|j: int|
            0 <= j < self.history@.len() ==> token_ok(#[trigger] self.history@[j], self.input@.len() as int)
    }

    /// How much lexing work is left: unread input plus unread history.
    pub open spec fn measure(self) -> int {
        self.input@.len() - self.location + self.history@.len() - self.history_index
    }

    /// A fresh lexer at the start of `input`.
    pub fn new(input: &'a [u8]) -> (r: Lexer<'a>)
        ensures
            r.wf(),
            r.input@ == input@,
            r.location == 0,
            r.history@.len() == 0,
    {
        Lexer { input, location: 0, history: Vec::new(), history_index: 0 }
    }

    /// Hand the last `n` tokens back; they will be replayed.
    pub fn backtrack(&mut self, n: usize)
        requires
            old(self).wf(),
        ensures
            final(self).wf(),
            final(self).input@ == old(self).input@,
            final(self).measure() <= old(self).measure() + n,
    {
        if n <= self.history_index {
            self.history_index = self.history_index - n;
        } else {
            self.history_index = 0;
        }
    }

    /// Read one token from the raw input at the cursor, which must stand
    /// on a non-whitespace byte.
    fn scan_token(&mut self) -> (t: Token)
        requires
            old(self).wf(),
            old(self).location < old(self).input@.len(),
        ensures
            final(self).wf(),
            final(self).input@ == old(self).input@,
            final(self).history@ == old(self).history@,
            final(self).history_index == old(self).history_index,
            old(self).location < final(self).location <= final(self).input@.len(),
            token_ok(t, final(self).input@.len() as int),
    {
        let b = self.input[self.location];
        if b == 40 {
            self.location = self.location + 1;
            Token::OpenParen
        } else if b == 41 {
            self.location = self.location + 1;
            Token::CloseParen
        } else if b == 92 {
            self.location = self.location + 1;
            Token::Lambda
        } else if b == 46 {
            self.location = self.location + 1;
            Token::Dot
        } else {
            let start = self.location;
            let mut difference: usize = 1;
            let mut scanning = name_continues(self.input, self.location + 1);
            while scanning
                invariant
                    start == self.location,
                    self.input@.len() <= usize::MAX,
                    self.location + difference <= self.input@.len(),
                    difference >= 1,
                    scanning ==> self.location + difference < self.input@.len(),
                decreases self.input@.len() - self.location - difference,
            {
                difference = difference + 1;
                scanning = name_continues(self.input, self.location + difference);
            }
            let result = Token::Name(start, difference);
            self.location = self.location + difference;
            result
        }
    }

    /// The next token, if any input is left.
    pub fn next(&mut self) -> (r: Option<Token>)
        requires
            old(self).wf(),
        ensures
            final(self).wf(),
            final(self).input@ == old(self).input@,
            r is Some ==> final(self).measure() < old(self).measure(),
            r is None ==> final(self).measure() <= old(self).measure(),
            r is Some ==> token_ok(r.unwrap(), final(self).input@.len() as int),
    {
        if self.history_index < self.history.len() {
            let result = self.history[self.history_index];
            self.history_index = self.history_index + 1;
            return Some(result);
        }
        while self.location < self.input.len() && is_ws(self.input[self.location])
            invariant
                self.wf(),
                self.input@ == old(self).input@,
                self.history@ == old(self).history@,
                self.history_index == old(self).history_index,
                old(self).location <= self.location,
            decreases self.input@.len() - self.location,
        {
            self.location = self.location + 1;
        }
        if self.location >= self.input.len() {
            return None;
        }
        let token = self.scan_token();
        let ghost hprev = self.history@;
        self.history.push(token);
        self.history_index = self.history.len();
        proof {
            assert(token_ok(token, self.input@.len() as int));
            assert forall|j: int| 0 <= j < self.history@.len() implies token_ok(
                #[trigger] self.history@[j],
                self.input@.len() as int,
            ) by {
                if j < hprev.len() {
                    assert(self.history@[j] == hprev[j]);
                } else {
                    assert(self.history@[j] == token);
                }
            }
        }
        Some(token)
    }
}

} // verus!
