use vstd::prelude::*;

verus! {

/// Structural role of a lexical unit.
#[derive(Debug, Copy, Clone, PartialEq, Eq, Structural)]
pub enum TokenType {
    Noop,
    Operand,
    Function,
    Subexpression,
    Argument,
    OperatorPrefix,
    OperatorInfix,
    OperatorPostfix,
    Whitespace,
    Unknown,
}

/// Semantic refinement of a token, independent of its structural role.
#[derive(Debug, Copy, Clone, PartialEq, Eq, Structural)]
pub enum TokenSubType {
    Nothing,
    Start,
    Stop,
    Text,
    Number,
    Logical,
    Error,
    Math,
    Concatenation,
    Intersection,
    Union,
}

/// One classified lexical unit of a formula.
#[derive(Debug, PartialEq)]
pub struct Token {
    pub value: String,
    pub token_type: TokenType,
    pub sub_type: TokenSubType,
}

/// The mathematical image of a token: its text as a character sequence
/// together with both classification tags.
pub struct TokenS {
    pub value: Seq<char>,
    pub token_type: TokenType,
    pub sub_type: TokenSubType,
}

impl View for Token {
    type V = TokenS;

    open spec fn view(&self) -> TokenS {
        TokenS { value: self.value@, token_type: self.token_type, sub_type: self.sub_type }
    }
}

impl Clone for Token {
    fn clone(&self) -> (r: Token)
        ensures
            r@ == self@,
    {
        Token { value: self.value.clone(), token_type: self.token_type, sub_type: self.sub_type }
    }
}

impl Token {
    pub fn new(v: String, token_type: TokenType, sub_type: TokenSubType) -> (r: Token)
        ensures
            r@ == (TokenS { value: v@, token_type, sub_type }),
    {
        Token { value: v, token_type, sub_type }
    }
}

/// An ordered token sequence with one movable cursor. The cursor starts at -1,
/// before the first element. The same structure doubles as the scope stack the
/// lexer keeps while matching nested function, subexpression and array scopes.
pub struct Tokens {
    index: i64,
    pub items: Vec<Token>,
}

/// The sequence of token images a token list holds.
spec fn toks_of(items: Seq<Token>) -> Seq<TokenS> {
    items.map_values(|t: Token| t@)
}

impl Tokens {
    /// The cursor position: -1 before the first token.
    pub closed spec fn spec_index(&self) -> int {
        self.index as int
    }

    /// The sequence of token images this list holds.
    pub closed spec fn toks(&self) -> Seq<TokenS> {
        toks_of(self.items@)
    }

    /// The cursor stays between -1 and the length, and the length leaves room
    /// for the signed cursor arithmetic.
    pub closed spec fn wf(&self) -> bool {
        &&& -1 <= self.spec_index() <= self.items@.len()
        &&& self.items@.len() < 0x4000_0000
    }

    /// The well-formedness bound on the length, for callers outside this
    /// module.
    pub proof fn lemma_len_bound(&self)
        requires
            self.wf(),
        ensures
            self.toks().len() < 0x4000_0000,
    {
    }

    /// How many tokens the list holds.
    pub fn len(&self) -> (r: usize)
        ensures
            r == self.toks().len(),
    {
        self.items.len()
    }

    /// Read access to the token at a fixed position, cursor aside.
    pub fn get(&self, i: usize) -> (r: &Token)
        requires
            i < self.toks().len(),
        ensures
            r@ == self.toks()[i as int],
    {
        &self.items[i]
    }

    pub fn new() -> (r: Tokens)
        ensures
            r.wf(),
            r.spec_index() == -1,
            r.toks() == Seq::<TokenS>::empty(),
    {
        let r = Tokens { index: -1, items: vec![] };
        proof {
            assert(r.toks() =~= Seq::<TokenS>::empty());
        }
        r
    }

    /// Appends a fresh token made of the three fields and leaves the cursor alone.
    pub fn add(&mut self, v: String, token_type: TokenType, sub_type: TokenSubType)
        requires
            old(self).wf(),
            old(self).toks().len() + 1 < 0x4000_0000,
        ensures
            final(self).wf(),
            final(self).spec_index() == old(self).spec_index(),
            final(self).toks() == old(self).toks().push(
                TokenS { value: v@, token_type, sub_type },
            ),
    {
        let t = Token::new(v, token_type, sub_type);
        self.add_ref(&t);
    }

    /// Appends a copy of the given token to the end of the list.
    pub fn add_ref(&mut self, t: &Token)
        requires
            old(self).wf(),
            old(self).toks().len() + 1 < 0x4000_0000,
        ensures
            final(self).wf(),
            final(self).spec_index() == old(self).spec_index(),
            final(self).toks() == old(self).toks().push(t@),
    {
        self.items.push(t.clone());
        proof {
            assert(self.toks() =~= old(self).toks().push(t@));
        }
    }

    /// Moves the cursor back to -1, before the first token.
    pub fn reset(&mut self)
        requires
            old(self).wf(),
        ensures
            final(self).wf(),
            final(self).toks() == old(self).toks(),
            final(self).spec_index() == -1,
    {
        self.index = -1;
    }

    /// Whether the cursor sits at or before the first token.
    pub fn bof(&self) -> (r: bool)
        requires
            self.wf(),
        ensures
            r == (self.spec_index() <= 0),
    {
        self.index <= 0
    }

    /// Whether the cursor sits at or past the last token.
    pub fn eof(&self) -> (r: bool)
        requires
            self.wf(),
        ensures
            r == (self.spec_index() >= self.toks().len() - 1),
    {
        self.index >= ((self.items.len() as i64) - 1)
    }

    /// Advances the cursor one step unless it already sits at the last token.
    pub fn move_next(&mut self) -> (r: bool)
        requires
            old(self).wf(),
        ensures
            final(self).wf(),
            final(self).toks() == old(self).toks(),
            r == (old(self).spec_index() < old(self).toks().len() - 1),
            r ==> final(self).spec_index() == old(self).spec_index() + 1,
            !r ==> final(self).spec_index() == old(self).spec_index(),
    {
        if self.eof() {
            return false;
        }
        self.index = self.index + 1;
        true
    }

    /// Returns a copy of the token under the cursor.
    pub fn current(&self) -> (r: Token)
        requires
            self.wf(),
            0 <= self.spec_index() < self.toks().len(),
        ensures
            r@ == self.toks()[self.spec_index()],
    {
        proof {
            assert(0 <= self.index < self.items@.len());
            assert(self.toks()[self.spec_index()] == self.items@[self.spec_index()]@);
        }
        let i: usize = self.index as usize;
        assert(i as int == self.spec_index());
        self.items[i].clone()
    }

    /// Overwrites the chosen fields of the token under the cursor.
    pub fn set_current_field(
        &mut self,
        value: Option<String>,
        token_type: Option<TokenType>,
        sub_type: Option<TokenSubType>,
    )
        requires
            old(self).wf(),
            0 <= old(self).spec_index() < old(self).toks().len(),
        ensures
            final(self).wf(),
            final(self).spec_index() == old(self).spec_index(),
            final(self).toks() == old(self).toks().update(
                old(self).spec_index(),
                TokenS {
                    value: match value {
                        Some(v) => v@,
                        None => old(self).toks()[old(self).spec_index()].value,
                    },
                    token_type: match token_type {
                        Some(t) => t,
                        None => old(self).toks()[old(self).spec_index()].token_type,
                    },
                    sub_type: match sub_type {
                        Some(s) => s,
                        None => old(self).toks()[old(self).spec_index()].sub_type,
                    },
                },
            ),
    {
        let i = self.index as usize;
        proof {
            assert(self.toks()[i as int] == self.items@[i as int]@);
        }
        let t = self.items[i].clone();
        let nt = Token {
            value: match value {
                Some(v) => v,
                None => t.value,
            },
            token_type: match token_type {
                Some(tt) => tt,
                None => t.token_type,
            },
            sub_type: match sub_type {
                Some(st) => st,
                None => t.sub_type,
            },
        };
        self.items.set(i, nt);
        proof {
            assert forall|j: int| 0 <= j < self.toks().len() implies self.toks()[j]
                == old(self).toks().update(old(self).spec_index(), self.items@[i as int]@)[j] by {
                assert(self.toks()[j] == self.items@[j]@);
                assert(old(self).toks()[j] == old(self).items@[j]@);
            }
            assert(self.toks() =~= old(self).toks().update(
                old(self).spec_index(),
                self.items@[i as int]@,
            ));
        }
    }

    /// Returns the token after the cursor, leaving the cursor unchanged.
    pub fn next(&self) -> (r: &Token)
        requires
            self.wf(),
            -1 <= self.spec_index(),
            self.spec_index() + 1 < self.toks().len(),
        ensures
            r@ == self.toks()[self.spec_index() + 1],
    {
        proof {
            assert(self.toks()[self.spec_index() + 1] == self.items@[self.spec_index() + 1]@);
        }
        &self.items[(self.index + 1) as usize]
    }

    /// Returns the token before the cursor, leaving the cursor unchanged.
    pub fn previous(&self) -> (r: &Token)
        requires
            self.wf(),
            1 <= self.spec_index() < self.toks().len() + 1,
        ensures
            r@ == self.toks()[self.spec_index() - 1],
    {
        proof {
            assert(self.toks()[self.spec_index() - 1] == self.items@[self.spec_index() - 1]@);
        }
        &self.items[(self.index - 1) as usize]
    }

    /// Pushes a token onto the stack, leaving the cursor alone.
    pub fn push(&mut self, t: Token)
        requires
            old(self).wf(),
            old(self).toks().len() + 1 < 0x4000_0000,
        ensures
            final(self).wf(),
            final(self).spec_index() == old(self).spec_index(),
            final(self).toks() == old(self).toks().push(t@),
    {
        self.items.push(t);
        proof {
            assert(self.toks() =~= old(self).toks().push(t@));
        }
    }

    /// Pops the top scope marker and hands back its matching Stop token. An
    /// empty stack yields a Function Stop, so an unmatched close degrades
    /// instead of failing.
    pub fn pop(&mut self) -> (r: Option<Token>)
        requires
            old(self).wf(),
            old(self).spec_index() <= old(self).toks().len() - 1 || old(self).spec_index() == -1,
        ensures
            final(self).wf(),
            final(self).spec_index() == old(self).spec_index(),
            r is Some,
            old(self).toks().len() == 0 ==> {
                &&& final(self).toks() == old(self).toks()
                &&& r->Some_0@ == (TokenS {
                    value: Seq::<char>::empty(),
                    token_type: TokenType::Function,
                    sub_type: TokenSubType::Stop,
                })
            },
            old(self).toks().len() > 0 ==> {
                &&& final(self).toks() == old(self).toks().drop_last()
                &&& r->Some_0@ == (TokenS {
                    value: Seq::<char>::empty(),
                    token_type: old(self).toks().last().token_type,
                    sub_type: TokenSubType::Stop,
                })
            },
    {
        if self.items.len() == 0 {
            return Some(Token {
                value: String::new(),
                token_type: TokenType::Function,
                sub_type: TokenSubType::Stop,
            });
        }
        let t = self.items.pop().unwrap();
        proof {
            assert forall|j: int| 0 <= j < self.toks().len() implies self.toks()[j]
                == old(self).toks().drop_last()[j] by {
                assert(self.toks()[j] == self.items@[j]@);
                assert(old(self).toks()[j] == old(self).items@[j]@);
            }
            assert(self.toks() =~= old(self).toks().drop_last());
            assert(old(self).toks().last() == old(self).items@.last()@);
        }
        Some(Token::new(String::new(), t.token_type, TokenSubType::Stop))
    }

    /// Non-destructively returns the top item of the stack.
    pub fn token(&self) -> (r: &Token)
        requires
            self.wf(),
            self.toks().len() > 0,
        ensures
            r@ == self.toks().last(),
    {
        proof {
            assert(self.toks().last() == self.items@.last()@);
        }
        &self.items[self.items.len() - 1]
    }

    /// The top scope marker's type; Noop when the stack is empty.
    pub fn tp(&self) -> (r: &TokenType)
        requires
            self.wf(),
        ensures
            self.toks().len() == 0 ==> *r == TokenType::Noop,
            self.toks().len() > 0 ==> *r == self.toks().last().token_type,
    {
        if self.items.len() == 0 {
            return &TokenType::Noop;
        }
        let a: &Token = self.token();
        &a.token_type
    }
}

} // verus!
