use vstd::prelude::*;

use crate::exp::{eview, eview_opt, eviews, spec_precedence, ExprS, Expression};
use crate::num;
use crate::strutil;
use crate::value::{Value, ValueS, vview};
use crate::token::{Token, TokenS, TokenSubType, TokenType, Tokens};

verus! {

// ---------------------------------------------------------------------------
// The lexical model: the token stream a formula scans to, in three passes.
// ---------------------------------------------------------------------------

/// A token image out of its three parts.
pub open spec fn tok(v: Seq<char>, tt: TokenType, st: TokenSubType) -> TokenS {
    TokenS { value: v, token_type: tt, sub_type: st }
}

/// Whether a character is one of the single-character infix operators.
pub open spec fn is_op_char(c: char) -> bool {
    c == '+' || c == '-' || c == '*' || c == '/' || c == '^' || c == '&' || c == '=' || c == '>'
        || c == '<'
}

/// Whether two characters form a two-character comparison operator.
pub open spec fn is_cmp_pair(a: char, b: char) -> bool {
    (a == '=' && b == '=') || (a == '>' && b == '=') || (a == '<' && b == '=') || (a == '<' && b
        == '>')
}

/// Whether a text is one of the seven recognized error literals.
pub open spec fn spec_is_error_literal(s: Seq<char>) -> bool {
    s == "#NULL!"@ || s == "#DIV/0!"@ || s == "#VALUE!"@ || s == "#REF!"@ || s == "#NAME?"@ || s
        == "#NUM!"@ || s == "#N/A"@
}

/// The pending operand flushed in front of the stream, when there is one.
pub open spec fn flush_op(buf: Seq<char>, out: Seq<TokenS>) -> Seq<TokenS> {
    if buf.len() > 0 {
        out.push(tok(buf, TokenType::Operand, TokenSubType::Nothing))
    } else {
        out
    }
}

/// The pending text flushed as an unexpected token, when there is one.
pub open spec fn flush_unknown(buf: Seq<char>, out: Seq<TokenS>) -> Seq<TokenS> {
    if buf.len() > 0 {
        out.push(tok(buf, TokenType::Unknown, TokenSubType::Nothing))
    } else {
        out
    }
}

/// The Stop token a close emits: it takes the type of the innermost open
/// scope, or Function when no scope is open.
pub open spec fn stop_tok(stack: Seq<TokenS>) -> TokenS {
    tok(
        Seq::<char>::empty(),
        if stack.len() > 0 {
            stack.last().token_type
        } else {
            TokenType::Function
        },
        TokenSubType::Stop,
    )
}

/// The stack with its top scope removed, if any.
pub open spec fn pop1(stack: Seq<TokenS>) -> Seq<TokenS> {
    if stack.len() > 0 {
        stack.drop_last()
    } else {
        stack
    }
}

/// The first position at or after i that does not hold a space.
pub open spec fn skip_spaces(f: Seq<char>, i: int) -> int
    decreases f.len() - i,
{
    if 0 <= i < f.len() && f[i] == ' ' {
        skip_spaces(f, i + 1)
    } else {
        i
    }
}

proof fn lemma_skip_spaces(f: Seq<char>, i: int)
    ensures
        skip_spaces(f, i) >= i,
        i <= f.len() ==> skip_spaces(f, i) <= f.len(),
    decreases f.len() - i,
{
    if 0 <= i < f.len() && f[i] == ' ' {
        lemma_skip_spaces(f, i + 1);
    }
}

/// The raw scan: one pass over the formula characters, keeping a pending
/// operand buffer, the three scanning modes, and the stack of open scopes,
/// and emitting the raw token stream.
#[verifier::rlimit(50)]
pub open spec fn scan(
    f: Seq<char>,
    i: int,
    buf: Seq<char>,
    in_str: bool,
    in_rng: bool,
    in_err: bool,
    stack: Seq<TokenS>,
    out: Seq<TokenS>,
) -> Seq<TokenS>
    decreases f.len() - i,
    via scan_dec
{
    if i < 0 || i >= f.len() {
        flush_op(buf, out)
    } else {
        let c = f[i];
        if in_str {
            if c == '"' {
                scan(
                    f,
                    i + 1,
                    Seq::<char>::empty(),
                    false,
                    in_rng,
                    in_err,
                    stack,
                    out.push(tok(buf, TokenType::Operand, TokenSubType::Text)),
                )
            } else {
                scan(f, i + 1, buf.push(c), true, in_rng, in_err, stack, out)
            }
        } else if in_rng {
            scan(f, i + 1, buf.push(c), in_str, c != ']', in_err, stack, out)
        } else if in_err {
            if spec_is_error_literal(buf.push(c)) {
                scan(
                    f,
                    i + 1,
                    Seq::<char>::empty(),
                    in_str,
                    in_rng,
                    false,
                    stack,
                    out.push(tok(buf.push(c), TokenType::Operand, TokenSubType::Error)),
                )
            } else {
                scan(f, i + 1, buf.push(c), in_str, in_rng, true, stack, out)
            }
        } else if c == '"' {
            scan(
                f,
                i + 1,
                Seq::<char>::empty(),
                true,
                in_rng,
                in_err,
                stack,
                flush_unknown(buf, out),
            )
        } else if c == '\'' {
            scan(
                f,
                i + 1,
                Seq::<char>::empty(),
                in_str,
                in_rng,
                in_err,
                stack,
                flush_unknown(buf, out),
            )
        } else if c == '[' {
            scan(f, i + 1, buf.push(c), in_str, true, in_err, stack, out)
        } else if c == '#' {
            scan(f, i + 1, seq!['#'], in_str, in_rng, true, stack, flush_unknown(buf, out))
        } else if c == '{' {
            let a = tok("ARRAY"@, TokenType::Function, TokenSubType::Start);
            let r = tok("ARRAYROW"@, TokenType::Function, TokenSubType::Start);
            scan(
                f,
                i + 1,
                Seq::<char>::empty(),
                in_str,
                in_rng,
                in_err,
                stack.push(a).push(r),
                flush_unknown(buf, out).push(a).push(r),
            )
        } else if c == ';' {
            scan(
                f,
                i + 1,
                Seq::<char>::empty(),
                in_str,
                in_rng,
                in_err,
                pop1(stack),
                flush_op(buf, out).push(stop_tok(stack)).push(
                    tok(","@, TokenType::Argument, TokenSubType::Nothing),
                ),
            )
        } else if c == '}' {
            scan(
                f,
                i + 1,
                Seq::<char>::empty(),
                in_str,
                in_rng,
                in_err,
                pop1(pop1(stack)),
                flush_op(buf, out).push(stop_tok(stack)).push(stop_tok(pop1(stack))),
            )
        } else if c == ' ' {
            scan(
                f,
                skip_spaces(f, i + 1),
                Seq::<char>::empty(),
                in_str,
                in_rng,
                in_err,
                stack,
                flush_op(buf, out).push(
                    tok(Seq::<char>::empty(), TokenType::Whitespace, TokenSubType::Nothing),
                ),
            )
        } else if i + 1 < f.len() && is_cmp_pair(c, f[i + 1]) {
            scan(
                f,
                i + 2,
                Seq::<char>::empty(),
                in_str,
                in_rng,
                in_err,
                stack,
                flush_op(buf, out).push(
                    tok(seq![c, f[i + 1]], TokenType::OperatorInfix, TokenSubType::Logical),
                ),
            )
        } else if is_op_char(c) {
            scan(
                f,
                i + 1,
                Seq::<char>::empty(),
                in_str,
                in_rng,
                in_err,
                stack,
                flush_op(buf, out).push(
                    tok(seq![c], TokenType::OperatorInfix, TokenSubType::Nothing),
                ),
            )
        } else if c == '%' {
            scan(
                f,
                i + 1,
                Seq::<char>::empty(),
                in_str,
                in_rng,
                in_err,
                stack,
                flush_op(buf, out).push(
                    tok(seq![c], TokenType::OperatorPostfix, TokenSubType::Nothing),
                ),
            )
        } else if c == '(' {
            if buf.len() > 0 {
                let t = tok(strutil::spec_upper(buf), TokenType::Function, TokenSubType::Start);
                scan(
                    f,
                    i + 1,
                    Seq::<char>::empty(),
                    in_str,
                    in_rng,
                    in_err,
                    stack.push(t),
                    out.push(t),
                )
            } else {
                let t = tok(Seq::<char>::empty(), TokenType::Subexpression, TokenSubType::Start);
                scan(
                    f,
                    i + 1,
                    Seq::<char>::empty(),
                    in_str,
                    in_rng,
                    in_err,
                    stack.push(t),
                    out.push(t),
                )
            }
        } else if c == ',' {
            scan(
                f,
                i + 1,
                Seq::<char>::empty(),
                in_str,
                in_rng,
                in_err,
                stack,
                flush_op(buf, out).push(
                    if stack.len() > 0 && stack.last().token_type == TokenType::Function {
                        tok(","@, TokenType::Argument, TokenSubType::Nothing)
                    } else {
                        tok(","@, TokenType::OperatorInfix, TokenSubType::Union)
                    },
                ),
            )
        } else if c == ')' {
            scan(
                f,
                i + 1,
                Seq::<char>::empty(),
                in_str,
                in_rng,
                in_err,
                pop1(stack),
                flush_op(buf, out).push(stop_tok(stack)),
            )
        } else {
            scan(f, i + 1, buf.push(c), in_str, in_rng, in_err, stack, out)
        }
    }
}

#[via_fn]
proof fn scan_dec(
    f: Seq<char>,
    i: int,
    buf: Seq<char>,
    in_str: bool,
    in_rng: bool,
    in_err: bool,
    stack: Seq<TokenS>,
    out: Seq<TokenS>,
) {
    if 0 <= i < f.len() {
        lemma_skip_spaces(f, i + 1);
    }
}

/// Whether a dropped white-space token stands between an operand-like end
/// and an operand-like start, and so means intersection.
pub open spec fn ws_keep(prev: TokenS, nxt: TokenS) -> bool {
    &&& {
        ||| prev.token_type == TokenType::Function && prev.sub_type == TokenSubType::Stop
        ||| prev.token_type == TokenType::Subexpression && prev.sub_type == TokenSubType::Stop
        ||| prev.token_type == TokenType::Operand
    }
    &&& {
        ||| nxt.token_type == TokenType::Function && nxt.sub_type == TokenSubType::Start
        ||| nxt.token_type == TokenType::Subexpression && nxt.sub_type == TokenSubType::Start
        ||| nxt.token_type == TokenType::Operand
    }
}

/// The white-space pass: every white-space token is dropped, except one
/// between operand-like neighbours, which becomes an intersection operator;
/// tokens at the stream's ends never survive.
pub open spec fn ws_pass(ts: Seq<TokenS>, i: int, out: Seq<TokenS>) -> Seq<TokenS>
    decreases ts.len() - i,
{
    if i < 0 || i >= ts.len() {
        out
    } else {
        let t = ts[i];
        if t.token_type == TokenType::Whitespace {
            if 0 < i < ts.len() - 1 && ws_keep(ts[i - 1], ts[i + 1]) {
                ws_pass(
                    ts,
                    i + 1,
                    out.push(tok(t.value, TokenType::OperatorInfix, TokenSubType::Intersection)),
                )
            } else {
                ws_pass(ts, i + 1, out)
            }
        } else {
            ws_pass(ts, i + 1, out.push(t))
        }
    }
}

/// Whether the token before a minus or plus sign makes that sign a binary
/// math operator rather than a prefix.
pub open spec fn prev_binds(p: TokenS) -> bool {
    ||| p.token_type == TokenType::Function && p.sub_type == TokenSubType::Stop
    ||| p.token_type == TokenType::Subexpression && p.sub_type == TokenSubType::Stop
    ||| p.token_type == TokenType::OperatorPostfix
    ||| p.token_type == TokenType::Operand
}

/// The classification of one token, given the already classified token
/// before it (none at the stream start).
pub open spec fn classify_tok(prev: Option<TokenS>, t: TokenS) -> TokenS {
    if t.token_type == TokenType::OperatorInfix && t.value == "-"@ {
        if prev is None {
            TokenS { token_type: TokenType::OperatorPrefix, ..t }
        } else if prev_binds(prev->0) {
            TokenS { sub_type: TokenSubType::Math, ..t }
        } else {
            TokenS { token_type: TokenType::OperatorPrefix, ..t }
        }
    } else if t.token_type == TokenType::OperatorInfix && t.value == "+"@ {
        if prev is None {
            TokenS { token_type: TokenType::Noop, ..t }
        } else if prev_binds(prev->0) {
            TokenS { sub_type: TokenSubType::Math, ..t }
        } else {
            TokenS { token_type: TokenType::Noop, ..t }
        }
    } else if t.token_type == TokenType::OperatorInfix && t.sub_type == TokenSubType::Nothing {
        if t.value.len() > 0 && (t.value[0] == '=' || t.value[0] == '>' || t.value[0] == '<') {
            TokenS { sub_type: TokenSubType::Logical, ..t }
        } else if t.value == "&"@ {
            TokenS { sub_type: TokenSubType::Concatenation, ..t }
        } else {
            TokenS { sub_type: TokenSubType::Math, ..t }
        }
    } else if t.token_type == TokenType::Operand && t.sub_type == TokenSubType::Nothing {
        if strutil::is_float_literal(t.value) {
            TokenS { sub_type: TokenSubType::Number, ..t }
        } else if strutil::spec_upper(t.value) == "TRUE"@ || strutil::spec_upper(t.value)
            == "FALSE"@ {
            TokenS { sub_type: TokenSubType::Logical, ..t }
        } else {
            TokenS { sub_type: TokenSubType::Text, ..t }
        }
    } else if t.token_type == TokenType::Function && t.value.len() > 0 && t.value[0] == '@' {
        TokenS { value: t.value.subrange(1, t.value.len() as int), ..t }
    } else {
        t
    }
}

/// The classification pass, walking left to right; the token before the one
/// in hand is read in its already classified form.
pub open spec fn cls_pass(ts: Seq<TokenS>, i: int, out: Seq<TokenS>) -> Seq<TokenS>
    decreases ts.len() - i,
{
    if i < 0 || i >= ts.len() {
        out
    } else {
        let prev = if i == 0 || out.len() == 0 {
            None
        } else {
            Some(out.last())
        };
        cls_pass(ts, i + 1, out.push(classify_tok(prev, ts[i])))
    }
}

/// The final pass: every Noop token is dropped.
pub open spec fn drop_noops(ts: Seq<TokenS>, i: int, out: Seq<TokenS>) -> Seq<TokenS>
    decreases ts.len() - i,
{
    if i < 0 || i >= ts.len() {
        out
    } else if ts[i].token_type == TokenType::Noop {
        drop_noops(ts, i + 1, out)
    } else {
        drop_noops(ts, i + 1, out.push(ts[i]))
    }
}

/// The leading equals sign a bare formula is given before scanning.
pub open spec fn prep(f: Seq<char>) -> Seq<char> {
    if f.len() > 0 && f[0] != '=' {
        seq!['='] + f
    } else {
        f
    }
}

/// The classified token stream of a formula: the raw scan (which skips the
/// leading equals sign), then white-space resolution, then classification,
/// then Noop elimination.
pub open spec fn spec_get_tokens(f: Seq<char>) -> Seq<TokenS> {
    let p1 = scan(
        prep(f),
        1,
        Seq::<char>::empty(),
        false,
        false,
        false,
        Seq::<TokenS>::empty(),
        Seq::<TokenS>::empty(),
    );
    let p2 = ws_pass(p1, 0, Seq::<TokenS>::empty());
    let p3 = cls_pass(p2, 0, Seq::<TokenS>::empty());
    drop_noops(p3, 0, Seq::<TokenS>::empty())
}

// ---------------------------------------------------------------------------
// Small executable mirrors of the model's predicates.
// ---------------------------------------------------------------------------

fn is_op_char_x(c: char) -> (r: bool)
    ensures
        r == is_op_char(c),
{
    c == '+' || c == '-' || c == '*' || c == '/' || c == '^' || c == '&' || c == '=' || c == '>'
        || c == '<'
}

fn is_cmp_pair_x(a: char, b: char) -> (r: bool)
    ensures
        r == is_cmp_pair(a, b),
{
    (a == '=' && b == '=') || (a == '>' && b == '=') || (a == '<' && b == '=') || (a == '<' && b
        == '>')
}

fn is_error_literal_x(s: &str) -> (r: bool)
    ensures
        r == spec_is_error_literal(s@),
{
    strutil::str_eq(s, "#NULL!") || strutil::str_eq(s, "#DIV/0!") || strutil::str_eq(s, "#VALUE!")
        || strutil::str_eq(s, "#REF!") || strutil::str_eq(s, "#NAME?") || strutil::str_eq(
        s,
        "#NUM!",
    ) || strutil::str_eq(s, "#N/A")
}

// ---------------------------------------------------------------------------
// The parser structure and the lexer.
// ---------------------------------------------------------------------------

/// The formula scanner and parser: the formula text as characters, the token
/// stream the scan produces, the stack of open scopes the scan keeps, and the
/// scanning position and modes.
pub struct Parser {
    formula: Vec<char>,
    tokens: Tokens,
    token_stack: Tokens,
    offset: usize,
    in_string: bool,
    in_path: bool,
    in_range: bool,
    in_error: bool,
}

impl Parser {
    /// The formula characters after trimming and the leading equals sign.
    pub closed spec fn spec_formula(&self) -> Seq<char> {
        self.formula@
    }

    /// The token stream held at the moment.
    pub closed spec fn toks(&self) -> Seq<TokenS> {
        self.tokens.toks()
    }

    /// The token cursor.
    pub closed spec fn tok_index(&self) -> int {
        self.tokens.spec_index()
    }

    /// The scanning position.
    pub closed spec fn spec_offset(&self) -> int {
        self.offset as int
    }

    /// The two token lists stay well formed.
    pub closed spec fn inv(&self) -> bool {
        &&& self.tokens.wf()
        &&& self.token_stack.wf()
    }

    pub fn new(formula: &str) -> (r: Parser)
        ensures
            r.inv(),
            r.spec_formula() == strutil::spec_trim(formula@),
            r.toks() == Seq::<TokenS>::empty(),
            r.spec_offset() == 0,
    {
        Parser {
            formula: strutil::trimmed_chars(formula),
            tokens: Tokens::new(),
            token_stack: Tokens::new(),
            offset: 0,
            in_string: false,
            in_path: false,
            in_range: false,
            in_error: false,
        }
    }

    /// The two characters at the scanning position, or the empty text when
    /// fewer than two remain.
    pub fn double_char(&self) -> (r: String)
        ensures
            self.spec_formula().len() >= self.spec_offset() + 2 ==> r@ == self.spec_formula()
                .subrange(self.spec_offset(), self.spec_offset() + 2),
            self.spec_formula().len() < self.spec_offset() + 2 ==> r@ == Seq::<char>::empty(),
    {
        let mut r = String::new();
        if self.formula.len() >= 2 && self.offset <= self.formula.len() - 2 {
            r.push(self.formula[self.offset]);
            r.push(self.formula[self.offset + 1]);
            proof {
                assert(r@ =~= self.spec_formula().subrange(
                    self.spec_offset(),
                    self.spec_offset() + 2,
                ));
            }
        }
        r
    }

    /// The low byte of the character at the scanning position.
    pub fn current_char(&self) -> (r: u8)
        requires
            self.spec_offset() < self.spec_formula().len(),
        ensures
            r == self.spec_formula()[self.spec_offset()] as u8,
    {
        self.formula[self.offset] as u8
    }

    /// Whether the scan has consumed the whole formula.
    pub fn eof(&self) -> (r: bool)
        ensures
            r == (self.spec_offset() >= self.spec_formula().len()),
    {
        self.offset >= self.formula.len()
    }

    /// Scans the formula into its classified token stream.
    pub fn tokenize(&mut self)
        requires
            old(self).inv(),
            old(self).spec_formula().len() < 0x0400_0000,
        ensures
            final(self).inv(),
            final(self).spec_formula() == prep(old(self).spec_formula()),
            final(self).toks() == spec_get_tokens(old(self).spec_formula()),
            final(self).toks().len() < 0x2000_0000,
            final(self).tok_index() == -1,
    {
        self.get_tokens();
    }

    /// The three lexing passes: the raw scan, the white-space pass, the
    /// classification pass and the Noop elimination, leaving the final
    /// stream in place with the cursor before its first token.
    #[verifier::rlimit(100)]
    pub fn get_tokens(&mut self)
        requires
            old(self).inv(),
            old(self).spec_formula().len() < 0x0400_0000,
        ensures
            final(self).inv(),
            final(self).spec_formula() == prep(old(self).spec_formula()),
            final(self).toks() == spec_get_tokens(old(self).spec_formula()),
            final(self).toks().len() < 0x2000_0000,
            final(self).tok_index() == -1,
    {
        if self.formula.len() > 0 && self.formula[0] != '=' {
            self.formula.insert(0, '=');
        }
        let ghost f = self.formula@;
        proof {
            assert(f == prep(old(self).spec_formula()));
        }
        self.offset = 1;
        self.in_string = false;
        self.in_range = false;
        self.in_error = false;
        let mut buf = String::new();
        let mut out = Tokens::new();
        let mut stack = Tokens::new();
        let ghost goal = scan(
            f,
            1,
            Seq::<char>::empty(),
            false,
            false,
            false,
            Seq::<TokenS>::empty(),
            Seq::<TokenS>::empty(),
        );
        while self.offset < self.formula.len()
            invariant
                self.formula@ == f,
                f.len() <= 0x0400_0000,
                self.offset <= f.len() || (self.offset == 1 && f.len() == 0),
                out.wf(),
                stack.wf(),
                out.spec_index() == -1,
                stack.spec_index() == -1,
                out.toks().len() + stack.toks().len() <= 5 * self.offset,
                scan(
                    f,
                    self.offset as int,
                    buf@,
                    self.in_string,
                    self.in_range,
                    self.in_error,
                    stack.toks(),
                    out.toks(),
                ) == goal,
            decreases f.len() - self.offset,
        {
            let c = self.formula[self.offset];
            if self.in_string {
                if c == '"' {
                    self.in_string = false;
                    out.add(buf, TokenType::Operand, TokenSubType::Text);
                    buf = String::new();
                } else {
                    buf.push(c);
                }
                self.offset = self.offset + 1;
            } else if self.in_range {
                buf.push(c);
                if c == ']' {
                    self.in_range = false;
                }
                self.offset = self.offset + 1;
            } else if self.in_error {
                buf.push(c);
                if is_error_literal_x(buf.as_str()) {
                    self.in_error = false;
                    out.add(buf, TokenType::Operand, TokenSubType::Error);
                    buf = String::new();
                }
                self.offset = self.offset + 1;
            } else if c == '"' {
                if !buf.as_str().is_empty() {
                    out.add(buf, TokenType::Unknown, TokenSubType::Nothing);
                }
                buf = String::new();
                self.in_string = true;
                self.offset = self.offset + 1;
            } else if c == '\'' {
                if !buf.as_str().is_empty() {
                    out.add(buf, TokenType::Unknown, TokenSubType::Nothing);
                }
                buf = String::new();
                self.offset = self.offset + 1;
            } else if c == '[' {
                self.in_range = true;
                buf.push(c);
                self.offset = self.offset + 1;
            } else if c == '#' {
                if !buf.as_str().is_empty() {
                    out.add(buf, TokenType::Unknown, TokenSubType::Nothing);
                }
                buf = String::new();
                self.in_error = true;
                buf.push('#');
                proof {
                    assert(buf@ =~= seq!['#']);
                }
                self.offset = self.offset + 1;
            } else if c == '{' {
                if !buf.as_str().is_empty() {
                    out.add(buf, TokenType::Unknown, TokenSubType::Nothing);
                }
                buf = String::new();
                let a = Token::new(
                    "ARRAY".to_owned(),
                    TokenType::Function,
                    TokenSubType::Start,
                );
                out.add_ref(&a);
                stack.push(a);
                let rw = Token::new(
                    "ARRAYROW".to_owned(),
                    TokenType::Function,
                    TokenSubType::Start,
                );
                out.add_ref(&rw);
                stack.push(rw);
                self.offset = self.offset + 1;
            } else if c == ';' {
                if !buf.as_str().is_empty() {
                    out.add(buf, TokenType::Operand, TokenSubType::Nothing);
                }
                buf = String::new();
                let st = stack.pop().unwrap();
                out.add_ref(&st);
                out.add(",".to_owned(), TokenType::Argument, TokenSubType::Nothing);
                self.offset = self.offset + 1;
            } else if c == '}' {
                if !buf.as_str().is_empty() {
                    out.add(buf, TokenType::Operand, TokenSubType::Nothing);
                }
                buf = String::new();
                let st = stack.pop().unwrap();
                out.add_ref(&st);
                let st2 = stack.pop().unwrap();
                out.add_ref(&st2);
                self.offset = self.offset + 1;
            } else if c == ' ' {
                if !buf.as_str().is_empty() {
                    out.add(buf, TokenType::Operand, TokenSubType::Nothing);
                }
                buf = String::new();
                out.add(String::new(), TokenType::Whitespace, TokenSubType::Nothing);
                let ghost start = self.offset + 1;
                self.offset = self.offset + 1;
                while self.offset < self.formula.len() && self.formula[self.offset] == ' '
                    invariant
                        self.formula@ == f,
                        !self.in_string,
                        !self.in_range,
                        !self.in_error,
                        start <= self.offset <= f.len(),
                        skip_spaces(f, start as int) == skip_spaces(f, self.offset as int),
                    decreases f.len() - self.offset,
                {
                    self.offset = self.offset + 1;
                }
                proof {
                    assert(skip_spaces(f, self.offset as int) == self.offset as int);
                }
            } else if self.offset + 1 < self.formula.len() && is_cmp_pair_x(
                c,
                self.formula[self.offset + 1],
            ) {
                if !buf.as_str().is_empty() {
                    out.add(buf, TokenType::Operand, TokenSubType::Nothing);
                }
                buf = String::new();
                let mut v = String::new();
                v.push(c);
                v.push(self.formula[self.offset + 1]);
                proof {
                    assert(v@ =~= seq![f[self.spec_offset()], f[self.spec_offset() + 1]]);
                }
                out.add(v, TokenType::OperatorInfix, TokenSubType::Logical);
                self.offset = self.offset + 2;
            } else if is_op_char_x(c) {
                if !buf.as_str().is_empty() {
                    out.add(buf, TokenType::Operand, TokenSubType::Nothing);
                }
                buf = String::new();
                let mut v = String::new();
                v.push(c);
                proof {
                    assert(v@ =~= seq![f[self.spec_offset()]]);
                }
                out.add(v, TokenType::OperatorInfix, TokenSubType::Nothing);
                self.offset = self.offset + 1;
            } else if c == '%' {
                if !buf.as_str().is_empty() {
                    out.add(buf, TokenType::Operand, TokenSubType::Nothing);
                }
                buf = String::new();
                let mut v = String::new();
                v.push(c);
                proof {
                    assert(v@ =~= seq![f[self.spec_offset()]]);
                }
                out.add(v, TokenType::OperatorPostfix, TokenSubType::Nothing);
                self.offset = self.offset + 1;
            } else if c == '(' {
                if !buf.as_str().is_empty() {
                    let up = strutil::upper_x(buf.as_str());
                    let t = Token::new(up, TokenType::Function, TokenSubType::Start);
                    out.add_ref(&t);
                    stack.push(t);
                } else {
                    let t = Token::new(String::new(), TokenType::Subexpression, TokenSubType::Start);
                    out.add_ref(&t);
                    stack.push(t);
                }
                buf = String::new();
                self.offset = self.offset + 1;
            } else if c == ',' {
                if !buf.as_str().is_empty() {
                    out.add(buf, TokenType::Operand, TokenSubType::Nothing);
                }
                buf = String::new();
                let top_is_function = *stack.tp() == TokenType::Function;
                if top_is_function {
                    out.add(",".to_owned(), TokenType::Argument, TokenSubType::Nothing);
                } else {
                    out.add(",".to_owned(), TokenType::OperatorInfix, TokenSubType::Union);
                }
                self.offset = self.offset + 1;
            } else if c == ')' {
                if !buf.as_str().is_empty() {
                    out.add(buf, TokenType::Operand, TokenSubType::Nothing);
                }
                buf = String::new();
                let st = stack.pop().unwrap();
                out.add_ref(&st);
                self.offset = self.offset + 1;
            } else {
                buf.push(c);
                self.offset = self.offset + 1;
            }
        }
        if !buf.as_str().is_empty() {
            out.add(buf, TokenType::Operand, TokenSubType::Nothing);
        }
        proof {
            assert(out.toks() == goal);
            assert(out.toks().len() < 0x2000_0000);
        }

        // White-space resolution.
        let n1 = out.len();
        let mut t2 = Tokens::new();
        let mut i: usize = 0;
        while i < n1
            invariant
                n1 == out.toks().len(),
                n1 < 0x2000_0000,
                out.wf(),
                i <= n1,
                t2.wf(),
                t2.spec_index() == -1,
                t2.toks().len() <= i,
                ws_pass(out.toks(), i as int, t2.toks()) == ws_pass(
                    out.toks(),
                    0,
                    Seq::<TokenS>::empty(),
                ),
            decreases n1 - i,
        {
            let t = out.get(i);
            if t.token_type == TokenType::Whitespace {
                if i > 0 && i + 1 < n1 {
                    let p = out.get(i - 1);
                    let nx = out.get(i + 1);
                    let pok = (p.token_type == TokenType::Function && p.sub_type
                        == TokenSubType::Stop) || (p.token_type == TokenType::Subexpression
                        && p.sub_type == TokenSubType::Stop) || p.token_type == TokenType::Operand;
                    let nok = (nx.token_type == TokenType::Function && nx.sub_type
                        == TokenSubType::Start) || (nx.token_type == TokenType::Subexpression
                        && nx.sub_type == TokenSubType::Start) || nx.token_type
                        == TokenType::Operand;
                    if pok && nok {
                        t2.add(
                            t.value.clone(),
                            TokenType::OperatorInfix,
                            TokenSubType::Intersection,
                        );
                    }
                }
            } else {
                t2.add_ref(t);
            }
            i = i + 1;
        }

        // Classification.
        let n2 = t2.len();
        let mut t3 = Tokens::new();
        let mut i: usize = 0;
        while i < n2
            invariant
                n2 == t2.toks().len(),
                n2 < 0x2000_0000,
                t2.wf(),
                i <= n2,
                t3.wf(),
                t3.spec_index() == -1,
                t3.toks().len() == i,
                cls_pass(t2.toks(), i as int, t3.toks()) == cls_pass(
                    t2.toks(),
                    0,
                    Seq::<TokenS>::empty(),
                ),
            decreases n2 - i,
        {
            let t = t2.get(i).clone();
            let nt: Token;
            if t.token_type == TokenType::OperatorInfix && strutil::str_eq(t.value.as_str(), "-") {
                if i == 0 {
                    nt = Token::new(t.value, TokenType::OperatorPrefix, t.sub_type);
                } else {
                    let p = t3.get(i - 1);
                    let binds = (p.token_type == TokenType::Function && p.sub_type
                        == TokenSubType::Stop) || (p.token_type == TokenType::Subexpression
                        && p.sub_type == TokenSubType::Stop) || p.token_type
                        == TokenType::OperatorPostfix || p.token_type == TokenType::Operand;
                    if binds {
                        nt = Token::new(t.value, t.token_type, TokenSubType::Math);
                    } else {
                        nt = Token::new(t.value, TokenType::OperatorPrefix, t.sub_type);
                    }
                }
            } else if t.token_type == TokenType::OperatorInfix && strutil::str_eq(
                t.value.as_str(),
                "+",
            ) {
                if i == 0 {
                    nt = Token::new(t.value, TokenType::Noop, t.sub_type);
                } else {
                    let p = t3.get(i - 1);
                    let binds = (p.token_type == TokenType::Function && p.sub_type
                        == TokenSubType::Stop) || (p.token_type == TokenType::Subexpression
                        && p.sub_type == TokenSubType::Stop) || p.token_type
                        == TokenType::OperatorPostfix || p.token_type == TokenType::Operand;
                    if binds {
                        nt = Token::new(t.value, t.token_type, TokenSubType::Math);
                    } else {
                        nt = Token::new(t.value, TokenType::Noop, t.sub_type);
                    }
                }
            } else if t.token_type == TokenType::OperatorInfix && t.sub_type
                == TokenSubType::Nothing {
                let first_logical = if t.value.as_str().is_empty() {
                    false
                } else {
                    let c0 = t.value.as_str().get_char(0);
                    c0 == '=' || c0 == '>' || c0 == '<'
                };
                if first_logical {
                    nt = Token::new(t.value, t.token_type, TokenSubType::Logical);
                } else if strutil::str_eq(t.value.as_str(), "&") {
                    nt = Token::new(t.value, t.token_type, TokenSubType::Concatenation);
                } else {
                    nt = Token::new(t.value, t.token_type, TokenSubType::Math);
                }
            } else if t.token_type == TokenType::Operand && t.sub_type == TokenSubType::Nothing {
                if strutil::is_float_literal_x(t.value.as_str()) {
                    nt = Token::new(t.value, t.token_type, TokenSubType::Number);
                } else {
                    let up = strutil::upper_x(t.value.as_str());
                    if strutil::str_eq(up.as_str(), "TRUE") || strutil::str_eq(
                        up.as_str(),
                        "FALSE",
                    ) {
                        nt = Token::new(t.value, t.token_type, TokenSubType::Logical);
                    } else {
                        nt = Token::new(t.value, t.token_type, TokenSubType::Text);
                    }
                }
            } else if t.token_type == TokenType::Function && !t.value.as_str().is_empty() && t.value
                .as_str().get_char(0) == '@' {
                let n = t.value.as_str().unicode_len();
                let tail = t.value.as_str().substring_char(1, n).to_owned();
                nt = Token::new(tail, t.token_type, t.sub_type);
            } else {
                nt = t;
            }
            t3.add_ref(&nt);
            i = i + 1;
        }

        // Noop elimination.
        let n3 = t3.len();
        let mut t4 = Tokens::new();
        let mut i: usize = 0;
        while i < n3
            invariant
                n3 == t3.toks().len(),
                n3 < 0x2000_0000,
                t3.wf(),
                i <= n3,
                t4.wf(),
                t4.spec_index() == -1,
                t4.toks().len() <= i,
                drop_noops(t3.toks(), i as int, t4.toks()) == drop_noops(
                    t3.toks(),
                    0,
                    Seq::<TokenS>::empty(),
                ),
            decreases n3 - i,
        {
            let t = t3.get(i);
            if !(t.token_type == TokenType::Noop) {
                t4.add_ref(t);
            }
            i = i + 1;
        }
        self.tokens = t4;
        self.token_stack = stack;
    }
}

// ---------------------------------------------------------------------------
// The parsing model: precedence climbing over the token stream. Each spec
// function mirrors its executable twin and carries a gas bound that the
// executable parser also enforces as an explicit recursion-depth limit, so
// that even a malformed stream parses to a tree instead of overrunning the
// stack.
// ---------------------------------------------------------------------------

/// The cursor after one step: it saturates at the last token.
pub open spec fn mv(i: int, n: int) -> int {
    if i < n - 1 {
        i + 1
    } else {
        i
    }
}

/// The literal value an operand token parses to. The special infinity and
/// NaN words denote their fixed bit patterns; other numeric texts go to the
/// decimal conversion, whose scanner asks for a bounded length.
pub open spec fn new_value_s(t: TokenS) -> ValueS {
    if t.sub_type == TokenSubType::Number {
        if strutil::is_special_float(t.value) {
            ValueS::Number(num::special_float_bits(t.value))
        } else if t.value.len() < 0x0400_0000 {
            match num::number_bits(t.value) {
                Some(b) => ValueS::Number(b),
                None => ValueS::Error("#N/A"@),
            }
        } else {
            ValueS::Error("#N/A"@)
        }
    } else if t.sub_type == TokenSubType::Logical {
        if t.value == "true"@ {
            ValueS::Boolean(true)
        } else if t.value == "false"@ {
            ValueS::Boolean(false)
        } else {
            ValueS::Error("#N/A"@)
        }
    } else if t.sub_type == TokenSubType::Text {
        ValueS::String(t.value)
    } else if t.sub_type == TokenSubType::Error {
        ValueS::Error(t.value)
    } else {
        ValueS::Unknown
    }
}

/// An absent subtree becomes an explicit error leaf.
pub open spec fn unwrap_or_err(e: Option<ExprS>) -> ExprS {
    match e {
        Some(x) => x,
        None => ExprS::Literal(ValueS::Error("#N/A"@)),
    }
}

/// One primary: a function call, an operand, a parenthesized subexpression,
/// or a unary minus; anything else is an error leaf left in place.
pub open spec fn sp_primary(t: Seq<TokenS>, i: int, g: nat) -> (Option<ExprS>, int)
    decreases g, t.len() - i, 1int,
{
    if g == 0 || !(0 <= i < t.len()) {
        (Some(ExprS::Literal(ValueS::Error("#N/A"@))), i)
    } else {
        let tk = t[i];
        if tk.token_type == TokenType::Function {
            let (e, j) = sp_function(t, i, (g - 1) as nat);
            (Some(e), j)
        } else if tk.token_type == TokenType::Operand {
            (Some(ExprS::Literal(new_value_s(tk))), mv(i, t.len() as int))
        } else if tk.token_type == TokenType::Subexpression {
            if i == t.len() - 1 {
                (Some(ExprS::Literal(ValueS::Error("#N/A"@))), i)
            } else {
                let (e, j) = sp_expression(t, i + 1, (g - 1) as nat);
                if !(0 <= j < t.len()) || t[j].token_type != TokenType::Subexpression {
                    (Some(ExprS::Literal(ValueS::Error("#N/A"@))), j)
                } else {
                    (Some(unwrap_or_err(e)), mv(j, t.len() as int))
                }
            }
        } else if tk.token_type == TokenType::OperatorPrefix || tk.token_type
            == TokenType::OperatorInfix {
            if i == t.len() - 1 {
                (None, i)
            } else {
                let (r, j) = sp_primary(t, i + 1, (g - 1) as nat);
                (
                    Some(
                        ExprS::Operator {
                            op: Some("-"@),
                            left: Box::new(ExprS::Literal(ValueS::Empty)),
                            right: match r {
                                Some(x) => Some(Box::new(x)),
                                None => None,
                            },
                        },
                    ),
                    j,
                )
            }
        } else {
            (Some(ExprS::Literal(ValueS::Error("#N/A"@))), i)
        }
    }
}

/// A function call: the name, then comma-separated argument expressions up
/// to the matching Stop token.
pub open spec fn sp_function(t: Seq<TokenS>, i: int, g: nat) -> (ExprS, int)
    decreases g, t.len() - i, 0int,
{
    if g == 0 || !(0 <= i < t.len()) {
        (ExprS::Literal(ValueS::Error("#N/A"@)), i)
    } else {
        let name = t[i].value;
        if i == t.len() - 1 {
            (ExprS::Function { function: name, arguments: Seq::<ExprS>::empty() }, i)
        } else if t[i + 1].sub_type == TokenSubType::Stop {
            (
                ExprS::Function { function: name, arguments: Seq::<ExprS>::empty() },
                mv(i + 1, t.len() as int),
            )
        } else {
            let (e0, j0) = sp_expression(t, i + 1, (g - 1) as nat);
            sp_fn_loop(t, j0, (g - 1) as nat, name, seq![unwrap_or_err(e0)])
        }
    }
}

/// The argument loop of a function call: separators are skipped, every other
/// position parses as a further argument, until the Stop token or the end of
/// the stream.
pub open spec fn sp_fn_loop(t: Seq<TokenS>, j: int, g: nat, name: Seq<char>, args: Seq<ExprS>) -> (
    ExprS,
    int,
)
    decreases g, t.len() - j, 2int,
{
    if !(0 <= j < t.len()) {
        (ExprS::Function { function: name, arguments: args }, j)
    } else if t[j].sub_type == TokenSubType::Stop || j >= t.len() - 1 {
        (ExprS::Function { function: name, arguments: args }, mv(j, t.len() as int))
    } else if g == 0 {
        (ExprS::Function { function: name, arguments: args }, j)
    } else if t[j + 1].token_type == TokenType::Argument {
        sp_fn_loop(t, j + 1, g, name, args)
    } else {
        let (e, k) = sp_expression(t, j + 1, (g - 1) as nat);
        sp_fn_loop(t, k, (g - 1) as nat, name, args.push(unwrap_or_err(e)))
    }
}

/// A full expression: one primary, then the precedence-climbing loop.
pub open spec fn sp_expression(t: Seq<TokenS>, i: int, g: nat) -> (Option<ExprS>, int)
    decreases g, t.len() - i, 2int,
{
    if g == 0 {
        (Some(ExprS::Literal(ValueS::Error("#N/A"@))), i)
    } else {
        let (l, j) = sp_primary(t, i, (g - 1) as nat);
        sp_build(t, j, 0, l, (g - 1) as nat)
    }
}

/// The precedence-climbing loop: while the token in hand is an operator of
/// at least the minimum strength, take it, parse the right operand, let any
/// stronger operator bind tighter first, and fold leftwards. A missing right
/// operand ends the loop with the left side kept as it stands.
pub open spec fn sp_build(t: Seq<TokenS>, j: int, p: int, left: Option<ExprS>, g: nat) -> (
    Option<ExprS>,
    int,
)
    decreases g, t.len() - j, 0int,
{
    if g == 0 || !(0 <= j < t.len()) {
        (left, j)
    } else if spec_precedence(t[j].value) < p {
        (left, j)
    } else if j >= t.len() - 1 {
        (left, j)
    } else {
        let op = t[j].value;
        let p_op = spec_precedence(op);
        let (r0, k) = sp_primary(t, j + 1, (g - 1) as nat);
        if r0 is None {
            (left, k)
        } else if left is None {
            (None, k)
        } else {
            let np = if 0 <= k < t.len() {
                spec_precedence(t[k].value)
            } else {
                -1
            };
            if p_op < np {
                let (r1, k1) = sp_build(t, k, p_op + 1, r0, (g - 1) as nat);
                if r1 is None {
                    (left, k1)
                } else {
                    sp_build(
                        t,
                        k1,
                        p,
                        Some(
                            ExprS::Operator {
                                op: Some(op),
                                left: Box::new(left->0),
                                right: Some(Box::new(r1->0)),
                            },
                        ),
                        (g - 1) as nat,
                    )
                }
            } else {
                sp_build(
                    t,
                    k,
                    p,
                    Some(
                        ExprS::Operator {
                            op: Some(op),
                            left: Box::new(left->0),
                            right: Some(Box::new(r0->0)),
                        },
                    ),
                    (g - 1) as nat,
                )
            }
        }
    }
}

/// What a token stream parses to: an error leaf for the empty stream, and
/// otherwise one full expression read from the front.
pub open spec fn spec_parse(ts: Seq<TokenS>) -> ExprS {
    if ts.len() == 0 {
        ExprS::Literal(ValueS::Error("#N/A"@))
    } else {
        let (e, j) = sp_expression(ts, 0, (4 * ts.len() + 16) as nat);
        unwrap_or_err(e)
    }
}

impl Parser {
    /// The literal value an operand token stands for.
    fn new_value(t: &Token) -> (r: Value)
        ensures
            vview(r) == new_value_s(t@),
    {
        if t.sub_type == TokenSubType::Number {
            if strutil::is_special_float_x(t.value.as_str()) {
                Value::Number(num::special_float_bits_x(t.value.as_str()))
            } else if t.value.as_str().unicode_len() < 0x0400_0000 {
                match num::f64_parse(t.value.as_str()) {
                    Some(b) => Value::Number(b),
                    None => Value::Error("#N/A".to_owned()),
                }
            } else {
                Value::Error("#N/A".to_owned())
            }
        } else if t.sub_type == TokenSubType::Logical {
            if strutil::str_eq(t.value.as_str(), "true") {
                Value::Boolean(true)
            } else if strutil::str_eq(t.value.as_str(), "false") {
                Value::Boolean(false)
            } else {
                Value::Error("#N/A".to_owned())
            }
        } else if t.sub_type == TokenSubType::Text {
            Value::String(t.value.clone())
        } else if t.sub_type == TokenSubType::Error {
            Value::Error(t.value.clone())
        } else {
            Value::Unknown
        }
    }

    /// One primary out of the stream.
    fn parse_primary(&mut self, depth: usize) -> (r: Option<Expression>)
        requires
            old(self).inv(),
            old(self).toks().len() < 0x2000_0000,
            0 <= old(self).tok_index() < old(self).toks().len(),
        ensures
            final(self).inv(),
            final(self).toks() == old(self).toks(),
            0 <= final(self).tok_index() < final(self).toks().len(),
            (eview_opt(r), final(self).tok_index()) == sp_primary(
                old(self).toks(),
                old(self).tok_index(),
                depth as nat,
            ),
        decreases depth, old(self).toks().len() - old(self).tok_index(), 1int,
    {
        let ghost t = self.toks();
        if depth == 0 {
            return Some(Expression::Literal(Value::Error("#N/A".to_owned())));
        }
        let cur = self.tokens.current();
        if cur.token_type == TokenType::Function {
            Some(self.parse_function_expression(depth - 1))
        } else if cur.token_type == TokenType::Operand {
            let e = Expression::Literal(Parser::new_value(&cur));
            self.tokens.move_next();
            Some(e)
        } else if cur.token_type == TokenType::Subexpression {
            if self.tokens.eof() {
                return Some(Expression::Literal(Value::Error("#N/A".to_owned())));
            }
            self.tokens.move_next();
            let e = self.parse_expression(depth - 1);
            let back = self.tokens.current();
            if back.token_type != TokenType::Subexpression {
                return Some(Expression::Literal(Value::Error("#N/A".to_owned())));
            }
            self.tokens.move_next();
            match e {
                Some(x) => Some(x),
                None => Some(Expression::Literal(Value::Error("#N/A".to_owned()))),
            }
        } else if cur.token_type == TokenType::OperatorPrefix || cur.token_type
            == TokenType::OperatorInfix {
            if self.tokens.eof() {
                return None;
            }
            self.tokens.move_next();
            let right = self.parse_primary(depth - 1);
            proof {
                assert(eview(Expression::Literal(Value::Empty)) == ExprS::Literal(ValueS::Empty));
            }
            Some(
                Expression::Operator {
                    op: Some("-".to_owned()),
                    left: Box::new(Expression::Literal(Value::Empty)),
                    right: Box::new(right),
                },
            )
        } else {
            Some(Expression::Literal(Value::Error("#N/A".to_owned())))
        }
    }

    /// A function call with its argument list.
    fn parse_function_expression(&mut self, depth: usize) -> (r: Expression)
        requires
            old(self).inv(),
            old(self).toks().len() < 0x2000_0000,
            0 <= old(self).tok_index() < old(self).toks().len(),
        ensures
            final(self).inv(),
            final(self).toks() == old(self).toks(),
            0 <= final(self).tok_index() < final(self).toks().len(),
            (eview(r), final(self).tok_index()) == sp_function(
                old(self).toks(),
                old(self).tok_index(),
                depth as nat,
            ),
        decreases depth, old(self).toks().len() - old(self).tok_index(), 0int,
    {
        let ghost t = self.toks();
        if depth == 0 {
            return Expression::Literal(Value::Error("#N/A".to_owned()));
        }
        let cur = self.tokens.current();
        let name = cur.value;
        if self.tokens.eof() {
            let r = Expression::Function { function: name, arguments: Vec::new() };
            proof {
                assert(eview(r)->Function_arguments =~= Seq::<ExprS>::empty());
            }
            return r;
        }
        self.tokens.move_next();
        let c2 = self.tokens.current();
        if c2.sub_type == TokenSubType::Stop {
            self.tokens.move_next();
            let r = Expression::Function { function: name, arguments: Vec::new() };
            proof {
                assert(eview(r)->Function_arguments =~= Seq::<ExprS>::empty());
            }
            return r;
        }
        let e0 = self.parse_expression(depth - 1);
        let mut exps: Vec<Expression> = Vec::new();
        exps.push(
            match e0 {
                Some(x) => x,
                None => Expression::Literal(Value::Error("#N/A".to_owned())),
            },
        );
        proof {
            assert(eviews(exps@) =~= seq![unwrap_or_err(eview_opt(e0))]);
        }
        self.parse_fn_args(depth - 1, &mut exps, Ghost(name@));
        let r = Expression::Function { function: name, arguments: exps };
        proof {
            assert(eview(r)->Function_arguments =~= eviews(exps@));
        }
        r
    }

    /// The rest of a function's arguments, up to the Stop token.
    fn parse_fn_args(
        &mut self,
        depth: usize,
        exps: &mut Vec<Expression>,
        Ghost(name): Ghost<Seq<char>>,
    )
        requires
            old(self).inv(),
            old(self).toks().len() < 0x2000_0000,
            0 <= old(self).tok_index() < old(self).toks().len(),
        ensures
            final(self).inv(),
            final(self).toks() == old(self).toks(),
            0 <= final(self).tok_index() < final(self).toks().len(),
            sp_fn_loop(
                old(self).toks(),
                old(self).tok_index(),
                depth as nat,
                name,
                eviews(old(exps)@),
            ) == (
                ExprS::Function { function: name, arguments: eviews(final(exps)@) },
                final(self).tok_index(),
            ),
        decreases depth, old(self).toks().len() - old(self).tok_index(), 2int,
    {
        let ghost t = self.toks();
        let cur = self.tokens.current();
        if cur.sub_type == TokenSubType::Stop || self.tokens.eof() {
            self.tokens.move_next();
            return ;
        }
        if depth == 0 {
            return ;
        }
        self.tokens.move_next();
        let c2 = self.tokens.current();
        if c2.token_type == TokenType::Argument {
            self.parse_fn_args(depth, exps, Ghost(name));
            return ;
        }
        let e = self.parse_expression(depth - 1);
        let ghost before = eviews(exps@);
        exps.push(
            match e {
                Some(x) => x,
                None => Expression::Literal(Value::Error("#N/A".to_owned())),
            },
        );
        proof {
            assert(eviews(exps@) =~= before.push(unwrap_or_err(eview_opt(e))));
        }
        self.parse_fn_args(depth - 1, exps, Ghost(name));
    }

    /// One full expression out of the stream.
    fn parse_expression(&mut self, depth: usize) -> (r: Option<Expression>)
        requires
            old(self).inv(),
            old(self).toks().len() < 0x2000_0000,
            0 <= old(self).tok_index() < old(self).toks().len(),
        ensures
            final(self).inv(),
            final(self).toks() == old(self).toks(),
            0 <= final(self).tok_index() < final(self).toks().len(),
            (eview_opt(r), final(self).tok_index()) == sp_expression(
                old(self).toks(),
                old(self).tok_index(),
                depth as nat,
            ),
        decreases depth, old(self).toks().len() - old(self).tok_index(), 2int,
    {
        if depth == 0 {
            return Some(Expression::Literal(Value::Error("#N/A".to_owned())));
        }
        let left = self.parse_primary(depth - 1);
        self.build_expression_tree(0, left, depth - 1)
    }

    /// The precedence-climbing loop over binary operators.
    fn build_expression_tree(&mut self, p: i8, left: Option<Expression>, depth: usize) -> (r:
        Option<Expression>)
        requires
            old(self).inv(),
            old(self).toks().len() < 0x2000_0000,
            0 <= old(self).tok_index() < old(self).toks().len(),
        ensures
            final(self).inv(),
            final(self).toks() == old(self).toks(),
            0 <= final(self).tok_index() < final(self).toks().len(),
            (eview_opt(r), final(self).tok_index()) == sp_build(
                old(self).toks(),
                old(self).tok_index(),
                p as int,
                eview_opt(left),
                depth as nat,
            ),
        decreases depth, old(self).toks().len() - old(self).tok_index(), 0int,
    {
        if depth == 0 {
            return left;
        }
        let cur = self.tokens.current();
        let p_op = crate::exp::get_precedence(cur.value.as_str());
        if p_op < p {
            return left;
        }
        if self.tokens.eof() {
            return left;
        }
        let op = cur.value;
        self.tokens.move_next();
        let right = self.parse_primary(depth - 1);
        let rx = match right {
            Some(x) => x,
            None => {
                return left;
            },
        };
        let lx = match left {
            Some(x) => x,
            None => {
                return None;
            },
        };
        let after = self.tokens.current();
        let np = crate::exp::get_precedence(after.value.as_str());
        if p_op < np {
            proof {
                assert(p_op as int == spec_precedence(op@));
                assert(p_op < 41);
            }
            let r1 = self.build_expression_tree(p_op + 1, Some(rx), depth - 1);
            match r1 {
                Some(r1x) => {
                    let combined = Expression::Operator {
                        op: Some(op),
                        left: Box::new(lx),
                        right: Box::new(Some(r1x)),
                    };
                    self.build_expression_tree(p, Some(combined), depth - 1)
                },
                None => Some(lx),
            }
        } else {
            let combined = Expression::Operator {
                op: Some(op),
                left: Box::new(lx),
                right: Box::new(Some(rx)),
            };
            self.build_expression_tree(p, Some(combined), depth - 1)
        }
    }

    /// Parses the token stream into an expression tree. The empty stream
    /// parses to an error leaf, and a bounded recursion depth turns overly
    /// nested input into error leaves instead of unbounded recursion.
    pub fn parse(&mut self) -> (r: Expression)
        requires
            old(self).inv(),
            old(self).toks().len() < 0x2000_0000,
        ensures
            final(self).inv(),
            final(self).toks() == old(self).toks(),
            eview(r) == spec_parse(old(self).toks()),
    {
        self.tokens.reset();
        let n = self.tokens.len();
        if n == 0 {
            return Expression::Literal(Value::Error("#N/A".to_owned()));
        }
        self.tokens.move_next();
        let e = self.parse_expression(4 * n + 16);
        match e {
            Some(x) => x,
            None => Expression::Literal(Value::Error("#N/A".to_owned())),
        }
    }
}

// ---------------------------------------------------------------------------
// Rendering the token stream back to text.
// ---------------------------------------------------------------------------

/// The text one token contributes to the rendered formula: scope tokens
/// render as parentheses (a function name keeps its name before its
/// parenthesis), text operands regain their quotes, an intersection is a
/// space, and every other token is its own text.
pub open spec fn render_tok(t: TokenS) -> Seq<char> {
    if t.token_type == TokenType::Function && t.sub_type == TokenSubType::Start {
        t.value + "("@
    } else if t.token_type == TokenType::Function && t.sub_type == TokenSubType::Stop {
        ")"@
    } else if t.token_type == TokenType::Subexpression && t.sub_type == TokenSubType::Start {
        "("@
    } else if t.token_type == TokenType::Subexpression && t.sub_type == TokenSubType::Stop {
        ")"@
    } else if t.token_type == TokenType::Operand && t.sub_type == TokenSubType::Text {
        "\""@ + t.value + "\""@
    } else if t.token_type == TokenType::OperatorInfix && t.sub_type == TokenSubType::Intersection {
        " "@
    } else {
        t.value
    }
}

/// The rendered formula: each token's contribution in order.
pub open spec fn spec_render(ts: Seq<TokenS>) -> Seq<char>
    decreases ts.len(),
{
    if ts.len() == 0 {
        Seq::<char>::empty()
    } else {
        spec_render(ts.drop_last()) + render_tok(ts.last())
    }
}

/// The name a token type prints under.
pub open spec fn tt_text(t: TokenType) -> Seq<char> {
    match t {
        TokenType::Noop => "Noop"@,
        TokenType::Operand => "Operand"@,
        TokenType::Function => "Function"@,
        TokenType::Subexpression => "Subexpression"@,
        TokenType::Argument => "Argument"@,
        TokenType::OperatorPrefix => "OperatorPrefix"@,
        TokenType::OperatorInfix => "OperatorInfix"@,
        TokenType::OperatorPostfix => "OperatorPostfix"@,
        TokenType::Whitespace => "Whitespace"@,
        TokenType::Unknown => "Unknown"@,
    }
}

/// The name a token sub-type prints under.
pub open spec fn st_text(t: TokenSubType) -> Seq<char> {
    match t {
        TokenSubType::Nothing => "Nothing"@,
        TokenSubType::Start => "Start"@,
        TokenSubType::Stop => "Stop"@,
        TokenSubType::Text => "Text"@,
        TokenSubType::Number => "Number"@,
        TokenSubType::Logical => "Logical"@,
        TokenSubType::Error => "Error"@,
        TokenSubType::Math => "Math"@,
        TokenSubType::Concatenation => "Concatenation"@,
        TokenSubType::Intersection => "Intersection"@,
        TokenSubType::Union => "Union"@,
    }
}

/// The given number of tab characters.
pub open spec fn tabs(n: int) -> Seq<char>
    decreases n,
{
    if n <= 0 {
        Seq::<char>::empty()
    } else {
        tabs(n - 1) + "\t"@
    }
}

/// The indented dump of the stream from position i on: each token on its
/// own line with its two tags, the indent falling before a Stop token and
/// rising after a Start token.
pub open spec fn spec_pretty(ts: Seq<TokenS>, i: int, ind: int, acc: Seq<char>) -> Seq<char>
    decreases ts.len() - i,
{
    if i < 0 || i >= ts.len() {
        acc
    } else {
        let t = ts[i];
        let ind1 = if t.sub_type == TokenSubType::Stop {
            ind - 1
        } else {
            ind
        };
        let line = acc + tabs(ind1) + " "@ + t.value + " <"@ + tt_text(t.token_type) + "> <"@
            + st_text(t.sub_type) + "> \n"@;
        let ind2 = if t.sub_type == TokenSubType::Start {
            ind1 + 1
        } else {
            ind1
        };
        spec_pretty(ts, i + 1, ind2, line)
    }
}

impl Parser {

    /// The name a token type prints under.
    fn tt_text_x(t: TokenType) -> (r: &'static str)
        ensures
            r@ == tt_text(t),
    {
        match t {
            TokenType::Noop => "Noop",
            TokenType::Operand => "Operand",
            TokenType::Function => "Function",
            TokenType::Subexpression => "Subexpression",
            TokenType::Argument => "Argument",
            TokenType::OperatorPrefix => "OperatorPrefix",
            TokenType::OperatorInfix => "OperatorInfix",
            TokenType::OperatorPostfix => "OperatorPostfix",
            TokenType::Whitespace => "Whitespace",
            TokenType::Unknown => "Unknown",
        }
    }

    /// The name a token sub-type prints under.
    fn st_text_x(t: TokenSubType) -> (r: &'static str)
        ensures
            r@ == st_text(t),
    {
        match t {
            TokenSubType::Nothing => "Nothing",
            TokenSubType::Start => "Start",
            TokenSubType::Stop => "Stop",
            TokenSubType::Text => "Text",
            TokenSubType::Number => "Number",
            TokenSubType::Logical => "Logical",
            TokenSubType::Error => "Error",
            TokenSubType::Math => "Math",
            TokenSubType::Concatenation => "Concatenation",
            TokenSubType::Intersection => "Intersection",
            TokenSubType::Union => "Union",
        }
    }

    /// The indented dump of the classified token stream, one line per token.
    pub fn pretty(&self) -> (r: String)
        requires
            self.inv(),
        ensures
            r@ == spec_pretty(self.toks(), 0, 0, Seq::<char>::empty()),
    {
        let ghost ts = self.toks();
        proof {
            self.tokens.lemma_len_bound();
        }
        let n = self.tokens.len();
        let mut output = String::new();
        let mut indent: i64 = 0;
        let mut i: usize = 0;
        while i < n
            invariant
                self.inv(),
                ts == self.toks(),
                n == ts.len(),
                n < 0x4000_0000,
                i <= n,
                -(i as int) <= indent as int <= i as int,
                spec_pretty(ts, i as int, indent as int, output@) == spec_pretty(
                    ts,
                    0,
                    0,
                    Seq::<char>::empty(),
                ),
            decreases n - i,
        {
            let item = self.tokens.get(i);
            if item.sub_type == TokenSubType::Stop {
                indent = indent - 1;
            }
            let ghost ind1 = indent as int;
            let ghost base = output@;
            proof {
                assert(base + tabs(0) =~= base);
            }
            let mut j: i64 = 0;
            while j < indent
                invariant
                    0 <= j,
                    j <= indent || j == 0,
                    indent as int == ind1,
                    output@ == base + tabs(j as int),
                decreases indent - j,
            {
                output.append("\t");
                proof {
                    assert(tabs(j as int + 1) == tabs(j as int) + "\t"@);
                    assert(base + tabs(j as int) + "\t"@ =~= base + (tabs(j as int) + "\t"@));
                }
                j = j + 1;
            }
            proof {
                if indent <= 0 {
                    assert(tabs(ind1) =~= Seq::<char>::empty());
                    assert(output@ =~= base + tabs(ind1));
                }
            }
            output.append(" ");
            output.append(item.value.as_str());
            output.append(" <");
            output.append(Self::tt_text_x(item.token_type));
            output.append("> <");
            output.append(Self::st_text_x(item.sub_type));
            output.append("> \n");
            proof {
                assert(output@ =~= base + tabs(ind1) + " "@ + item.value@ + " <"@ + tt_text(
                    item.token_type,
                ) + "> <"@ + st_text(item.sub_type) + "> \n"@);
                assert(item@ == ts[i as int]);
            }
            if item.sub_type == TokenSubType::Start {
                indent = indent + 1;
            }
            i = i + 1;
        }
        output
    }

    /// The formula text the classified token stream renders back to.
    pub fn render(&self) -> (r: String)
        requires
            self.inv(),
        ensures
            r@ == spec_render(self.toks()),
    {
        let ghost ts = self.toks();
        let n = self.tokens.len();
        let mut output = String::new();
        let mut i: usize = 0;
        while i < n
            invariant
                self.inv(),
                ts == self.toks(),
                n == ts.len(),
                i <= n,
                output@ == spec_render(ts.take(i as int)),
            decreases n - i,
        {
            let item = self.tokens.get(i);
            if item.token_type == TokenType::Function && item.sub_type == TokenSubType::Start {
                output.append(item.value.as_str());
                output.append("(");
            } else if item.token_type == TokenType::Function && item.sub_type
                == TokenSubType::Stop {
                output.append(")");
            } else if item.token_type == TokenType::Subexpression && item.sub_type
                == TokenSubType::Start {
                output.append("(");
            } else if item.token_type == TokenType::Subexpression && item.sub_type
                == TokenSubType::Stop {
                output.append(")");
            } else if item.token_type == TokenType::Operand && item.sub_type
                == TokenSubType::Text {
                output.append("\"");
                output.append(item.value.as_str());
                output.append("\"");
            } else if item.token_type == TokenType::OperatorInfix && item.sub_type
                == TokenSubType::Intersection {
                output.append(" ");
            } else {
                output.append(item.value.as_str());
            }
            proof {
                assert(ts.take(i + 1 as int).drop_last() =~= ts.take(i as int));
                assert(ts.take(i + 1 as int).last() == ts[i as int]);
                assert(output@ =~= spec_render(ts.take(i + 1 as int)));
            }
            i = i + 1;
        }
        proof {
            assert(ts.take(n as int) =~= ts);
        }
        output
    }

}

/// Operator precedence is respected: in a stream that reads operand, plus,
/// operand, times, operand, the multiplication binds its two operands first
/// and the addition takes the product as its right side, whatever the three
/// operand tokens hold, as long as the last one's text is no operator.
pub proof fn lemma_precedence_respected(ta: TokenS, tb: TokenS, tc: TokenS)
    requires
        ta.token_type == TokenType::Operand,
        tb.token_type == TokenType::Operand,
        tc.token_type == TokenType::Operand,
        spec_precedence(tc.value) == -1,
    ensures
        spec_parse(
            seq![
                ta,
                tok("+"@, TokenType::OperatorInfix, TokenSubType::Math),
                tb,
                tok("*"@, TokenType::OperatorInfix, TokenSubType::Math),
                tc,
            ],
        ) == (ExprS::Operator {
            op: Some("+"@),
            left: Box::new(ExprS::Literal(new_value_s(ta))),
            right: Some(
                Box::new(
                    ExprS::Operator {
                        op: Some("*"@),
                        left: Box::new(ExprS::Literal(new_value_s(tb))),
                        right: Some(Box::new(ExprS::Literal(new_value_s(tc)))),
                    },
                ),
            ),
        }),
{
    let tplus = tok("+"@, TokenType::OperatorInfix, TokenSubType::Math);
    let tstar = tok("*"@, TokenType::OperatorInfix, TokenSubType::Math);
    let ts = seq![ta, tplus, tb, tstar, tc];
    let lita = ExprS::Literal(new_value_s(ta));
    let litb = ExprS::Literal(new_value_s(tb));
    let litc = ExprS::Literal(new_value_s(tc));
    let star = ExprS::Operator {
        op: Some("*"@),
        left: Box::new(litb),
        right: Some(Box::new(litc)),
    };
    let plus = ExprS::Operator {
        op: Some("+"@),
        left: Box::new(lita),
        right: Some(Box::new(star)),
    };
    reveal_strlit("+");
    reveal_strlit("-");
    reveal_strlit("*");
    reveal_strlit("/");
    reveal_strlit("&");
    reveal_strlit("<");
    reveal_strlit(">");
    reveal_strlit("=");
    reveal_strlit("==");
    reveal_strlit("<=");
    reveal_strlit(">=");
    reveal_strlit("<>");
    assert(ts.len() == 5);
    assert(ts[0] == ta && ts[1] == tplus && ts[2] == tb && ts[3] == tstar && ts[4] == tc);
    assert("+"@.len() == 1 && "+"@[0] == '+');
    assert("*"@.len() == 1 && "*"@[0] == '*');
    assert("/"@.len() == 1 && "/"@[0] == '/');
    assert("-"@.len() == 1 && "-"@[0] == '-');
    assert("&"@.len() == 1 && "&"@[0] == '&');
    assert("<"@.len() == 1 && "<"@[0] == '<');
    assert(">"@.len() == 1 && ">"@[0] == '>');
    assert("="@.len() == 1 && "="@[0] == '=');
    assert(spec_precedence("+"@) == 30);
    assert(spec_precedence("*"@) == 40);
    assert(sp_primary(ts, 4, 33) == (Some(litc), 4int));
    assert(sp_build(ts, 4, 31, Some(star), 33) == (Some(star), 4int));
    assert(sp_primary(ts, 2, 34) == (Some(litb), 3int));
    assert(sp_build(ts, 3, 31, Some(litb), 34) == (Some(star), 4int));
    assert(sp_primary(ts, 0, 35) == (Some(lita), 1int));
    assert(sp_build(ts, 4, 0, Some(plus), 34) == (Some(plus), 4int));
    assert(sp_build(ts, 1, 0, Some(lita), 35) == (Some(plus), 4int));
    assert(sp_expression(ts, 0, 36) == (Some(plus), 4int));
    assert(spec_parse(ts) == plus);
}

/// Scanning a run of digits only grows the pending operand buffer.
proof fn lemma_scan_digits(
    f: Seq<char>,
    i: int,
    j: int,
    buf: Seq<char>,
    stack: Seq<TokenS>,
    out: Seq<TokenS>,
)
    requires
        0 <= i <= j <= f.len(),
        forall|k: int| i <= k < j ==> strutil::is_digit(#[trigger] f[k]),
    ensures
        scan(f, i, buf, false, false, false, stack, out) == scan(
            f,
            j,
            buf + f.subrange(i, j),
            false,
            false,
            false,
            stack,
            out,
        ),
    decreases j - i,
{
    if i < j {
        let c = f[i];
        assert(strutil::is_digit(c));
        assert(48 <= c as u32 <= 57);
        assert(!is_op_char(c));
        if i + 1 < f.len() {
            assert(!is_cmp_pair(c, f[i + 1]));
        }
        assert(scan(f, i, buf, false, false, false, stack, out) == scan(
            f,
            i + 1,
            buf.push(c),
            false,
            false,
            false,
            stack,
            out,
        ));
        lemma_scan_digits(f, i + 1, j, buf.push(c), stack, out);
        assert(buf.push(c) + f.subrange(i + 1, j) =~= buf + f.subrange(i, j));
    } else {
        assert(buf + f.subrange(i, i) =~= buf);
    }
}

/// A digit run is accepted as a numeric literal.
proof fn lemma_digits_mantissa(s: Seq<char>, i: int, sd: bool, dot: bool)
    requires
        0 <= i <= s.len(),
        forall|k: int| i <= k < s.len() ==> strutil::is_digit(#[trigger] s[k]),
        sd || i < s.len(),
    ensures
        strutil::fl_mantissa(s, i, sd, dot),
    decreases s.len() - i,
{
    if i < s.len() {
        lemma_digits_mantissa(s, i + 1, true, dot);
    }
}

/// A nonempty digit string is a numeric literal.
proof fn lemma_digits_float(s: Seq<char>)
    requires
        s.len() > 0,
        forall|k: int| 0 <= k < s.len() ==> strutil::is_digit(#[trigger] s[k]),
    ensures
        strutil::is_float_literal(s),
{
    assert(48 <= s[0] as u32 <= 57);
    lemma_digits_mantissa(s, 0, false, false);
}

proof fn lemma_skip_spaces_shift(f: Seq<char>, i: int, j: int)
    requires
        0 <= i,
        1 <= j,
        i + j <= f.len(),
    ensures
        skip_spaces(f.skip(i), j) == skip_spaces(f, i + j) - i,
    decreases f.len() - i - j,
{
    if i + j < f.len() && f[i + j] == ' ' {
        assert(f.skip(i)[j] == f[i + j]);
        lemma_skip_spaces_shift(f, i, j + 1);
    }
}

/// The scan reads nothing before its position: scanning from i is scanning
/// the suffix from its start.
#[verifier::rlimit(100)]
#[verifier::spinoff_prover]
proof fn lemma_scan_skip(
    f: Seq<char>,
    i: int,
    buf: Seq<char>,
    ins: bool,
    inr: bool,
    ine: bool,
    stack: Seq<TokenS>,
    out: Seq<TokenS>,
)
    requires
        0 <= i <= f.len(),
    ensures
        scan(f, i, buf, ins, inr, ine, stack, out) == scan(
            f.skip(i),
            0,
            buf,
            ins,
            inr,
            ine,
            stack,
            out,
        ),
    decreases f.len() - i,
{
    let g = f.skip(i);
    if i == f.len() {
        assert(g.len() == 0);
    } else {
        let c = f[i];
        assert(g[0] == c);
        assert(g.skip(1) =~= f.skip(i + 1));
        if i + 1 < f.len() {
            assert(g[1] == f[i + 1]);
        }
        if ins {
            if c == '"' {
                lemma_scan_skip(
                    f,
                    i + 1,
                    Seq::<char>::empty(),
                    false,
                    inr,
                    ine,
                    stack,
                    out.push(tok(buf, TokenType::Operand, TokenSubType::Text)),
                );
                lemma_scan_skip(
                    g,
                    1,
                    Seq::<char>::empty(),
                    false,
                    inr,
                    ine,
                    stack,
                    out.push(tok(buf, TokenType::Operand, TokenSubType::Text)),
                );
            } else {
                lemma_scan_skip(f, i + 1, buf.push(c), true, inr, ine, stack, out);
                lemma_scan_skip(g, 1, buf.push(c), true, inr, ine, stack, out);
            }
        } else if inr {
            lemma_scan_skip(f, i + 1, buf.push(c), ins, c != ']', ine, stack, out);
            lemma_scan_skip(g, 1, buf.push(c), ins, c != ']', ine, stack, out);
        } else if ine {
            if spec_is_error_literal(buf.push(c)) {
                let no = out.push(tok(buf.push(c), TokenType::Operand, TokenSubType::Error));
                lemma_scan_skip(f, i + 1, Seq::<char>::empty(), ins, inr, false, stack, no);
                lemma_scan_skip(g, 1, Seq::<char>::empty(), ins, inr, false, stack, no);
            } else {
                lemma_scan_skip(f, i + 1, buf.push(c), ins, inr, true, stack, out);
                lemma_scan_skip(g, 1, buf.push(c), ins, inr, true, stack, out);
            }
        } else if c == '"' {
            lemma_scan_skip(
                f,
                i + 1,
                Seq::<char>::empty(),
                true,
                inr,
                ine,
                stack,
                flush_unknown(buf, out),
            );
            lemma_scan_skip(
                g,
                1,
                Seq::<char>::empty(),
                true,
                inr,
                ine,
                stack,
                flush_unknown(buf, out),
            );
        } else if c == '\'' {
            lemma_scan_skip(
                f,
                i + 1,
                Seq::<char>::empty(),
                ins,
                inr,
                ine,
                stack,
                flush_unknown(buf, out),
            );
            lemma_scan_skip(
                g,
                1,
                Seq::<char>::empty(),
                ins,
                inr,
                ine,
                stack,
                flush_unknown(buf, out),
            );
        } else if c == '[' {
            lemma_scan_skip(f, i + 1, buf.push(c), ins, true, ine, stack, out);
            lemma_scan_skip(g, 1, buf.push(c), ins, true, ine, stack, out);
        } else if c == '#' {
            lemma_scan_skip(f, i + 1, seq!['#'], ins, inr, true, stack, flush_unknown(buf, out));
            lemma_scan_skip(g, 1, seq!['#'], ins, inr, true, stack, flush_unknown(buf, out));
        } else if c == '{' {
            let a = tok("ARRAY"@, TokenType::Function, TokenSubType::Start);
            let r = tok("ARRAYROW"@, TokenType::Function, TokenSubType::Start);
            let nst = stack.push(a).push(r);
            let no = flush_unknown(buf, out).push(a).push(r);
            lemma_scan_skip(f, i + 1, Seq::<char>::empty(), ins, inr, ine, nst, no);
            lemma_scan_skip(g, 1, Seq::<char>::empty(), ins, inr, ine, nst, no);
        } else if c == ';' {
            let no = flush_op(buf, out).push(stop_tok(stack)).push(
                tok(","@, TokenType::Argument, TokenSubType::Nothing),
            );
            lemma_scan_skip(f, i + 1, Seq::<char>::empty(), ins, inr, ine, pop1(stack), no);
            lemma_scan_skip(g, 1, Seq::<char>::empty(), ins, inr, ine, pop1(stack), no);
        } else if c == '}' {
            let no = flush_op(buf, out).push(stop_tok(stack)).push(stop_tok(pop1(stack)));
            lemma_scan_skip(f, i + 1, Seq::<char>::empty(), ins, inr, ine, pop1(pop1(stack)), no);
            lemma_scan_skip(g, 1, Seq::<char>::empty(), ins, inr, ine, pop1(pop1(stack)), no);
        } else if c == ' ' {
            let no = flush_op(buf, out).push(
                tok(Seq::<char>::empty(), TokenType::Whitespace, TokenSubType::Nothing),
            );
            lemma_skip_spaces_shift(f, i, 1);
            lemma_skip_spaces(f, i + 1);
            let sp = skip_spaces(f, i + 1);
            lemma_scan_skip(f, sp, Seq::<char>::empty(), ins, inr, ine, stack, no);
            lemma_scan_skip(g, sp - i, Seq::<char>::empty(), ins, inr, ine, stack, no);
            assert(g.skip(sp - i) =~= f.skip(sp));
        } else if i + 1 < f.len() && is_cmp_pair(c, f[i + 1]) {
            let no = flush_op(buf, out).push(
                tok(seq![c, f[i + 1]], TokenType::OperatorInfix, TokenSubType::Logical),
            );
            lemma_scan_skip(f, i + 2, Seq::<char>::empty(), ins, inr, ine, stack, no);
            lemma_scan_skip(g, 2, Seq::<char>::empty(), ins, inr, ine, stack, no);
            assert(g.skip(2) =~= f.skip(i + 2));
        } else if is_op_char(c) {
            let no = flush_op(buf, out).push(
                tok(seq![c], TokenType::OperatorInfix, TokenSubType::Nothing),
            );
            lemma_scan_skip(f, i + 1, Seq::<char>::empty(), ins, inr, ine, stack, no);
            lemma_scan_skip(g, 1, Seq::<char>::empty(), ins, inr, ine, stack, no);
        } else if c == '%' {
            let no = flush_op(buf, out).push(
                tok(seq![c], TokenType::OperatorPostfix, TokenSubType::Nothing),
            );
            lemma_scan_skip(f, i + 1, Seq::<char>::empty(), ins, inr, ine, stack, no);
            lemma_scan_skip(g, 1, Seq::<char>::empty(), ins, inr, ine, stack, no);
        } else if c == '(' {
            let t = if buf.len() > 0 {
                tok(strutil::spec_upper(buf), TokenType::Function, TokenSubType::Start)
            } else {
                tok(Seq::<char>::empty(), TokenType::Subexpression, TokenSubType::Start)
            };
            lemma_scan_skip(f, i + 1, Seq::<char>::empty(), ins, inr, ine, stack.push(t), out.push(t));
            lemma_scan_skip(g, 1, Seq::<char>::empty(), ins, inr, ine, stack.push(t), out.push(t));
        } else if c == ',' {
            let t = if stack.len() > 0 && stack.last().token_type == TokenType::Function {
                tok(","@, TokenType::Argument, TokenSubType::Nothing)
            } else {
                tok(","@, TokenType::OperatorInfix, TokenSubType::Union)
            };
            let no = flush_op(buf, out).push(t);
            lemma_scan_skip(f, i + 1, Seq::<char>::empty(), ins, inr, ine, stack, no);
            lemma_scan_skip(g, 1, Seq::<char>::empty(), ins, inr, ine, stack, no);
        } else if c == ')' {
            let no = flush_op(buf, out).push(stop_tok(stack));
            lemma_scan_skip(f, i + 1, Seq::<char>::empty(), ins, inr, ine, pop1(stack), no);
            lemma_scan_skip(g, 1, Seq::<char>::empty(), ins, inr, ine, pop1(stack), no);
        } else {
            lemma_scan_skip(f, i + 1, buf.push(c), ins, inr, ine, stack, out);
            lemma_scan_skip(g, 1, buf.push(c), ins, inr, ine, stack, out);
        }
    }
}

proof fn lemma_render_concat(u: Seq<TokenS>, w: Seq<TokenS>)
    ensures
        spec_render(u + w) == spec_render(u) + spec_render(w),
    decreases w.len(),
{
    if w.len() == 0 {
        assert(u + w =~= u);
        assert(spec_render(u) + spec_render(w) =~= spec_render(u));
    } else {
        lemma_render_concat(u, w.drop_last());
        assert((u + w).drop_last() =~= u + w.drop_last());
        assert((u + w).last() == w.last());
        assert(spec_render(u) + (spec_render(w.drop_last()) + render_tok(w.last())) =~= (
        spec_render(u) + spec_render(w.drop_last())) + render_tok(w.last()));
    }
}

/// The white-space pass copies a stream that holds no white-space token.
proof fn lemma_ws_pass_id(p: Seq<TokenS>, i: int, out: Seq<TokenS>)
    requires
        0 <= i <= p.len(),
        forall|k: int| i <= k < p.len() ==> (#[trigger] p[k]).token_type != TokenType::Whitespace,
    ensures
        ws_pass(p, i, out) == out + p.skip(i),
    decreases p.len() - i,
{
    if i < p.len() {
        lemma_ws_pass_id(p, i + 1, out.push(p[i]));
        assert(out.push(p[i]) + p.skip(i + 1) =~= out + p.skip(i));
    } else {
        assert(out + p.skip(i) =~= out);
    }
}

/// The Noop pass copies a stream that holds no Noop token.
proof fn lemma_drop_noops_id(p: Seq<TokenS>, i: int, out: Seq<TokenS>)
    requires
        0 <= i <= p.len(),
        forall|k: int| i <= k < p.len() ==> (#[trigger] p[k]).token_type != TokenType::Noop,
    ensures
        drop_noops(p, i, out) == out + p.skip(i),
    decreases p.len() - i,
{
    if i < p.len() {
        lemma_drop_noops_id(p, i + 1, out.push(p[i]));
        assert(out.push(p[i]) + p.skip(i + 1) =~= out + p.skip(i));
    } else {
        assert(out + p.skip(i) =~= out);
    }
}

/// A classified numeric operand over a nonempty digit string.
pub open spec fn digit_operand(t: TokenS) -> bool {
    &&& t.token_type == TokenType::Operand
    &&& t.sub_type == TokenSubType::Number
    &&& t.value.len() > 0
    &&& forall|q: int| 0 <= q < t.value.len() ==> strutil::is_digit(#[trigger] t.value[q])
}

/// A classified binary math operator over one of the four arithmetic signs.
pub open spec fn math_op_tok(t: TokenS) -> bool {
    &&& t.token_type == TokenType::OperatorInfix
    &&& t.sub_type == TokenSubType::Math
    &&& t.value.len() == 1
    &&& (t.value[0] == '+' || t.value[0] == '-' || t.value[0] == '*' || t.value[0] == '/')
}

/// A plain arithmetic stream: numeric operands at the even positions and
/// binary math operators between them.
pub open spec fn alt_stream(ts: Seq<TokenS>) -> bool {
    &&& ts.len() % 2 == 1
    &&& forall|k: int| 0 <= k < ts.len() && k % 2 == 0 ==> digit_operand(#[trigger] ts[k])
    &&& forall|k: int| 0 <= k < ts.len() && k % 2 == 1 ==> math_op_tok(#[trigger] ts[k])
}

/// The raw image of a classified stream: the same tokens before the
/// classification pass has refined them.
pub open spec fn raw_of(ts: Seq<TokenS>) -> Seq<TokenS> {
    Seq::new(ts.len(), |k: int| TokenS { sub_type: TokenSubType::Nothing, ..ts[k] })
}

/// The raw scan of a rendered arithmetic stream: each operand buffers and
/// each operator flushes, so the raw images come out in order.
proof fn lemma_scan_alt(ts: Seq<TokenS>, stack: Seq<TokenS>, out: Seq<TokenS>)
    requires
        alt_stream(ts),
    ensures
        scan(spec_render(ts), 0, Seq::<char>::empty(), false, false, false, stack, out) == out
            + raw_of(ts),
    decreases ts.len(),
{
    let f = spec_render(ts);
    let a = ts[0].value;
    if ts.len() == 1 {
        assert(ts.drop_last() =~= Seq::<TokenS>::empty());
        assert(spec_render(Seq::<TokenS>::empty()) =~= Seq::<char>::empty());
        assert(f =~= a);
        lemma_scan_digits(f, 0, f.len() as int, Seq::<char>::empty(), stack, out);
        assert(Seq::<char>::empty() + f.subrange(0, f.len() as int) =~= a);
        assert(flush_op(a, out) == out.push(tok(a, TokenType::Operand, TokenSubType::Nothing)));
        assert(out + raw_of(ts) =~= out.push(
            tok(a, TokenType::Operand, TokenSubType::Nothing),
        ));
    } else {
        let op = ts[1].value[0];
        let rest = ts.skip(2);
        assert(alt_stream(rest)) by {
            assert(rest.len() % 2 == 1);
            assert forall|k: int| 0 <= k < rest.len() && k % 2 == 0 implies digit_operand(
                #[trigger] rest[k],
            ) by {
                assert(rest[k] == ts[k + 2]);
            }
            assert forall|k: int| 0 <= k < rest.len() && k % 2 == 1 implies math_op_tok(
                #[trigger] rest[k],
            ) by {
                assert(rest[k] == ts[k + 2]);
            }
        }
        let head = ts.take(2);
        lemma_render_concat(head, rest);
        assert(head + rest =~= ts);
        assert(head.drop_last() =~= seq![ts[0]]);
        assert(seq![ts[0]].drop_last() =~= Seq::<TokenS>::empty());
        assert(spec_render(Seq::<TokenS>::empty()) =~= Seq::<char>::empty());
        assert(render_tok(ts[0]) == a);
        assert(render_tok(ts[1]) == ts[1].value);
        assert(ts[1].value =~= seq![op]);
        assert(spec_render(seq![ts[0]]) =~= a);
        assert(spec_render(head) =~= a + seq![op]);
        assert(f =~= a + seq![op] + spec_render(rest));
        // The first digit run.
        assert forall|k: int| 0 <= k < a.len() implies strutil::is_digit(#[trigger] f[k]) by {
            assert(f[k] == a[k]);
        }
        lemma_scan_digits(f, 0, a.len() as int, Seq::<char>::empty(), stack, out);
        assert(Seq::<char>::empty() + f.subrange(0, a.len() as int) =~= a);
        // The operator flushes the operand and emits itself.
        let jop = a.len() as int;
        assert(f[jop] == op);
        assert(is_op_char(op));
        // What follows the operator starts with a digit, so no comparison
        // pair forms.
        let rrest = spec_render(rest);
        assert(rest.take(1) =~= seq![rest[0]]);
        lemma_render_concat(rest.take(1), rest.skip(1));
        assert(rest.take(1) + rest.skip(1) =~= rest);
        assert(seq![rest[0]].drop_last() =~= Seq::<TokenS>::empty());
        assert(spec_render(seq![rest[0]]) =~= rest[0].value);
        assert(rrest.len() > 0);
        assert(rrest[0] == rest[0].value[0]);
        assert(strutil::is_digit(rrest[0]));
        assert(jop + 1 < f.len());
        assert(f[jop + 1] == rrest[0]);
        assert(!is_cmp_pair(op, f[jop + 1]));
        let r0 = tok(a, TokenType::Operand, TokenSubType::Nothing);
        let r1 = tok(seq![op], TokenType::OperatorInfix, TokenSubType::Nothing);
        assert(flush_op(a, out) == out.push(r0));
        assert(tok(seq![f[jop]], TokenType::OperatorInfix, TokenSubType::Nothing) == r1);
        assert(scan(f, jop, a, false, false, false, stack, out) == scan(
            f,
            jop + 1,
            Seq::<char>::empty(),
            false,
            false,
            false,
            stack,
            out.push(r0).push(r1),
        ));
        // The rest is the same scan run on the rendered remainder.
        lemma_scan_skip(f, jop + 1, Seq::<char>::empty(), false, false, false, stack, out.push(r0).push(r1));
        assert(f.skip(jop + 1) =~= rrest);
        lemma_scan_alt(rest, stack, out.push(r0).push(r1));
        assert(out.push(r0).push(r1) + raw_of(rest) =~= out + raw_of(ts)) by {
            assert(raw_of(ts)[0] == r0);
            assert(raw_of(ts)[1] == r1);
            assert(forall|k: int| 0 <= k < rest.len() ==> #[trigger] raw_of(rest)[k] == raw_of(
                ts,
            )[k + 2]);
        }
    }
}

/// One classification step of an arithmetic stream: a digit operand becomes
/// a number again, and an operator after an operand becomes a binary math
/// operator again.
proof fn lemma_cls_alt(ts: Seq<TokenS>, i: int, out: Seq<TokenS>)
    requires
        alt_stream(ts),
        0 <= i <= ts.len(),
        out.len() == i,
        i % 2 == 1 ==> out.last().token_type == TokenType::Operand,
    ensures
        cls_pass(raw_of(ts), i, out) == out + ts.skip(i),
    decreases ts.len() - i,
{
    let p = raw_of(ts);
    if i < ts.len() {
        let rt = p[i];
        assert(rt.value == ts[i].value && rt.token_type == ts[i].token_type);
        if i % 2 == 0 {
            assert(digit_operand(ts[i]));
            lemma_digits_float(ts[i].value);
            let prev = if i == 0 || out.len() == 0 {
                None
            } else {
                Some(out.last())
            };
            assert(classify_tok(prev, rt) == ts[i]);
            lemma_cls_alt(ts, i + 1, out.push(ts[i]));
            assert(out.push(ts[i]) + ts.skip(i + 1) =~= out + ts.skip(i));
        } else {
            assert(math_op_tok(ts[i]));
            let op = ts[i].value[0];
            reveal_strlit("-");
            reveal_strlit("+");
            reveal_strlit("&");
            assert("-"@.len() == 1 && "-"@[0] == '-');
            assert("+"@.len() == 1 && "+"@[0] == '+');
            assert("&"@.len() == 1 && "&"@[0] == '&');
            let prev = Some(out.last());
            assert(prev_binds(out.last()));
            assert(classify_tok(prev, rt) == ts[i]) by {
                if op == '-' {
                    assert(rt.value =~= "-"@);
                } else if op == '+' {
                    assert(rt.value =~= "+"@);
                } else {
                    assert(rt.value != "-"@);
                    assert(rt.value != "+"@);
                    assert(rt.value != "&"@);
                    assert(rt.value[0] == op);
                }
            }
            lemma_cls_alt(ts, i + 1, out.push(ts[i]));
            assert(out.push(ts[i]) + ts.skip(i + 1) =~= out + ts.skip(i));
        }
    } else {
        assert(out + ts.skip(i) =~= out);
    }
}

/// The round trip of the lexer on plain arithmetic: any stream of numeric
/// operands joined by binary math operators renders to a formula that scans
/// back to exactly the same classified stream. This is the rendering round
/// trip and the classification idempotence in one, on the arithmetic core
/// of the grammar.
#[verifier::rlimit(100)]
#[verifier::spinoff_prover]
pub proof fn lemma_render_tokenize_round_trip(ts: Seq<TokenS>)
    requires
        alt_stream(ts),
    ensures
        spec_get_tokens(spec_render(ts)) == ts,
{
    let f = spec_render(ts);
    // The rendered text opens with the first operand's first digit.
    lemma_render_concat(ts.take(1), ts.skip(1));
    assert(ts.take(1) + ts.skip(1) =~= ts);
    assert(ts.take(1).drop_last() =~= Seq::<TokenS>::empty());
    assert(spec_render(Seq::<TokenS>::empty()) =~= Seq::<char>::empty());
    assert(ts.take(1).last() == ts[0]);
    assert(spec_render(ts.take(1)) =~= ts[0].value);
    assert(f.len() > 0);
    assert(f[0] == ts[0].value[0]);
    assert(strutil::is_digit(f[0]));
    assert(f[0] != '=');
    let g = seq!['='] + f;
    assert(prep(f) =~= g);
    lemma_scan_skip(g, 1, Seq::<char>::empty(), false, false, false, Seq::<TokenS>::empty(), Seq::<
        TokenS,
    >::empty());
    assert(g.skip(1) =~= f);
    lemma_scan_alt(ts, Seq::<TokenS>::empty(), Seq::<TokenS>::empty());
    let p1 = raw_of(ts);
    assert(Seq::<TokenS>::empty() + p1 =~= p1);
    assert(scan(
        g,
        1,
        Seq::<char>::empty(),
        false,
        false,
        false,
        Seq::<TokenS>::empty(),
        Seq::<TokenS>::empty(),
    ) == p1);
    // No white space, no Noop, and classification restores each token.
    assert(forall|k: int| 0 <= k < p1.len() ==> (#[trigger] p1[k]).token_type == ts[k].token_type);
    lemma_ws_pass_id(p1, 0, Seq::<TokenS>::empty());
    assert(Seq::<TokenS>::empty() + p1.skip(0) =~= p1);
    lemma_cls_alt(ts, 0, Seq::<TokenS>::empty());
    assert(Seq::<TokenS>::empty() + ts.skip(0) =~= ts);
    lemma_drop_noops_id(ts, 0, Seq::<TokenS>::empty());
    assert(Seq::<TokenS>::empty() + ts.skip(0) =~= ts);
}

} // verus!
