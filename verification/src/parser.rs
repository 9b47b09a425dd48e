use vstd::prelude::*;

use crate::compiler::Error;
use crate::opcode::Op;
use crate::opcode::OpCode;
use crate::token::Token;
use crate::token::TokenType;
use crate::token::token_value_ok;
use crate::token::wf_tokens;
use crate::value::Value;

verus! {

/// Binding strength of an operator, a total order used by the
/// precedence-climbing parser.
#[derive(Clone, Copy, Debug, PartialEq, Eq, Structural)]
pub enum Precedence {
    Lowest,
    Assignment,
    Or,
    And,
    Equality,
    Comparison,
    Term,
    Factor,
    Unary,
    Call,
    Primary,
    Top,
}

/// The numeric level of a precedence, `Lowest` being 0 and `Top` 11.
pub open spec fn prec_level(p: Precedence) -> int {
    match p {
        Precedence::Lowest => 0,
        Precedence::Assignment => 1,
        Precedence::Or => 2,
        Precedence::And => 3,
        Precedence::Equality => 4,
        Precedence::Comparison => 5,
        Precedence::Term => 6,
        Precedence::Factor => 7,
        Precedence::Unary => 8,
        Precedence::Call => 9,
        Precedence::Primary => 10,
        Precedence::Top => 11,
    }
}

impl Precedence {
    pub fn as_u8(&self) -> (l: u8)
        ensures
            l as int == prec_level(*self),
    {
        match self {
            Precedence::Lowest => 0,
            Precedence::Assignment => 1,
            Precedence::Or => 2,
            Precedence::And => 3,
            Precedence::Equality => 4,
            Precedence::Comparison => 5,
            Precedence::Term => 6,
            Precedence::Factor => 7,
            Precedence::Unary => 8,
            Precedence::Call => 9,
            Precedence::Primary => 10,
            Precedence::Top => 11,
        }
    }

    /// The precedence of a numeric level; anything above `Top` falls back to
    /// `Lowest`.
    pub fn from_u8(value: u8) -> (p: Precedence)
        ensures
            prec_level(p) == if value <= 11 {
                value as int
            } else {
                0int
            },
    {
        match value {
            0 => Precedence::Lowest,
            1 => Precedence::Assignment,
            2 => Precedence::Or,
            3 => Precedence::And,
            4 => Precedence::Equality,
            5 => Precedence::Comparison,
            6 => Precedence::Term,
            7 => Precedence::Factor,
            8 => Precedence::Unary,
            9 => Precedence::Call,
            10 => Precedence::Primary,
            11 => Precedence::Top,
            _ => Precedence::Lowest,
        }
    }
}

/// How a token may start an expression. `Literal`, `Text` and `Variable` are
/// table slots this grammar never fills.
#[non_exhaustive]
#[derive(Clone, Copy, Debug, PartialEq, Eq, Structural)]
pub enum PrefixRule {
    NoRule,
    Grouping,
    Unary,
    Number,
    Literal,
    Text,
    Variable,
}

/// How a token may continue an expression: only binary operators exist.
#[non_exhaustive]
#[derive(Clone, Copy, Debug, PartialEq, Eq, Structural)]
pub enum InfixRule {
    NoRule,
    Binary,
}

/// The parse table's record for one token kind.
#[derive(Clone, Copy, Debug, PartialEq, Eq, Structural)]
pub struct ParseRule {
    pub prefix: PrefixRule,
    pub infix: InfixRule,
    pub precedence: Precedence,
}

/// The fixed parse table: number literals and `(` start expressions, `+` and
/// `-` also act as unary prefixes, and the binary operators bind at
/// `Equality` (`==` `!=`), `Comparison` (`>` `>=` `<` `<=`), `Term` (`+` `-`)
/// or `Factor` (`*` `/`).
pub open spec fn spec_rule(kind: TokenType) -> ParseRule {
    match kind {
        TokenType::Minus => ParseRule {
            prefix: PrefixRule::Unary,
            infix: InfixRule::Binary,
            precedence: Precedence::Term,
        },
        TokenType::Plus => ParseRule {
            prefix: PrefixRule::Unary,
            infix: InfixRule::Binary,
            precedence: Precedence::Term,
        },
        TokenType::Slash => ParseRule {
            prefix: PrefixRule::NoRule,
            infix: InfixRule::Binary,
            precedence: Precedence::Factor,
        },
        TokenType::Star => ParseRule {
            prefix: PrefixRule::NoRule,
            infix: InfixRule::Binary,
            precedence: Precedence::Factor,
        },
        TokenType::Integer => ParseRule {
            prefix: PrefixRule::Number,
            infix: InfixRule::NoRule,
            precedence: Precedence::Lowest,
        },
        TokenType::Float => ParseRule {
            prefix: PrefixRule::Number,
            infix: InfixRule::NoRule,
            precedence: Precedence::Lowest,
        },
        TokenType::LeftParen => ParseRule {
            prefix: PrefixRule::Grouping,
            infix: InfixRule::NoRule,
            precedence: Precedence::Lowest,
        },
        TokenType::EqualEqual => ParseRule {
            prefix: PrefixRule::NoRule,
            infix: InfixRule::Binary,
            precedence: Precedence::Equality,
        },
        TokenType::BangEqual => ParseRule {
            prefix: PrefixRule::NoRule,
            infix: InfixRule::Binary,
            precedence: Precedence::Equality,
        },
        TokenType::Greater => ParseRule {
            prefix: PrefixRule::NoRule,
            infix: InfixRule::Binary,
            precedence: Precedence::Comparison,
        },
        TokenType::GreaterEqual => ParseRule {
            prefix: PrefixRule::NoRule,
            infix: InfixRule::Binary,
            precedence: Precedence::Comparison,
        },
        TokenType::Less => ParseRule {
            prefix: PrefixRule::NoRule,
            infix: InfixRule::Binary,
            precedence: Precedence::Comparison,
        },
        TokenType::LessEqual => ParseRule {
            prefix: PrefixRule::NoRule,
            infix: InfixRule::Binary,
            precedence: Precedence::Comparison,
        },
        _ => ParseRule {
            prefix: PrefixRule::NoRule,
            infix: InfixRule::NoRule,
            precedence: Precedence::Lowest,
        },
    }
}

/// The table lookup; kinds without an entry get the empty rule.
pub fn get_rule(token_type: &TokenType) -> (r: ParseRule)
    ensures
        r == spec_rule(*token_type),
{
    match token_type {
        TokenType::Minus => ParseRule {
            prefix: PrefixRule::Unary,
            infix: InfixRule::Binary,
            precedence: Precedence::Term,
        },
        TokenType::Plus => ParseRule {
            prefix: PrefixRule::Unary,
            infix: InfixRule::Binary,
            precedence: Precedence::Term,
        },
        TokenType::Slash => ParseRule {
            prefix: PrefixRule::NoRule,
            infix: InfixRule::Binary,
            precedence: Precedence::Factor,
        },
        TokenType::Star => ParseRule {
            prefix: PrefixRule::NoRule,
            infix: InfixRule::Binary,
            precedence: Precedence::Factor,
        },
        TokenType::Integer => ParseRule {
            prefix: PrefixRule::Number,
            infix: InfixRule::NoRule,
            precedence: Precedence::Lowest,
        },
        TokenType::Float => ParseRule {
            prefix: PrefixRule::Number,
            infix: InfixRule::NoRule,
            precedence: Precedence::Lowest,
        },
        TokenType::LeftParen => ParseRule {
            prefix: PrefixRule::Grouping,
            infix: InfixRule::NoRule,
            precedence: Precedence::Lowest,
        },
        TokenType::EqualEqual => ParseRule {
            prefix: PrefixRule::NoRule,
            infix: InfixRule::Binary,
            precedence: Precedence::Equality,
        },
        TokenType::BangEqual => ParseRule {
            prefix: PrefixRule::NoRule,
            infix: InfixRule::Binary,
            precedence: Precedence::Equality,
        },
        TokenType::Greater => ParseRule {
            prefix: PrefixRule::NoRule,
            infix: InfixRule::Binary,
            precedence: Precedence::Comparison,
        },
        TokenType::GreaterEqual => ParseRule {
            prefix: PrefixRule::NoRule,
            infix: InfixRule::Binary,
            precedence: Precedence::Comparison,
        },
        TokenType::Less => ParseRule {
            prefix: PrefixRule::NoRule,
            infix: InfixRule::Binary,
            precedence: Precedence::Comparison,
        },
        TokenType::LessEqual => ParseRule {
            prefix: PrefixRule::NoRule,
            infix: InfixRule::Binary,
            precedence: Precedence::Comparison,
        },
        _ => ParseRule {
            prefix: PrefixRule::NoRule,
            infix: InfixRule::NoRule,
            precedence: Precedence::Lowest,
        },
    }
}

/// A token kind that acts as a binary operator.
pub open spec fn is_binary_kind(kind: TokenType) -> bool {
    ||| kind == TokenType::Plus
    ||| kind == TokenType::Minus
    ||| kind == TokenType::Star
    ||| kind == TokenType::Slash
    ||| kind == TokenType::EqualEqual
    ||| kind == TokenType::BangEqual
    ||| kind == TokenType::Greater
    ||| kind == TokenType::GreaterEqual
    ||| kind == TokenType::Less
    ||| kind == TokenType::LessEqual
}

/// The opcode operator a binary token compiles to.
pub open spec fn infix_opcode(kind: TokenType) -> Op {
    match kind {
        TokenType::Plus => Op::Plus,
        TokenType::Minus => Op::Minus,
        TokenType::Star => Op::Multiply,
        TokenType::Slash => Op::Divide,
        TokenType::EqualEqual => Op::EqualEqual,
        TokenType::BangEqual => Op::BangEqual,
        TokenType::Greater => Op::Greater,
        TokenType::GreaterEqual => Op::GreaterEqual,
        TokenType::Less => Op::Less,
        TokenType::LessEqual => Op::LessEqual,
        _ => Op::Plus,
    }
}

/// Facts about the parse table that the parser's proofs lean on: a token
/// with binding strength is exactly a binary operator, and operators bind
/// between `Equality` and `Factor`.
pub proof fn lemma_rule_table(kind: TokenType)
    ensures
        prec_level(spec_rule(kind).precedence) >= 1 <==> is_binary_kind(kind),
        is_binary_kind(kind) ==> 4 <= prec_level(spec_rule(kind).precedence) <= 7,
        spec_rule(kind).prefix == PrefixRule::Number ==> kind == TokenType::Integer || kind
            == TokenType::Float,
        spec_rule(kind).prefix == PrefixRule::Unary ==> kind == TokenType::Plus || kind
            == TokenType::Minus,
        is_binary_kind(kind) ==> kind != TokenType::Eof && kind != TokenType::RightParen,
{
    match kind {
        TokenType::Integer => {},
        TokenType::Float => {},
        TokenType::Plus => {},
        TokenType::Minus => {},
        TokenType::Star => {},
        TokenType::Slash => {},
        TokenType::Error => {},
        TokenType::LeftParen => {},
        TokenType::RightParen => {},
        TokenType::Greater => {},
        TokenType::GreaterEqual => {},
        TokenType::Less => {},
        TokenType::LessEqual => {},
        TokenType::EqualEqual => {},
        TokenType::BangEqual => {},
        TokenType::Equal => {},
        TokenType::Eof => {},
    }
}

// The specification of the parser is the grammar itself, written as the
// precedence-climbing recursion: `sp_prec` parses one expression whose
// operators bind at least as strongly as `p`, returning the opcodes emitted
// and the index of the first token it did not consume; `sp_unary` and
// `sp_group` are its unary and parenthesis prefixes; `sp_infix` is the climb
// over infix operators; `sp_program` parses expressions back to back until
// `Eof` and appends the final `Return`. `None` is a parse error. The index
// clamps (`if j <= ...`) only serve termination: a parse that returns an
// index always moved it forward, so they never bite.
/// Unary prefix at token `i`: `-` negates, a leading `+` emits nothing.
pub open spec fn sp_unary(toks: Seq<Token>, i: int) -> Option<(Seq<OpCode>, int)>
    decreases toks.len() - i, 0int,
{
    if !(0 <= i < toks.len()) {
        None
    } else if toks[i].kind == TokenType::Minus {
        match sp_prec(toks, i + 1, 8) {
            Some((ops, j)) => Some((ops.push(OpCode::Negate), j)),
            None => None,
        }
    } else if toks[i].kind == TokenType::Plus {
        sp_prec(toks, i + 1, 8)
    } else {
        None
    }
}

/// A parenthesized group whose body starts at token `i`: a full expression,
/// then a required `)`.
pub open spec fn sp_group(toks: Seq<Token>, i: int) -> Option<(Seq<OpCode>, int)>
    decreases toks.len() - i, 2int,
{
    match sp_prec(toks, i, 1) {
        Some((ops, j)) => if 0 <= j < toks.len() && toks[j].kind == TokenType::RightParen {
            Some((ops, j + 1))
        } else {
            None
        },
        None => None,
    }
}

/// One expression starting at token `i`, folding in every infix operator of
/// level at least `p`.
pub open spec fn sp_prec(toks: Seq<Token>, i: int, p: int) -> Option<(Seq<OpCode>, int)>
    decreases toks.len() - i, 1int,
{
    if !(0 <= i < toks.len()) {
        None
    } else {
        let t = toks[i];
        let pre = spec_rule(t.kind).prefix;
        let prefix_result: Option<(Seq<OpCode>, int)> = if pre == PrefixRule::Number {
            match t.value {
                Some(v) => Some((seq![OpCode::Constant(v)], i + 1)),
                None => None,
            }
        } else if pre == PrefixRule::Grouping {
            sp_group(toks, i + 1)
        } else if pre == PrefixRule::Unary {
            sp_unary(toks, i)
        } else {
            None
        };
        match prefix_result {
            Some((ops, j)) => {
                let j2 = if j <= i {
                    i + 1
                } else if j > toks.len() {
                    toks.len() as int
                } else {
                    j
                };
                sp_infix(toks, j2, p, ops)
            },
            None => None,
        }
    }
}

/// The climb: while the token at `j` binds at least as strongly as `p`,
/// parse its right operand one level up (all operators are
/// left-associative) and emit the operator after it.
pub open spec fn sp_infix(toks: Seq<Token>, j: int, p: int, acc: Seq<OpCode>) -> Option<
    (Seq<OpCode>, int),
>
    decreases toks.len() - j, 0int,
{
    if !(0 <= j < toks.len()) {
        None
    } else if prec_level(spec_rule(toks[j].kind).precedence) >= p {
        let kind = toks[j].kind;
        let lvl = prec_level(spec_rule(kind).precedence);
        match sp_prec(toks, j + 1, lvl + 1) {
            Some((rops, m)) => {
                let m2 = if m < j + 1 {
                    j + 1
                } else if m > toks.len() {
                    toks.len() as int
                } else {
                    m
                };
                sp_infix(toks, m2, p, acc + rops + seq![OpCode::Op(infix_opcode(kind))])
            },
            None => None,
        }
    } else {
        Some((acc, j))
    }
}

/// Expressions back to back until `Eof`, then one `Return`.
pub open spec fn sp_program(toks: Seq<Token>, i: int) -> Option<Seq<OpCode>>
    decreases toks.len() - i,
{
    if !(0 <= i < toks.len()) {
        None
    } else if toks[i].kind == TokenType::Eof {
        Some(seq![OpCode::Return])
    } else {
        match sp_prec(toks, i, 1) {
            Some((ops, j)) => {
                let j2 = if j <= i {
                    i + 1
                } else if j > toks.len() {
                    toks.len() as int
                } else {
                    j
                };
                match sp_program(toks, j2) {
                    Some(rest) => Some(ops + rest),
                    None => None,
                }
            },
            None => None,
        }
    }
}

/// The opcode sequence of a whole token sequence, or `None` on a parse
/// error.
pub open spec fn spec_parse(toks: Seq<Token>) -> Option<Seq<OpCode>> {
    sp_program(toks, 0)
}

/// Glues already emitted opcodes to the rest of a parse.
pub open spec fn opt_emit(pre: Seq<OpCode>, rest: Option<Seq<OpCode>>) -> Option<Seq<OpCode>> {
    match rest {
        Some(r) => Some(pre + r),
        None => None,
    }
}

/// The single-pass parser and compiler: consumes the scanner's tokens and
/// emits the flat opcode sequence.
pub struct Parser {
    tokens: Vec<Token>,
    index: usize,
    ops: Vec<OpCode>,
}

impl Parser {
    /// The tokens being parsed.
    pub closed spec fn toks(self) -> Seq<Token> {
        self.tokens@
    }

    /// The cursor into the tokens.
    pub closed spec fn idx(self) -> int {
        self.index as int
    }

    /// The opcodes emitted so far.
    pub closed spec fn emitted(self) -> Seq<OpCode> {
        self.ops@
    }

    pub fn new(tokens: &[Token]) -> (p: Self)
        ensures
            p.toks() == tokens@,
            p.idx() == 0,
            p.emitted() == Seq::<OpCode>::empty(),
    {
        let mut owned: Vec<Token> = Vec::new();
        let mut k: usize = 0;
        while k < tokens.len()
            invariant
                k <= tokens@.len(),
                owned@ == tokens@.take(k as int),
            decreases tokens@.len() - k,
        {
            owned.push(tokens[k]);
            k = k + 1;
            proof {
                assert(owned@ =~= tokens@.take(k as int));
            }
        }
        proof {
            assert(tokens@.take(tokens@.len() as int) =~= tokens@);
        }
        Parser { tokens: owned, index: 0, ops: Vec::new() }
    }

    fn curr(&self) -> (t: Token)
        requires
            self.index < self.tokens@.len(),
        ensures
            t == self.tokens@[self.index as int],
    {
        self.tokens[self.index]
    }

    fn prev(&self) -> (t: Token)
        requires
            1 <= self.index,
            self.index <= self.tokens@.len(),
        ensures
            t == self.tokens@[self.index as int - 1],
    {
        self.tokens[self.index - 1]
    }

    fn advance(&mut self)
        requires
            old(self).index < old(self).tokens@.len(),
            old(self).tokens@[old(self).index as int].kind != TokenType::Error,
        ensures
            final(self).index == old(self).index + 1,
            final(self).tokens@ == old(self).tokens@,
            final(self).ops == old(self).ops,
    {
        let n = self.tokens.len();
        let t = self.curr();
        if t.kind != TokenType::Error {
            if self.index < n {
                self.index = self.index + 1;
            }
        }
    }

    fn emit_byte(&mut self, opcode: OpCode)
        ensures
            final(self).ops@ == old(self).ops@.push(opcode),
            final(self).tokens@ == old(self).tokens@,
            final(self).index == old(self).index,
    {
        self.ops.push(opcode);
    }

    fn emit_constant(&mut self, value: Value)
        ensures
            final(self).ops@ == old(self).ops@.push(OpCode::Constant(value)),
            final(self).tokens@ == old(self).tokens@,
            final(self).index == old(self).index,
    {
        self.emit_byte(OpCode::Constant(value));
    }

    fn emit_return(&mut self)
        ensures
            final(self).ops@ == old(self).ops@.push(OpCode::Return),
            final(self).tokens@ == old(self).tokens@,
            final(self).index == old(self).index,
    {
        self.emit_byte(OpCode::Return);
    }

    /// Emits the constant a number token carries.
    fn number(&mut self)
        requires
            1 <= old(self).index <= old(self).tokens@.len(),
            token_value_ok(old(self).tokens@[old(self).index as int - 1]),
            spec_rule(old(self).tokens@[old(self).index as int - 1].kind).prefix
                == PrefixRule::Number,
        ensures
            final(self).tokens@ == old(self).tokens@,
            final(self).index == old(self).index,
            final(self).ops@ == old(self).ops@.push(
                OpCode::Constant(old(self).tokens@[old(self).index as int - 1].value.unwrap()),
            ),
    {
        proof {
            lemma_rule_table(self.tokens@[self.index as int - 1].kind);
        }
        let t = self.prev();
        match t.value {
            Some(val) => self.emit_constant(val),
            None => {},
        }
    }

    fn consume(&mut self, token_type: &TokenType, message: &str) -> (r: Result<(), Error>)
        requires
            wf_tokens(old(self).tokens@),
            old(self).index < old(self).tokens@.len(),
        ensures
            final(self).tokens@ == old(self).tokens@,
            final(self).ops == old(self).ops,
            match r {
                Ok(_) => old(self).tokens@[old(self).index as int].kind == *token_type
                    && final(self).index == old(self).index + 1,
                Err(e) => old(self).tokens@[old(self).index as int].kind != *token_type && e
                    is CompileTime,
            },
    {
        let c = self.curr();
        if c.kind == *token_type {
            self.advance();
            Ok(())
        } else {
            Err(Error::CompileTime(message.to_string()))
        }
    }

    /// Whether the token under the cursor binds at least as strongly as
    /// `min_level`.
    fn continues_infix(&self, min_level: u8) -> (r: bool)
        requires
            self.index < self.tokens@.len(),
        ensures
            r == (prec_level(spec_rule(self.tokens@[self.index as int].kind).precedence)
                >= min_level as int),
    {
        let c = self.curr();
        let rl = get_rule(&c.kind);
        rl.precedence.as_u8() >= min_level
    }

    /// A parenthesized group: the expression inside, then a required `)`.
    fn grouping(&mut self) -> (r: Result<(), Error>)
        requires
            wf_tokens(old(self).tokens@),
            old(self).index < old(self).tokens@.len(),
        ensures
            final(self).tokens@ == old(self).tokens@,
            match r {
                Ok(_) => {
                    &&& old(self).index < final(self).index < old(self).tokens@.len()
                    &&& old(self).ops@.len() <= final(self).ops@.len()
                    &&& final(self).ops@.take(old(self).ops@.len() as int) == old(self).ops@
                    &&& sp_group(old(self).tokens@, old(self).index as int) == Some(
                        (
                            final(self).ops@.skip(old(self).ops@.len() as int),
                            final(self).index as int,
                        ),
                    )
                },
                Err(e) => sp_group(old(self).tokens@, old(self).index as int) is None && e
                    is CompileTime,
            },
        decreases old(self).tokens@.len() - old(self).index, 4int,
    {
        let ghost toks = self.tokens@;
        let ghost i0 = self.index as int;
        match self.expression() {
            Ok(_) => {},
            Err(e) => {
                return Err(e);
            },
        }
        let ghost j = self.index as int;
        match self.consume(&TokenType::RightParen, "Expect ')' after expression.") {
            Ok(_) => {
                proof {
                    assert(toks[j].kind == TokenType::RightParen);
                    assert(toks.last().kind == TokenType::Eof);
                    assert(j < toks.len() - 1);
                }
                Ok(())
            },
            Err(e) => {
                return Err(e);
            },
        }
    }

    /// A unary prefix: parse the operand at `Unary` strength, then negate
    /// for `-`; a leading `+` emits nothing.
    fn unary(&mut self) -> (r: Result<(), Error>)
        requires
            wf_tokens(old(self).tokens@),
            1 <= old(self).index < old(self).tokens@.len(),
            spec_rule(old(self).tokens@[old(self).index as int - 1].kind).prefix
                == PrefixRule::Unary,
        ensures
            final(self).tokens@ == old(self).tokens@,
            match r {
                Ok(_) => {
                    &&& old(self).index < final(self).index < old(self).tokens@.len()
                    &&& old(self).ops@.len() <= final(self).ops@.len()
                    &&& final(self).ops@.take(old(self).ops@.len() as int) == old(self).ops@
                    &&& sp_unary(old(self).tokens@, old(self).index as int - 1) == Some(
                        (
                            final(self).ops@.skip(old(self).ops@.len() as int),
                            final(self).index as int,
                        ),
                    )
                },
                Err(e) => sp_unary(old(self).tokens@, old(self).index as int - 1) is None && e
                    is CompileTime,
            },
        decreases old(self).tokens@.len() - old(self).index, 4int,
    {
        let ghost toks = self.tokens@;
        let ghost i0 = self.index as int;
        let ghost n0 = self.ops@.len() as int;
        proof {
            lemma_rule_table(toks[i0 - 1].kind);
        }
        let operator_type = self.prev().kind;
        match self.parse_precedence(Precedence::Unary) {
            Ok(_) => {},
            Err(e) => {
                return Err(e);
            },
        }
        match operator_type {
            TokenType::Minus => {
                let ghost before = self.ops@;
                self.emit_byte(OpCode::Negate);
                proof {
                    assert(self.ops@.take(n0) =~= before.take(n0));
                    assert(self.ops@.skip(n0) =~= before.skip(n0).push(OpCode::Negate));
                }
            },
            TokenType::Plus => {},
            _ => {},
        }
        Ok(())
    }

    /// An infix operator: parse the right operand one level above the
    /// operator's own strength, then emit the operator.
    fn binary(&mut self) -> (r: Result<(), Error>)
        requires
            wf_tokens(old(self).tokens@),
            1 <= old(self).index < old(self).tokens@.len(),
            is_binary_kind(old(self).tokens@[old(self).index as int - 1].kind),
        ensures
            final(self).tokens@ == old(self).tokens@,
            ({
                let kind = old(self).tokens@[old(self).index as int - 1].kind;
                let rhs = sp_prec(
                    old(self).tokens@,
                    old(self).index as int,
                    prec_level(spec_rule(kind).precedence) + 1,
                );
                match r {
                    Ok(_) => {
                        &&& old(self).index < final(self).index < old(self).tokens@.len()
                        &&& old(self).ops@.len() <= final(self).ops@.len()
                        &&& final(self).ops@.take(old(self).ops@.len() as int) == old(self).ops@
                        &&& rhs matches Some(pair) && final(self).ops@.skip(
                            old(self).ops@.len() as int,
                        ) == pair.0.push(OpCode::Op(infix_opcode(kind))) && final(self).index
                            == pair.1
                    },
                    Err(e) => rhs is None && e is CompileTime,
                }
            }),
        decreases old(self).tokens@.len() - old(self).index, 4int,
    {
        let ghost toks = self.tokens@;
        let ghost i0 = self.index as int;
        let ghost n0 = self.ops@.len() as int;
        proof {
            lemma_rule_table(toks[i0 - 1].kind);
        }
        let operator_type = self.prev().kind;
        let rule_level = get_rule(&operator_type).precedence.as_u8();
        let rule_precedence = Precedence::from_u8(rule_level + 1);
        match self.parse_precedence(rule_precedence) {
            Ok(_) => {},
            Err(e) => {
                return Err(e);
            },
        }
        let ghost before = self.ops@;
        match operator_type {
            TokenType::Integer => {},
            TokenType::Float => {},
            TokenType::Plus => self.emit_byte(OpCode::Op(Op::Plus)),
            TokenType::Minus => self.emit_byte(OpCode::Op(Op::Minus)),
            TokenType::Star => self.emit_byte(OpCode::Op(Op::Multiply)),
            TokenType::Slash => self.emit_byte(OpCode::Op(Op::Divide)),
            TokenType::EqualEqual => self.emit_byte(OpCode::Op(Op::EqualEqual)),
            TokenType::BangEqual => self.emit_byte(OpCode::Op(Op::BangEqual)),
            TokenType::Greater => self.emit_byte(OpCode::Op(Op::Greater)),
            TokenType::GreaterEqual => self.emit_byte(OpCode::Op(Op::GreaterEqual)),
            TokenType::Less => self.emit_byte(OpCode::Op(Op::Less)),
            TokenType::LessEqual => self.emit_byte(OpCode::Op(Op::LessEqual)),
            _ => {},
        }
        proof {
            assert(self.ops@.take(n0) =~= before.take(n0));
            assert(self.ops@.skip(n0) =~= before.skip(n0).push(
                OpCode::Op(infix_opcode(toks[i0 - 1].kind)),
            ));
        }
        Ok(())
    }

    /// One expression at the lowest real strength.
    fn expression(&mut self) -> (r: Result<(), Error>)
        requires
            wf_tokens(old(self).tokens@),
            old(self).index < old(self).tokens@.len(),
        ensures
            final(self).tokens@ == old(self).tokens@,
            match r {
                Ok(_) => {
                    &&& old(self).index < final(self).index < old(self).tokens@.len()
                    &&& old(self).ops@.len() <= final(self).ops@.len()
                    &&& final(self).ops@.take(old(self).ops@.len() as int) == old(self).ops@
                    &&& sp_prec(old(self).tokens@, old(self).index as int, 1) == Some(
                        (
                            final(self).ops@.skip(old(self).ops@.len() as int),
                            final(self).index as int,
                        ),
                    )
                },
                Err(e) => sp_prec(old(self).tokens@, old(self).index as int, 1) is None && e
                    is CompileTime,
            },
        decreases old(self).tokens@.len() - old(self).index, 3int,
    {
        self.parse_precedence(Precedence::Assignment)
    }

    /// The precedence climb itself: dispatch the prefix of the token under
    /// the cursor, then fold in infix operators binding at least as strongly
    /// as `precedence`.
    #[verifier::loop_isolation(false)]
    #[verifier::rlimit(100)]
    fn parse_precedence(&mut self, precedence: Precedence) -> (r: Result<(), Error>)
        requires
            wf_tokens(old(self).tokens@),
            old(self).index < old(self).tokens@.len(),
            1 <= prec_level(precedence),
        ensures
            final(self).tokens@ == old(self).tokens@,
            match r {
                Ok(_) => {
                    &&& old(self).index < final(self).index < old(self).tokens@.len()
                    &&& old(self).ops@.len() <= final(self).ops@.len()
                    &&& final(self).ops@.take(old(self).ops@.len() as int) == old(self).ops@
                    &&& sp_prec(
                        old(self).tokens@,
                        old(self).index as int,
                        prec_level(precedence),
                    ) == Some(
                        (
                            final(self).ops@.skip(old(self).ops@.len() as int),
                            final(self).index as int,
                        ),
                    )
                },
                Err(e) => sp_prec(
                    old(self).tokens@,
                    old(self).index as int,
                    prec_level(precedence),
                ) is None && e is CompileTime,
            },
        decreases old(self).tokens@.len() - old(self).index, 2int,
    {
        let ghost toks = self.tokens@;
        let ghost i0 = self.index as int;
        let ghost n0 = self.ops@.len() as int;
        let ghost ops0 = self.ops@;
        let ghost p = prec_level(precedence);
        self.advance();
        let prev_tok = self.prev();
        let rule = get_rule(&prev_tok.kind);
        proof {
            lemma_rule_table(prev_tok.kind);
        }
        match rule.prefix {
            PrefixRule::Number => {
                self.number();
                proof {
                    assert(toks[i0].kind != TokenType::Eof ==> i0 < toks.len() - 1);
                    assert(self.ops@.take(n0) =~= ops0);
                    assert(self.ops@.skip(n0) =~= seq![
                        OpCode::Constant(toks[i0].value.unwrap()),
                    ]);
                }
            },
            PrefixRule::Grouping => {
                match self.grouping() {
                    Ok(_) => {},
                    Err(e) => {
                        proof {
                            assert(sp_prec(toks, i0, p) is None);
                        }
                        return Err(e);
                    },
                }
            },
            PrefixRule::Unary => {
                match self.unary() {
                    Ok(_) => {},
                    Err(e) => {
                        proof {
                            assert(sp_prec(toks, i0, p) is None);
                        }
                        return Err(e);
                    },
                }
            },
            _ => {
                proof {
                    assert(sp_prec(toks, i0, p) is None);
                }
                return Err(Error::CompileTime("Expected expression".to_string()));
            },
        }
        proof {
            assert(sp_prec(toks, i0, p) == sp_infix(toks, self.index as int, p, self.ops@.skip(n0)));
        }
        let min_level = precedence.as_u8();
        while self.continues_infix(min_level)
            invariant
                self.tokens@ == toks,
                i0 < self.index,
                self.index < toks.len(),
                n0 <= self.ops@.len(),
                self.ops@.take(n0) == ops0,
                sp_prec(toks, i0, p) == sp_infix(toks, self.index as int, p, self.ops@.skip(n0)),
            decreases toks.len() - self.index,
        {
            let ghost j = self.index as int;
            let ghost acc = self.ops@.skip(n0);
            proof {
                lemma_rule_table(toks[j].kind);
                assert(toks[j].kind != TokenType::Eof);
                assert(j < toks.len() - 1);
            }
            self.advance();
            match self.binary() {
                Ok(_) => {},
                Err(e) => {
                    proof {
                        assert(sp_infix(toks, j, p, acc) is None);
                    }
                    return Err(e);
                },
            }
            proof {
                let kind = toks[j].kind;
                let lvl = prec_level(spec_rule(kind).precedence);
                let pair = sp_prec(toks, j + 1, lvl + 1).unwrap();
                assert(self.ops@.skip(n0) =~= acc + pair.0.push(OpCode::Op(infix_opcode(kind))));
                assert(acc + pair.0.push(OpCode::Op(infix_opcode(kind))) =~= acc + pair.0 + seq![
                    OpCode::Op(infix_opcode(kind)),
                ]);
                assert(sp_infix(toks, j, p, acc) == sp_infix(
                    toks,
                    self.index as int,
                    p,
                    self.ops@.skip(n0),
                ));
            }
        }
        proof {
            assert(sp_infix(toks, self.index as int, p, self.ops@.skip(n0)) == Some(
                (self.ops@.skip(n0), self.index as int),
            ));
        }
        Ok(())
    }

    /// Parses the whole token sequence: expressions back to back until
    /// `Eof`, then the trailing `Return`. `Ok` carries exactly the opcodes
    /// `spec_parse` gives; `Err` is the parse error `spec_parse` marks with
    /// `None`.
    #[verifier::loop_isolation(false)]
    pub fn parse(&mut self) -> (r: Result<Vec<OpCode>, Error>)
        requires
            wf_tokens(old(self).toks()),
            old(self).idx() == 0,
            old(self).emitted() == Seq::<OpCode>::empty(),
        ensures
            final(self).toks() == old(self).toks(),
            match r {
                Ok(ops) => spec_parse(old(self).toks()) == Some(ops@),
                Err(e) => spec_parse(old(self).toks()) is None && e is CompileTime,
            },
    {
        let ghost toks = self.tokens@;
        proof {
            if sp_program(toks, 0) is Some {
                assert(self.ops@ + sp_program(toks, 0).unwrap() =~= sp_program(toks, 0).unwrap());
            }
        }
        while self.has_more()
            invariant
                self.tokens@ == toks,
                self.index < toks.len(),
                sp_program(toks, 0) == opt_emit(self.ops@, sp_program(toks, self.index as int)),
            decreases toks.len() - self.index,
        {
            let ghost i_a = self.index as int;
            let ghost pre = self.ops@;
            match self.expression() {
                Ok(_) => {},
                Err(e) => {
                    proof {
                        assert(sp_program(toks, i_a) is None);
                    }
                    return Err(e);
                },
            }
            proof {
                let delta = self.ops@.skip(pre.len() as int);
                assert(self.ops@ =~= pre + delta);
                assert(sp_program(toks, i_a) == opt_emit(
                    delta,
                    sp_program(toks, self.index as int),
                ));
                if sp_program(toks, self.index as int) is Some {
                    let rest = sp_program(toks, self.index as int).unwrap();
                    assert(pre + (delta + rest) =~= (pre + delta) + rest);
                }
            }
        }
        let ghost pre = self.ops@;
        self.emit_return();
        proof {
            assert(sp_program(toks, self.index as int) == Some(seq![OpCode::Return]));
            assert(pre + seq![OpCode::Return] =~= self.ops@);
            assert(spec_parse(toks) == Some(self.ops@));
        }
        let mut out: Vec<OpCode> = Vec::new();
        let mut k: usize = 0;
        while k < self.ops.len()
            invariant
                k <= self.ops@.len(),
                out@ == self.ops@.take(k as int),
            decreases self.ops@.len() - k,
        {
            out.push(self.ops[k]);
            k = k + 1;
            proof {
                assert(out@ =~= self.ops@.take(k as int));
            }
        }
        proof {
            assert(out@ =~= self.ops@);
        }
        Ok(out)
    }

    /// Whether a token other than `Eof` stands under the cursor.
    fn has_more(&self) -> (r: bool)
        requires
            self.index < self.tokens@.len(),
        ensures
            r == (self.tokens@[self.index as int].kind != TokenType::Eof),
    {
        let c = self.curr();
        !(matches!(c.kind, TokenType::Eof))
    }
}

} // verus!
