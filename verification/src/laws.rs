use vstd::prelude::*;

use crate::floats::int_float_bits;
use crate::interpreter::float_binop;
use crate::interpreter::sp_binop;
use crate::interpreter::sp_run;
use crate::interpreter::spec_interpret;
use crate::opcode::Op;
use crate::opcode::OpCode;
use crate::parser::infix_opcode;
use crate::parser::is_binary_kind;
use crate::parser::lemma_rule_table;
use crate::parser::PrefixRule;
use crate::parser::prec_level;
use crate::parser::sp_group;
use crate::parser::sp_infix;
use crate::parser::sp_prec;
use crate::parser::sp_unary;
use crate::parser::sp_program;
use crate::parser::spec_parse;
use crate::parser::spec_rule;
use crate::scanner::digits_value;
use crate::scanner::is_digit_char;
use crate::scanner::is_num_char;
use crate::scanner::lemma_all_digits_no_dots;
use crate::scanner::lemma_digits_value_nonneg;
use crate::scanner::lemma_num_end_of_run;
use crate::scanner::mk_token;
use crate::scanner::spec_scan;
use crate::scanner::scan_from;
use crate::token::Token;
use crate::token::TokenInfo;
use crate::token::TokenType;
use crate::value::Value;

verus! {

// The laws of the evaluator, stated over the specifications of its three
// stages. The token constructors below carry a zeroed position, which no
// stage reads.
/// A number token carrying an integer or float literal.
pub open spec fn lit_tok(v: Value) -> Token
    recommends
        !(v is Bool),
{
    Token {
        kind: if v is Float {
            TokenType::Float
        } else {
            TokenType::Integer
        },
        value: Some(v),
        info: TokenInfo { start: 0, length: 0, line: 0 },
    }
}

/// An integer literal token.
pub open spec fn int_tok(i: i64) -> Token {
    lit_tok(Value::Integer(i))
}

/// An operator or punctuation token.
pub open spec fn op_tok(kind: TokenType) -> Token {
    Token { kind, value: None, info: TokenInfo { start: 0, length: 0, line: 0 } }
}

/// The end-of-input token.
pub open spec fn eof_tok() -> Token {
    Token { kind: TokenType::Eof, value: None, info: TokenInfo { start: 0, length: 0, line: 0 } }
}

/// Parsing, then running: the value of a token sequence, `None` when either
/// stage fails.
pub open spec fn run_tokens(toks: Seq<Token>) -> Option<Value> {
    match spec_parse(toks) {
        Some(ops) => spec_interpret(ops),
        None => None,
    }
}

/// `v1 k v2` compiles to the postfix sequence `v1 v2 k`, for every binary
/// operator `k` and whatever positions the four tokens carry.
pub proof fn lemma_parse_binary_tokens(toks: Seq<Token>, v1: Value, k: TokenType, v2: Value)
    requires
        toks.len() == 4,
        toks[0].kind == TokenType::Integer || toks[0].kind == TokenType::Float,
        toks[0].value == Some(v1),
        toks[1].kind == k,
        is_binary_kind(k),
        toks[2].kind == TokenType::Integer || toks[2].kind == TokenType::Float,
        toks[2].value == Some(v2),
        toks[3].kind == TokenType::Eof,
    ensures
        spec_parse(toks) == Some(
            seq![
                OpCode::Constant(v1),
                OpCode::Constant(v2),
                OpCode::Op(infix_opcode(k)),
                OpCode::Return,
            ],
        ),
{
    let lvl = prec_level(spec_rule(k).precedence);
    let acc = seq![OpCode::Constant(v1)] + seq![OpCode::Constant(v2)] + seq![
        OpCode::Op(infix_opcode(k)),
    ];
    lemma_rule_table(k);
    assert(sp_infix(toks, 3, lvl + 1, seq![OpCode::Constant(v2)]) == Some(
        (seq![OpCode::Constant(v2)], 3int),
    ));
    assert(sp_prec(toks, 2, lvl + 1) == Some((seq![OpCode::Constant(v2)], 3int)));
    assert(sp_infix(toks, 3, 1, acc) == Some((acc, 3int)));
    assert(sp_infix(toks, 1, 1, seq![OpCode::Constant(v1)]) == Some((acc, 3int)));
    assert(sp_prec(toks, 0, 1) == Some((acc, 3int)));
    assert(sp_program(toks, 3) == Some(seq![OpCode::Return]));
    assert(sp_program(toks, 0) == Some(acc + seq![OpCode::Return]));
    assert(acc + seq![OpCode::Return] =~= seq![
        OpCode::Constant(v1),
        OpCode::Constant(v2),
        OpCode::Op(infix_opcode(k)),
        OpCode::Return,
    ]);
}

/// The same, for the canonical zero-position tokens.
pub proof fn lemma_parse_binary(v1: Value, k: TokenType, v2: Value)
    requires
        is_binary_kind(k),
        !(v1 is Bool),
        !(v2 is Bool),
    ensures
        spec_parse(seq![lit_tok(v1), op_tok(k), lit_tok(v2), eof_tok()]) == Some(
            seq![
                OpCode::Constant(v1),
                OpCode::Constant(v2),
                OpCode::Op(infix_opcode(k)),
                OpCode::Return,
            ],
        ),
{
    lemma_parse_binary_tokens(seq![lit_tok(v1), op_tok(k), lit_tok(v2), eof_tok()], v1, k, v2);
}

/// Running the postfix sequence `v1 v2 k` applies the operator's
/// tag-dispatched semantics to the pair.
pub proof fn lemma_run_binary(v1: Value, op: Op, v2: Value)
    ensures
        spec_interpret(
            seq![OpCode::Constant(v1), OpCode::Constant(v2), OpCode::Op(op), OpCode::Return],
        ) == sp_binop(op, v1, v2),
{
    let ops = seq![OpCode::Constant(v1), OpCode::Constant(v2), OpCode::Op(op), OpCode::Return];
    let st0 = Seq::<Value>::empty();
    assert(sp_run(ops, 0, st0) == sp_run(ops, 1, st0.push(v1)));
    assert(sp_run(ops, 1, st0.push(v1)) == sp_run(ops, 2, st0.push(v1).push(v2)));
    let st2 = st0.push(v1).push(v2);
    assert(st2.len() == 2 && st2[0] == v1 && st2[1] == v2);
    match sp_binop(op, v1, v2) {
        Some(v) => {
            let st3 = st2.drop_last().drop_last().push(v);
            assert(st3.len() == 1 && st3.last() == v);
            assert(sp_run(ops, 2, st2) == sp_run(ops, 3, st3));
            assert(sp_run(ops, 3, st3) == Some(v));
        },
        None => {
            assert(sp_run(ops, 2, st2) is None);
        },
    }
}

/// Truncating division: the quotient of the magnitudes, negated when the
/// signs differ.
pub open spec fn truncated_quotient(a: i64, b: i64) -> int {
    let x = a as int;
    let d = b as int;
    if x >= 0 && d > 0 {
        x / d
    } else if x <= 0 && d < 0 {
        (-x) / (-d)
    } else if x <= 0 {
        -((-x) / d)
    } else {
        -(x / (-d))
    }
}

/// Dividing two integer values follows native truncating division, and
/// fails exactly on a zero divisor and on the one overflowing pair.
pub proof fn lemma_int_division_defined(a: i64, b: i64)
    ensures
        !(b == 0 || (a == i64::MIN && b == -1)) ==> sp_binop(
            Op::Divide,
            Value::Integer(a),
            Value::Integer(b),
        ) == Some(Value::Integer(truncated_quotient(a, b) as i64)),
        (b == 0 || (a == i64::MIN && b == -1)) ==> sp_binop(
            Op::Divide,
            Value::Integer(a),
            Value::Integer(b),
        ) is None,
{
    if !(b == 0 || (a == i64::MIN && b == -1)) {
        let x = a as int;
        let d = b as int;
        if x > 0 && d > 0 {
            vstd::arithmetic::div_mod::lemma_div_nonincreasing(x, d);
            vstd::arithmetic::div_mod::lemma_div_pos_is_pos(x, d);
        } else if x < 0 && d < 0 {
            vstd::arithmetic::div_mod::lemma_div_nonincreasing(-x, -d);
            vstd::arithmetic::div_mod::lemma_div_pos_is_pos(-x, -d);
            if x == i64::MIN as int {
                vstd::arithmetic::div_mod::lemma_div_is_ordered_by_denominator(-x, 2, -d);
                assert((-x) / 2 == 0x4000_0000_0000_0000);
            }
        } else if x < 0 {
            vstd::arithmetic::div_mod::lemma_div_nonincreasing(-x, d);
            vstd::arithmetic::div_mod::lemma_div_pos_is_pos(-x, d);
        } else if x > 0 {
            vstd::arithmetic::div_mod::lemma_div_nonincreasing(x, -d);
            vstd::arithmetic::div_mod::lemma_div_pos_is_pos(x, -d);
        } else {
            assert(x == 0);
            if d > 0 {
                vstd::arithmetic::div_mod::lemma_div_nonincreasing(x, d);
                vstd::arithmetic::div_mod::lemma_div_pos_is_pos(x, d);
            } else {
                vstd::arithmetic::div_mod::lemma_div_nonincreasing(-x, -d);
                vstd::arithmetic::div_mod::lemma_div_pos_is_pos(-x, -d);
            }
        }
        assert(sp_binop(Op::Divide, Value::Integer(a), Value::Integer(b)) matches Some(v)
            && v is Integer);
    } else if b == 0 {
        assert(sp_binop(Op::Divide, Value::Integer(a), Value::Integer(b)) is None);
    } else {
        let x = a as int;
        assert((-x) / 1int == -x) by {
            vstd::arithmetic::div_mod::lemma_fundamental_div_mod(-x, 1);
            vstd::arithmetic::div_mod::lemma_mod_bound(-x, 1);
        }
        assert(sp_binop(Op::Divide, Value::Integer(a), Value::Integer(b)) is None);
    }
}

/// The same law over the source text itself: for any two decimal operand
/// spellings around a `/`, the text scans to the three tokens and evaluates
/// to the truncating quotient. (Negative operands are spelled with a unary
/// minus and go through `lemma_unary_binds_tighter`.)
pub proof fn lemma_division_text(sa: Seq<char>, sb: Seq<char>, a: i64, b: i64)
    requires
        sa.len() >= 1,
        sb.len() >= 1,
        forall|k: int| 0 <= k < sa.len() ==> is_digit_char(#[trigger] sa[k]),
        forall|k: int| 0 <= k < sb.len() ==> is_digit_char(#[trigger] sb[k]),
        digits_value(sa) == a,
        digits_value(sb) == b,
        b != 0,
    ensures
        spec_scan(sa + seq!['/'] + sb) matches Some(toks) && run_tokens(toks) == Some(
            Value::Integer(truncated_quotient(a, b) as i64),
        ),
{
    let s = sa + seq!['/'] + sb;
    let la = sa.len() as int;
    let n = s.len() as int;
    assert(s[la] == '/');
    assert forall|k: int| 0 <= k < la implies is_num_char(#[trigger] s[k]) by {
        assert(s[k] == sa[k]);
    }
    assert forall|k: int| la + 1 <= k < n implies is_num_char(#[trigger] s[k]) by {
        assert(s[k] == sb[k - la - 1]);
    }
    lemma_num_end_of_run(s, 0, la);
    lemma_num_end_of_run(s, la + 1, n);
    assert(s.subrange(0, la) =~= sa);
    assert(s.subrange(la + 1, n) =~= sb);
    lemma_all_digits_no_dots(sa);
    lemma_all_digits_no_dots(sb);
    lemma_digits_value_nonneg(sa);
    lemma_digits_value_nonneg(sb);
    let t0 = mk_token(TokenType::Integer, Some(Value::Integer(a)), 0, la, 0);
    let t1 = mk_token(TokenType::Slash, None, la, 1, 0);
    let t2 = mk_token(TokenType::Integer, Some(Value::Integer(b)), la + 1, n - la - 1, 0);
    let t3 = mk_token(TokenType::Eof, None, n, 1, 0);
    assert(scan_from(s, n, 0, n) == Some(seq![t3]));
    assert(scan_from(s, la + 1, 0, la + 1) == Some(seq![t2] + seq![t3]));
    assert(scan_from(s, la, 0, la) == Some(seq![t1] + (seq![t2] + seq![t3])));
    assert(scan_from(s, 0, 0, 0) == Some(seq![t0] + (seq![t1] + (seq![t2] + seq![t3]))));
    let toks = seq![t0, t1, t2, t3];
    assert(seq![t0] + (seq![t1] + (seq![t2] + seq![t3])) =~= toks);
    assert(spec_scan(s) == Some(toks));
    lemma_parse_binary_tokens(toks, Value::Integer(a), TokenType::Slash, Value::Integer(b));
    lemma_run_binary(Value::Integer(a), Op::Divide, Value::Integer(b));
    lemma_int_division_defined(a, b);
}

/// For all integers `a` and `b` with `b != 0` (and barring the one
/// overflowing pair), `a / b` evaluates to native truncating division.
pub proof fn lemma_division_truncates(a: i64, b: i64)
    ensures
        !(b == 0 || (a == i64::MIN && b == -1)) ==> run_tokens(
            seq![int_tok(a), op_tok(TokenType::Slash), int_tok(b), eof_tok()],
        ) == Some(Value::Integer(truncated_quotient(a, b) as i64)),
        (b == 0 || (a == i64::MIN && b == -1)) ==> run_tokens(
            seq![int_tok(a), op_tok(TokenType::Slash), int_tok(b), eof_tok()],
        ) is None,
{
    lemma_parse_binary(Value::Integer(a), TokenType::Slash, Value::Integer(b));
    lemma_run_binary(Value::Integer(a), Op::Divide, Value::Integer(b));
    lemma_int_division_defined(a, b);
}

/// For all integers, the six comparison operators evaluate to the native
/// 64-bit signed comparisons.
pub proof fn lemma_integer_comparisons(a: i64, b: i64)
    ensures
        run_tokens(seq![int_tok(a), op_tok(TokenType::EqualEqual), int_tok(b), eof_tok()])
            == Some(Value::Bool(a == b)),
        run_tokens(seq![int_tok(a), op_tok(TokenType::BangEqual), int_tok(b), eof_tok()]) == Some(
            Value::Bool(a != b),
        ),
        run_tokens(seq![int_tok(a), op_tok(TokenType::Less), int_tok(b), eof_tok()]) == Some(
            Value::Bool(a < b),
        ),
        run_tokens(seq![int_tok(a), op_tok(TokenType::LessEqual), int_tok(b), eof_tok()]) == Some(
            Value::Bool(a <= b),
        ),
        run_tokens(seq![int_tok(a), op_tok(TokenType::Greater), int_tok(b), eof_tok()]) == Some(
            Value::Bool(a > b),
        ),
        run_tokens(seq![int_tok(a), op_tok(TokenType::GreaterEqual), int_tok(b), eof_tok()])
            == Some(Value::Bool(a >= b)),
{
    lemma_parse_binary(Value::Integer(a), TokenType::EqualEqual, Value::Integer(b));
    lemma_run_binary(Value::Integer(a), Op::EqualEqual, Value::Integer(b));
    lemma_parse_binary(Value::Integer(a), TokenType::BangEqual, Value::Integer(b));
    lemma_run_binary(Value::Integer(a), Op::BangEqual, Value::Integer(b));
    lemma_parse_binary(Value::Integer(a), TokenType::Less, Value::Integer(b));
    lemma_run_binary(Value::Integer(a), Op::Less, Value::Integer(b));
    lemma_parse_binary(Value::Integer(a), TokenType::LessEqual, Value::Integer(b));
    lemma_run_binary(Value::Integer(a), Op::LessEqual, Value::Integer(b));
    lemma_parse_binary(Value::Integer(a), TokenType::Greater, Value::Integer(b));
    lemma_run_binary(Value::Integer(a), Op::Greater, Value::Integer(b));
    lemma_parse_binary(Value::Integer(a), TokenType::GreaterEqual, Value::Integer(b));
    lemma_run_binary(Value::Integer(a), Op::GreaterEqual, Value::Integer(b));
}

/// Chains of operators of one binding strength group to the left:
/// `v1 k1 v2 k2 v3` compiles to `(v1 k1 v2) k2 v3`, never to
/// `v1 k1 (v2 k2 v3)`, and evaluates accordingly.
pub proof fn lemma_left_associative(v1: Value, v2: Value, v3: Value, k1: TokenType, k2: TokenType)
    requires
        is_binary_kind(k1),
        is_binary_kind(k2),
        prec_level(spec_rule(k1).precedence) == prec_level(spec_rule(k2).precedence),
        !(v1 is Bool),
        !(v2 is Bool),
        !(v3 is Bool),
    ensures
        spec_parse(seq![lit_tok(v1), op_tok(k1), lit_tok(v2), op_tok(k2), lit_tok(v3), eof_tok()])
            == Some(
            seq![
                OpCode::Constant(v1),
                OpCode::Constant(v2),
                OpCode::Op(infix_opcode(k1)),
                OpCode::Constant(v3),
                OpCode::Op(infix_opcode(k2)),
                OpCode::Return,
            ],
        ),
        run_tokens(seq![lit_tok(v1), op_tok(k1), lit_tok(v2), op_tok(k2), lit_tok(v3), eof_tok()])
            == (match sp_binop(infix_opcode(k1), v1, v2) {
            Some(x) => sp_binop(infix_opcode(k2), x, v3),
            None => None,
        }),
{
    let toks = seq![lit_tok(v1), op_tok(k1), lit_tok(v2), op_tok(k2), lit_tok(v3), eof_tok()];
    let lvl = prec_level(spec_rule(k1).precedence);
    let op1 = infix_opcode(k1);
    let op2 = infix_opcode(k2);
    let a2 = seq![OpCode::Constant(v1)] + seq![OpCode::Constant(v2)] + seq![OpCode::Op(op1)];
    let a3 = a2 + seq![OpCode::Constant(v3)] + seq![OpCode::Op(op2)];
    lemma_rule_table(k1);
    lemma_rule_table(k2);
    assert(sp_infix(toks, 3, lvl + 1, seq![OpCode::Constant(v2)]) == Some(
        (seq![OpCode::Constant(v2)], 3int),
    ));
    assert(sp_prec(toks, 2, lvl + 1) == Some((seq![OpCode::Constant(v2)], 3int)));
    assert(sp_infix(toks, 5, lvl + 1, seq![OpCode::Constant(v3)]) == Some(
        (seq![OpCode::Constant(v3)], 5int),
    ));
    assert(sp_prec(toks, 4, lvl + 1) == Some((seq![OpCode::Constant(v3)], 5int)));
    assert(sp_infix(toks, 5, 1, a3) == Some((a3, 5int)));
    assert(sp_infix(toks, 3, 1, a2) == Some((a3, 5int)));
    assert(sp_infix(toks, 1, 1, seq![OpCode::Constant(v1)]) == Some((a3, 5int)));
    assert(sp_prec(toks, 0, 1) == Some((a3, 5int)));
    assert(sp_program(toks, 5) == Some(seq![OpCode::Return]));
    assert(sp_program(toks, 0) == Some(a3 + seq![OpCode::Return]));
    let target = seq![
        OpCode::Constant(v1),
        OpCode::Constant(v2),
        OpCode::Op(op1),
        OpCode::Constant(v3),
        OpCode::Op(op2),
        OpCode::Return,
    ];
    assert(a3 + seq![OpCode::Return] =~= target);
    let st0 = Seq::<Value>::empty();
    assert(sp_run(target, 0, st0) == sp_run(target, 1, st0.push(v1)));
    assert(sp_run(target, 1, st0.push(v1)) == sp_run(target, 2, st0.push(v1).push(v2)));
    let st2 = st0.push(v1).push(v2);
    assert(st2.len() == 2 && st2[0] == v1 && st2[1] == v2);
    match sp_binop(op1, v1, v2) {
        Some(x) => {
            let st3 = st2.drop_last().drop_last().push(x);
            assert(sp_run(target, 2, st2) == sp_run(target, 3, st3));
            let st4 = st3.push(v3);
            assert(sp_run(target, 3, st3) == sp_run(target, 4, st4));
            assert(st4.len() == 2 && st4[0] == x && st4[1] == v3);
            match sp_binop(op2, x, v3) {
                Some(y) => {
                    let st5 = st4.drop_last().drop_last().push(y);
                    assert(sp_run(target, 4, st4) == sp_run(target, 5, st5));
                    assert(st5.len() == 1 && st5.last() == y);
                    assert(sp_run(target, 5, st5) == Some(y));
                },
                None => {
                    assert(sp_run(target, 4, st4) is None);
                },
            }
        },
        None => {
            assert(sp_run(target, 2, st2) is None);
        },
    }
}

/// Unary negation binds more tightly than every binary operator:
/// `- v1 k v2` parses as `(- v1) k v2`, the same opcodes as with explicit
/// parentheses.
pub proof fn lemma_unary_binds_tighter(v1: Value, v2: Value, k: TokenType)
    requires
        is_binary_kind(k),
        !(v1 is Bool),
        !(v2 is Bool),
    ensures
        spec_parse(
            seq![op_tok(TokenType::Minus), lit_tok(v1), op_tok(k), lit_tok(v2), eof_tok()],
        ) == Some(
            seq![
                OpCode::Constant(v1),
                OpCode::Negate,
                OpCode::Constant(v2),
                OpCode::Op(infix_opcode(k)),
                OpCode::Return,
            ],
        ),
        spec_parse(
            seq![
                op_tok(TokenType::LeftParen),
                op_tok(TokenType::Minus),
                lit_tok(v1),
                op_tok(TokenType::RightParen),
                op_tok(k),
                lit_tok(v2),
                eof_tok(),
            ],
        ) == spec_parse(
            seq![op_tok(TokenType::Minus), lit_tok(v1), op_tok(k), lit_tok(v2), eof_tok()],
        ),
{
    let ta = seq![op_tok(TokenType::Minus), lit_tok(v1), op_tok(k), lit_tok(v2), eof_tok()];
    let tb = seq![
        op_tok(TokenType::LeftParen),
        op_tok(TokenType::Minus),
        lit_tok(v1),
        op_tok(TokenType::RightParen),
        op_tok(k),
        lit_tok(v2),
        eof_tok(),
    ];
    let lvl = prec_level(spec_rule(k).precedence);
    let op = infix_opcode(k);
    let neg = seq![OpCode::Constant(v1)].push(OpCode::Negate);
    let acc = neg + seq![OpCode::Constant(v2)] + seq![OpCode::Op(op)];
    lemma_rule_table(k);
    // the plain form
    assert(sp_infix(ta, 2, 8, seq![OpCode::Constant(v1)]) == Some(
        (seq![OpCode::Constant(v1)], 2int),
    ));
    assert(sp_prec(ta, 1, 8) == Some((seq![OpCode::Constant(v1)], 2int)));
    assert(sp_unary(ta, 0) == Some((neg, 2int)));
    assert(sp_infix(ta, 4, lvl + 1, seq![OpCode::Constant(v2)]) == Some(
        (seq![OpCode::Constant(v2)], 4int),
    ));
    assert(sp_prec(ta, 3, lvl + 1) == Some((seq![OpCode::Constant(v2)], 4int)));
    assert(sp_infix(ta, 4, 1, acc) == Some((acc, 4int)));
    assert(sp_infix(ta, 2, 1, neg) == Some((acc, 4int)));
    assert(sp_prec(ta, 0, 1) == Some((acc, 4int)));
    assert(sp_program(ta, 4) == Some(seq![OpCode::Return]));
    assert(sp_program(ta, 0) == Some(acc + seq![OpCode::Return]));
    let target = seq![
        OpCode::Constant(v1),
        OpCode::Negate,
        OpCode::Constant(v2),
        OpCode::Op(op),
        OpCode::Return,
    ];
    assert(acc + seq![OpCode::Return] =~= target);
    // the parenthesized form
    assert(sp_infix(tb, 3, 8, seq![OpCode::Constant(v1)]) == Some(
        (seq![OpCode::Constant(v1)], 3int),
    ));
    assert(sp_prec(tb, 2, 8) == Some((seq![OpCode::Constant(v1)], 3int)));
    assert(sp_unary(tb, 1) == Some((neg, 3int)));
    assert(sp_infix(tb, 3, 1, neg) == Some((neg, 3int)));
    assert(sp_prec(tb, 1, 1) == Some((neg, 3int)));
    assert(sp_group(tb, 1) == Some((neg, 4int)));
    assert(sp_infix(tb, 6, lvl + 1, seq![OpCode::Constant(v2)]) == Some(
        (seq![OpCode::Constant(v2)], 6int),
    ));
    assert(sp_prec(tb, 5, lvl + 1) == Some((seq![OpCode::Constant(v2)], 6int)));
    assert(sp_infix(tb, 6, 1, acc) == Some((acc, 6int)));
    assert(sp_infix(tb, 4, 1, neg) == Some((acc, 6int)));
    assert(sp_prec(tb, 0, 1) == Some((acc, 6int)));
    assert(sp_program(tb, 6) == Some(seq![OpCode::Return]));
    assert(sp_program(tb, 0) == Some(acc + seq![OpCode::Return]));
}

/// Parentheses are transparent: `(v1 k1 v2) k2 v3` compiles to the postfix
/// of the grouped pair first, whatever the two operators' relative
/// strengths.
pub proof fn lemma_grouping_transparent(
    v1: Value,
    v2: Value,
    v3: Value,
    k1: TokenType,
    k2: TokenType,
)
    requires
        is_binary_kind(k1),
        is_binary_kind(k2),
        !(v1 is Bool),
        !(v2 is Bool),
        !(v3 is Bool),
    ensures
        spec_parse(
            seq![
                op_tok(TokenType::LeftParen),
                lit_tok(v1),
                op_tok(k1),
                lit_tok(v2),
                op_tok(TokenType::RightParen),
                op_tok(k2),
                lit_tok(v3),
                eof_tok(),
            ],
        ) == Some(
            seq![
                OpCode::Constant(v1),
                OpCode::Constant(v2),
                OpCode::Op(infix_opcode(k1)),
                OpCode::Constant(v3),
                OpCode::Op(infix_opcode(k2)),
                OpCode::Return,
            ],
        ),
{
    let toks = seq![
        op_tok(TokenType::LeftParen),
        lit_tok(v1),
        op_tok(k1),
        lit_tok(v2),
        op_tok(TokenType::RightParen),
        op_tok(k2),
        lit_tok(v3),
        eof_tok(),
    ];
    let l1 = prec_level(spec_rule(k1).precedence);
    let l2 = prec_level(spec_rule(k2).precedence);
    let op1 = infix_opcode(k1);
    let op2 = infix_opcode(k2);
    let a2 = seq![OpCode::Constant(v1)] + seq![OpCode::Constant(v2)] + seq![OpCode::Op(op1)];
    let a3 = a2 + seq![OpCode::Constant(v3)] + seq![OpCode::Op(op2)];
    lemma_rule_table(k1);
    lemma_rule_table(k2);
    assert(sp_infix(toks, 4, l1 + 1, seq![OpCode::Constant(v2)]) == Some(
        (seq![OpCode::Constant(v2)], 4int),
    ));
    assert(sp_prec(toks, 3, l1 + 1) == Some((seq![OpCode::Constant(v2)], 4int)));
    assert(sp_infix(toks, 4, 1, a2) == Some((a2, 4int)));
    assert(sp_infix(toks, 2, 1, seq![OpCode::Constant(v1)]) == Some((a2, 4int)));
    assert(sp_prec(toks, 1, 1) == Some((a2, 4int)));
    assert(sp_group(toks, 1) == Some((a2, 5int)));
    assert(sp_infix(toks, 7, l2 + 1, seq![OpCode::Constant(v3)]) == Some(
        (seq![OpCode::Constant(v3)], 7int),
    ));
    assert(sp_prec(toks, 6, l2 + 1) == Some((seq![OpCode::Constant(v3)], 7int)));
    assert(sp_infix(toks, 7, 1, a3) == Some((a3, 7int)));
    assert(sp_infix(toks, 5, 1, a2) == Some((a3, 7int)));
    assert(sp_prec(toks, 0, 1) == Some((a3, 7int)));
    assert(sp_program(toks, 7) == Some(seq![OpCode::Return]));
    assert(sp_program(toks, 0) == Some(a3 + seq![OpCode::Return]));
    assert(a3 + seq![OpCode::Return] =~= seq![
        OpCode::Constant(v1),
        OpCode::Constant(v2),
        OpCode::Op(op1),
        OpCode::Constant(v3),
        OpCode::Op(op2),
        OpCode::Return,
    ]);
}

/// A mixed integer and float pair always widens the integer to binary64:
/// the four arithmetic operators never fail on it and always yield a
/// `Float`.
pub proof fn lemma_mixed_operands_widen(op: Op, x: i64, b: u64)
    requires
        op == Op::Plus || op == Op::Minus || op == Op::Multiply || op == Op::Divide,
    ensures
        sp_binop(op, Value::Integer(x), Value::Float(b)) == float_binop(
            op,
            int_float_bits(x),
            b,
        ),
        sp_binop(op, Value::Float(b), Value::Integer(x)) == float_binop(
            op,
            b,
            int_float_bits(x),
        ),
        sp_binop(op, Value::Integer(x), Value::Float(b)) matches Some(v) && v is Float,
        sp_binop(op, Value::Float(b), Value::Integer(x)) matches Some(w) && w is Float,
{
}

proof fn lemma_blank_scan(s: Seq<char>, i: int, line: int, col: int)
    requires
        0 <= i <= s.len(),
        forall|k: int| i <= k < s.len() ==> (#[trigger] s[k]) == ' ' || s[k] == '\n',
    ensures
        scan_from(s, i, line, col) matches Some(toks) && toks.len() == 1 && toks[0].kind
            == TokenType::Eof,
    decreases s.len() - i,
{
    if i < s.len() {
        if s[i] == '\n' {
            lemma_blank_scan(s, i + 1, line + 1, 0);
        } else {
            lemma_blank_scan(s, i + 1, line, col + 1);
        }
    }
}

/// Opcodes free of `Return`.
pub open spec fn no_return(ops: Seq<OpCode>) -> bool {
    forall|k: int| 0 <= k < ops.len() ==> (#[trigger] ops[k]) != OpCode::Return
}

proof fn lemma_unary_no_return(toks: Seq<Token>, i: int)
    ensures
        sp_unary(toks, i) matches Some(pair) ==> no_return(pair.0),
    decreases toks.len() - i, 0int,
{
    if 0 <= i < toks.len() {
        if toks[i].kind == TokenType::Minus || toks[i].kind == TokenType::Plus {
            lemma_prec_no_return(toks, i + 1, 8);
        }
    }
}

proof fn lemma_group_no_return(toks: Seq<Token>, i: int)
    ensures
        sp_group(toks, i) matches Some(pair) ==> no_return(pair.0),
    decreases toks.len() - i, 2int,
{
    lemma_prec_no_return(toks, i, 1);
}

proof fn lemma_prec_no_return(toks: Seq<Token>, i: int, p: int)
    ensures
        sp_prec(toks, i, p) matches Some(pair) ==> no_return(pair.0),
    decreases toks.len() - i, 1int,
{
    if 0 <= i < toks.len() {
        let pre = spec_rule(toks[i].kind).prefix;
        if pre == PrefixRule::Grouping {
            lemma_group_no_return(toks, i + 1);
        } else if pre == PrefixRule::Unary {
            lemma_unary_no_return(toks, i);
        }
        let prefix_result: Option<(Seq<OpCode>, int)> = if pre == PrefixRule::Number {
            match toks[i].value {
                Some(v) => Some((seq![OpCode::Constant(v)], i + 1)),
                None => None,
            }
        } else if pre == PrefixRule::Grouping {
            sp_group(toks, i + 1)
        } else if pre == PrefixRule::Unary {
            sp_unary(toks, i)
        } else {
            None
        };
        match prefix_result {
            Some((ops, j)) => {
                let j2 = if j <= i {
                    i + 1
                } else if j > toks.len() {
                    toks.len() as int
                } else {
                    j
                };
                lemma_infix_no_return(toks, j2, p, ops);
            },
            None => {},
        }
    }
}

proof fn lemma_infix_no_return(toks: Seq<Token>, j: int, p: int, acc: Seq<OpCode>)
    requires
        no_return(acc),
    ensures
        sp_infix(toks, j, p, acc) matches Some(pair) ==> no_return(pair.0),
    decreases toks.len() - j, 0int,
{
    if 0 <= j < toks.len() && prec_level(spec_rule(toks[j].kind).precedence) >= p {
        let kind = toks[j].kind;
        let lvl = prec_level(spec_rule(kind).precedence);
        lemma_prec_no_return(toks, j + 1, lvl + 1);
        match sp_prec(toks, j + 1, lvl + 1) {
            Some((rops, m)) => {
                let m2 = if m < j + 1 {
                    j + 1
                } else if m > toks.len() {
                    toks.len() as int
                } else {
                    m
                };
                let acc2 = acc + rops + seq![OpCode::Op(infix_opcode(kind))];
                assert(no_return(acc2));
                lemma_infix_no_return(toks, m2, p, acc2);
            },
            None => {},
        }
    }
}

/// The bytecode invariant: whatever parses, parses to expression code
/// followed by exactly one `Return`, which is the last opcode.
pub proof fn lemma_single_trailing_return(toks: Seq<Token>, i: int)
    ensures
        sp_program(toks, i) matches Some(ops) ==> ops.len() >= 1 && ops.last() == OpCode::Return
            && no_return(ops.drop_last()),
    decreases toks.len() - i,
{
    if 0 <= i < toks.len() && toks[i].kind != TokenType::Eof {
        lemma_prec_no_return(toks, i, 1);
        match sp_prec(toks, i, 1) {
            Some((ops, j)) => {
                let j2 = if j <= i {
                    i + 1
                } else if j > toks.len() {
                    toks.len() as int
                } else {
                    j
                };
                lemma_single_trailing_return(toks, j2);
                match sp_program(toks, j2) {
                    Some(rest) => {
                        assert((ops + rest).last() == rest.last());
                        assert((ops + rest).drop_last() =~= ops + rest.drop_last());
                    },
                    None => {},
                }
            },
            None => {},
        }
    }
}

/// The policy on empty and whitespace-only input: it scans to the lone
/// `Eof` token, parses to the bare `Return`, and running that `Return` on
/// the empty stack is a runtime error — so such an input evaluates to a
/// defined runtime error, never to a value.
pub proof fn lemma_blank_input(s: Seq<char>)
    requires
        forall|k: int| 0 <= k < s.len() ==> (#[trigger] s[k]) == ' ' || s[k] == '\n',
    ensures
        spec_scan(s) matches Some(toks) && toks.len() == 1 && toks[0].kind == TokenType::Eof,
        spec_scan(s) matches Some(toks) && spec_parse(toks) == Some(seq![OpCode::Return]),
        spec_interpret(seq![OpCode::Return]) == None::<Value>,
{
    lemma_blank_scan(s, 0, 0, 0);
    let toks = spec_scan(s).unwrap();
    assert(sp_program(toks, 0) == Some(seq![OpCode::Return]));
    assert(sp_run(seq![OpCode::Return], 0, Seq::<Value>::empty()) is None);
}

} // verus!
