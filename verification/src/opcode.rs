use vstd::prelude::*;

use crate::value::Value;

verus! {

/// A binary operator of the bytecode.
#[derive(Clone, Copy, Debug, PartialEq, Eq, Structural)]
pub enum Op {
    Plus,
    Minus,
    Multiply,
    Divide,
    EqualEqual,
    BangEqual,
    GreaterEqual,
    Greater,
    Less,
    LessEqual,
}

/// One instruction of the flat, jump-free opcode sequence: push a constant,
/// apply a binary operator to the two topmost stack values, negate the top,
/// or stop and yield the top.
#[derive(Clone, Copy, Debug, PartialEq, Eq, Structural)]
pub enum OpCode {
    Constant(Value),
    Op(Op),
    Return,
    Negate,
}

} // verus!
