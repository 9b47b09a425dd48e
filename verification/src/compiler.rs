use vstd::prelude::*;

use crate::opcode::OpCode;

verus! {

/// A compiled program: the opcode sequence handed to the interpreter.
pub struct Compiler {
    pub ops: Vec<OpCode>,
}

/// How an evaluation fails: `CompileTime` for lexical and parse errors,
/// `Runtime` for undefined operations met while executing well-formed
/// bytecode. Both are fatal to the evaluation; neither aborts the caller.
#[derive(Clone, Debug, PartialEq)]
pub enum Error {
    CompileTime(String),
    Runtime(String),
}

impl Compiler {
    pub fn new(ops: &[OpCode]) -> (c: Self)
        ensures
            c.ops@ == ops@,
    {
        Compiler { ops: slice_to_vec(ops) }
    }
}

/// Copies a slice of opcodes into an owned vector.
fn slice_to_vec(ops: &[OpCode]) -> (v: Vec<OpCode>)
    ensures
        v@ == ops@,
{
    let mut v: Vec<OpCode> = Vec::new();
    let mut k: usize = 0;
    while k < ops.len()
        invariant
            k <= ops.len(),
            v@ == ops@.take(k as int),
        decreases ops.len() - k,
    {
        v.push(ops[k]);
        k = k + 1;
        proof {
            assert(v@ =~= ops@.take(k as int));
        }
    }
    proof {
        assert(v@ =~= ops@);
    }
    v
}

} // verus!
