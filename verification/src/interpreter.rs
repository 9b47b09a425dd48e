use vstd::prelude::*;

use crate::compiler::Error;
use crate::floats::float_add_bits;
use crate::floats::float_div_bits;
use crate::floats::float_eq_bits;
use crate::floats::float_lt_bits;
use crate::floats::float_mul_bits;
use crate::floats::float_sub_bits;
use crate::floats::int_float_bits;
use crate::floats::float_add;
use crate::floats::float_div;
use crate::floats::float_eq;
use crate::floats::float_lt;
use crate::floats::float_mul;
use crate::floats::float_sub;
use crate::floats::int_to_float_bits;
use crate::opcode::Op;
use crate::opcode::OpCode;
use crate::value::Value;

verus! {

/// IEEE negation is exactly a flip of the sign bit, for every operand
/// including zeros, infinities and `NaN`.
pub open spec fn float_neg_bits(bits: u64) -> u64 {
    bits ^ 0x8000_0000_0000_0000
}

/// A binary operator on two integers: native 64-bit checked arithmetic
/// (overflow, and division by zero, are runtime errors; division truncates
/// toward zero), comparisons yield `Bool`.
pub open spec fn int_binop(op: Op, a: i64, b: i64) -> Option<Value> {
    match op {
        Op::Plus => match a.checked_add(b) {
            Some(v) => Some(Value::Integer(v)),
            None => None,
        },
        Op::Minus => match a.checked_sub(b) {
            Some(v) => Some(Value::Integer(v)),
            None => None,
        },
        Op::Multiply => match a.checked_mul(b) {
            Some(v) => Some(Value::Integer(v)),
            None => None,
        },
        Op::Divide => match a.checked_div(b) {
            Some(v) => Some(Value::Integer(v)),
            None => None,
        },
        Op::EqualEqual => Some(Value::Bool(a == b)),
        Op::BangEqual => Some(Value::Bool(a != b)),
        Op::Greater => Some(Value::Bool(a > b)),
        Op::GreaterEqual => Some(Value::Bool(a >= b)),
        Op::Less => Some(Value::Bool(a < b)),
        Op::LessEqual => Some(Value::Bool(a <= b)),
    }
}

/// A binary operator on two binary64 numbers given as bit patterns: IEEE
/// arithmetic never fails, and the comparisons derive from IEEE equality
/// and strict order (so every comparison of a `NaN` is false except `!=`).
pub open spec fn float_binop(op: Op, a: u64, b: u64) -> Option<Value> {
    match op {
        Op::Plus => Some(Value::Float(float_add_bits(a, b))),
        Op::Minus => Some(Value::Float(float_sub_bits(a, b))),
        Op::Multiply => Some(Value::Float(float_mul_bits(a, b))),
        Op::Divide => Some(Value::Float(float_div_bits(a, b))),
        Op::EqualEqual => Some(Value::Bool(float_eq_bits(a, b))),
        Op::BangEqual => Some(Value::Bool(!float_eq_bits(a, b))),
        Op::Greater => Some(Value::Bool(float_lt_bits(b, a))),
        Op::GreaterEqual => Some(Value::Bool(float_lt_bits(b, a) || float_eq_bits(a, b))),
        Op::Less => Some(Value::Bool(float_lt_bits(a, b))),
        Op::LessEqual => Some(Value::Bool(float_lt_bits(a, b) || float_eq_bits(a, b))),
    }
}

/// Dispatch over the pair of runtime tags: two integers use integer
/// semantics, two floats IEEE semantics, a mixed pair widens the integer to
/// binary64, and booleans admit equality alone; every other pairing is a
/// runtime error.
pub open spec fn sp_binop(op: Op, a: Value, b: Value) -> Option<Value> {
    match (a, b) {
        (Value::Integer(x), Value::Integer(y)) => int_binop(op, x, y),
        (Value::Float(x), Value::Float(y)) => float_binop(op, x, y),
        (Value::Float(x), Value::Integer(y)) => float_binop(op, x, int_float_bits(y)),
        (Value::Integer(x), Value::Float(y)) => float_binop(op, int_float_bits(x), y),
        (Value::Bool(x), Value::Bool(y)) => if op == Op::EqualEqual {
            Some(Value::Bool(x == y))
        } else {
            None
        },
        _ => None,
    }
}

/// Negation: floats flip their sign bit, integers negate (except
/// `i64::MIN`, which has no negation), booleans cannot be negated.
pub open spec fn sp_negate(v: Value) -> Option<Value> {
    match v {
        Value::Float(bits) => Some(Value::Float(float_neg_bits(bits))),
        Value::Integer(i) => if i == i64::MIN {
            None
        } else {
            Some(Value::Integer((-(i as int)) as i64))
        },
        Value::Bool(_) => None,
    }
}

/// The stack machine, one step per opcode from index `i`: constants push,
/// `Negate` and the operators pop and push, `Return` stops and yields the
/// top of the stack without popping. `None` is a runtime error: an
/// undefined operation or a pop or peek from an empty stack. If the stream
/// runs out without a `Return`, the top of the stack is the result.
pub open spec fn sp_run(ops: Seq<OpCode>, i: int, stack: Seq<Value>) -> Option<Value>
    decreases ops.len() - i,
{
    if !(0 <= i < ops.len()) {
        if stack.len() > 0 {
            Some(stack.last())
        } else {
            None
        }
    } else {
        match ops[i] {
            OpCode::Constant(v) => sp_run(ops, i + 1, stack.push(v)),
            OpCode::Return => if stack.len() > 0 {
                Some(stack.last())
            } else {
                None
            },
            OpCode::Negate => if stack.len() > 0 {
                match sp_negate(stack.last()) {
                    Some(v) => sp_run(ops, i + 1, stack.drop_last().push(v)),
                    None => None,
                }
            } else {
                None
            },
            OpCode::Op(op) => if stack.len() >= 2 {
                match sp_binop(op, stack[stack.len() - 2], stack.last()) {
                    Some(v) => sp_run(ops, i + 1, stack.drop_last().drop_last().push(v)),
                    None => None,
                }
            } else {
                None
            },
        }
    }
}

/// The result of running a whole opcode sequence on an empty stack.
pub open spec fn spec_interpret(ops: Seq<OpCode>) -> Option<Value> {
    sp_run(ops, 0, Seq::empty())
}

/// Computes a float operation through the binary64 wrappers; these never
/// fail.
fn float_binop_exec(op: Op, a: u64, b: u64) -> (r: Value)
    ensures
        float_binop(op, a, b) == Some(r),
{
    match op {
        Op::Plus => Value::Float(float_add(a, b)),
        Op::Minus => Value::Float(float_sub(a, b)),
        Op::Multiply => Value::Float(float_mul(a, b)),
        Op::Divide => Value::Float(float_div(a, b)),
        Op::EqualEqual => Value::Bool(float_eq(a, b)),
        Op::BangEqual => Value::Bool(!float_eq(a, b)),
        Op::Greater => Value::Bool(float_lt(b, a)),
        Op::GreaterEqual => Value::Bool(float_lt(b, a) || float_eq(a, b)),
        Op::Less => Value::Bool(float_lt(a, b)),
        Op::LessEqual => Value::Bool(float_lt(a, b) || float_eq(a, b)),
    }
}

/// The bytecode interpreter: an instruction pointer and an operand stack.
pub struct Interpreter {
    ops: Vec<OpCode>,
    index: usize,
    stack: Vec<Value>,
}

impl Interpreter {
    /// The opcode sequence being executed.
    pub closed spec fn ops_view(self) -> Seq<OpCode> {
        self.ops@
    }

    pub closed spec fn idx(self) -> int {
        self.index as int
    }

    pub closed spec fn stack_view(self) -> Seq<Value> {
        self.stack@
    }

    pub fn new(ops: &[OpCode]) -> (it: Self)
        ensures
            it.ops_view() == ops@,
            it.idx() == 0,
            it.stack_view() == Seq::<Value>::empty(),
    {
        let mut owned: Vec<OpCode> = Vec::new();
        let mut k: usize = 0;
        while k < ops.len()
            invariant
                k <= ops@.len(),
                owned@ == ops@.take(k as int),
            decreases ops@.len() - k,
        {
            owned.push(ops[k]);
            k = k + 1;
            proof {
                assert(owned@ =~= ops@.take(k as int));
            }
        }
        proof {
            assert(ops@.take(ops@.len() as int) =~= ops@);
        }
        Interpreter { ops: owned, index: 0, stack: Vec::new() }
    }

    /// Pops the right then the left operand, dispatches on the pair of
    /// tags, and pushes the result; an undefined pairing or operation is a
    /// runtime error.
    fn interpret_bin_op(&mut self, op: Op) -> (r: Result<(), Error>)
        ensures
            final(self).ops == old(self).ops,
            final(self).index == old(self).index,
            match r {
                Ok(_) => {
                    &&& old(self).stack@.len() >= 2
                    &&& sp_binop(
                        op,
                        old(self).stack@[old(self).stack@.len() - 2],
                        old(self).stack@.last(),
                    ) matches Some(v) && final(self).stack@ == old(
                        self,
                    ).stack@.drop_last().drop_last().push(v)
                },
                Err(e) => (old(self).stack@.len() < 2 || sp_binop(
                    op,
                    old(self).stack@[old(self).stack@.len() - 2],
                    old(self).stack@.last(),
                ) is None) && e is Runtime,
            },
    {
        let b = match self.stack.pop() {
            Some(v) => v,
            None => {
                return Err(Error::Runtime("pop from an empty stack".to_string()));
            },
        };
        let a = match self.stack.pop() {
            Some(v) => v,
            None => {
                return Err(Error::Runtime("pop from an empty stack".to_string()));
            },
        };
        let result: Value = match (a, b) {
            (Value::Integer(x), Value::Integer(y)) => match op {
                Op::Plus => match x.checked_add(y) {
                    Some(v) => Value::Integer(v),
                    None => {
                        return Err(Error::Runtime("integer overflow".to_string()));
                    },
                },
                Op::Minus => match x.checked_sub(y) {
                    Some(v) => Value::Integer(v),
                    None => {
                        return Err(Error::Runtime("integer overflow".to_string()));
                    },
                },
                Op::Multiply => match x.checked_mul(y) {
                    Some(v) => Value::Integer(v),
                    None => {
                        return Err(Error::Runtime("integer overflow".to_string()));
                    },
                },
                Op::Divide => match x.checked_div(y) {
                    Some(v) => Value::Integer(v),
                    None => {
                        return Err(Error::Runtime("division by zero".to_string()));
                    },
                },
                Op::EqualEqual => Value::Bool(x == y),
                Op::BangEqual => Value::Bool(x != y),
                Op::Greater => Value::Bool(x > y),
                Op::GreaterEqual => Value::Bool(x >= y),
                Op::Less => Value::Bool(x < y),
                Op::LessEqual => Value::Bool(x <= y),
            },
            (Value::Float(x), Value::Float(y)) => float_binop_exec(op, x, y),
            (Value::Float(x), Value::Integer(y)) => float_binop_exec(op, x, int_to_float_bits(y)),
            (Value::Integer(x), Value::Float(y)) => float_binop_exec(op, int_to_float_bits(x), y),
            (Value::Bool(x), Value::Bool(y)) => match op {
                Op::EqualEqual => Value::Bool(x == y),
                _ => {
                    return Err(Error::Runtime("invalid binary op on booleans".to_string()));
                },
            },
            _ => {
                return Err(Error::Runtime("invalid binary op".to_string()));
            },
        };
        self.stack.push(result);
        Ok(())
    }

    /// Runs the opcodes. `Ok` carries exactly the value `spec_interpret`
    /// gives; `Err` is the runtime error `spec_interpret` marks with
    /// `None`.
    #[verifier::loop_isolation(false)]
    pub fn interpret(&mut self) -> (r: Result<Value, Error>)
        requires
            old(self).idx() == 0,
            old(self).stack_view() == Seq::<Value>::empty(),
        ensures
            match r {
                Ok(v) => spec_interpret(old(self).ops_view()) == Some(v),
                Err(e) => spec_interpret(old(self).ops_view()) is None && e is Runtime,
            },
    {
        let ghost ops = self.ops@;
        while self.index < self.ops.len()
            invariant
                self.ops@ == ops,
                self.index <= ops.len(),
                sp_run(ops, 0, Seq::empty()) == sp_run(ops, self.index as int, self.stack@),
            decreases ops.len() - self.index,
        {
            let ghost i = self.index as int;
            let ghost st = self.stack@;
            let op = self.ops[self.index];
            match op {
                OpCode::Constant(value) => {
                    self.stack.push(value);
                },
                OpCode::Return => {
                    if self.stack.len() == 0 {
                        return Err(Error::Runtime("peek at an empty stack".to_string()));
                    }
                    let v = self.stack[self.stack.len() - 1];
                    return Ok(v);
                },
                OpCode::Op(o) => {
                    match self.interpret_bin_op(o) {
                        Ok(_) => {},
                        Err(e) => {
                            return Err(e);
                        },
                    }
                },
                OpCode::Negate => {
                    match self.stack.pop() {
                        Some(top) => {
                            match top {
                                Value::Float(bits) => {
                                    self.stack.push(
                                        Value::Float(bits ^ 0x8000_0000_0000_0000u64),
                                    );
                                },
                                Value::Integer(x) => {
                                    if x == i64::MIN {
                                        return Err(
                                            Error::Runtime("integer overflow".to_string()),
                                        );
                                    }
                                    self.stack.push(Value::Integer(-x));
                                },
                                Value::Bool(_) => {
                                    return Err(
                                        Error::Runtime("Cannot negate a bool".to_string()),
                                    );
                                },
                            }
                        },
                        None => {
                            return Err(Error::Runtime("pop from an empty stack".to_string()));
                        },
                    }
                },
            }
            self.index = self.index + 1;
            proof {
                assert(sp_run(ops, i, st) == sp_run(ops, self.index as int, self.stack@));
            }
        }
        if self.stack.len() == 0 {
            return Err(Error::Runtime("peek at an empty stack".to_string()));
        }
        let v = self.stack[self.stack.len() - 1];
        Ok(v)
    }
}

} // verus!
