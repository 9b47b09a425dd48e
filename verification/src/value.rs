use vstd::prelude::*;

use crate::scanner::digit_val;
use crate::scanner::digits_value;
use crate::scanner::is_digit_char;

verus! {

/// A runtime value of the expression language.
///
/// `Float` carries the bit pattern of an IEEE 754 binary64 number, so that
/// every value is plain data; the arithmetic on those bit patterns lives in
/// `crate::floats`. `Integer` is a 64-bit signed integer and `Bool` a boolean
/// produced by a comparison.
#[derive(Clone, Copy, Debug, PartialEq, Eq, Structural)]
pub enum Value {
    /// Bit pattern of an IEEE 754 binary64 number.
    Float(u64),
    Integer(i64),
    Bool(bool),
}

impl Value {
    /// The boolean a `Bool` wraps; `false` for numbers.
    pub open spec fn spec_is_falsey(self) -> bool {
        match self {
            Value::Bool(b) => b,
            _ => false,
        }
    }

    pub fn is_falsey(&self) -> (r: bool)
        ensures
            r == self.spec_is_falsey(),
    {
        match self {
            Value::Bool(b) => *b,
            _ => false,
        }
    }
}

/// One decimal digit as a character.
fn digit_char(d: u64) -> (c: char)
    requires
        d < 10,
    ensures
        is_digit_char(c),
        digit_val(c) == d as int,
{
    match d {
        0 => '0',
        1 => '1',
        2 => '2',
        3 => '3',
        4 => '4',
        5 => '5',
        6 => '6',
        7 => '7',
        8 => '8',
        _ => '9',
    }
}

/// Appends the decimal digits of `n`, most significant first.
fn push_digits(n: u64, out: &mut Vec<char>)
    ensures
        final(out)@.len() > old(out)@.len(),
        final(out)@.take(old(out)@.len() as int) == old(out)@,
        forall|k: int|
            old(out)@.len() <= k < final(out)@.len() ==> is_digit_char(#[trigger] final(out)@[k]),
        digits_value(final(out)@.skip(old(out)@.len() as int)) == n,
    decreases n,
{
    let ghost base = old(out)@.len() as int;
    if n >= 10 {
        proof {
            vstd::arithmetic::div_mod::lemma_div_nonincreasing(n as int, 10);
            vstd::arithmetic::div_mod::lemma_div_pos_is_pos(n as int, 10);
            vstd::arithmetic::div_mod::lemma_div_is_ordered_by_denominator(n as int, 1, 10);
            vstd::arithmetic::div_mod::lemma_fundamental_div_mod(n as int, 10);
            vstd::arithmetic::div_mod::lemma_mod_bound(n as int, 10);
        }
        push_digits(n / 10, out);
    }
    let ghost mid = out@;
    let c = digit_char(n % 10);
    out.push(c);
    proof {
        vstd::arithmetic::div_mod::lemma_fundamental_div_mod(n as int, 10);
        vstd::arithmetic::div_mod::lemma_mod_bound(n as int, 10);
        assert(out@.take(base) =~= mid.take(base));
        assert(out@.skip(base) =~= mid.skip(base).push(c));
        assert((mid.skip(base).push(c)).drop_last() =~= mid.skip(base));
        if n >= 10 {
            assert(digits_value(out@.skip(base)) == 10 * digits_value(mid.skip(base)) + digit_val(
                c,
            ));
        } else {
            assert(mid.skip(base) =~= Seq::<char>::empty());
            assert(digits_value(out@.skip(base)) == 10 * digits_value(Seq::<char>::empty())
                + digit_val(c));
        }
    }
}

/// Renders a nonnegative integer literal back to its decimal digits. The
/// digits' value is exactly `v`: scanning the rendered text reproduces the
/// original numeric value — the round trip for integer literals.
pub fn integer_literal_chars(v: i64) -> (s: Vec<char>)
    requires
        v >= 0,
    ensures
        s@.len() >= 1,
        forall|k: int| 0 <= k < s@.len() ==> is_digit_char(#[trigger] s@[k]),
        digits_value(s@) == v,
{
    let mut out: Vec<char> = Vec::new();
    push_digits(v as u64, &mut out);
    proof {
        assert(out@.skip(0) =~= out@);
    }
    out
}

} // verus!
