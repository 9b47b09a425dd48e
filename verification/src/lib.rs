pub mod compiler;
pub mod floats;
pub mod interpreter;
pub mod laws;
pub mod opcode;
pub mod parser;
pub mod scanner;
pub mod token;
pub mod value;

use vstd::prelude::*;
use vstd::string::StringExecFns;

use crate::compiler::Error;
use crate::interpreter::Interpreter;
use crate::interpreter::spec_interpret;
use crate::parser::Parser;
use crate::parser::spec_parse;
use crate::scanner::Scanner;
use crate::scanner::spec_scan;
use crate::value::Value;

verus! {

/// Evaluates an expression text: scan, parse, run. The result is exactly
/// what the three specifications give, stage by stage: a lexical or parse
/// error is `CompileTime`, an undefined operation at execution time is
/// `Runtime`, and otherwise the interpreter's value comes back. The length
/// bound is a machine limit on indexing, nothing more.
pub fn evaluate(source: &str) -> (r: Result<Value, Error>)
    requires
        source@.len() < usize::MAX,
    ensures
        match spec_scan(source@) {
            None => r matches Err(e) && e is CompileTime,
            Some(toks) => match spec_parse(toks) {
                None => r matches Err(e) && e is CompileTime,
                Some(ops) => match spec_interpret(ops) {
                    None => r matches Err(e) && e is Runtime,
                    Some(v) => r == Ok::<Value, Error>(v),
                },
            },
        },
{
    let mut scanner = Scanner::new(String::from_str(source));
    let tokens = match scanner.scan() {
        Ok(t) => t,
        Err(e) => {
            return Err(e);
        },
    };
    let mut parser = Parser::new(tokens.as_slice());
    let ops = match parser.parse() {
        Ok(o) => o,
        Err(e) => {
            return Err(e);
        },
    };
    let mut interpreter = Interpreter::new(ops.as_slice());
    interpreter.interpret()
}

} // verus!
