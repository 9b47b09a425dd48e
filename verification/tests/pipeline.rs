use mini_c::compiler::Compiler;
use mini_c::interpreter::Interpreter;
use mini_c::opcode::Op;
use mini_c::opcode::OpCode;
use mini_c::parser::InfixRule;
use mini_c::parser::Parser;
use mini_c::parser::Precedence;
use mini_c::parser::PrefixRule;
use mini_c::parser::get_rule;
use mini_c::scanner::Scanner;
use mini_c::token::TokenType;
use mini_c::value::Value;

#[test]
fn parser_emits_postfix_opcodes() {
    let mut scanner = Scanner::new("1+2*3".to_string());
    let tokens = scanner.scan().unwrap();
    let mut parser = Parser::new(&tokens);
    let ops = parser.parse().unwrap();
    let expected = vec![
        OpCode::Constant(Value::Integer(1)),
        OpCode::Constant(Value::Integer(2)),
        OpCode::Constant(Value::Integer(3)),
        OpCode::Op(Op::Multiply),
        OpCode::Op(Op::Plus),
        OpCode::Return,
    ];
    assert_eq!(ops, expected);
}

#[test]
fn interpreter_runs_a_compiled_program() {
    let mut scanner = Scanner::new("(8-2)/3".to_string());
    let tokens = scanner.scan().unwrap();
    let mut parser = Parser::new(&tokens);
    let ops = parser.parse().unwrap();
    let compiler = Compiler::new(&ops);
    assert_eq!(compiler.ops, ops);
    let mut interpreter = Interpreter::new(&ops);
    assert_eq!(interpreter.interpret(), Ok(Value::Integer(2)));
}

#[test]
fn negate_opcode_comes_from_unary_minus() {
    let mut scanner = Scanner::new("-4".to_string());
    let tokens = scanner.scan().unwrap();
    let mut parser = Parser::new(&tokens);
    let ops = parser.parse().unwrap();
    let expected = vec![
        OpCode::Constant(Value::Integer(4)),
        OpCode::Negate,
        OpCode::Return,
    ];
    assert_eq!(ops, expected);
    let mut interpreter = Interpreter::new(&ops);
    assert_eq!(interpreter.interpret(), Ok(Value::Integer(-4)));
}

#[test]
fn float_negation_flips_the_sign() {
    let mut scanner = Scanner::new("-2.5".to_string());
    let tokens = scanner.scan().unwrap();
    let mut parser = Parser::new(&tokens);
    let ops = parser.parse().unwrap();
    let mut interpreter = Interpreter::new(&ops);
    match interpreter.interpret() {
        Ok(Value::Float(bits)) => assert_eq!(f64::from_bits(bits), -2.5),
        other => panic!("expected a float, got {:?}", other),
    }
}

#[test]
fn parse_table_matches_the_grammar() {
    let star = get_rule(&TokenType::Star);
    assert_eq!(star.prefix, PrefixRule::NoRule);
    assert_eq!(star.infix, InfixRule::Binary);
    assert_eq!(star.precedence, Precedence::Factor);
    let minus = get_rule(&TokenType::Minus);
    assert_eq!(minus.prefix, PrefixRule::Unary);
    assert_eq!(minus.infix, InfixRule::Binary);
    assert_eq!(minus.precedence, Precedence::Term);
    let eq = get_rule(&TokenType::EqualEqual);
    assert_eq!(eq.precedence, Precedence::Equality);
    let less = get_rule(&TokenType::Less);
    assert_eq!(less.precedence, Precedence::Comparison);
    let num = get_rule(&TokenType::Integer);
    assert_eq!(num.prefix, PrefixRule::Number);
    assert_eq!(num.infix, InfixRule::NoRule);
    let eof = get_rule(&TokenType::Eof);
    assert_eq!(eof.prefix, PrefixRule::NoRule);
    assert_eq!(eof.precedence, Precedence::Lowest);
}

#[test]
fn precedence_levels_round_trip() {
    let all = [
        Precedence::Lowest,
        Precedence::Assignment,
        Precedence::Or,
        Precedence::And,
        Precedence::Equality,
        Precedence::Comparison,
        Precedence::Term,
        Precedence::Factor,
        Precedence::Unary,
        Precedence::Call,
        Precedence::Primary,
        Precedence::Top,
    ];
    for (level, p) in all.iter().enumerate() {
        assert_eq!(p.as_u8() as usize, level);
        assert_eq!(Precedence::from_u8(level as u8), *p);
    }
    assert_eq!(Precedence::from_u8(200), Precedence::Lowest);
}

#[test]
fn token_types_from_characters() {
    assert_eq!(TokenType::from_char('('), TokenType::LeftParen);
    assert_eq!(TokenType::from_char('*'), TokenType::Star);
    assert_eq!(TokenType::from_char('>'), TokenType::Greater);
    assert_eq!(TokenType::from_char('='), TokenType::Equal);
    assert_eq!(TokenType::from_pair('>'), TokenType::GreaterEqual);
    assert_eq!(TokenType::from_pair('<'), TokenType::LessEqual);
    assert_eq!(TokenType::from_pair('='), TokenType::EqualEqual);
    assert_eq!(TokenType::from_pair('!'), TokenType::BangEqual);
}

#[test]
fn widening_matches_native_casts() {
    // a 64-bit integer that binary64 cannot represent exactly still widens
    // the way the native cast does
    let big = 9007199254740993i64;
    let mut scanner = Scanner::new(format!("{}+0.0", big));
    let tokens = scanner.scan().unwrap();
    let mut parser = Parser::new(&tokens);
    let ops = parser.parse().unwrap();
    let mut interpreter = Interpreter::new(&ops);
    match interpreter.interpret() {
        Ok(Value::Float(bits)) => assert_eq!(f64::from_bits(bits), big as f64),
        other => panic!("expected a float, got {:?}", other),
    }
}
