use mini_c::compiler::Error;
use mini_c::evaluate;
use mini_c::scanner::Scanner;
use mini_c::token::Token;
use mini_c::token::TokenInfo;
use mini_c::token::TokenType;
use mini_c::value::Value;
use mini_c::value::integer_literal_chars;

fn tok(kind: TokenType, value: Option<Value>, start: usize, length: usize, line: usize) -> Token {
    Token { kind, value, info: TokenInfo { start, length, line } }
}

#[test]
fn test_1() {
    let mut scanner = Scanner::new(" 20.0 + 30.0 - 3 ".to_string());
    let tokens = scanner.scan().unwrap();
    let expected = vec![
        tok(TokenType::Float, Some(Value::Float(20.0f64.to_bits())), 1, 4, 0),
        tok(TokenType::Plus, None, 6, 1, 0),
        tok(TokenType::Float, Some(Value::Float(30.0f64.to_bits())), 8, 4, 0),
        tok(TokenType::Minus, None, 13, 1, 0),
        tok(TokenType::Integer, Some(Value::Integer(3)), 15, 1, 0),
        tok(TokenType::Eof, None, 17, 1, 0),
    ];
    assert_eq!(tokens, expected);
}

#[test]
fn test_2() {
    let input = "93367-76920+596894-231722-8350-3517484393530.0-65+710".to_string();
    let mut scanner = Scanner::new(input);
    let tokens = scanner.scan().unwrap();
    let expected = vec![
        tok(TokenType::Integer, Some(Value::Integer(93367)), 0, 5, 0),
        tok(TokenType::Minus, None, 5, 1, 0),
        tok(TokenType::Integer, Some(Value::Integer(76920)), 6, 5, 0),
        tok(TokenType::Plus, None, 11, 1, 0),
        tok(TokenType::Integer, Some(Value::Integer(596894)), 12, 6, 0),
        tok(TokenType::Minus, None, 18, 1, 0),
        tok(TokenType::Integer, Some(Value::Integer(231722)), 19, 6, 0),
        tok(TokenType::Minus, None, 25, 1, 0),
        tok(TokenType::Integer, Some(Value::Integer(8350)), 26, 4, 0),
        tok(TokenType::Minus, None, 30, 1, 0),
        tok(TokenType::Float, Some(Value::Float(3517484393530.0f64.to_bits())), 31, 15, 0),
        tok(TokenType::Minus, None, 46, 1, 0),
        tok(TokenType::Integer, Some(Value::Integer(65)), 47, 2, 0),
        tok(TokenType::Plus, None, 49, 1, 0),
        tok(TokenType::Integer, Some(Value::Integer(710)), 50, 3, 0),
        tok(TokenType::Eof, None, 53, 1, 0),
    ];
    assert_eq!(tokens, expected);
}

#[test]
fn division_truncates_toward_zero() {
    assert_eq!(evaluate("7/2"), Ok(Value::Integer(3)));
    assert_eq!(evaluate("-7/2"), Ok(Value::Integer(-3)));
    assert_eq!(evaluate("7/-2"), Ok(Value::Integer(-3)));
    assert_eq!(evaluate("-7/-2"), Ok(Value::Integer(3)));
    assert_eq!(evaluate("0/5"), Ok(Value::Integer(0)));
}

#[test]
fn same_precedence_is_left_associative() {
    assert_eq!(evaluate("10-4-3"), Ok(Value::Integer(3)));
    assert_eq!(evaluate("100/10/2"), Ok(Value::Integer(5)));
    assert_eq!(evaluate("2*6/4"), Ok(Value::Integer(3)));
}

#[test]
fn unary_binds_tighter_than_binary() {
    assert_eq!(evaluate("-2*3"), Ok(Value::Integer(-6)));
    assert_eq!(evaluate("(-2)*3"), Ok(Value::Integer(-6)));
    assert_eq!(evaluate("-2+1"), Ok(Value::Integer(-1)));
    assert_eq!(evaluate("+5"), Ok(Value::Integer(5)));
}

#[test]
fn parentheses_are_transparent() {
    assert_eq!(evaluate("(1+2)*3"), Ok(Value::Integer(9)));
    assert_eq!(evaluate("1+2*3"), Ok(Value::Integer(7)));
    assert_eq!(evaluate("(((4)))"), Ok(Value::Integer(4)));
}

#[test]
fn mixed_operands_produce_float() {
    match evaluate("1/2.0") {
        Ok(Value::Float(bits)) => assert_eq!(f64::from_bits(bits), 0.5),
        other => panic!("expected a float, got {:?}", other),
    }
    match evaluate("2+3.5") {
        Ok(Value::Float(bits)) => assert_eq!(f64::from_bits(bits), 5.5),
        other => panic!("expected a float, got {:?}", other),
    }
    match evaluate("3.5+2") {
        Ok(Value::Float(bits)) => assert_eq!(f64::from_bits(bits), 5.5),
        other => panic!("expected a float, got {:?}", other),
    }
}

#[test]
fn float_arithmetic_matches_ieee() {
    match evaluate(" 20.0 + 30.0 - 3 ") {
        Ok(Value::Float(bits)) => assert_eq!(f64::from_bits(bits), 47.0),
        other => panic!("expected a float, got {:?}", other),
    }
    match evaluate("2.0*3.5") {
        Ok(Value::Float(bits)) => assert_eq!(f64::from_bits(bits), 7.0),
        other => panic!("expected a float, got {:?}", other),
    }
    match evaluate("1.5-0.25") {
        Ok(Value::Float(bits)) => assert_eq!(f64::from_bits(bits), 1.25),
        other => panic!("expected a float, got {:?}", other),
    }
    match evaluate("1.0/0.0") {
        Ok(Value::Float(bits)) => assert_eq!(f64::from_bits(bits), f64::INFINITY),
        other => panic!("expected a float, got {:?}", other),
    }
}

#[test]
fn float_comparisons() {
    assert_eq!(evaluate("1.5==1.5"), Ok(Value::Bool(true)));
    assert_eq!(evaluate("0.5==0.25"), Ok(Value::Bool(false)));
    assert_eq!(evaluate("1.5<2.5"), Ok(Value::Bool(true)));
    assert_eq!(evaluate("2.5<1.5"), Ok(Value::Bool(false)));
    assert_eq!(evaluate("2.5>=2.5"), Ok(Value::Bool(true)));
    assert_eq!(evaluate("1.5!=1.5"), Ok(Value::Bool(false)));
    assert_eq!(evaluate("2<2.5"), Ok(Value::Bool(true)));
}

#[test]
fn integer_literal_round_trip() {
    let mut scanner = Scanner::new(" 20.0 + 30.0 - 3 ".to_string());
    let tokens = scanner.scan().unwrap();
    for t in &tokens {
        match (t.kind, &t.value) {
            (TokenType::Integer, Some(Value::Integer(v))) => {
                let text: String = integer_literal_chars(*v).into_iter().collect();
                assert_eq!(text.parse::<i64>().unwrap(), *v);
            }
            (TokenType::Float, Some(Value::Float(bits))) => {
                let text = format!("{}", f64::from_bits(*bits));
                assert_eq!(text.parse::<f64>().unwrap().to_bits(), *bits);
            }
            _ => {}
        }
    }
    let digits: String = integer_literal_chars(93367).into_iter().collect();
    assert_eq!(digits, "93367");
    let zero: String = integer_literal_chars(0).into_iter().collect();
    assert_eq!(zero, "0");
}

#[test]
fn comparison_boundaries() {
    assert_eq!(evaluate("5==5"), Ok(Value::Bool(true)));
    assert_eq!(evaluate("5!=5"), Ok(Value::Bool(false)));
    assert_eq!(evaluate("3<4"), Ok(Value::Bool(true)));
    assert_eq!(evaluate("4<=4"), Ok(Value::Bool(true)));
    assert_eq!(evaluate("4>4"), Ok(Value::Bool(false)));
    assert_eq!(evaluate("4>=5"), Ok(Value::Bool(false)));
}

#[test]
fn division_by_zero_is_a_runtime_error() {
    assert!(matches!(evaluate("1/0"), Err(Error::Runtime(_))));
}

#[test]
fn unterminated_group_is_a_parse_error() {
    assert!(matches!(evaluate("(1+2"), Err(Error::CompileTime(_))));
}

#[test]
fn two_decimals_is_a_lexical_error() {
    assert!(matches!(evaluate("1.2.3"), Err(Error::CompileTime(_))));
}

#[test]
fn missing_operand_is_a_parse_error() {
    assert!(matches!(evaluate("1+"), Err(Error::CompileTime(_))));
    assert!(matches!(evaluate("*3"), Err(Error::CompileTime(_))));
    assert!(matches!(evaluate("5=5"), Err(Error::CompileTime(_))));
}

#[test]
fn bare_bang_is_a_lexical_error() {
    assert!(matches!(evaluate("!1"), Err(Error::CompileTime(_))));
}

#[test]
fn oversized_integer_literal_is_a_lexical_error() {
    assert!(matches!(evaluate("9223372036854775808"), Err(Error::CompileTime(_))));
    assert_eq!(evaluate("9223372036854775807"), Ok(Value::Integer(i64::MAX)));
}

#[test]
fn integer_overflow_is_a_runtime_error() {
    assert!(matches!(evaluate("9223372036854775807+1"), Err(Error::Runtime(_))));
    assert!(matches!(evaluate("-9223372036854775807-2"), Err(Error::Runtime(_))));
}

#[test]
fn booleans_admit_equality_alone() {
    assert_eq!(evaluate("(1==1)==(2==2)"), Ok(Value::Bool(true)));
    assert_eq!(evaluate("(1==1)==(1==2)"), Ok(Value::Bool(false)));
    assert!(matches!(evaluate("(1==1)+(2==2)"), Err(Error::Runtime(_))));
    assert!(matches!(evaluate("(1==1)+1"), Err(Error::Runtime(_))));
    assert!(matches!(evaluate("-(1==1)"), Err(Error::Runtime(_))));
}

#[test]
fn empty_and_blank_input_are_runtime_errors() {
    assert!(matches!(evaluate(""), Err(Error::Runtime(_))));
    assert!(matches!(evaluate("   "), Err(Error::Runtime(_))));
    assert!(matches!(evaluate(" \n "), Err(Error::Runtime(_))));
}

#[test]
fn expressions_back_to_back_yield_the_last() {
    assert_eq!(evaluate("1 2"), Ok(Value::Integer(2)));
    assert_eq!(evaluate("1+1 4*5"), Ok(Value::Integer(20)));
}

#[test]
fn newlines_advance_the_line_counter() {
    let mut scanner = Scanner::new("1\n+2".to_string());
    let tokens = scanner.scan().unwrap();
    let expected = vec![
        tok(TokenType::Integer, Some(Value::Integer(1)), 0, 1, 0),
        tok(TokenType::Plus, None, 0, 1, 1),
        tok(TokenType::Integer, Some(Value::Integer(2)), 1, 1, 1),
        tok(TokenType::Eof, None, 2, 1, 1),
    ];
    assert_eq!(tokens, expected);
    assert_eq!(evaluate("1\n+2"), Ok(Value::Integer(3)));
}

#[test]
fn relational_scanning_takes_two_characters_when_it_can() {
    let mut scanner = Scanner::new("1>=2".to_string());
    let tokens = scanner.scan().unwrap();
    assert_eq!(tokens[1].kind, TokenType::GreaterEqual);
    assert_eq!(tokens[1].info, TokenInfo { start: 1, length: 2, line: 0 });
    let mut scanner = Scanner::new("1>2".to_string());
    let tokens = scanner.scan().unwrap();
    assert_eq!(tokens[1].kind, TokenType::Greater);
    assert_eq!(evaluate("2>1"), Ok(Value::Bool(true)));
    assert_eq!(evaluate("1!=2"), Ok(Value::Bool(true)));
    assert_eq!(evaluate("1<=0"), Ok(Value::Bool(false)));
}

#[test]
fn is_falsey_reads_the_boolean() {
    assert!(Value::Bool(true).is_falsey());
    assert!(!Value::Bool(false).is_falsey());
    assert!(!Value::Integer(7).is_falsey());
    assert!(!Value::Float(1.0f64.to_bits()).is_falsey());
}

#[test]
fn trailing_dot_reads_as_a_float() {
    match evaluate("2.") {
        Ok(Value::Float(bits)) => assert_eq!(f64::from_bits(bits), 2.0),
        other => panic!("expected a float, got {:?}", other),
    }
}
