use vstd::prelude::*;

use crate::value::Value;

verus! {

/// Where a token sits in the source text: `start` is the column of its first
/// character (characters since the start of the line), `length` its length in
/// characters, `line` the number of newlines before it. Diagnostics only; no
/// semantic weight.
#[derive(Clone, Copy, Debug, PartialEq, Eq, Structural)]
pub struct TokenInfo {
    pub start: usize,
    pub length: usize,
    pub line: usize,
}

/// The closed set of token kinds the scanner can produce.
#[derive(Clone, Copy, Debug, PartialEq, Eq, Structural)]
pub enum TokenType {
    Integer,
    Float,
    Plus,
    Minus,
    Star,
    Slash,
    Error,
    LeftParen,
    RightParen,
    Greater,
    GreaterEqual,
    Less,
    LessEqual,
    EqualEqual,
    BangEqual,
    Equal,
    Eof,
}

/// One token: its kind, the literal value for number tokens, and its position.
#[derive(Clone, Copy, Debug, PartialEq)]
pub struct Token {
    pub kind: TokenType,
    pub value: Option<Value>,
    pub info: TokenInfo,
}

/// A number token carries the matching literal; every other kind carries none.
pub open spec fn token_value_ok(t: Token) -> bool {
    match t.kind {
        TokenType::Integer => t.value matches Some(Value::Integer(_)),
        TokenType::Float => t.value matches Some(Value::Float(_)),
        _ => t.value is None,
    }
}

/// What the scanner guarantees of its output: at least the final `Eof` token,
/// `Eof` nowhere else, no `Error` token, and literals attached exactly to
/// number tokens. The parser's contracts assume this shape.
pub open spec fn wf_tokens(toks: Seq<Token>) -> bool {
    &&& toks.len() >= 1
    &&& toks.last().kind == TokenType::Eof
    &&& forall|k: int|
        0 <= k < toks.len() - 1 ==> (#[trigger] toks[k].kind) != TokenType::Eof && toks[k].kind
            != TokenType::Error
    &&& forall|k: int| 0 <= k < toks.len() ==> token_value_ok(#[trigger] toks[k])
}

impl TokenType {
    /// The kind of a one-character operator token.
    pub open spec fn spec_from_char(c: char) -> TokenType {
        if c == '(' {
            TokenType::LeftParen
        } else if c == ')' {
            TokenType::RightParen
        } else if c == '-' {
            TokenType::Minus
        } else if c == '+' {
            TokenType::Plus
        } else if c == '/' {
            TokenType::Slash
        } else if c == '*' {
            TokenType::Star
        } else if c == '>' {
            TokenType::Greater
        } else if c == '<' {
            TokenType::Less
        } else {
            TokenType::Equal
        }
    }

    /// The characters `spec_from_char` is meant for.
    pub open spec fn is_operator_char(c: char) -> bool {
        c == '(' || c == ')' || c == '-' || c == '+' || c == '/' || c == '*' || c == '>' || c == '<'
            || c == '='
    }

    pub fn from_char(c: char) -> (t: TokenType)
        requires
            TokenType::is_operator_char(c),
        ensures
            t == TokenType::spec_from_char(c),
    {
        if c == '(' {
            TokenType::LeftParen
        } else if c == ')' {
            TokenType::RightParen
        } else if c == '-' {
            TokenType::Minus
        } else if c == '+' {
            TokenType::Plus
        } else if c == '/' {
            TokenType::Slash
        } else if c == '*' {
            TokenType::Star
        } else if c == '>' {
            TokenType::Greater
        } else if c == '<' {
            TokenType::Less
        } else {
            TokenType::Equal
        }
    }

    /// The kind of a relational character followed by `=`.
    pub open spec fn spec_from_pair(c: char) -> TokenType {
        if c == '>' {
            TokenType::GreaterEqual
        } else if c == '<' {
            TokenType::LessEqual
        } else if c == '=' {
            TokenType::EqualEqual
        } else {
            TokenType::BangEqual
        }
    }

    /// The characters that start a two-character relational token.
    pub open spec fn is_relational_char(c: char) -> bool {
        c == '>' || c == '<' || c == '=' || c == '!'
    }

    pub fn from_pair(c: char) -> (t: TokenType)
        requires
            TokenType::is_relational_char(c),
        ensures
            t == TokenType::spec_from_pair(c),
    {
        if c == '>' {
            TokenType::GreaterEqual
        } else if c == '<' {
            TokenType::LessEqual
        } else if c == '=' {
            TokenType::EqualEqual
        } else {
            TokenType::BangEqual
        }
    }
}

} // verus!
