use vstd::prelude::*;
use vstd::string::StrSliceExecFns;

use crate::compiler::Error;
use crate::floats::dec_float_bits;
use crate::floats::dec_to_float_bits;
use crate::token::Token;
use crate::token::TokenInfo;
use crate::token::TokenType;
use crate::token::token_value_ok;
use crate::token::wf_tokens;
use crate::value::Value;

verus! {

/// A decimal digit.
pub open spec fn is_digit_char(c: char) -> bool {
    48 <= c as u32 && c as u32 <= 57
}

/// The value of a decimal digit.
pub open spec fn digit_val(c: char) -> int {
    c as u32 - 48
}

/// A character that continues a number lexeme: a digit or a dot.
pub open spec fn is_num_char(c: char) -> bool {
    is_digit_char(c) || c == '.'
}

/// A one-character operator the scanner maps directly to a token kind.
pub open spec fn is_simple_op_char(c: char) -> bool {
    c == '+' || c == '-' || c == '*' || c == '/' || c == '(' || c == ')'
}

/// The value of a digit string read in base ten.
pub open spec fn digits_value(s: Seq<char>) -> int
    decreases s.len(),
{
    if s.len() == 0 {
        0
    } else {
        10 * digits_value(s.drop_last()) + digit_val(s.last())
    }
}

/// How many dots a lexeme holds.
pub open spec fn dot_count(s: Seq<char>) -> int
    decreases s.len(),
{
    if s.len() == 0 {
        0
    } else {
        dot_count(s.drop_last()) + if s.last() == '.' {
            1int
        } else {
            0int
        }
    }
}

/// A number lexeme as the scanner cuts it: it starts with a digit, holds
/// only digits and dots, and has at most one dot.
pub open spec fn is_decimal_lexeme(s: Seq<char>) -> bool {
    &&& s.len() >= 1
    &&& is_digit_char(s[0])
    &&& dot_count(s) <= 1
    &&& forall|k: int| 0 <= k < s.len() ==> is_num_char(#[trigger] s[k])
}

/// The first index at or after `i` that does not continue a number lexeme.
pub open spec fn num_end(s: Seq<char>, i: int) -> int
    decreases s.len() - i,
{
    if 0 <= i < s.len() && is_num_char(s[i]) {
        num_end(s, i + 1)
    } else {
        i
    }
}

/// A token at the given position (the casts are in range wherever the
/// scanner's specification applies this).
pub open spec fn mk_token(
    kind: TokenType,
    value: Option<Value>,
    start: int,
    length: int,
    line: int,
) -> Token {
    Token {
        kind,
        value,
        info: TokenInfo { start: start as usize, length: length as usize, line: line as usize },
    }
}

/// Prepends a token to a scan result, keeping a lexical error as it is.
pub open spec fn opt_cons(t: Token, rest: Option<Seq<Token>>) -> Option<Seq<Token>> {
    match rest {
        Some(r) => Some(seq![t] + r),
        None => None,
    }
}

/// Prepends already scanned tokens to a scan result.
pub open spec fn opt_concat(pre: Seq<Token>, rest: Option<Seq<Token>>) -> Option<Seq<Token>> {
    match rest {
        Some(r) => Some(pre + r),
        None => None,
    }
}

/// The token sequence of `s` from index `i` on, with `line` newlines seen and
/// the next character standing at column `col`. `None` is a lexical error: a
/// number lexeme with two dots, an integer literal above `i64::MAX`, or a
/// bare `!`. A newline advances the line count and resets the column; any
/// other unrecognized character is skipped.
pub open spec fn scan_from(s: Seq<char>, i: int, line: int, col: int) -> Option<Seq<Token>>
    decreases s.len() - i,
{
    if !(0 <= i < s.len()) {
        Some(seq![mk_token(TokenType::Eof, None, col, 1, line)])
    } else {
        let c = s[i];
        if is_simple_op_char(c) {
            opt_cons(
                mk_token(TokenType::spec_from_char(c), None, col, 1, line),
                scan_from(s, i + 1, line, col + 1),
            )
        } else if TokenType::is_relational_char(c) {
            if i + 1 < s.len() && s[i + 1] == '=' {
                opt_cons(
                    mk_token(TokenType::spec_from_pair(c), None, col, 2, line),
                    scan_from(s, i + 2, line, col + 2),
                )
            } else if c == '!' {
                None
            } else {
                opt_cons(
                    mk_token(TokenType::spec_from_char(c), None, col, 1, line),
                    scan_from(s, i + 1, line, col + 1),
                )
            }
        } else if is_digit_char(c) {
            let e0 = num_end(s, i);
            let e = if e0 <= i {
                i + 1
            } else if e0 > s.len() {
                s.len() as int
            } else {
                e0
            };
            let lex = s.subrange(i, e);
            let nxt = e;
            if dot_count(lex) > 1 {
                None
            } else if dot_count(lex) == 1 {
                opt_cons(
                    mk_token(
                        TokenType::Float,
                        Some(Value::Float(dec_float_bits(lex))),
                        col,
                        e - i,
                        line,
                    ),
                    scan_from(s, nxt, line, col + (e - i)),
                )
            } else if digits_value(lex) <= i64::MAX as int {
                opt_cons(
                    mk_token(
                        TokenType::Integer,
                        Some(Value::Integer(digits_value(lex) as i64)),
                        col,
                        e - i,
                        line,
                    ),
                    scan_from(s, nxt, line, col + (e - i)),
                )
            } else {
                None
            }
        } else if c == '\n' {
            scan_from(s, i + 1, line + 1, 0)
        } else {
            scan_from(s, i + 1, line, col + 1)
        }
    }
}

/// The tokens of a whole source text, or `None` on a lexical error.
pub open spec fn spec_scan(s: Seq<char>) -> Option<Seq<Token>> {
    scan_from(s, 0, 0, 0)
}

pub proof fn lemma_digits_value_nonneg(s: Seq<char>)
    requires
        forall|k: int| 0 <= k < s.len() ==> is_digit_char(#[trigger] s[k]),
    ensures
        digits_value(s) >= 0,
    decreases s.len(),
{
    if s.len() > 0 {
        assert(forall|k: int|
            0 <= k < s.drop_last().len() ==> is_digit_char(#[trigger] s.drop_last()[k]));
        lemma_digits_value_nonneg(s.drop_last());
    }
}

/// Reading more digits never shrinks the value of a digit string.
pub proof fn lemma_digits_prefix_le(s: Seq<char>, a: int, m: int, b: int)
    requires
        0 <= a <= m <= b <= s.len(),
        forall|k: int| a <= k < b ==> is_digit_char(#[trigger] s[k]),
    ensures
        digits_value(s.subrange(a, m)) <= digits_value(s.subrange(a, b)),
    decreases b - m,
{
    if m < b {
        let p = s.subrange(a, m);
        let q = s.subrange(a, m + 1);
        assert(q.drop_last() =~= p);
        assert(q.last() == s[m]);
        assert(forall|k: int| 0 <= k < p.len() ==> is_digit_char(#[trigger] p[k]));
        lemma_digits_value_nonneg(p);
        assert(digits_value(q) == 10 * digits_value(p) + digit_val(s[m]));
        lemma_digits_prefix_le(s, a, m + 1, b);
    }
}

/// A lexeme of digits alone has no dots.
pub proof fn lemma_all_digits_no_dots(s: Seq<char>)
    requires
        forall|k: int| 0 <= k < s.len() ==> is_digit_char(#[trigger] s[k]),
    ensures
        dot_count(s) == 0,
    decreases s.len(),
{
    if s.len() > 0 {
        assert(forall|k: int|
            0 <= k < s.drop_last().len() ==> is_digit_char(#[trigger] s.drop_last()[k]));
        lemma_all_digits_no_dots(s.drop_last());
    }
}

/// A run of number characters ending at the first other character is
/// exactly what `num_end` cuts.
pub proof fn lemma_num_end_of_run(s: Seq<char>, i: int, j: int)
    requires
        0 <= i <= j <= s.len(),
        forall|k: int| i <= k < j ==> is_num_char(#[trigger] s[k]),
        j == s.len() || !is_num_char(s[j]),
    ensures
        num_end(s, i) == j,
    decreases j - i,
{
    if i < j {
        lemma_num_end_of_run(s, i + 1, j);
    }
}

pub proof fn lemma_dot_count_nonneg(s: Seq<char>)
    ensures
        dot_count(s) >= 0,
    decreases s.len(),
{
    if s.len() > 0 {
        lemma_dot_count_nonneg(s.drop_last());
    }
}

/// A lexeme without dots holds none.
pub proof fn lemma_no_dots(s: Seq<char>)
    requires
        dot_count(s) == 0,
    ensures
        forall|k: int| 0 <= k < s.len() ==> (#[trigger] s[k]) != '.',
    decreases s.len(),
{
    if s.len() > 0 {
        lemma_dot_count_nonneg(s.drop_last());
        assert(dot_count(s.drop_last()) == 0);
        lemma_no_dots(s.drop_last());
        assert(forall|k: int|
            0 <= k < s.len() - 1 ==> (#[trigger] s[k]) == s.drop_last()[k]);
    }
}

/// The sign of a term, as a token-level notion; no scanner path constructs
/// one today.
#[derive(Clone, Copy, Debug, PartialEq, Eq, Structural)]
pub enum Factor {
    Add,
    Sub,
}

/// The lexical scanner: one left-to-right pass over the characters of the
/// source, no backtracking.
pub struct Scanner {
    source: Vec<char>,
    index: usize,
    line: usize,
    line_pos: usize,
}

impl Scanner {
    /// The characters being scanned.
    pub closed spec fn source_view(self) -> Seq<char> {
        self.source@
    }

    pub closed spec fn index_val(self) -> int {
        self.index as int
    }

    pub closed spec fn line_val(self) -> int {
        self.line as int
    }

    pub closed spec fn col_val(self) -> int {
        self.line_pos as int
    }

    pub fn new(source: String) -> (s: Self)
        ensures
            s.source_view() == source@,
            s.index_val() == 0,
            s.line_val() == 0,
            s.col_val() == 0,
    {
        let n = source.as_str().unicode_len();
        let mut chars: Vec<char> = Vec::new();
        let mut k: usize = 0;
        while k < n
            invariant
                n == source@.len(),
                k <= n,
                chars@ == source@.take(k as int),
            decreases n - k,
        {
            chars.push(source.as_str().get_char(k));
            k = k + 1;
            proof {
                assert(chars@ =~= source@.take(k as int));
            }
        }
        proof {
            assert(source@.take(n as int) =~= source@);
        }
        Scanner { source: chars, index: 0, line: 0, line_pos: 0 }
    }

    fn is_at_end(&self) -> (r: bool)
        ensures
            r == (self.index >= self.source@.len()),
    {
        self.index >= self.source.len()
    }

    fn consume(&mut self) -> (c: char)
        requires
            old(self).index < old(self).source@.len(),
        ensures
            c == old(self).source@[old(self).index as int],
            final(self).index == old(self).index + 1,
            final(self).source == old(self).source,
            final(self).line == old(self).line,
            final(self).line_pos == old(self).line_pos,
    {
        let res = self.source[self.index];
        let n = self.source.len();
        if self.index < n {
            self.index = self.index + 1;
        }
        res
    }

    fn peek(&self) -> (c: Option<char>)
        ensures
            c == if self.index < self.source@.len() {
                Some(self.source@[self.index as int])
            } else {
                None::<char>
            },
    {
        if self.index < self.source.len() {
            Some(self.source[self.index])
        } else {
            None
        }
    }

    /// Whether the character under the cursor continues a number lexeme.
    fn continues_number(&self) -> (r: bool)
        ensures
            r == (self.index < self.source@.len() && is_num_char(
                self.source@[self.index as int],
            )),
    {
        match self.peek() {
            Some(c) => {
                let u = c as u32;
                (48 <= u && u <= 57) || c == '.'
            },
            None => false,
        }
    }

    fn token_info(&mut self, length: usize) -> (info: TokenInfo)
        requires
            old(self).line_pos + length <= usize::MAX,
        ensures
            info == (TokenInfo {
                start: old(self).line_pos,
                length: length,
                line: old(self).line,
            }),
            final(self).line_pos == old(self).line_pos + length,
            final(self).index == old(self).index,
            final(self).line == old(self).line,
            final(self).source == old(self).source,
    {
        let info = TokenInfo { start: self.line_pos, length, line: self.line };
        self.line_pos = self.line_pos + length;
        info
    }

    /// Scans the whole source. `Ok` carries the token sequence that
    /// `spec_scan` gives, always ending in `Eof`; `Err` is the lexical
    /// error that `spec_scan` marks with `None`.
    #[verifier::loop_isolation(false)]
    #[verifier::rlimit(100)]
    pub fn scan(&mut self) -> (r: Result<Vec<Token>, Error>)
        requires
            old(self).index_val() == 0,
            old(self).line_val() == 0,
            old(self).col_val() == 0,
            old(self).source_view().len() < usize::MAX,
        ensures
            final(self).source_view() == old(self).source_view(),
            match r {
                Ok(toks) => spec_scan(old(self).source_view()) == Some(toks@) && wf_tokens(toks@),
                Err(e) => spec_scan(old(self).source_view()) is None && e is CompileTime,
            },
    {
        let ghost s = self.source@;
        let mut tokens: Vec<Token> = Vec::new();
        while !self.is_at_end()
            invariant
                self.source@ == s,
                self.index <= s.len(),
                self.line_pos <= self.index,
                self.line <= self.index,
                scan_from(s, 0, 0, 0) == opt_concat(
                    tokens@,
                    scan_from(s, self.index as int, self.line as int, self.line_pos as int),
                ),
                forall|k: int|
                    0 <= k < tokens@.len() ==> (#[trigger] tokens@[k].kind) != TokenType::Eof
                        && tokens@[k].kind != TokenType::Error,
                forall|k: int| 0 <= k < tokens@.len() ==> token_value_ok(#[trigger] tokens@[k]),
            decreases s.len() - self.index,
        {
            let ghost i_a = self.index as int;
            let ghost l_a = self.line as int;
            let ghost c_a = self.line_pos as int;
            let ghost pre = tokens@;
            let op = self.consume();
            if op == '+' || op == '-' || op == '*' || op == '/' || op == '(' || op == ')' {
                let info = self.token_info(1);
                let tok = Token { kind: TokenType::from_char(op), value: None, info };
                tokens.push(tok);
                proof {
                    let rest = scan_from(s, i_a + 1, l_a, c_a + 1);
                    assert(scan_from(s, i_a, l_a, c_a) == opt_cons(
                        mk_token(TokenType::spec_from_char(op), None, c_a, 1, l_a),
                        rest,
                    ));
                    if rest is Some {
                        assert(pre + (seq![tok] + rest.unwrap()) =~= tokens@ + rest.unwrap());
                    }
                }
            } else if op == '>' || op == '<' || op == '=' || op == '!' {
                let pair = match self.peek() {
                    Some(c2) => c2 == '=',
                    None => false,
                };
                if pair {
                    let _ = self.consume();
                    let info = self.token_info(2);
                    let tok = Token { kind: TokenType::from_pair(op), value: None, info };
                    tokens.push(tok);
                    proof {
                        let rest = scan_from(s, i_a + 2, l_a, c_a + 2);
                        assert(scan_from(s, i_a, l_a, c_a) == opt_cons(
                            mk_token(TokenType::spec_from_pair(op), None, c_a, 2, l_a),
                            rest,
                        ));
                        if rest is Some {
                            assert(pre + (seq![tok] + rest.unwrap()) =~= tokens@ + rest.unwrap());
                        }
                    }
                } else if op == '!' {
                    proof {
                        assert(scan_from(s, i_a, l_a, c_a) is None);
                    }
                    return Err(Error::CompileTime("a bare '!' is not a token".to_string()));
                } else {
                    let info = self.token_info(1);
                    let tok = Token { kind: TokenType::from_char(op), value: None, info };
                    tokens.push(tok);
                    proof {
                        let rest = scan_from(s, i_a + 1, l_a, c_a + 1);
                        assert(scan_from(s, i_a, l_a, c_a) == opt_cons(
                            mk_token(TokenType::spec_from_char(op), None, c_a, 1, l_a),
                            rest,
                        ));
                        if rest is Some {
                            assert(pre + (seq![tok] + rest.unwrap()) =~= tokens@ + rest.unwrap());
                        }
                    }
                }
            } else if 48 <= (op as u32) && (op as u32) <= 57 {
                let start = self.index - 1;
                let mut dots: usize = 0;
                proof {
                    assert(s.subrange(i_a, i_a + 1).drop_last() =~= s.subrange(i_a, i_a));
                    assert(s.subrange(i_a, i_a + 1).last() == s[i_a]);
                    assert(is_digit_char(s[i_a]));
                    assert(dot_count(s.subrange(i_a, i_a)) == 0);
                    assert(dot_count(s.subrange(i_a, i_a + 1)) == 0);
                }
                while self.continues_number()
                    invariant
                        self.source@ == s,
                        self.line == l_a,
                        self.line_pos == c_a,
                        i_a < self.index <= s.len(),
                        forall|k: int| i_a <= k < self.index ==> is_num_char(#[trigger] s[k]),
                        dots == dot_count(s.subrange(i_a, self.index as int)),
                        dots <= self.index,
                        num_end(s, i_a) == num_end(s, self.index as int),
                    decreases s.len() - self.index,
                {
                    let ghost j = self.index as int;
                    let c = self.consume();
                    if c == '.' {
                        dots = dots + 1;
                    }
                    proof {
                        assert(s.subrange(i_a, j + 1).drop_last() =~= s.subrange(i_a, j));
                        assert(s.subrange(i_a, j + 1).last() == s[j]);
                    }
                }
                let ghost e = self.index as int;
                proof {
                    assert(num_end(s, e) == e);
                    assert(num_end(s, i_a) == e);
                }
                let ghost lex = s.subrange(i_a, e);
                if dots > 1 {
                    proof {
                        assert(scan_from(s, i_a, l_a, c_a) is None);
                    }
                    return Err(Error::CompileTime("Found two decimals in a float".to_string()));
                }
                let length = self.index - start;
                if dots == 1 {
                    let mut lexv: Vec<char> = Vec::new();
                    let mut k = start;
                    while k < self.index
                        invariant
                            start <= k <= self.index,
                            lexv@ == s.subrange(i_a, k as int),
                        decreases self.index - k,
                    {
                        let c = self.source[k];
                        lexv.push(c);
                        k = k + 1;
                        proof {
                            assert(lexv@ =~= s.subrange(i_a, k as int));
                        }
                    }
                    proof {
                        assert forall|k: int| 0 <= k < lex.len() implies is_num_char(
                            #[trigger] lex[k],
                        ) by {
                            assert(lex[k] == s[i_a + k]);
                        }
                        assert(lex[0] == s[i_a]);
                    }
                    let bits = dec_to_float_bits(&lexv);
                    let info = self.token_info(length);
                    let tok = Token { kind: TokenType::Float, value: Some(Value::Float(bits)), info };
                    tokens.push(tok);
                    proof {
                        let rest = scan_from(s, e, l_a, c_a + (e - i_a));
                        assert(scan_from(s, i_a, l_a, c_a) == opt_cons(
                            mk_token(
                                TokenType::Float,
                                Some(Value::Float(dec_float_bits(lex))),
                                c_a,
                                e - i_a,
                                l_a,
                            ),
                            rest,
                        ));
                        if rest is Some {
                            assert(pre + (seq![tok] + rest.unwrap()) =~= tokens@ + rest.unwrap());
                        }
                    }
                } else {
                    proof {
                        lemma_no_dots(lex);
                        assert forall|m: int| i_a <= m < e implies is_digit_char(
                            #[trigger] s[m],
                        ) by {
                            assert(lex[m - i_a] == s[m]);
                            assert(lex[m - i_a] != '.');
                            assert(is_num_char(s[m]));
                        }
                    }
                    let mut acc: i64 = 0;
                    let mut k = start;
                    while k < self.index
                        invariant
                            start <= k <= self.index,
                            acc == digits_value(s.subrange(i_a, k as int)),
                            0 <= acc,
                        decreases self.index - k,
                    {
                        let c = self.source[k];
                        proof {
                            assert(is_digit_char(s[k as int]));
                        }
                        let d = (c as u32) - 48;
                        let step = match acc.checked_mul(10) {
                            Some(m10) => m10.checked_add(d as i64),
                            None => None,
                        };
                        proof {
                            assert(s.subrange(i_a, k + 1).drop_last() =~= s.subrange(i_a, k as int));
                            assert(s.subrange(i_a, k + 1).last() == s[k as int]);
                            assert(digits_value(s.subrange(i_a, k + 1)) == 10 * acc + digit_val(
                                s[k as int],
                            ));
                        }
                        match step {
                            Some(v) => {
                                proof {
                                    assert(is_digit_char(s[k as int]));
                                    assert(d as int == digit_val(s[k as int]));
                                }
                                acc = v;
                            },
                            None => {
                                proof {
                                    lemma_digits_prefix_le(s, i_a, k + 1, e);
                                    assert(digits_value(lex) > i64::MAX as int);
                                    assert(scan_from(s, i_a, l_a, c_a) is None);
                                }
                                return Err(
                                    Error::CompileTime("integer literal out of range".to_string()),
                                );
                            },
                        }
                        k = k + 1;
                    }
                    let info = self.token_info(length);
                    let tok = Token {
                        kind: TokenType::Integer,
                        value: Some(Value::Integer(acc)),
                        info,
                    };
                    tokens.push(tok);
                    proof {
                        let rest = scan_from(s, e, l_a, c_a + (e - i_a));
                        assert(acc == digits_value(lex));
                        assert(scan_from(s, i_a, l_a, c_a) == opt_cons(
                            mk_token(
                                TokenType::Integer,
                                Some(Value::Integer(digits_value(lex) as i64)),
                                c_a,
                                e - i_a,
                                l_a,
                            ),
                            rest,
                        ));
                        if rest is Some {
                            assert(pre + (seq![tok] + rest.unwrap()) =~= tokens@ + rest.unwrap());
                        }
                    }
                }
            } else if op == '\n' {
                self.line = self.line + 1;
                self.line_pos = 0;
                proof {
                    assert(scan_from(s, i_a, l_a, c_a) == scan_from(s, i_a + 1, l_a + 1, 0));
                }
            } else {
                self.line_pos = self.line_pos + 1;
                proof {
                    assert(scan_from(s, i_a, l_a, c_a) == scan_from(s, i_a + 1, l_a, c_a + 1));
                }
            }
        }
        let ghost i_end = self.index as int;
        let ghost l_end = self.line as int;
        let ghost c_end = self.line_pos as int;
        let ghost pre = tokens@;
        let info = self.token_info(1);
        let eof = Token { kind: TokenType::Eof, value: None, info };
        tokens.push(eof);
        proof {
            assert(scan_from(s, i_end, l_end, c_end) == Some(
                seq![mk_token(TokenType::Eof, None, c_end, 1, l_end)],
            ));
            assert(eof == mk_token(TokenType::Eof, None, c_end, 1, l_end));
            assert(pre + seq![eof] =~= tokens@);
            assert(spec_scan(s) == Some(tokens@));
        }
        Ok(tokens)
    }
}

} // verus!
