//! Tokenizer of the prefix stack-machine dialect: numbers without width
//! suffixes, operators written before their operands.

use crate::text::{
    all_digits, chars_of, check_digits_from, parse_radix_capped, radix_val, split_chars, split_on,
    views_of,
};
use vstd::prelude::*;

verus! {

/// Error returned when a number token does not parse.
#[derive(Debug, Clone, Copy, PartialEq, Eq, Structural)]
pub enum ParseError {
    ParseNumber,
}

/// An operator of the prefix dialect.  `Neg`, written `!`, is its only
/// unary operator and is the bitwise complement.
#[derive(Debug, Clone, Copy, PartialEq, Eq, Structural)]
pub enum Operator {
    Add,
    Sub,
    Mul,
    Div,
    And,
    Or,
    Xor,
    Shl,
    Shr,
    Rol,
    Ror,
    Neg,
}

/// The operator a symbol stands for, or `None` for an unknown symbol.
pub open spec fn spec_operator_of(s: Seq<char>) -> Option<Operator> {
    if s == seq!['+'] {
        Some(Operator::Add)
    } else if s == seq!['-'] {
        Some(Operator::Sub)
    } else if s == seq!['*'] {
        Some(Operator::Mul)
    } else if s == seq!['/'] {
        Some(Operator::Div)
    } else if s == seq!['&'] {
        Some(Operator::And)
    } else if s == seq!['|'] {
        Some(Operator::Or)
    } else if s == seq!['^'] {
        Some(Operator::Xor)
    } else if s == seq!['<', '<'] {
        Some(Operator::Shl)
    } else if s == seq!['>', '>'] {
        Some(Operator::Shr)
    } else if s == seq!['<', '<', '<'] {
        Some(Operator::Rol)
    } else if s == seq!['>', '>', '>'] {
        Some(Operator::Ror)
    } else if s == seq!['!'] {
        Some(Operator::Neg)
    } else {
        None
    }
}

impl Operator {
    /// Parse an operator symbol.
    pub fn from_str(input: &str) -> (r: Option<Operator>)
        ensures
            r == spec_operator_of(input@),
    {
        Operator::from_chars(&chars_of(input))
    }

    /// Parse an operator symbol given as characters.
    pub fn from_chars(s: &Vec<char>) -> (r: Option<Operator>)
        ensures
            r == spec_operator_of(s@),
    {
        let n = s.len();
        if n == 1 {
            let c = s[0];
            let r = match c {
                '+' => Some(Operator::Add),
                '-' => Some(Operator::Sub),
                '*' => Some(Operator::Mul),
                '/' => Some(Operator::Div),
                '&' => Some(Operator::And),
                '|' => Some(Operator::Or),
                '^' => Some(Operator::Xor),
                '!' => Some(Operator::Neg),
                _ => None,
            };
            proof {
                assert(s@ =~= seq![s@[0]]);
            }
            r
        } else if n == 2 {
            let c0 = s[0];
            let c1 = s[1];
            proof {
                assert(s@ =~= seq![s@[0], s@[1]]);
            }
            if c0 == '<' && c1 == '<' {
                Some(Operator::Shl)
            } else if c0 == '>' && c1 == '>' {
                Some(Operator::Shr)
            } else {
                None
            }
        } else if n == 3 {
            let c0 = s[0];
            let c1 = s[1];
            let c2 = s[2];
            proof {
                assert(s@ =~= seq![s@[0], s@[1], s@[2]]);
            }
            if c0 == '<' && c1 == '<' && c2 == '<' {
                Some(Operator::Rol)
            } else if c0 == '>' && c1 == '>' && c2 == '>' {
                Some(Operator::Ror)
            } else {
                None
            }
        } else {
            proof {
                assert(s@.len() != 1 && s@.len() != 2 && s@.len() != 3);
            }
            None
        }
    }

    /// Whether the operator takes a single operand.
    pub open spec fn spec_is_unary(self) -> bool {
        self is Neg
    }

    /// Check if the operator is unary.
    pub fn is_unary(&self) -> (r: bool)
        ensures
            r == self.spec_is_unary(),
    {
        matches!(self, Operator::Neg)
    }
}

/// A token of the prefix dialect: a raw 64-bit magnitude or an operator.
#[derive(Debug, Clone, Copy, PartialEq, Eq, Structural)]
pub enum Token {
    Number(u64),
    Op(Operator),
}

/// Whether a piece looks like a number: a `0x` prefix followed by one or
/// more hex digits, or one or more decimal digits alone.
pub open spec fn spec_is_number(s: Seq<char>) -> bool {
    if s.len() >= 2 && s[0] == '0' && s[1] == 'x' {
        s.len() > 2 && all_digits(s.skip(2), 16)
    } else {
        s.len() > 0 && all_digits(s, 10)
    }
}

/// What parsing a number piece yields: its value in the radix selected by
/// the `0x` prefix, or an error where a digit is malformed or the value
/// exceeds 64 bits.
pub open spec fn spec_parse_number(s: Seq<char>) -> Result<u64, ParseError> {
    if s.len() >= 2 && s[0] == '0' && s[1] == 'x' {
        let rest = s.skip(2);
        if rest.len() > 0 && all_digits(rest, 16) && radix_val(rest, 16) <= u64::MAX {
            Ok(radix_val(rest, 16) as u64)
        } else {
            Err(ParseError::ParseNumber)
        }
    } else {
        if s.len() > 0 && all_digits(s, 10) && radix_val(s, 10) <= u64::MAX {
            Ok(radix_val(s, 10) as u64)
        } else {
            Err(ParseError::ParseNumber)
        }
    }
}

/// Splits an input line into tokens of the prefix dialect.
pub struct Tokenizer;

impl Tokenizer {
    /// Create a tokenizer.
    pub fn new() -> Tokenizer {
        Tokenizer {  }
    }

    /// Whether a piece is a number.
    pub fn is_number(input: &str) -> (r: bool)
        ensures
            r == spec_is_number(input@),
    {
        Tokenizer::is_number_chars(&chars_of(input))
    }

    /// Whether a piece, given as characters, is a number.
    pub fn is_number_chars(s: &Vec<char>) -> (r: bool)
        ensures
            r == spec_is_number(s@),
    {
        if s.len() >= 2 && s[0] == '0' && s[1] == 'x' {
            s.len() > 2 && check_digits_from(s, 2, 16)
        } else {
            proof {
                assert(s@.skip(0) =~= s@);
            }
            s.len() > 0 && check_digits_from(s, 0, 10)
        }
    }

    /// Whether a piece is an operator symbol.
    pub fn is_operand(input: &str) -> (r: bool)
        ensures
            r == (spec_operator_of(input@) is Some),
    {
        Operator::from_str(input).is_some()
    }

    /// Parse a number piece; it is either hex or a decimal.
    pub fn parse_number(token: &str) -> (r: Result<u64, ParseError>)
        ensures
            r == spec_parse_number(token@),
    {
        Tokenizer::parse_number_chars(&chars_of(token))
    }

    /// Parse a number piece given as characters.
    pub fn parse_number_chars(s: &Vec<char>) -> (r: Result<u64, ParseError>)
        ensures
            r == spec_parse_number(s@),
    {
        let hex = s.len() >= 2 && s[0] == '0' && s[1] == 'x';
        let start: usize = if hex {
            2
        } else {
            0
        };
        let mut digits: Vec<char> = Vec::new();
        let mut i: usize = start;
        while i < s.len()
            invariant
                start <= i <= s@.len(),
                digits@ == s@.subrange(start as int, i as int),
            decreases s@.len() - i,
        {
            digits.push(s[i]);
            i += 1;
            proof {
                assert(digits@ =~= s@.subrange(start as int, i as int));
            }
        }
        proof {
            if hex {
                assert(digits@ =~= s@.skip(2));
            } else {
                assert(digits@ =~= s@);
            }
        }
        let radix: u64 = if hex {
            16
        } else {
            10
        };
        match parse_radix_capped(&digits, radix, u64::MAX) {
            Some(v) => Ok(v),
            None => Err(ParseError::ParseNumber),
        }
    }
}

// ---------------------------------------------------------------------------
// Prefix to postfix
// ---------------------------------------------------------------------------

/// One reverse scan of the prefix-to-postfix conversion.  Numbers move to
/// a working stack; an operator takes up to two pending operands off that
/// stack and emits them before itself, the earlier-pushed operand first,
/// so that the textual operand order survives the later reversal.
/// Malformed arity is tolerated here and caught at evaluation time.
pub open spec fn p2p_scan(expr: Seq<Token>, stack: Seq<Token>, out: Seq<Token>) -> Seq<Token>
    decreases expr.len(),
{
    if expr.len() == 0 {
        out
    } else {
        let t = expr.last();
        let rest = expr.drop_last();
        match t {
            Token::Number(_) => p2p_scan(rest, stack.push(t), out),
            Token::Op(_) => {
                if stack.len() == 0 {
                    p2p_scan(rest, stack, out.push(t))
                } else if stack.len() == 1 {
                    p2p_scan(rest, stack.drop_last(), out.push(stack.last()).push(t))
                } else {
                    p2p_scan(
                        rest,
                        stack.drop_last().drop_last(),
                        out.push(stack[stack.len() - 2]).push(stack.last()).push(t),
                    )
                }
            },
        }
    }
}

/// The postfix form of a prefix token sequence, ready for a stack machine
/// that consumes its input back to front.
pub open spec fn spec_prefix_to_postfix(expr: Seq<Token>) -> Seq<Token> {
    p2p_scan(expr, Seq::empty(), Seq::empty()).reverse()
}

// ---------------------------------------------------------------------------
// Tokenizing
// ---------------------------------------------------------------------------

/// What classifying each piece yields: numbers parse to magnitudes,
/// operator symbols to operators, and anything else fails the whole line.
pub open spec fn spec_tokenize_pieces(parts: Seq<Seq<char>>) -> Option<Seq<Token>>
    decreases parts.len(),
{
    if parts.len() == 0 {
        Some(Seq::empty())
    } else {
        let p = parts[0];
        let rest = spec_tokenize_pieces(parts.skip(1));
        if spec_is_number(p) {
            match (spec_parse_number(p), rest) {
                (Ok(n), Some(ts)) => Some(seq![Token::Number(n)] + ts),
                _ => None,
            }
        } else {
            match (spec_operator_of(p), rest) {
                (Some(op), Some(ts)) => Some(seq![Token::Op(op)] + ts),
                _ => None,
            }
        }
    }
}

/// What tokenizing a line yields: the line splits on single spaces, each
/// piece becomes a token, and the sequence is normalized to postfix.
/// An empty line or an unclassifiable piece fails.
pub open spec fn spec_tokenize(s: Seq<char>) -> Option<Seq<Token>> {
    if s.len() == 0 {
        None
    } else {
        match spec_tokenize_pieces(split_on(s, ' ')) {
            Some(ts) => Some(spec_prefix_to_postfix(ts)),
            None => None,
        }
    }
}

impl Tokenizer {
    /// Normalize a prefix token sequence to postfix order, draining the
    /// argument.
    pub fn prefix_to_postfix(expr: &mut Vec<Token>) -> (r: Vec<Token>)
        ensures
            r@ == spec_prefix_to_postfix(old(expr)@),
            final (expr)@.len() == 0,
    {
        let ghost orig = expr@;
        let mut postfix: Vec<Token> = Vec::new();
        let mut stack: Vec<Token> = Vec::new();
        while expr.len() != 0
            invariant
                p2p_scan(orig, Seq::empty(), Seq::empty()) == p2p_scan(expr@, stack@, postfix@),
            decreases expr@.len(),
        {
            let ghost pre = expr@;
            let token = match expr.pop() {
                Some(t) => t,
                None => {
                    proof {
                        assert(false);
                    }
                    Token::Number(0)
                },
            };
            match token {
                Token::Number(_) => {
                    stack.push(token);
                },
                Token::Op(_) => {
                    if let Some(a) = stack.pop() {
                        if let Some(b) = stack.pop() {
                            postfix.push(b);
                        }
                        postfix.push(a);
                    }
                    postfix.push(token);
                },
            }
        }
        let mut out: Vec<Token> = Vec::new();
        let mut i: usize = postfix.len();
        while i > 0
            invariant
                i <= postfix@.len(),
                out@.len() == postfix@.len() - i,
                forall|j: int|
                    0 <= j < out@.len() ==> out@[j] == postfix@[postfix@.len() - 1 - j],
            decreases i,
        {
            i -= 1;
            out.push(postfix[i]);
        }
        proof {
            assert(out@ =~= postfix@.reverse());
        }
        out
    }

    /// Split an input line into tokens, normalized to postfix order.
    pub fn tokenize(&self, input: &str) -> (r: Option<Vec<Token>>)
        ensures
            match r {
                Some(v) => spec_tokenize(input@) == Some(v@),
                None => spec_tokenize(input@) is None,
            },
    {
        self.tokenize_chars(&chars_of(input))
    }

    /// Split an input line, given as characters, into tokens.
    pub fn tokenize_chars(&self, cs: &Vec<char>) -> (r: Option<Vec<Token>>)
        ensures
            match r {
                Some(v) => spec_tokenize(cs@) == Some(v@),
                None => spec_tokenize(cs@) is None,
            },
    {
        if cs.len() == 0 {
            return None;
        }
        let parts = split_chars(cs, ' ');
        let ghost sparts = split_on(cs@, ' ');
        let mut tokens: Vec<Token> = Vec::new();
        let mut i: usize = 0;
        proof {
            assert(sparts.skip(0) =~= sparts);
        }
        while i < parts.len()
            invariant
                i <= parts@.len(),
                cs@.len() != 0,
                sparts == split_on(cs@, ' '),
                views_of(parts@) == sparts,
                spec_tokenize_pieces(sparts) == (match spec_tokenize_pieces(
                    sparts.skip(i as int),
                ) {
                    Some(ts) => Some(tokens@ + ts),
                    None => None::<Seq<Token>>,
                }),
            decreases parts@.len() - i,
        {
            let ghost rest = sparts.skip(i as int);
            let ghost rest1 = sparts.skip(i as int + 1);
            proof {
                assert(rest.len() > 0);
                assert(rest[0] == sparts[i as int]);
                assert(rest.skip(1) =~= rest1);
                assert(parts@[i as int]@ == sparts[i as int]);
            }
            let ghost toks_pre = tokens@;
            let piece = &parts[i];
            if Tokenizer::is_number_chars(piece) {
                let n = match Tokenizer::parse_number_chars(piece) {
                    Ok(n) => n,
                    Err(_) => {
                        return None;
                    },
                };
                tokens.push(Token::Number(n));
                proof {
                    if spec_tokenize_pieces(rest1) is Some {
                        let ts = spec_tokenize_pieces(rest1)->Some_0;
                        assert(toks_pre + (seq![Token::Number(n)] + ts) =~= tokens@ + ts);
                    }
                }
            } else {
                let op = match Operator::from_chars(piece) {
                    Some(op) => op,
                    None => {
                        return None;
                    },
                };
                tokens.push(Token::Op(op));
                proof {
                    if spec_tokenize_pieces(rest1) is Some {
                        let ts = spec_tokenize_pieces(rest1)->Some_0;
                        assert(toks_pre + (seq![Token::Op(op)] + ts) =~= tokens@ + ts);
                    }
                }
            }
            i += 1;
        }
        proof {
            assert(sparts.skip(parts@.len() as int) =~= Seq::<Seq<char>>::empty());
            assert(tokens@ + Seq::<Token>::empty() =~= tokens@);
        }
        Some(Tokenizer::prefix_to_postfix(&mut tokens))
    }
}

} // verus!
