//! Stack evaluation of the prefix dialect: every literal shares one
//! declared width, and a postfix token sequence reduces against an
//! explicit operand stack.

use crate::arith::{
    add_overflows, add_val, add_wrap, and_bits, div_exact, mul_overflows, mul_val, mul_wrap,
    not_bits, not_val, or_bits, rol_bits, rol_val, ror_bits, ror_val, shl_sat, shl_val, shr_sat,
    shr_val, sub_overflows, sub_val, sub_wrap, trunc, trunc_val, valid_width, xor_bits,
};
use crate::text::num_seq_pad;
use crate::tokenizer::{p2p_scan, spec_prefix_to_postfix, spec_tokenize, Operator, Token, Tokenizer};
use vstd::prelude::*;

verus! {

/// The width shared by all literals of one prefix-dialect calculation.
#[derive(Debug, Clone, Copy, PartialEq, Eq, Structural)]
pub enum Bits {
    U8,
    U16,
    U32,
    U64,
}

/// The width a `Bits` value stands for.
pub open spec fn bits_width(b: Bits) -> u64 {
    match b {
        Bits::U8 => 8,
        Bits::U16 => 16,
        Bits::U32 => 32,
        Bits::U64 => 64,
    }
}

impl Bits {
    /// The width in bits.
    pub fn to_num(&self) -> (r: usize)
        ensures
            r == bits_width(*self),
    {
        match self {
            Bits::U8 => 8,
            Bits::U16 => 16,
            Bits::U32 => 32,
            Bits::U64 => 64,
        }
    }

    /// The width in bits, as the arithmetic core takes it.
    pub fn width(&self) -> (r: u64)
        ensures
            r == bits_width(*self),
            valid_width(r),
    {
        match self {
            Bits::U8 => 8,
            Bits::U16 => 16,
            Bits::U32 => 32,
            Bits::U64 => 64,
        }
    }
}

/// A width together with the overflow flag of the latest arithmetic step.
pub struct Calculation(Bits, bool);

impl Calculation {
    /// The declared width.
    pub closed spec fn spec_bits(self) -> Bits {
        self.0
    }

    /// The overflow flag.
    pub closed spec fn spec_overflow(self) -> bool {
        self.1
    }

    /// A calculation of the given width with a clear overflow flag.
    pub fn new(bits: Bits) -> (r: Self)
        ensures
            r.spec_bits() == bits,
            !r.spec_overflow(),
    {
        Calculation(bits, false)
    }

    /// Whether the latest arithmetic step overflowed.
    pub fn overflow(&self) -> (r: bool)
        ensures
            r == self.spec_overflow(),
    {
        self.1
    }

    /// Bitwise complement of `a` within the width.
    pub fn neg(&mut self, a: u64) -> (r: u64)
        ensures
            *final (self) == *old(self),
            r == not_val(trunc_val(a, bits_width(old(self).spec_bits())), bits_width(
                old(self).spec_bits(),
            )),
    {
        let w = self.0.width();
        not_bits(trunc(a, w), w)
    }

    /// Wrapping sum of the truncated operands; records whether it wrapped.
    pub fn add(&mut self, a: u64, b: u64) -> (r: u64)
        ensures
            ({
                let w = bits_width(old(self).spec_bits());
                &&& final (self).spec_bits() == old(self).spec_bits()
                &&& r == add_val(trunc_val(a, w), trunc_val(b, w), w)
                &&& final (self).spec_overflow() == add_overflows(
                    trunc_val(a, w),
                    trunc_val(b, w),
                    w,
                )
            }),
    {
        let w = self.0.width();
        let (v, f) = add_wrap(trunc(a, w), trunc(b, w), w);
        self.1 = f;
        v
    }

    /// Wrapping difference of the truncated operands; records whether it
    /// wrapped.
    pub fn sub(&mut self, a: u64, b: u64) -> (r: u64)
        ensures
            ({
                let w = bits_width(old(self).spec_bits());
                &&& final (self).spec_bits() == old(self).spec_bits()
                &&& r == sub_val(trunc_val(a, w), trunc_val(b, w), w)
                &&& final (self).spec_overflow() == sub_overflows(
                    trunc_val(a, w),
                    trunc_val(b, w),
                    w,
                )
            }),
    {
        let w = self.0.width();
        let (v, f) = sub_wrap(trunc(a, w), trunc(b, w), w);
        self.1 = f;
        v
    }

    /// Wrapping product of the truncated operands; records whether it
    /// wrapped.
    pub fn mul(&mut self, a: u64, b: u64) -> (r: u64)
        ensures
            ({
                let w = bits_width(old(self).spec_bits());
                &&& final (self).spec_bits() == old(self).spec_bits()
                &&& r == mul_val(trunc_val(a, w), trunc_val(b, w), w)
                &&& final (self).spec_overflow() == mul_overflows(
                    trunc_val(a, w),
                    trunc_val(b, w),
                    w,
                )
            }),
    {
        let w = self.0.width();
        let (v, f) = mul_wrap(trunc(a, w), trunc(b, w), w);
        self.1 = f;
        v
    }

    /// Truncating quotient of the truncated operands; unsigned division
    /// cannot wrap, so the overflow flag clears.  The truncated divisor
    /// must not be zero.
    pub fn div(&mut self, a: u64, b: u64) -> (r: u64)
        requires
            trunc_val(b, bits_width(old(self).spec_bits())) != 0,
        ensures
            ({
                let w = bits_width(old(self).spec_bits());
                &&& final (self).spec_bits() == old(self).spec_bits()
                &&& r == trunc_val(a, w) as int / trunc_val(b, w) as int
                &&& !final (self).spec_overflow()
            }),
    {
        let w = self.0.width();
        let v = div_exact(trunc(a, w), trunc(b, w), w);
        self.1 = false;
        v
    }

    /// Bitwise and of the truncated operands.
    pub fn and(&mut self, a: u64, b: u64) -> (r: u64)
        ensures
            *final (self) == *old(self),
            r == trunc_val(a, bits_width(old(self).spec_bits())) & trunc_val(
                b,
                bits_width(old(self).spec_bits()),
            ),
    {
        let w = self.0.width();
        and_bits(trunc(a, w), trunc(b, w), w)
    }

    /// Bitwise or of the truncated operands.
    pub fn or(&mut self, a: u64, b: u64) -> (r: u64)
        ensures
            *final (self) == *old(self),
            r == (trunc_val(a, bits_width(old(self).spec_bits())) | trunc_val(
                b,
                bits_width(old(self).spec_bits()),
            )),
    {
        let w = self.0.width();
        or_bits(trunc(a, w), trunc(b, w), w)
    }

    /// Bitwise exclusive or of the truncated operands.
    pub fn xor(&mut self, a: u64, b: u64) -> (r: u64)
        ensures
            *final (self) == *old(self),
            r == (trunc_val(a, bits_width(old(self).spec_bits())) ^ trunc_val(
                b,
                bits_width(old(self).spec_bits()),
            )),
    {
        let w = self.0.width();
        xor_bits(trunc(a, w), trunc(b, w), w)
    }

    /// Left shift of the truncated operands; over-wide amounts give 0.
    pub fn shl(&mut self, a: u64, b: u64) -> (r: u64)
        ensures
            *final (self) == *old(self),
            r == shl_val(trunc_val(a, bits_width(old(self).spec_bits())), trunc_val(
                b,
                bits_width(old(self).spec_bits()),
            ), bits_width(old(self).spec_bits())),
            trunc_val(b, bits_width(old(self).spec_bits())) >= bits_width(old(self).spec_bits())
                ==> r == 0,
    {
        let w = self.0.width();
        shl_sat(trunc(a, w), trunc(b, w), w)
    }

    /// Right shift of the truncated operands; over-wide amounts give 0.
    pub fn shr(&mut self, a: u64, b: u64) -> (r: u64)
        ensures
            *final (self) == *old(self),
            r == shr_val(trunc_val(a, bits_width(old(self).spec_bits())), trunc_val(
                b,
                bits_width(old(self).spec_bits()),
            ), bits_width(old(self).spec_bits())),
            trunc_val(b, bits_width(old(self).spec_bits())) >= bits_width(old(self).spec_bits())
                ==> r == 0,
    {
        let w = self.0.width();
        shr_sat(trunc(a, w), trunc(b, w), w)
    }

    /// Left rotation of the truncated value; the amount wraps modulo the
    /// width.
    pub fn rol(&mut self, a: u64, b: u64) -> (r: u64)
        ensures
            *final (self) == *old(self),
            r == rol_val(trunc_val(a, bits_width(old(self).spec_bits())), b, bits_width(
                old(self).spec_bits(),
            )),
    {
        let w = self.0.width();
        rol_bits(trunc(a, w), b, w)
    }

    /// Right rotation of the truncated value; the amount wraps modulo the
    /// width.
    pub fn ror(&mut self, a: u64, b: u64) -> (r: u64)
        ensures
            *final (self) == *old(self),
            r == ror_val(trunc_val(a, bits_width(old(self).spec_bits())), b, bits_width(
                old(self).spec_bits(),
            )),
    {
        let w = self.0.width();
        ror_bits(trunc(a, w), b, w)
    }
}

// ---------------------------------------------------------------------------
// Stack reduction
// ---------------------------------------------------------------------------

/// One reduction pass over a postfix token sequence, consumed back to
/// front.  Numbers push; a unary operator replaces the top of the stack;
/// a binary operator replaces the top two, the most recently pushed one
/// being its left operand.  Too few operands, or a division whose
/// truncated divisor is zero, fail the whole reduction.  The flag carries
/// the overflow report of the latest arithmetic step.
pub open spec fn calc_scan(tokens: Seq<Token>, w: u64, stack: Seq<u64>, ov: bool) -> Option<
    (Seq<u64>, bool),
>
    decreases tokens.len(),
{
    if tokens.len() == 0 {
        Some((stack, ov))
    } else {
        let t = tokens.last();
        let rest = tokens.drop_last();
        match t {
            Token::Number(n) => calc_scan(rest, w, stack.push(n), ov),
            Token::Op(op) => {
                if op.spec_is_unary() {
                    if stack.len() == 0 {
                        None
                    } else {
                        calc_scan(
                            rest,
                            w,
                            stack.drop_last().push(not_val(trunc_val(stack.last(), w), w)),
                            ov,
                        )
                    }
                } else if stack.len() < 2 {
                    None
                } else {
                    let a = trunc_val(stack.last(), w);
                    let b = trunc_val(stack[stack.len() - 2], w);
                    let s2 = stack.drop_last().drop_last();
                    match op {
                        Operator::Add => calc_scan(
                            rest,
                            w,
                            s2.push(add_val(a, b, w)),
                            add_overflows(a, b, w),
                        ),
                        Operator::Sub => calc_scan(
                            rest,
                            w,
                            s2.push(sub_val(a, b, w)),
                            sub_overflows(a, b, w),
                        ),
                        Operator::Mul => calc_scan(
                            rest,
                            w,
                            s2.push(mul_val(a, b, w)),
                            mul_overflows(a, b, w),
                        ),
                        Operator::Div => if b == 0 {
                            None
                        } else {
                            calc_scan(rest, w, s2.push((a as int / b as int) as u64), false)
                        },
                        Operator::And => calc_scan(rest, w, s2.push(a & b), ov),
                        Operator::Or => calc_scan(rest, w, s2.push(a | b), ov),
                        Operator::Xor => calc_scan(rest, w, s2.push(a ^ b), ov),
                        Operator::Shl => calc_scan(rest, w, s2.push(shl_val(a, b, w)), ov),
                        Operator::Shr => calc_scan(rest, w, s2.push(shr_val(a, b, w)), ov),
                        Operator::Rol => calc_scan(
                            rest,
                            w,
                            s2.push(rol_val(a, stack[stack.len() - 2], w)),
                            ov,
                        ),
                        Operator::Ror => calc_scan(
                            rest,
                            w,
                            s2.push(ror_val(a, stack[stack.len() - 2], w)),
                            ov,
                        ),
                        Operator::Neg => None,
                    }
                }
            },
        }
    }
}

/// What reducing a postfix sequence yields: the single remaining operand
/// and the final overflow flag, or nothing where the reduction fails or
/// does not leave exactly one operand.  `ov0` is the overflow flag the
/// calculation starts from; it survives where no arithmetic step runs.
pub open spec fn spec_calculate(tokens: Seq<Token>, w: u64, ov0: bool) -> Option<(u64, bool)> {
    match calc_scan(tokens, w, Seq::empty(), ov0) {
        None => None,
        Some((stack, ov)) => if stack.len() == 1 {
            Some((stack[0], ov))
        } else {
            None
        },
    }
}

/// The value, width, and overflow flag of a finished calculation.
pub struct CalculationResult(u64, Bits, bool);

impl CalculationResult {
    /// The resulting magnitude.
    pub closed spec fn spec_value(self) -> u64 {
        self.0
    }

    /// The width the calculation ran at.
    pub closed spec fn spec_bits(self) -> Bits {
        self.1
    }

    /// Whether the last arithmetic step overflowed.
    pub closed spec fn spec_overflow(self) -> bool {
        self.2
    }

    /// The resulting magnitude.
    pub fn inner(&self) -> (r: u64)
        ensures
            r == self.spec_value(),
    {
        self.0
    }

    /// The width the calculation ran at.
    pub fn bits(&self) -> (r: Bits)
        ensures
            r == self.spec_bits(),
    {
        self.1
    }

    /// Whether the last arithmetic step overflowed.
    pub fn overflowed(&self) -> (r: bool)
        ensures
            r == self.spec_overflow(),
    {
        self.2
    }

    /// The value as binary digits, zero-padded to the full width.
    pub fn to_binary_string(&self) -> (r: String)
        ensures
            r@ == num_seq_pad(self.spec_value() as nat, 2, bits_width(self.spec_bits()) as nat),
    {
        let mut s = String::new();
        crate::text::push_num_pad(&mut s, self.0, 2, self.1.width());
        proof {
            assert(Seq::<char>::empty() + num_seq_pad(
                self.spec_value() as nat,
                2,
                bits_width(self.spec_bits()) as nat,
            ) =~= num_seq_pad(self.spec_value() as nat, 2, bits_width(self.spec_bits()) as nat));
        }
        s
    }
}

impl Calculation {
    /// Reduce a postfix token sequence, draining it.  Yields the result
    /// exactly where the reduction succeeds with a single operand left.
    #[verifier::rlimit(60)]
    pub fn calculate(&mut self, tokens: &mut Vec<Token>) -> (r: Option<CalculationResult>)
        ensures
            final (self).spec_bits() == old(self).spec_bits(),
            final (tokens)@.len() <= old(tokens)@.len(),
            r is Some ==> final (tokens)@.len() == 0,
            match r {
                Some(res) => {
                    &&& spec_calculate(
                        old(tokens)@,
                        bits_width(old(self).spec_bits()),
                        old(self).spec_overflow(),
                    ) == Some((res.spec_value(), res.spec_overflow()))
                    &&& res.spec_bits() == old(self).spec_bits()
                    &&& final (self).spec_overflow() == res.spec_overflow()
                },
                None => spec_calculate(
                    old(tokens)@,
                    bits_width(old(self).spec_bits()),
                    old(self).spec_overflow(),
                ) is None,
            },
    {
        let ghost orig = tokens@;
        let ghost ov0 = self.spec_overflow();
        let ghost w = bits_width(self.spec_bits());
        let mut stack: Vec<u64> = Vec::new();
        while tokens.len() != 0
            invariant
                tokens@.len() <= orig.len(),
                orig == old(tokens)@,
                self.spec_bits() == old(self).spec_bits(),
                w == bits_width(old(self).spec_bits()),
                ov0 == old(self).spec_overflow(),
                calc_scan(orig, w, Seq::empty(), ov0) == calc_scan(
                    tokens@,
                    w,
                    stack@,
                    self.spec_overflow(),
                ),
            decreases tokens@.len(),
        {
            let ghost pre = tokens@;
            let ghost spre = stack@;
            let current = match tokens.pop() {
                Some(t) => t,
                None => {
                    proof {
                        assert(false);
                    }
                    Token::Number(0)
                },
            };
            proof {
                assert(tokens@ =~= pre.drop_last());
                assert(current == pre.last());
            }
            match current {
                Token::Number(n) => {
                    stack.push(n);
                },
                Token::Op(op) => {
                    if op.is_unary() {
                        let a = match stack.pop() {
                            Some(v) => v,
                            None => {
                                proof {
                                    assert(spre.len() == 0);
                                    assert(calc_scan(pre, w, spre, self.spec_overflow()) is None);
                                }
                                return None;
                            },
                        };
                        let res = match op {
                            Operator::Neg => self.neg(a),
                            _ => {
                                proof {
                                    assert(false);
                                }
                                0
                            },
                        };
                        stack.push(res);
                    } else {
                        let a = match stack.pop() {
                            Some(v) => v,
                            None => {
                                proof {
                                    assert(spre.len() < 2);
                                    assert(calc_scan(pre, w, spre, self.spec_overflow()) is None);
                                }
                                return None;
                            },
                        };
                        let b = match stack.pop() {
                            Some(v) => v,
                            None => {
                                proof {
                                    assert(spre.len() < 2);
                                    assert(calc_scan(pre, w, spre, self.spec_overflow()) is None);
                                }
                                return None;
                            },
                        };
                        let res = match op {
                            Operator::Add => self.add(a, b),
                            Operator::Sub => self.sub(a, b),
                            Operator::Mul => self.mul(a, b),
                            Operator::Div => {
                                let tb = trunc(b, self.0.width());
                                if tb == 0 {
                                    proof {
                                        assert(spre.len() >= 2);
                                        assert(a == spre.last());
                                        assert(b == spre[spre.len() - 2]);
                                        assert(calc_scan(pre, w, spre, self.spec_overflow())
                                            is None);
                                    }
                                    return None;
                                }
                                self.div(a, b)
                            },
                            Operator::And => self.and(a, b),
                            Operator::Or => self.or(a, b),
                            Operator::Xor => self.xor(a, b),
                            Operator::Shl => self.shl(a, b),
                            Operator::Shr => self.shr(a, b),
                            Operator::Rol => self.rol(a, b),
                            Operator::Ror => self.ror(a, b),
                            Operator::Neg => {
                                proof {
                                    assert(false);
                                }
                                0
                            },
                        };
                        stack.push(res);
                    }
                },
            }
        }
        if stack.len() == 1 {
            let v = stack[0];
            Some(CalculationResult(v, self.0, self.1))
        } else {
            None
        }
    }
}

/// Conversion to postfix keeps the textual operand order: in the prefix
/// dialect `- a b` subtracts `b` from `a`, never the other way round, for
/// all operands and widths.
pub proof fn lemma_prefix_sub_operand_order(a: u64, b: u64, w: u64)
    requires
        valid_width(w),
    ensures
        spec_calculate(
            spec_prefix_to_postfix(
                seq![Token::Op(Operator::Sub), Token::Number(a), Token::Number(b)],
            ),
            w,
            false,
        ) == Some(
            (
                sub_val(trunc_val(a, w), trunc_val(b, w), w),
                sub_overflows(trunc_val(a, w), trunc_val(b, w), w),
            ),
        ),
{
    let e3 = seq![Token::Op(Operator::Sub), Token::Number(a), Token::Number(b)];
    let e2 = seq![Token::Op(Operator::Sub), Token::Number(a)];
    let e1 = seq![Token::Op(Operator::Sub)];
    let e0 = Seq::<Token>::empty();
    assert(e3.drop_last() =~= e2);
    assert(e2.drop_last() =~= e1);
    assert(e1.drop_last() =~= e0);
    let out = seq![Token::Number(b), Token::Number(a), Token::Op(Operator::Sub)];
    assert(Seq::<Token>::empty().push(Token::Number(b)) =~= seq![Token::Number(b)]);
    assert(seq![Token::Number(b)].push(Token::Number(a)) =~= seq![
        Token::Number(b),
        Token::Number(a),
    ]);
    assert(p2p_scan(e3, Seq::empty(), Seq::empty()) == p2p_scan(
        e2,
        seq![Token::Number(b)],
        Seq::empty(),
    ));
    assert(p2p_scan(e2, seq![Token::Number(b)], Seq::empty()) == p2p_scan(
        e1,
        seq![Token::Number(b), Token::Number(a)],
        Seq::empty(),
    ));
    assert(seq![Token::Number(b), Token::Number(a)].drop_last().drop_last() =~= Seq::<
        Token,
    >::empty());
    assert(Seq::<Token>::empty().push(Token::Number(b)).push(Token::Number(a)).push(
        Token::Op(Operator::Sub),
    ) =~= out);
    assert(p2p_scan(e1, seq![Token::Number(b), Token::Number(a)], Seq::empty()) == p2p_scan(
        e0,
        Seq::<Token>::empty(),
        out,
    ));
    let post = spec_prefix_to_postfix(e3);
    assert(post =~= seq![Token::Op(Operator::Sub), Token::Number(a), Token::Number(b)]);
    assert(post.drop_last() =~= e2);
    let s1 = Seq::<u64>::empty().push(b);
    let s2 = s1.push(a);
    assert(post.last() == Token::Number(b));
    assert(e2.last() == Token::Number(a));
    assert(calc_scan(post, w, Seq::empty(), false) == calc_scan(e2, w, s1, false));
    assert(calc_scan(e2, w, s1, false) == calc_scan(e1, w, s2, false));
    assert(s2.last() == a && s2[0] == b && s2.len() == 2);
    let r = sub_val(trunc_val(a, w), trunc_val(b, w), w);
    let ov = sub_overflows(trunc_val(a, w), trunc_val(b, w), w);
    assert(s2.drop_last().drop_last() =~= Seq::<u64>::empty());
    assert(calc_scan(e1, w, s2, false) == calc_scan(e0, w, Seq::<u64>::empty().push(r), ov));
    assert(calc_scan(e0, w, Seq::<u64>::empty().push(r), ov) == Some(
        (Seq::<u64>::empty().push(r), ov),
    ));
    assert(Seq::<u64>::empty().push(r).len() == 1);
    assert(Seq::<u64>::empty().push(r)[0] == r);
}

// ---------------------------------------------------------------------------
// One-line evaluation
// ---------------------------------------------------------------------------

/// The width and expression a line selects: a leading `u8 `, `u16 `,
/// `u32 ` or `u64 ` word declares the width of every literal, a line of
/// only that word is rejected, and anything else runs at 32 bits.
pub open spec fn spec_eval_dispatch(line: Seq<char>) -> Option<(Bits, Seq<char>)> {
    if line.len() >= 3 && line[0] == 'u' && line[1] == '8' && line[2] == ' ' {
        Some((Bits::U8, line.skip(3)))
    } else if line.len() >= 4 && line[0] == 'u' && line[1] == '1' && line[2] == '6' && line[3]
        == ' ' {
        Some((Bits::U16, line.skip(4)))
    } else if line.len() >= 4 && line[0] == 'u' && line[1] == '3' && line[2] == '2' && line[3]
        == ' ' {
        Some((Bits::U32, line.skip(4)))
    } else if line.len() >= 4 && line[0] == 'u' && line[1] == '6' && line[2] == '4' && line[3]
        == ' ' {
        Some((Bits::U64, line.skip(4)))
    } else if line == seq!['u', '8'] || line == seq!['u', '1', '6'] || line == seq![
        'u',
        '3',
        '2',
    ] || line == seq!['u', '6', '4'] {
        None
    } else {
        Some((Bits::U32, line))
    }
}

/// What evaluating a prefix-dialect line yields: the declared width is
/// split off, the rest tokenizes to postfix, and the reduction runs with
/// a clear overflow flag.
pub open spec fn spec_eval(line: Seq<char>) -> Option<(u64, Bits, bool)> {
    match spec_eval_dispatch(line) {
        None => None,
        Some((bits, expr)) => match spec_tokenize(expr) {
            None => None,
            Some(toks) => match spec_calculate(toks, bits_width(bits), false) {
                None => None,
                Some((v, ov)) => Some((v, bits, ov)),
            },
        },
    }
}

/// Evaluate one line of the prefix dialect.
pub fn eval(line: &str) -> (r: Option<CalculationResult>)
    ensures
        match r {
            Some(res) => spec_eval(line@) == Some(
                (res.spec_value(), res.spec_bits(), res.spec_overflow()),
            ),
            None => spec_eval(line@) is None,
        },
{
    let cs = crate::text::chars_of(line);
    let n = cs.len();
    let bits: Bits;
    let start: usize;
    if n >= 3 && cs[0] == 'u' && cs[1] == '8' && cs[2] == ' ' {
        bits = Bits::U8;
        start = 3;
    } else if n >= 4 && cs[0] == 'u' && cs[1] == '1' && cs[2] == '6' && cs[3] == ' ' {
        bits = Bits::U16;
        start = 4;
    } else if n >= 4 && cs[0] == 'u' && cs[1] == '3' && cs[2] == '2' && cs[3] == ' ' {
        bits = Bits::U32;
        start = 4;
    } else if n >= 4 && cs[0] == 'u' && cs[1] == '6' && cs[2] == '4' && cs[3] == ' ' {
        bits = Bits::U64;
        start = 4;
    } else {
        if n == 2 && cs[0] == 'u' && cs[1] == '8' {
            proof {
                assert(cs@ =~= seq!['u', '8']);
            }
            return None;
        }
        if n == 3 && cs[0] == 'u' && cs[1] == '1' && cs[2] == '6' {
            proof {
                assert(cs@ =~= seq!['u', '1', '6']);
            }
            return None;
        }
        if n == 3 && cs[0] == 'u' && cs[1] == '3' && cs[2] == '2' {
            proof {
                assert(cs@ =~= seq!['u', '3', '2']);
            }
            return None;
        }
        if n == 3 && cs[0] == 'u' && cs[1] == '6' && cs[2] == '4' {
            proof {
                assert(cs@ =~= seq!['u', '6', '4']);
            }
            return None;
        }
        proof {
            assert(cs@ != seq!['u', '8'] && cs@ != seq!['u', '1', '6'] && cs@ != seq![
                'u',
                '3',
                '2',
            ] && cs@ != seq!['u', '6', '4']) by {
                if cs@ == seq!['u', '8'] {
                    assert(cs@.len() == 2 && cs@[0] == 'u' && cs@[1] == '8');
                }
                if cs@ == seq!['u', '1', '6'] {
                    assert(cs@.len() == 3 && cs@[0] == 'u' && cs@[1] == '1' && cs@[2] == '6');
                }
                if cs@ == seq!['u', '3', '2'] {
                    assert(cs@.len() == 3 && cs@[0] == 'u' && cs@[1] == '3' && cs@[2] == '2');
                }
                if cs@ == seq!['u', '6', '4'] {
                    assert(cs@.len() == 3 && cs@[0] == 'u' && cs@[1] == '6' && cs@[2] == '4');
                }
            }
        }
        bits = Bits::U32;
        start = 0;
    }
    let ghost dispatched = spec_eval_dispatch(line@);
    proof {
        assert(dispatched == Some((bits, cs@.skip(start as int))));
    }
    let mut expr: Vec<char> = Vec::new();
    let mut i: usize = start;
    while i < n
        invariant
            start <= i <= n,
            n == cs@.len(),
            expr@ == cs@.subrange(start as int, i as int),
        decreases n - i,
    {
        expr.push(cs[i]);
        i += 1;
        proof {
            assert(expr@ =~= cs@.subrange(start as int, i as int));
        }
    }
    proof {
        assert(expr@ =~= cs@.skip(start as int));
    }
    let tok = Tokenizer::new();
    let tokens = tok.tokenize_chars(&expr);
    let mut calc = Calculation::new(bits);
    match tokens {
        Some(mut toks) => calc.calculate(&mut toks),
        None => None,
    }
}

} // verus!
