//! Fixed-width unsigned values of the flat dialect: parsing, rendering,
//! and width-preserving calculation.

use crate::arith::{
    add_overflows, add_val, add_wrap, and_bits, fits, mask_of, mul_overflows, mul_val, mul_wrap,
    neg_val, neg_wrap, not_bits, not_val, or_bits, rol_bits, rol_val, ror_bits, ror_val, shl_sat,
    shl_val, shr_sat, shr_val, sub_overflows, sub_val, sub_wrap, swap_bytes_val, swap_val,
    valid_width, width_mask, xor_bits,
};
use crate::ops::Operation;
use crate::text::{
    all_digits, chars_of, check_all_digits, is_dec_digit, lemma_num_seq_digits, lemma_num_seq_val,
    lemma_split_single_sep, num_seq, num_seq_pad, parse_radix_capped, push_char, push_num,
    push_num_pad, radix_val, split_chars, split_on,
};
use vstd::prelude::*;
use vstd::string::StringExecFns;

verus! {

/// Errors which can arise when converting integers.
#[derive(Debug, Clone, Copy, PartialEq, Eq, Structural)]
pub enum IntTypeConversionError {
    /// No width marker, a malformed split, or a magnitude that does not
    /// parse in the selected radix for the target width.
    InvalidInteger,
    /// The width suffix is not numeric.
    InvalidBitwidth,
    /// The width is numeric but not 8, 16, 32 or 64.
    UnsupportedBitwidth,
}

/// Overflow classification of a calculation.
#[derive(Debug, Clone, Copy, PartialEq, Eq, Structural)]
pub enum Overflow {
    /// The operation cannot overflow.
    NotPossible,
    /// The operation can overflow but did not.
    NoOverflow,
    /// The mathematical result left the width; the stored value wrapped.
    Occured,
}

impl Overflow {
    /// The annotation printed beside a result: distinct where an overflow
    /// occurred, empty where the operation cannot overflow.
    pub fn label(&self) -> (r: String)
        ensures
            r@ == match *self {
                Overflow::Occured => "[overflow occured]"@,
                Overflow::NoOverflow => "[no overflow]"@,
                Overflow::NotPossible => ""@,
            },
    {
        match self {
            Overflow::Occured => String::from_str("[overflow occured]"),
            Overflow::NoOverflow => String::from_str("[no overflow]"),
            Overflow::NotPossible => String::from_str(""),
        }
    }
}

/// A tagged fixed-width unsigned integer.
#[derive(Debug, Clone, Copy, PartialEq, Eq, Structural)]
pub enum IntType {
    U8(u8),
    U16(u16),
    U32(u32),
    U64(u64),
}

impl IntType {
    /// The width of the value, in bits.
    pub open spec fn spec_width(self) -> u64 {
        match self {
            IntType::U8(_) => 8,
            IntType::U16(_) => 16,
            IntType::U32(_) => 32,
            IntType::U64(_) => 64,
        }
    }

    /// The magnitude of the value.
    pub open spec fn spec_val(self) -> u64 {
        match self {
            IntType::U8(v) => v as u64,
            IntType::U16(v) => v as u64,
            IntType::U32(v) => v as u64,
            IntType::U64(v) => v as u64,
        }
    }
}

/// The value `v` tagged with width `w`.
pub open spec fn tag_val(w: u64, v: u64) -> IntType {
    if w == 8 {
        IntType::U8(v as u8)
    } else if w == 16 {
        IntType::U16(v as u16)
    } else if w == 32 {
        IntType::U32(v as u32)
    } else {
        IntType::U64(v)
    }
}

/// Every value fits its own width, and retagging it changes nothing.
pub proof fn lemma_int_type_fits(x: IntType)
    ensures
        valid_width(x.spec_width()),
        fits(x.spec_val(), x.spec_width()),
        tag_val(x.spec_width(), x.spec_val()) == x,
{
}

/// What parsing a literal yields: an optional `0x` prefix selects the
/// hexadecimal radix, the body splits at `'u'` into a magnitude and a
/// width, the width must be 8/16/32/64, and the magnitude must fit it.
pub open spec fn spec_parse_literal(s: Seq<char>) -> Result<IntType, IntTypeConversionError> {
    let hex = s.len() >= 2 && s[0] == '0' && s[1] == 'x';
    let body = if hex {
        s.skip(2)
    } else {
        s
    };
    let parts = split_on(body, 'u');
    if parts.len() != 2 {
        Err(IntTypeConversionError::InvalidInteger)
    } else if !(parts[1].len() > 0 && all_digits(parts[1], 10)) {
        Err(IntTypeConversionError::InvalidBitwidth)
    } else {
        let w = radix_val(parts[1], 10);
        if !(w == 8 || w == 16 || w == 32 || w == 64) {
            Err(IntTypeConversionError::UnsupportedBitwidth)
        } else {
            let radix: nat = if hex {
                16
            } else {
                10
            };
            if parts[0].len() > 0 && all_digits(parts[0], radix) && radix_val(parts[0], radix)
                <= width_mask(w as u64) {
                Ok(tag_val(w as u64, radix_val(parts[0], radix) as u64))
            } else {
                Err(IntTypeConversionError::InvalidInteger)
            }
        }
    }
}

/// The value `v`, which must fit width `w`, tagged with that width.
pub fn tag(w: u64, v: u64) -> (r: IntType)
    requires
        valid_width(w),
        fits(v, w),
    ensures
        r == tag_val(w, v),
        r.spec_width() == w,
        r.spec_val() == v,
{
    if w == 8 {
        IntType::U8(v as u8)
    } else if w == 16 {
        IntType::U16(v as u16)
    } else if w == 32 {
        IntType::U32(v as u32)
    } else {
        IntType::U64(v)
    }
}

impl IntType {
    /// The magnitude of the value, widened to 64 bits.
    pub fn inner(&self) -> (r: u64)
        ensures
            r == self.spec_val(),
    {
        match self {
            IntType::U8(v) => *v as u64,
            IntType::U16(v) => *v as u64,
            IntType::U32(v) => *v as u64,
            IntType::U64(v) => *v,
        }
    }

    /// The width of the value, in bits.
    pub fn width_bits(&self) -> (w: u64)
        ensures
            w == self.spec_width(),
    {
        match self {
            IntType::U8(_) => 8,
            IntType::U16(_) => 16,
            IntType::U32(_) => 32,
            IntType::U64(_) => 64,
        }
    }

    /// Take a string and parse it to an `IntType`; if the parsing fails,
    /// an error is returned.
    pub fn new_from_str(s: &str) -> (r: Result<IntType, IntTypeConversionError>)
        ensures
            r == spec_parse_literal(s@),
    {
        IntType::new_from_chars(&chars_of(s))
    }

    /// Parse a literal given as characters.
    pub fn new_from_chars(cs: &Vec<char>) -> (r: Result<IntType, IntTypeConversionError>)
        ensures
            r == spec_parse_literal(cs@),
    {
        let hex = cs.len() >= 2 && cs[0] == '0' && cs[1] == 'x';
        let start: usize = if hex {
            2
        } else {
            0
        };
        let mut body: Vec<char> = Vec::new();
        let mut i: usize = start;
        while i < cs.len()
            invariant
                start <= i <= cs@.len(),
                body@ == cs@.subrange(start as int, i as int),
            decreases cs@.len() - i,
        {
            body.push(cs[i]);
            i += 1;
            proof {
                assert(body@ =~= cs@.subrange(start as int, i as int));
            }
        }
        proof {
            if hex {
                assert(body@ =~= cs@.skip(2));
            } else {
                assert(body@ =~= cs@);
            }
        }
        let parts = split_chars(&body, 'u');
        let ghost sparts = split_on(body@, 'u');
        if parts.len() != 2 {
            return Err(IntTypeConversionError::InvalidInteger);
        }
        proof {
            assert(parts@[1]@ == sparts[1]);
            assert(parts@[0]@ == sparts[0]);
        }
        if !check_all_digits(&parts[1], 10) {
            return Err(IntTypeConversionError::InvalidBitwidth);
        }
        let w = match parse_radix_capped(&parts[1], 10, 64) {
            Some(w) => w,
            None => {
                return Err(IntTypeConversionError::UnsupportedBitwidth);
            },
        };
        if !(w == 8 || w == 16 || w == 32 || w == 64) {
            return Err(IntTypeConversionError::UnsupportedBitwidth);
        }
        let radix: u64 = if hex {
            16
        } else {
            10
        };
        match parse_radix_capped(&parts[0], radix, mask_of(w)) {
            Some(v) => Ok(tag(w, v)),
            None => Err(IntTypeConversionError::InvalidInteger),
        }
    }
}

// ---------------------------------------------------------------------------
// Calculation
// ---------------------------------------------------------------------------

/// What a binary operation on two values yields: `None` where the widths
/// differ or the operator is unary; otherwise the width-preserving result
/// together with its overflow classification.  Overflow is `Occured`
/// exactly where the mathematical result of `+`, `-` or `*` leaves
/// `[0, 2^w)`; the other operators cannot overflow.
pub open spec fn spec_calculate_binary(x: IntType, y: IntType, op: Operation) -> Option<
    (IntType, Overflow),
> {
    if x.spec_width() != y.spec_width() || op.spec_is_unary() {
        None
    } else {
        let w = x.spec_width();
        let a = x.spec_val();
        let b = y.spec_val();
        match op {
            Operation::Add => Some(
                (
                    tag_val(w, add_val(a, b, w)),
                    if add_overflows(a, b, w) {
                        Overflow::Occured
                    } else {
                        Overflow::NoOverflow
                    },
                ),
            ),
            Operation::Sub => Some(
                (
                    tag_val(w, sub_val(a, b, w)),
                    if sub_overflows(a, b, w) {
                        Overflow::Occured
                    } else {
                        Overflow::NoOverflow
                    },
                ),
            ),
            Operation::Mul => Some(
                (
                    tag_val(w, mul_val(a, b, w)),
                    if mul_overflows(a, b, w) {
                        Overflow::Occured
                    } else {
                        Overflow::NoOverflow
                    },
                ),
            ),
            Operation::And => Some((tag_val(w, a & b), Overflow::NotPossible)),
            Operation::Or => Some((tag_val(w, a | b), Overflow::NotPossible)),
            Operation::Xor => Some((tag_val(w, a ^ b), Overflow::NotPossible)),
            Operation::Shl => Some((tag_val(w, shl_val(a, b, w)), Overflow::NotPossible)),
            Operation::Shr => Some((tag_val(w, shr_val(a, b, w)), Overflow::NotPossible)),
            Operation::Rol => Some((tag_val(w, rol_val(a, b, w)), Overflow::NotPossible)),
            Operation::Ror => Some((tag_val(w, ror_val(a, b, w)), Overflow::NotPossible)),
            _ => None,
        }
    }
}

/// What a unary operation yields: `None` where the operator is binary;
/// otherwise the width-preserving result, which never overflows.  The
/// register view passes its operand through unchanged.
pub open spec fn spec_calculate_unary(x: IntType, op: Operation) -> Option<(IntType, Overflow)> {
    if !op.spec_is_unary() {
        None
    } else {
        let w = x.spec_width();
        let a = x.spec_val();
        match op {
            Operation::Neg => Some((tag_val(w, neg_val(a, w)), Overflow::NotPossible)),
            Operation::Not => Some((tag_val(w, not_val(a, w)), Overflow::NotPossible)),
            Operation::Reg => Some((x, Overflow::NotPossible)),
            Operation::End => Some((tag_val(w, swap_val(a, w)), Overflow::NotPossible)),
            _ => None,
        }
    }
}

impl IntType {
    /// Calculation of a binary operation, given two values and an
    /// operation.  Fails on a width mismatch or a unary operator.
    pub fn calculate_binary(self, other: IntType, op: Operation) -> (r: Option<
        (IntType, Overflow),
    >)
        ensures
            r == spec_calculate_binary(self, other, op),
    {
        let w = self.width_bits();
        if other.width_bits() != w {
            return None;
        }
        if op.is_unary() {
            return None;
        }
        let a = self.inner();
        let b = other.inner();
        proof {
            lemma_int_type_fits(self);
            lemma_int_type_fits(other);
        }
        match op {
            Operation::Add => {
                let (v, f) = add_wrap(a, b, w);
                Some(
                    (
                        tag(w, v),
                        if f {
                            Overflow::Occured
                        } else {
                            Overflow::NoOverflow
                        },
                    ),
                )
            },
            Operation::Sub => {
                let (v, f) = sub_wrap(a, b, w);
                Some(
                    (
                        tag(w, v),
                        if f {
                            Overflow::Occured
                        } else {
                            Overflow::NoOverflow
                        },
                    ),
                )
            },
            Operation::Mul => {
                let (v, f) = mul_wrap(a, b, w);
                Some(
                    (
                        tag(w, v),
                        if f {
                            Overflow::Occured
                        } else {
                            Overflow::NoOverflow
                        },
                    ),
                )
            },
            Operation::And => Some((tag(w, and_bits(a, b, w)), Overflow::NotPossible)),
            Operation::Or => Some((tag(w, or_bits(a, b, w)), Overflow::NotPossible)),
            Operation::Xor => Some((tag(w, xor_bits(a, b, w)), Overflow::NotPossible)),
            Operation::Shl => Some((tag(w, shl_sat(a, b, w)), Overflow::NotPossible)),
            Operation::Shr => Some((tag(w, shr_sat(a, b, w)), Overflow::NotPossible)),
            Operation::Rol => Some((tag(w, rol_bits(a, b, w)), Overflow::NotPossible)),
            Operation::Ror => Some((tag(w, ror_bits(a, b, w)), Overflow::NotPossible)),
            _ => None,
        }
    }

    /// Calculate a unary operation given an `IntType` and an operation.
    /// Fails on a binary operator.
    pub fn calculate_unary(self, op: Operation) -> (r: Option<(IntType, Overflow)>)
        ensures
            r == spec_calculate_unary(self, op),
    {
        if !op.is_unary() {
            return None;
        }
        let w = self.width_bits();
        let a = self.inner();
        proof {
            lemma_int_type_fits(self);
        }
        match op {
            Operation::Neg => Some((tag(w, neg_wrap(a, w)), Overflow::NotPossible)),
            Operation::Not => Some((tag(w, not_bits(a, w)), Overflow::NotPossible)),
            Operation::Reg => Some((self, Overflow::NotPossible)),
            Operation::End => Some((tag(w, swap_bytes_val(a, w)), Overflow::NotPossible)),
            _ => None,
        }
    }
}

/// A shift amount of the width or more yields zero, for both shift
/// directions and every width.
pub proof fn lemma_over_wide_shift_zero(x: IntType, y: IntType, op: Operation)
    requires
        x.spec_width() == y.spec_width(),
        y.spec_val() >= x.spec_width(),
        op == Operation::Shl || op == Operation::Shr,
    ensures
        spec_calculate_binary(x, y, op) == Some(
            (tag_val(x.spec_width(), 0), Overflow::NotPossible),
        ),
{
}

// ---------------------------------------------------------------------------
// Rendering
// ---------------------------------------------------------------------------

/// The rendering of a value: zero-padded hexadecimal, unpadded binary,
/// and decimal.
pub open spec fn spec_display(v: IntType) -> Seq<char> {
    "hex: 0x"@ + num_seq_pad(v.spec_val() as nat, 16, (v.spec_width() / 4) as nat) + " bin: b"@
        + num_seq(v.spec_val() as nat, 2) + " dec: "@ + num_seq(v.spec_val() as nat, 10)
}

/// The compact literal form of a value: decimal digits, `'u'`, then the
/// width in bits.
pub open spec fn spec_literal_of(v: IntType) -> Seq<char> {
    num_seq(v.spec_val() as nat, 10) + seq!['u'] + num_seq(v.spec_width() as nat, 10)
}

impl IntType {
    /// Render as `hex: 0x<zero-padded> bin: b<binary> dec: <decimal>`.
    pub fn display(&self) -> (r: String)
        ensures
            r@ == spec_display(*self),
    {
        let v = self.inner();
        let w = self.width_bits();
        let mut out = String::new();
        out.append("hex: 0x");
        proof {
            assert(Seq::<char>::empty() + "hex: 0x"@ =~= "hex: 0x"@);
        }
        push_num_pad(&mut out, v, 16, w / 4);
        out.append(" bin: b");
        push_num(&mut out, v, 2);
        out.append(" dec: ");
        push_num(&mut out, v, 10);
        out
    }

    /// Render as a literal that `new_from_str` parses back to the same
    /// value, for example `255u8`.
    pub fn to_literal(&self) -> (r: String)
        ensures
            r@ == spec_literal_of(*self),
    {
        let mut out = String::new();
        push_num(&mut out, self.inner(), 10);
        push_char(&mut out, 'u');
        push_num(&mut out, self.width_bits(), 10);
        proof {
            assert((Seq::<char>::empty() + num_seq(self.spec_val() as nat, 10)).push('u') =~= num_seq(
                self.spec_val() as nat,
                10,
            ) + seq!['u']);
        }
        out
    }
}

/// Parsing a rendered literal gives the value back, for every value and
/// width.
pub proof fn lemma_parse_literal_round_trip(v: IntType)
    ensures
        spec_parse_literal(spec_literal_of(v)) == Ok::<IntType, IntTypeConversionError>(v),
{
    let m = num_seq(v.spec_val() as nat, 10);
    let wseq = num_seq(v.spec_width() as nat, 10);
    let s = spec_literal_of(v);
    lemma_int_type_fits(v);
    lemma_num_seq_digits(v.spec_val() as nat, 10);
    lemma_num_seq_digits(v.spec_width() as nat, 10);
    lemma_num_seq_val(v.spec_val() as nat, 10);
    lemma_num_seq_val(v.spec_width() as nat, 10);
    assert(s.len() >= 2);
    assert(s[0] == m[0]);
    if m.len() >= 2 {
        assert(s[1] == m[1]);
        assert(is_dec_digit(m[1]));
        assert(s[1] != 'x');
    } else {
        assert(s =~= seq![m[0], 'u'] + wseq);
        assert(s[1] == 'u');
    }
    assert(!(s[0] == '0' && s[1] == 'x'));
    assert(forall|i: int| 0 <= i < m.len() ==> #[trigger] m[i] != 'u') by {
        assert(forall|i: int|
            0 <= i < m.len() ==> is_dec_digit(#[trigger] m[i]) && is_dec_digit(m[i]) ==> m[i]
                != 'u');
    }
    assert(forall|i: int| 0 <= i < wseq.len() ==> #[trigger] wseq[i] != 'u');
    lemma_split_single_sep(m, wseq, 'u');
    assert(split_on(s, 'u') == seq![m, wseq]);
    assert(radix_val(wseq, 10) == v.spec_width());
    assert(radix_val(m, 10) == v.spec_val());
    assert(spec_parse_literal(s) == Ok::<IntType, IntTypeConversionError>(
        tag_val(v.spec_width(), v.spec_val()),
    ));
}

} // verus!
