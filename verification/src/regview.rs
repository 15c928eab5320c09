//! The register view: bit indices printed above bit values, aligned in
//! columns.

use crate::text::{num_seq, push_char, push_num};
use vstd::prelude::*;

verus! {

/// The header of the bit columns from index `hi - 1` down to `lo`: each
/// index in decimal, followed by one space.
pub open spec fn reg_header(v: u64, hi: int, lo: int) -> Seq<char>
    decreases hi - lo,
{
    if hi <= lo {
        Seq::<char>::empty()
    } else {
        num_seq((hi - 1) as nat, 10) + seq![' '] + reg_header(v, hi - 1, lo)
    }
}

/// The bit values from index `hi - 1` down to `lo`: each bit of `v`,
/// padded to the column width of its index (two-digit indices take a
/// three-character column).
pub open spec fn reg_bits(v: u64, hi: int, lo: int) -> Seq<char>
    decreases hi - lo,
{
    if hi <= lo || hi > 64 {
        Seq::<char>::empty()
    } else {
        let i = hi - 1;
        let bit = (v >> (i as u64)) & 1;
        let c = if bit == 1 {
            '1'
        } else {
            '0'
        };
        seq![c] + (if i >= 10 {
            seq![' ', ' ']
        } else {
            seq![' ']
        }) + reg_bits(v, i, lo)
    }
}

/// One header/value line pair of the register view.
pub open spec fn reg_pair(v: u64, hi: int, lo: int) -> Seq<char> {
    reg_header(v, hi, lo) + seq!['\n'] + reg_bits(v, hi, lo) + seq!['\n']
}

/// The whole register view: one header/value line pair covering bits
/// `width - 1` down to 0, except that a 64-bit value is split into a pair
/// for bits 63..32 and a pair for bits 31..0.
pub open spec fn spec_regprint(v: u64, width: usize) -> Seq<char> {
    if width == 64 {
        reg_pair(v, 64, 32) + reg_pair(v, 32, 0)
    } else {
        reg_pair(v, width as int, 0)
    }
}

/// Column ranges concatenate.
proof fn lemma_reg_split(v: u64, hi: int, mid: int, lo: int)
    requires
        lo <= mid <= hi <= 64,
    ensures
        reg_header(v, hi, lo) =~= reg_header(v, hi, mid) + reg_header(v, mid, lo),
        reg_bits(v, hi, lo) =~= reg_bits(v, hi, mid) + reg_bits(v, mid, lo),
    decreases hi - mid,
{
    if hi <= mid {
        assert(reg_header(v, hi, mid) =~= Seq::<char>::empty());
        assert(reg_bits(v, hi, mid) =~= Seq::<char>::empty());
    } else {
        lemma_reg_split(v, hi - 1, mid, lo);
        assert(reg_header(v, hi, lo) =~= num_seq((hi - 1) as nat, 10) + seq![' '] + (reg_header(
            v,
            hi - 1,
            mid,
        ) + reg_header(v, mid, lo)));
        if hi <= 64 {
            assert(reg_bits(v, hi, lo) =~= (reg_bits(v, hi, mid)) + reg_bits(v, mid, lo));
        }
    }
}

/// Append the column header for bits `hi - 1` down to `lo`.
fn push_header(out: &mut String, v: u64, hi: usize, lo: usize)
    requires
        lo <= hi <= 64,
    ensures
        final (out)@ == old(out)@ + reg_header(v, hi as int, lo as int),
{
    let mut i: usize = hi;
    while i > lo
        invariant
            lo <= i <= hi <= 64,
            out@ == old(out)@ + reg_header(v, hi as int, i as int),
        decreases i,
    {
        proof {
            lemma_reg_split(v, hi as int, i as int, i as int - 1);
            assert(reg_header(v, i as int - 1, i as int - 1) =~= Seq::<char>::empty());
            assert(reg_header(v, i as int, i as int - 1) =~= num_seq((i - 1) as nat, 10)
                + seq![' ']);
        }
        push_num(out, (i - 1) as u64, 10);
        push_char(out, ' ');
        proof {
            assert(out@ =~= old(out)@ + reg_header(v, hi as int, i as int - 1));
        }
        i -= 1;
    }
    proof {
        assert(out@ =~= old(out)@ + reg_header(v, hi as int, lo as int));
    }
}

/// Append the bit values for bits `hi - 1` down to `lo`.
fn push_bits(out: &mut String, v: u64, hi: usize, lo: usize)
    requires
        lo <= hi <= 64,
    ensures
        final (out)@ == old(out)@ + reg_bits(v, hi as int, lo as int),
{
    let mut i: usize = hi;
    while i > lo
        invariant
            lo <= i <= hi <= 64,
            out@ == old(out)@ + reg_bits(v, hi as int, i as int),
        decreases i,
    {
        proof {
            lemma_reg_split(v, hi as int, i as int, i as int - 1);
        }
        let bit = (v >> ((i - 1) as u64)) & 1;
        push_char(
            out,
            if bit == 1 {
                '1'
            } else {
                '0'
            },
        );
        push_char(out, ' ');
        if i - 1 >= 10 {
            push_char(out, ' ');
            proof {
                let ghost c: char = if (v >> ((i - 1) as u64)) & 1 == 1 {
                    '1'
                } else {
                    '0'
                };
                assert(reg_bits(v, i as int - 1, i as int - 1) =~= Seq::<char>::empty());
                assert(reg_bits(v, i as int, i as int - 1) =~= seq![c, ' ', ' ']);
                assert(out@ =~= old(out)@ + reg_bits(v, hi as int, i as int - 1));
            }
        } else {
            proof {
                let ghost c: char = if (v >> ((i - 1) as u64)) & 1 == 1 {
                    '1'
                } else {
                    '0'
                };
                assert(reg_bits(v, i as int - 1, i as int - 1) =~= Seq::<char>::empty());
                assert(reg_bits(v, i as int, i as int - 1) =~= seq![c, ' ']);
                assert(out@ =~= old(out)@ + reg_bits(v, hi as int, i as int - 1));
            }
        }
        i -= 1;
    }
    proof {
        assert(out@ =~= old(out)@ + reg_bits(v, hi as int, lo as int));
    }
}

/// Append one header/value line pair for bits `hi - 1` down to `lo`.
fn push_pair(out: &mut String, v: u64, hi: usize, lo: usize)
    requires
        lo <= hi <= 64,
    ensures
        final (out)@ == old(out)@ + reg_pair(v, hi as int, lo as int),
{
    push_header(out, v, hi, lo);
    push_char(out, '\n');
    push_bits(out, v, hi, lo);
    push_char(out, '\n');
    proof {
        assert(out@ =~= old(out)@ + reg_pair(v, hi as int, lo as int));
    }
}

/// Render `value` as if it were held in a `width`-bit register: bit
/// indices above bit values, and a 64-bit register split at bit 32 for
/// terminal-width readability.
pub fn regprint(value: u64, width: usize) -> (r: String)
    requires
        width <= 64,
    ensures
        r@ == spec_regprint(value, width),
{
    let mut out = String::new();
    if width == 64 {
        push_pair(&mut out, value, 64, 32);
        push_pair(&mut out, value, 32, 0);
        proof {
            assert(Seq::<char>::empty() + reg_pair(value, 64, 32) + reg_pair(value, 32, 0)
                =~= spec_regprint(value, width));
        }
    } else {
        push_pair(&mut out, value, width, 0);
        proof {
            assert(Seq::<char>::empty() + reg_pair(value, width as int, 0) =~= spec_regprint(
                value,
                width,
            ));
        }
    }
    out
}

} // verus!
