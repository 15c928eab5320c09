//! Characters, splitting, and numeral parsing/rendering shared by both
//! expression dialects.

use vstd::prelude::*;

verus! {

// ---------------------------------------------------------------------------
// Character classes and digit values
// ---------------------------------------------------------------------------

/// Decimal digit `'0'..='9'`.
pub open spec fn is_dec_digit(c: char) -> bool {
    ('0' as u32) <= (c as u32) && (c as u32) <= ('9' as u32)
}

/// Hexadecimal digit, either case.
pub open spec fn is_hex_digit(c: char) -> bool {
    is_dec_digit(c) || (('a' as u32) <= (c as u32) && (c as u32) <= ('f' as u32)) || (('A' as u32)
        <= (c as u32) && (c as u32) <= ('F' as u32))
}

/// Whether `c` is a digit of the given radix (10 or 16).
pub open spec fn digit_ok(c: char, radix: nat) -> bool {
    if radix == 16 {
        is_hex_digit(c)
    } else {
        is_dec_digit(c)
    }
}

/// Numeric value of a digit character; 0 for non-digits.
pub open spec fn digit_val(c: char) -> nat {
    if is_dec_digit(c) {
        ((c as u32) - ('0' as u32)) as nat
    } else if ('a' as u32) <= (c as u32) && (c as u32) <= ('f' as u32) {
        ((c as u32) - ('a' as u32) + 10) as nat
    } else if ('A' as u32) <= (c as u32) && (c as u32) <= ('F' as u32) {
        ((c as u32) - ('A' as u32) + 10) as nat
    } else {
        0
    }
}

/// All characters of `s` are digits of `radix`.
pub open spec fn all_digits(s: Seq<char>, radix: nat) -> bool {
    forall|i: int| 0 <= i < s.len() ==> digit_ok(#[trigger] s[i], radix)
}

/// The numeric value of a digit string, most significant digit first.
pub open spec fn radix_val(s: Seq<char>, radix: nat) -> nat
    decreases s.len(),
{
    if s.len() == 0 {
        0
    } else {
        radix_val(s.drop_last(), radix) * radix + digit_val(s.last())
    }
}

/// Value of a digit of `radix`, or `None` if `c` is no such digit.
pub fn digit_value(c: char, radix: u64) -> (r: Option<u8>)
    requires
        radix == 10 || radix == 16,
    ensures
        match r {
            Some(d) => digit_ok(c, radix as nat) && d == digit_val(c) && d < radix,
            None => !digit_ok(c, radix as nat),
        },
{
    let u = c as u32;
    if 0x30 <= u && u <= 0x39 {
        Some((u - 0x30) as u8)
    } else if radix == 16 && 0x61 <= u && u <= 0x66 {
        Some((u - 0x61 + 10) as u8)
    } else if radix == 16 && 0x41 <= u && u <= 0x46 {
        Some((u - 0x41 + 10) as u8)
    } else {
        None
    }
}

// ---------------------------------------------------------------------------
// From &str to a character vector
// ---------------------------------------------------------------------------

/// The characters of `s`, in order.
pub fn chars_of(s: &str) -> (r: Vec<char>)
    ensures
        r@ == s@,
{
    let n = s.unicode_len();
    let mut r: Vec<char> = Vec::new();
    let mut i: usize = 0;
    while i < n
        invariant
            n == s@.len(),
            i <= n,
            r@ == s@.take(i as int),
        decreases n - i,
    {
        r.push(s.get_char(i));
        i += 1;
        proof {
            assert(r@ =~= s@.take(i as int));
        }
    }
    proof {
        assert(r@ =~= s@);
    }
    r
}

// ---------------------------------------------------------------------------
// Splitting on a separator character
// ---------------------------------------------------------------------------

/// The pieces of `s` between occurrences of `sep`; always at least one
/// piece, and empty pieces appear between adjacent separators.
pub open spec fn split_on(s: Seq<char>, sep: char) -> Seq<Seq<char>>
    decreases s.len(),
{
    if s.len() == 0 {
        seq![Seq::<char>::empty()]
    } else if s[0] == sep {
        seq![Seq::<char>::empty()] + split_on(s.skip(1), sep)
    } else {
        let rest = split_on(s.skip(1), sep);
        seq![seq![s[0]] + rest[0]] + rest.skip(1)
    }
}

pub proof fn lemma_split_on_nonempty(s: Seq<char>, sep: char)
    ensures
        split_on(s, sep).len() >= 1,
    decreases s.len(),
{
    if s.len() != 0 && s[0] != sep {
        lemma_split_on_nonempty(s.skip(1), sep);
    }
}

/// The views of a vector of character vectors.
pub open spec fn views_of(v: Seq<Vec<char>>) -> Seq<Seq<char>> {
    Seq::new(v.len(), |i: int| v[i]@)
}

/// `parts` with `lead` prepended to its first piece.
spec fn with_lead(lead: Seq<char>, parts: Seq<Seq<char>>) -> Seq<Seq<char>> {
    seq![lead + parts[0]] + parts.skip(1)
}

proof fn lemma_with_lead_empty(parts: Seq<Seq<char>>)
    requires
        parts.len() >= 1,
    ensures
        with_lead(Seq::<char>::empty(), parts) == parts,
{
    assert(Seq::<char>::empty() + parts[0] =~= parts[0]);
    assert(with_lead(Seq::<char>::empty(), parts) =~= parts);
}

/// Split `s` at each occurrence of `sep`.
pub fn split_chars(s: &Vec<char>, sep: char) -> (r: Vec<Vec<char>>)
    ensures
        views_of(r@) == split_on(s@, sep),
        r.len() >= 1,
{
    let ghost whole = split_on(s@, sep);
    let mut out: Vec<Vec<char>> = Vec::new();
    let mut cur: Vec<char> = Vec::new();
    let mut i: usize = 0;
    proof {
        lemma_split_on_nonempty(s@, sep);
        lemma_with_lead_empty(whole);
        assert(s@.skip(0) =~= s@);
    }
    while i < s.len()
        invariant
            i <= s@.len(),
            split_on(s@.skip(i as int), sep).len() >= 1,
            whole == split_on(s@, sep),
            whole =~= views_of(out@) + with_lead(cur@, split_on(s@.skip(i as int), sep)),
        decreases s@.len() - i,
    {
        let ghost rest = s@.skip(i as int);
        let ghost rest1 = s@.skip(i as int + 1);
        proof {
            assert(rest.len() > 0);
            assert(rest[0] == s@[i as int]);
            assert(rest.skip(1) =~= rest1);
            lemma_split_on_nonempty(rest1, sep);
        }
        let c = s[i];
        if c == sep {
            proof {
                assert(split_on(rest, sep) =~= seq![Seq::<char>::empty()] + split_on(rest1, sep));
                assert(cur@ + Seq::<char>::empty() =~= cur@);
                assert(with_lead(cur@, split_on(rest, sep)) =~= seq![cur@] + split_on(rest1, sep));
                lemma_with_lead_empty(split_on(rest1, sep));
            }
            let ghost prev = out@;
            out.push(cur);
            cur = Vec::new();
            proof {
                assert(views_of(out@) =~= views_of(prev).push(out@.last()@));
                assert(whole =~= views_of(out@) + with_lead(cur@, split_on(rest1, sep)));
            }
        } else {
            proof {
                let r1 = split_on(rest1, sep);
                assert(split_on(rest, sep) =~= seq![seq![rest[0]] + r1[0]] + r1.skip(1));
                assert(cur@ + (seq![rest[0]] + r1[0]) =~= (cur@ + seq![rest[0]]) + r1[0]);
                assert(cur@ + seq![rest[0]] =~= cur@.push(s@[i as int]));
                assert(with_lead(cur@, split_on(rest, sep)) =~= with_lead(
                    cur@.push(s@[i as int]),
                    r1,
                ));
            }
            cur.push(c);
        }
        i += 1;
    }
    proof {
        assert(s@.skip(s@.len() as int) =~= Seq::<char>::empty());
        assert(split_on(Seq::<char>::empty(), sep) =~= seq![Seq::<char>::empty()]);
        assert(with_lead(cur@, seq![Seq::<char>::empty()]) =~= seq![cur@]);
    }
    let ghost prev = out@;
    out.push(cur);
    proof {
        assert(views_of(out@) =~= views_of(prev) + seq![cur@]);
        assert(views_of(out@) =~= whole);
    }
    out
}

// ---------------------------------------------------------------------------
// Trailing whitespace
// ---------------------------------------------------------------------------

/// ASCII whitespace as it appears at the end of an input line.
pub open spec fn is_space(c: char) -> bool {
    c == ' ' || c == '\t' || c == '\n' || c == '\r'
}

/// `s` with trailing whitespace removed.
pub open spec fn trim_end_spec(s: Seq<char>) -> Seq<char>
    decreases s.len(),
{
    if s.len() == 0 {
        s
    } else if is_space(s.last()) {
        trim_end_spec(s.drop_last())
    } else {
        s
    }
}

/// Copy of `s` with trailing whitespace removed.
pub fn trim_end_chars(s: &Vec<char>) -> (r: Vec<char>)
    ensures
        r@ == trim_end_spec(s@),
{
    let mut n: usize = s.len();
    proof {
        assert(s@.take(s@.len() as int) =~= s@);
    }
    loop
        invariant
            n <= s@.len(),
            trim_end_spec(s@) == trim_end_spec(s@.take(n as int)),
        ensures
            n <= s@.len(),
            trim_end_spec(s@) == s@.take(n as int),
        decreases n,
    {
        if n == 0 {
            break ;
        }
        proof {
            assert(s@.take(n as int).last() == s@[n - 1]);
        }
        let c = s[n - 1];
        if !(c == ' ' || c == '\t' || c == '\n' || c == '\r') {
            break ;
        }
        proof {
            assert(s@.take(n as int).drop_last() =~= s@.take(n as int - 1));
        }
        n -= 1;
    }
    let mut r: Vec<char> = Vec::new();
    let mut i: usize = 0;
    while i < n
        invariant
            i <= n <= s@.len(),
            r@ == s@.take(i as int),
        decreases n - i,
    {
        r.push(s[i]);
        i += 1;
        proof {
            assert(r@ =~= s@.take(i as int));
        }
    }
    proof {
        assert(s@.take(n as int) =~= r@);
    }
    r
}

// ---------------------------------------------------------------------------
// Parsing digit strings
// ---------------------------------------------------------------------------

/// A digit string's value never shrinks when more digits follow.
pub proof fn lemma_radix_val_prefix_le(s: Seq<char>, radix: nat, j: int)
    requires
        radix >= 1,
        0 <= j <= s.len(),
    ensures
        radix_val(s.take(j), radix) <= radix_val(s, radix),
    decreases s.len() - j,
{
    if j == s.len() {
        assert(s.take(j) =~= s);
    } else {
        let p = s.take(j);
        let q = s.take(j + 1);
        assert(q.drop_last() =~= p);
        assert(radix_val(q, radix) == radix_val(p, radix) * radix + digit_val(q.last()));
        assert(radix_val(p, radix) * radix >= radix_val(p, radix)) by (nonlinear_arith)
            requires
                radix >= 1,
        ;
        lemma_radix_val_prefix_le(s, radix, j + 1);
    }
}

/// Whether `s` is a non-empty string of digits of `radix`.
pub fn check_all_digits(s: &Vec<char>, radix: u64) -> (r: bool)
    requires
        radix == 10 || radix == 16,
    ensures
        r == (s@.len() > 0 && all_digits(s@, radix as nat)),
{
    if s.len() == 0 {
        return false;
    }
    let mut i: usize = 0;
    while i < s.len()
        invariant
            i <= s@.len(),
            forall|j: int| 0 <= j < i ==> digit_ok(#[trigger] s@[j], radix as nat),
            radix == 10 || radix == 16,
        decreases s@.len() - i,
    {
        if digit_value(s[i], radix).is_none() {
            return false;
        }
        i += 1;
    }
    true
}

/// Whether every character of `s` from `start` on is a digit of `radix`;
/// vacuously true at the end.
pub fn check_digits_from(s: &Vec<char>, start: usize, radix: u64) -> (r: bool)
    requires
        radix == 10 || radix == 16,
        start <= s@.len(),
    ensures
        r == all_digits(s@.skip(start as int), radix as nat),
{
    let mut i: usize = start;
    while i < s.len()
        invariant
            start <= i <= s@.len(),
            radix == 10 || radix == 16,
            forall|j: int| start <= j < i ==> digit_ok(#[trigger] s@[j], radix as nat),
        decreases s@.len() - i,
    {
        if digit_value(s[i], radix).is_none() {
            proof {
                assert(s@.skip(start as int)[i - start] == s@[i as int]);
            }
            return false;
        }
        i += 1;
    }
    proof {
        assert(forall|j: int|
            0 <= j < s@.skip(start as int).len() ==> #[trigger] s@.skip(start as int)[j] == s@[j
                + start]);
    }
    true
}

/// Parse `s` as a digit string of `radix`; `None` if `s` is empty, holds a
/// non-digit, or its value is above `max`.
pub fn parse_radix_capped(s: &Vec<char>, radix: u64, max: u64) -> (r: Option<u64>)
    requires
        radix == 10 || radix == 16,
    ensures
        match r {
            Some(x) => s@.len() > 0 && all_digits(s@, radix as nat) && x == radix_val(
                s@,
                radix as nat,
            ) && x <= max,
            None => !(s@.len() > 0 && all_digits(s@, radix as nat) && radix_val(s@, radix as nat)
                <= max),
        },
{
    if s.len() == 0 {
        return None;
    }
    let mut acc: u64 = 0;
    let mut i: usize = 0;
    while i < s.len()
        invariant
            i <= s@.len(),
            radix == 10 || radix == 16,
            max <= u64::MAX,
            forall|j: int| 0 <= j < i ==> digit_ok(#[trigger] s@[j], radix as nat),
            acc == radix_val(s@.take(i as int), radix as nat),
            acc <= max,
        decreases s@.len() - i,
    {
        let ghost prefix = s@.take(i as int);
        let ghost prefix1 = s@.take(i as int + 1);
        proof {
            assert(prefix1.drop_last() =~= prefix);
            assert(prefix1.last() == s@[i as int]);
        }
        let d = match digit_value(s[i], radix) {
            Some(d) => d,
            None => {
                return None;
            },
        };
        assert((acc as u128) * (radix as u128) + (d as u128) <= 0xffff_ffff_ffff_ffff_u128 * 16
            + 255) by (nonlinear_arith)
            requires
                acc <= 0xffff_ffff_ffff_ffff_u128,
                radix <= 16,
                d <= 255,
        ;
        let wide: u128 = (acc as u128) * (radix as u128) + (d as u128);
        proof {
            assert(wide == radix_val(prefix1, radix as nat));
        }
        if wide > max as u128 {
            proof {
                if all_digits(s@, radix as nat) {
                    lemma_radix_val_prefix_le(s@, radix as nat, i as int + 1);
                }
            }
            return None;
        }
        acc = wide as u64;
        i += 1;
    }
    proof {
        assert(s@.take(s@.len() as int) =~= s@);
    }
    Some(acc)
}

// ---------------------------------------------------------------------------
// Rendering numbers as digit strings
// ---------------------------------------------------------------------------

/// The character for a digit below 16, lower case.
pub open spec fn digit_char(d: nat) -> char {
    if d == 0 {
        '0'
    } else if d == 1 {
        '1'
    } else if d == 2 {
        '2'
    } else if d == 3 {
        '3'
    } else if d == 4 {
        '4'
    } else if d == 5 {
        '5'
    } else if d == 6 {
        '6'
    } else if d == 7 {
        '7'
    } else if d == 8 {
        '8'
    } else if d == 9 {
        '9'
    } else if d == 10 {
        'a'
    } else if d == 11 {
        'b'
    } else if d == 12 {
        'c'
    } else if d == 13 {
        'd'
    } else if d == 14 {
        'e'
    } else {
        'f'
    }
}

/// The digits of `n` in `radix`, most significant first, no leading zeros
/// (a single `'0'` for zero).
pub open spec fn num_seq(n: nat, radix: nat) -> Seq<char>
    decreases n,
    via num_seq_decreases
{
    if radix < 2 {
        Seq::empty()
    } else if n < radix {
        seq![digit_char(n)]
    } else {
        num_seq(n / radix, radix).push(digit_char(n % radix))
    }
}

#[via_fn]
proof fn num_seq_decreases(n: nat, radix: nat) {
    if radix >= 2 && n >= radix {
        assert(n / radix < n) by (nonlinear_arith)
            requires
                n >= radix >= 2,
        ;
    }
}

/// The digits of `n` in `radix`, zero-padded to exactly `digits` places
/// (higher digits are cut off).
pub open spec fn num_seq_pad(n: nat, radix: nat, digits: nat) -> Seq<char>
    decreases digits,
{
    if digits == 0 || radix < 2 {
        Seq::<char>::empty()
    } else {
        num_seq_pad(n / radix, radix, (digits - 1) as nat).push(digit_char(n % radix))
    }
}

/// The character for digit `d`.
pub fn digit_char_of(d: u64) -> (c: char)
    requires
        d < 16,
    ensures
        c == digit_char(d as nat),
{
    match d {
        0 => '0',
        1 => '1',
        2 => '2',
        3 => '3',
        4 => '4',
        5 => '5',
        6 => '6',
        7 => '7',
        8 => '8',
        9 => '9',
        10 => 'a',
        11 => 'b',
        12 => 'c',
        13 => 'd',
        14 => 'e',
        _ => 'f',
    }
}

/// Relies on `String::push`: appends the given character to the end of
/// the string.
#[verifier::external_body]
pub(crate) fn push_char(s: &mut String, c: char)
    ensures
        final (s)@ == old(s)@.push(c),
{
    s.push(c);
}

/// Append the digits of `n` in `radix`, without leading zeros.
pub fn push_num(out: &mut String, n: u64, radix: u64)
    requires
        radix == 2 || radix == 10 || radix == 16,
    ensures
        final (out)@ == old(out)@ + num_seq(n as nat, radix as nat),
    decreases n,
{
    if n >= radix {
        push_num(out, n / radix, radix);
    }
    push_char(out, digit_char_of(n % radix));
    proof {
        if n < radix {
            assert(old(out)@.push(digit_char(n as nat % radix as nat)) =~= old(out)@ + seq![
                digit_char(n as nat),
            ]);
        } else {
            assert((old(out)@ + num_seq(n as nat / radix as nat, radix as nat)).push(
                digit_char(n as nat % radix as nat),
            ) =~= old(out)@ + num_seq(n as nat / radix as nat, radix as nat).push(
                digit_char(n as nat % radix as nat),
            ));
        }
    }
}

/// Append the digits of `n` in `radix`, zero-padded to `digits` places.
pub fn push_num_pad(out: &mut String, n: u64, radix: u64, digits: u64)
    requires
        radix == 2 || radix == 16,
    ensures
        final (out)@ == old(out)@ + num_seq_pad(n as nat, radix as nat, digits as nat),
    decreases digits,
{
    if digits == 0 {
        proof {
            assert(old(out)@ + Seq::<char>::empty() =~= old(out)@);
        }
        return ;
    }
    push_num_pad(out, n / radix, radix, digits - 1);
    push_char(out, digit_char_of(n % radix));
    proof {
        assert((old(out)@ + num_seq_pad(
            n as nat / radix as nat,
            radix as nat,
            (digits - 1) as nat,
        )).push(digit_char(n as nat % radix as nat)) =~= old(out)@ + num_seq_pad(
            n as nat,
            radix as nat,
            digits as nat,
        ));
    }
}

// ---------------------------------------------------------------------------
// Rendering and parsing are inverse
// ---------------------------------------------------------------------------

/// The character of a digit is a digit character of its value.
pub proof fn lemma_digit_char_val(d: nat)
    requires
        d < 16,
    ensures
        digit_val(digit_char(d)) == d,
        digit_ok(digit_char(d), 16),
        d < 10 ==> is_dec_digit(digit_char(d)),
        d < 2 ==> (digit_char(d) == '0' || digit_char(d) == '1'),
{
}

/// Rendered digit strings hold digits only, and are never empty.
pub proof fn lemma_num_seq_digits(n: nat, radix: nat)
    requires
        radix == 2 || radix == 10 || radix == 16,
    ensures
        num_seq(n, radix).len() > 0,
        all_digits(num_seq(n, radix), 16),
        radix <= 10 ==> all_digits(num_seq(n, radix), 10),
    decreases n,
{
    if n < radix {
        lemma_digit_char_val(n);
    } else {
        assert(n / radix < n) by (nonlinear_arith)
            requires
                n >= radix >= 2,
        ;
        lemma_num_seq_digits(n / radix, radix);
        lemma_digit_char_val(n % radix);
    }
}

/// Parsing a rendered digit string gives the number back.
pub proof fn lemma_num_seq_val(n: nat, radix: nat)
    requires
        radix == 2 || radix == 10 || radix == 16,
    ensures
        radix_val(num_seq(n, radix), radix) == n,
    decreases n,
{
    if n < radix {
        lemma_digit_char_val(n);
        let s = num_seq(n, radix);
        assert(s == seq![digit_char(n)]);
        assert(s.drop_last() =~= Seq::<char>::empty());
        assert(radix_val(s, radix) == radix_val(s.drop_last(), radix) * radix + digit_val(s.last()));
        assert(radix_val(s.drop_last(), radix) == 0);
        assert(s.last() == digit_char(n));
    } else {
        assert(n / radix < n) by (nonlinear_arith)
            requires
                n >= radix >= 2,
        ;
        lemma_num_seq_val(n / radix, radix);
        lemma_digit_char_val(n % radix);
        let s = num_seq(n, radix);
        assert(s.drop_last() =~= num_seq(n / radix, radix));
        assert(radix_val(s, radix) == (n / radix) * radix + n % radix);
        vstd::arithmetic::div_mod::lemma_fundamental_div_mod(n as int, radix as int);
    }
}

/// A string without the separator splits into itself alone.
pub proof fn lemma_split_no_sep(s: Seq<char>, sep: char)
    requires
        forall|i: int| 0 <= i < s.len() ==> #[trigger] s[i] != sep,
    ensures
        split_on(s, sep) == seq![s],
    decreases s.len(),
{
    if s.len() == 0 {
        assert(split_on(s, sep) =~~= seq![s]);
    } else {
        lemma_split_no_sep(s.skip(1), sep);
        let rest = split_on(s.skip(1), sep);
        assert(rest == seq![s.skip(1)]);
        assert(s[0] != sep);
        assert(split_on(s, sep) == seq![seq![s[0]] + rest[0]] + rest.skip(1));
        assert(seq![s[0]] + rest[0] =~= s);
        assert(rest.skip(1) =~= Seq::<Seq<char>>::empty());
        assert(split_on(s, sep) =~~= seq![s]);
    }
}

/// Splitting at the single separator between two separator-free strings
/// yields exactly those two strings.
pub proof fn lemma_split_single_sep(a: Seq<char>, b: Seq<char>, sep: char)
    requires
        forall|i: int| 0 <= i < a.len() ==> #[trigger] a[i] != sep,
        forall|i: int| 0 <= i < b.len() ==> #[trigger] b[i] != sep,
    ensures
        split_on(a + seq![sep] + b, sep) == seq![a, b],
    decreases a.len(),
{
    let s = a + seq![sep] + b;
    if a.len() == 0 {
        assert(s =~= seq![sep] + b);
        assert(s[0] == sep);
        assert(s.skip(1) =~= b);
        lemma_split_no_sep(b, sep);
        assert(split_on(s, sep) == seq![Seq::<char>::empty()] + split_on(s.skip(1), sep));
        assert(a =~= Seq::<char>::empty());
        assert(split_on(s, sep) =~~= seq![a, b]);
    } else {
        assert(s[0] == a[0]);
        assert(s.skip(1) =~= a.skip(1) + seq![sep] + b);
        lemma_split_single_sep(a.skip(1), b, sep);
        let r = split_on(s.skip(1), sep);
        assert(r == seq![a.skip(1), b]);
        assert(s[0] != sep);
        assert(split_on(s, sep) == seq![seq![s[0]] + r[0]] + r.skip(1));
        assert(seq![s[0]] + r[0] =~= a);
        assert(r.skip(1) =~= seq![b]);
        assert(split_on(s, sep) =~~= seq![a, b]);
    }
}

} // verus!
