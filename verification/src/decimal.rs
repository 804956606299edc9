//! Decimal text for integers: formatting that is exact by construction,
//! and parsing that accepts an optional sign followed by digits and
//! refuses everything else (including values out of range).

use vstd::prelude::*;
use crate::text::push_char;

verus! {

/// The ten decimal digit characters.
pub open spec fn is_digit(c: char) -> bool {
    48 <= c as u32 <= 57
}

/// Numeric value of a digit character.
pub open spec fn digit_val(c: char) -> nat {
    (c as u32 - 48) as nat
}

/// The digit character for a value below ten.
pub open spec fn dec_digit(d: int) -> char {
    if d == 0 {
        '0'
    } else if d == 1 {
        '1'
    } else if d == 2 {
        '2'
    } else if d == 3 {
        '3'
    } else if d == 4 {
        '4'
    } else if d == 5 {
        '5'
    } else if d == 6 {
        '6'
    } else if d == 7 {
        '7'
    } else if d == 8 {
        '8'
    } else {
        '9'
    }
}

pub fn char_is_digit(c: char) -> (r: bool)
    ensures
        r == is_digit(c),
{
    let u = c as u32;
    48 <= u && u <= 57
}

pub fn char_digit_val(c: char) -> (r: u8)
    requires
        is_digit(c),
    ensures
        r as nat == digit_val(c),
{
    (c as u32 - 48) as u8
}

fn digit_to_char(d: u8) -> (c: char)
    requires
        d < 10,
    ensures
        c == dec_digit(d as int),
{
    match d {
        0 => '0',
        1 => '1',
        2 => '2',
        3 => '3',
        4 => '4',
        5 => '5',
        6 => '6',
        7 => '7',
        8 => '8',
        _ => '9',
    }
}

/// Decimal digits of `n`, most significant first, no sign, no leading
/// zero except for zero itself.
pub open spec fn nat_to_dec(n: nat) -> Seq<char>
    decreases n,
{
    if n < 10 {
        seq![dec_digit(n as int)]
    } else {
        nat_to_dec(n / 10).push(dec_digit((n % 10) as int))
    }
}

/// Decimal text of an integer, with a leading minus sign when negative.
pub open spec fn int_to_dec(n: int) -> Seq<char> {
    if n < 0 {
        seq!['-'] + nat_to_dec((-n) as nat)
    } else {
        nat_to_dec(n as nat)
    }
}

/// Value of a digit sequence read in base ten.
pub open spec fn dec_value(ds: Seq<char>) -> nat
    decreases ds.len(),
{
    if ds.len() == 0 {
        0
    } else {
        dec_value(ds.drop_last()) * 10 + digit_val(ds.last())
    }
}

pub open spec fn all_digits(ds: Seq<char>) -> bool {
    forall|i: int| 0 <= i < ds.len() ==> is_digit(#[trigger] ds[i])
}

/// The signed value a piece of text denotes: an optional minus sign,
/// then one or more digits; anything else denotes nothing.
pub open spec fn spec_parse_signed(cs: Seq<char>) -> Option<int> {
    if cs.len() >= 1 && cs[0] == '-' {
        let ds = cs.skip(1);
        if ds.len() >= 1 && all_digits(ds) {
            Some(-(dec_value(ds) as int))
        } else {
            None
        }
    } else {
        if cs.len() >= 1 && all_digits(cs) {
            Some(dec_value(cs) as int)
        } else {
            None
        }
    }
}

/// As `spec_parse_signed`, refusing values outside `i64`.
pub open spec fn spec_parse_i64(cs: Seq<char>) -> Option<i64> {
    match spec_parse_signed(cs) {
        Some(v) => if i64::MIN <= v <= i64::MAX {
            Some(v as i64)
        } else {
            None
        },
        None => None,
    }
}

/// As `spec_parse_signed`, refusing values outside `i16`.
pub open spec fn spec_parse_i16(cs: Seq<char>) -> Option<i16> {
    match spec_parse_signed(cs) {
        Some(v) => if i16::MIN <= v <= i16::MAX {
            Some(v as i16)
        } else {
            None
        },
        None => None,
    }
}

pub proof fn lemma_nat_to_dec_digits(n: nat)
    ensures
        nat_to_dec(n).len() >= 1,
        all_digits(nat_to_dec(n)),
        dec_value(nat_to_dec(n)) == n,
    decreases n,
{
    if n < 10 {
        assert(nat_to_dec(n) =~= seq![dec_digit(n as int)]);
        assert(nat_to_dec(n).drop_last() =~= Seq::<char>::empty());
        assert(digit_val(dec_digit(n as int)) == n);
        assert(dec_value(Seq::<char>::empty()) == 0);
        assert(dec_value(nat_to_dec(n)) == 0 * 10 + digit_val(dec_digit(n as int)));
    } else {
        lemma_nat_to_dec_digits(n / 10);
        let pre = nat_to_dec(n / 10);
        let whole = pre.push(dec_digit((n % 10) as int));
        assert(whole.drop_last() =~= pre);
        assert(digit_val(dec_digit((n % 10) as int)) == n % 10);
        assert(dec_value(whole) == dec_value(pre) * 10 + digit_val(dec_digit((n % 10) as int)));
        assert(dec_value(whole) == (n / 10) * 10 + n % 10);
        assert((n / 10) * 10 + n % 10 == n) by (nonlinear_arith);
        assert forall|i: int| 0 <= i < whole.len() implies is_digit(#[trigger] whole[i]) by {
            if i < pre.len() {
                assert(whole[i] == pre[i]);
                assert(is_digit(pre[i]));
            }
        }
    }
}

/// Appends the decimal digits of `n`.
fn push_nat_dec(out: &mut String, n: u64)
    ensures
        final(out)@ == old(out)@ + nat_to_dec(n as nat),
    decreases n,
{
    if n < 10 {
        push_char(out, digit_to_char(n as u8));
        proof {
            assert(old(out)@.push(dec_digit(n as int)) =~= old(out)@ + nat_to_dec(n as nat));
        }
    } else {
        push_nat_dec(out, n / 10);
        push_char(out, digit_to_char((n % 10) as u8));
        proof {
            assert((old(out)@ + nat_to_dec((n / 10) as nat)).push(
                dec_digit((n as nat % 10) as int),
            ) =~= old(out)@ + nat_to_dec(n as nat));
        }
    }
}

/// Appends the decimal digits of `n`.
fn push_nat_dec_u128(out: &mut String, n: u128)
    ensures
        final(out)@ == old(out)@ + nat_to_dec(n as nat),
    decreases n,
{
    if n < 10 {
        push_char(out, digit_to_char(n as u8));
        proof {
            assert(old(out)@.push(dec_digit(n as int)) =~= old(out)@ + nat_to_dec(n as nat));
        }
    } else {
        push_nat_dec_u128(out, n / 10);
        push_char(out, digit_to_char((n % 10) as u8));
        proof {
            assert((old(out)@ + nat_to_dec((n / 10) as nat)).push(
                dec_digit((n as nat % 10) as int),
            ) =~= old(out)@ + nat_to_dec(n as nat));
        }
    }
}

/// The last `width` decimal digits of `n`, zero-padded on the left.
pub open spec fn pad_digits(n: nat, width: nat) -> Seq<char>
    decreases width,
{
    if width == 0 {
        Seq::empty()
    } else {
        pad_digits(n / 10, (width - 1) as nat).push(dec_digit((n % 10) as int))
    }
}

/// Appends the last `width` decimal digits of `n`, zero-padded.
pub fn push_pad_digits(out: &mut String, n: u64, width: usize)
    ensures
        final(out)@ == old(out)@ + pad_digits(n as nat, width as nat),
    decreases width,
{
    if width == 0 {
        proof {
            assert(old(out)@ + pad_digits(n as nat, 0) =~= old(out)@);
        }
    } else {
        push_pad_digits(out, n / 10, width - 1);
        push_char(out, digit_to_char((n % 10) as u8));
        proof {
            assert((old(out)@ + pad_digits((n / 10) as nat, (width - 1) as nat)).push(
                dec_digit((n as nat % 10) as int),
            ) =~= old(out)@ + pad_digits(n as nat, width as nat));
        }
    }
}

/// Decimal text of an unsigned value.
pub fn u64_to_string(n: u64) -> (r: String)
    ensures
        r@ == nat_to_dec(n as nat),
{
    let mut out = String::new();
    push_nat_dec(&mut out, n);
    proof {
        assert(Seq::<char>::empty() + nat_to_dec(n as nat) =~= nat_to_dec(n as nat));
    }
    out
}

/// Decimal text of an unsigned value.
pub fn u128_to_string(n: u128) -> (r: String)
    ensures
        r@ == nat_to_dec(n as nat),
{
    let mut out = String::new();
    push_nat_dec_u128(&mut out, n);
    proof {
        assert(Seq::<char>::empty() + nat_to_dec(n as nat) =~= nat_to_dec(n as nat));
    }
    out
}

/// Decimal text of a signed value, minus sign included.
pub fn i64_to_string(n: i64) -> (r: String)
    ensures
        r@ == int_to_dec(n as int),
{
    let mut out = String::new();
    let mag: u64 = if n < 0 {
        (-(n as i128)) as u64
    } else {
        n as u64
    };
    if n < 0 {
        push_char(&mut out, '-');
    }
    push_nat_dec(&mut out, mag);
    proof {
        if n < 0 {
            assert((Seq::<char>::empty().push('-')) + nat_to_dec(mag as nat) =~= int_to_dec(
                n as int,
            ));
        } else {
            assert(Seq::<char>::empty() + nat_to_dec(mag as nat) =~= int_to_dec(n as int));
        }
    }
    out
}

/// Appends the decimal text of a signed value.
pub fn push_i64_dec(out: &mut String, n: i64)
    ensures
        final(out)@ == old(out)@ + int_to_dec(n as int),
{
    let mag: u64 = if n < 0 {
        (-(n as i128)) as u64
    } else {
        n as u64
    };
    if n < 0 {
        push_char(out, '-');
    }
    push_nat_dec(out, mag);
    proof {
        if n < 0 {
            assert(old(out)@.push('-') + nat_to_dec(mag as nat) =~= old(out)@ + int_to_dec(
                n as int,
            ));
        } else {
            assert(old(out)@ + nat_to_dec(mag as nat) =~= old(out)@ + int_to_dec(n as int));
        }
    }
}

/// Ten to the power `n`.
pub open spec fn pow10(n: nat) -> nat
    decreases n,
{
    if n == 0 {
        1
    } else {
        10 * pow10((n - 1) as nat)
    }
}

/// The first few powers of ten, written out.
pub proof fn lemma_pow10_table()
    ensures
        pow10(0) == 1,
        pow10(1) == 10,
        pow10(2) == 100,
        pow10(3) == 1_000,
        pow10(4) == 10_000,
        pow10(5) == 100_000,
        pow10(6) == 1_000_000,
        pow10(7) == 10_000_000,
        pow10(8) == 100_000_000,
{
    assert(pow10(1) == 10 * pow10(0));
    assert(pow10(2) == 10 * pow10(1));
    assert(pow10(3) == 10 * pow10(2));
    assert(pow10(4) == 10 * pow10(3));
    assert(pow10(5) == 10 * pow10(4));
    assert(pow10(6) == 10 * pow10(5));
    assert(pow10(7) == 10 * pow10(6));
    assert(pow10(8) == 10 * pow10(7));
}

pub fn pow10_u64(e: usize) -> (r: u64)
    requires
        e <= 8,
    ensures
        r as nat == pow10(e as nat),
{
    proof {
        lemma_pow10_table();
    }
    match e {
        0 => 1,
        1 => 10,
        2 => 100,
        3 => 1_000,
        4 => 10_000,
        5 => 100_000,
        6 => 1_000_000,
        7 => 10_000_000,
        _ => 100_000_000,
    }
}

/// A digit string's value is below ten to its length.
pub proof fn lemma_dec_value_bound(ds: Seq<char>)
    requires
        all_digits(ds),
    ensures
        dec_value(ds) < pow10(ds.len()),
    decreases ds.len(),
{
    if ds.len() > 0 {
        assert(all_digits(ds.drop_last())) by {
            assert(forall|i: int|
                0 <= i < ds.len() - 1 ==> ds.drop_last()[i] == #[trigger] ds[i]);
        }
        lemma_dec_value_bound(ds.drop_last());
        assert(is_digit(ds.last()));
        assert(digit_val(ds.last()) <= 9);
        assert(dec_value(ds.drop_last()) * 10 <= (pow10((ds.len() - 1) as nat) - 1) * 10)
            by (nonlinear_arith)
            requires
                dec_value(ds.drop_last()) <= pow10((ds.len() - 1) as nat) - 1,
        ;
    }
}

/// The value a pure digit string denotes, refusing values above `u64`.
pub open spec fn spec_parse_u64_digits(cs: Seq<char>) -> Option<u64> {
    if cs.len() >= 1 && all_digits(cs) && dec_value(cs) <= u64::MAX {
        Some(dec_value(cs) as u64)
    } else {
        None
    }
}

/// Parses a non-empty all-digit string into a `u64`.
pub fn parse_u64_digits(s: &str) -> (r: Option<u64>)
    ensures
        r == spec_parse_u64_digits(s@),
{
    let n = s.unicode_len();
    if n == 0 {
        return None;
    }
    let mut i: usize = 0;
    let mut acc: u128 = 0;
    let mut over: bool = false;
    while i < n
        invariant
            i <= n,
            n == s@.len(),
            all_digits(s@.subrange(0, i as int)),
            over == (dec_value(s@.subrange(0, i as int)) > u64::MAX),
            !over ==> acc == dec_value(s@.subrange(0, i as int)) && acc <= u64::MAX,
        decreases n - i,
    {
        let c = s.get_char(i);
        if !char_is_digit(c) {
            proof {
                assert(s@[i as int] == c);
                assert(!all_digits(s@));
            }
            return None;
        }
        let d = char_digit_val(c);
        proof {
            assert(s@.subrange(0, i + 1 as int) =~= s@.subrange(0, i as int).push(c));
            lemma_dec_value_push(s@.subrange(0, i as int), c);
        }
        if !over {
            acc = acc * 10 + d as u128;
            if acc > u64::MAX as u128 {
                over = true;
            }
        }
        i = i + 1;
    }
    proof {
        assert(s@.subrange(0, n as int) =~= s@);
    }
    if over {
        return None;
    }
    Some(acc as u64)
}

/// Growing a digit string never shrinks its value.
pub proof fn lemma_dec_value_push(ds: Seq<char>, c: char)
    ensures
        dec_value(ds.push(c)) == dec_value(ds) * 10 + digit_val(c),
        dec_value(ds.push(c)) >= dec_value(ds),
{
    assert(ds.push(c).drop_last() =~= ds);
    assert(dec_value(ds) * 10 >= dec_value(ds)) by (nonlinear_arith);
}

/// Parses signed decimal text into an `i64`; exactly the strings that
/// denote an in-range value are accepted.
pub fn parse_i64_str(s: &str) -> (r: Option<i64>)
    ensures
        r == spec_parse_i64(s@),
{
    let n = s.unicode_len();
    if n == 0 {
        return None;
    }
    let neg = s.get_char(0) == '-';
    let start: usize = if neg {
        1
    } else {
        0
    };
    if n == start {
        return None;
    }
    let ghost digits = s@.skip(start as int);
    proof {
        if !neg {
            assert(s@.skip(0) =~= s@);
        }
    }
    let mut i: usize = start;
    let mut acc: u128 = 0;
    let mut over: bool = false;
    while i < n
        invariant
            start <= i <= n,
            n == s@.len(),
            digits == s@.skip(start as int),
            start < n,
            neg == (s@[0] == '-'),
            start == if neg {
                1int
            } else {
                0int
            },
            !neg ==> digits == s@,
            all_digits(s@.subrange(start as int, i as int)),
            over == (dec_value(s@.subrange(start as int, i as int)) > 0x8000_0000_0000_0000),
            !over ==> acc == dec_value(s@.subrange(start as int, i as int)) && acc
                <= 0x8000_0000_0000_0000,
        decreases n - i,
    {
        let c = s.get_char(i);
        if !char_is_digit(c) {
            proof {
                assert(digits[i - start] == c);
                assert(!all_digits(digits));
            }
            return None;
        }
        let d = char_digit_val(c);
        proof {
            assert(s@.subrange(start as int, i + 1 as int) =~= s@.subrange(
                start as int,
                i as int,
            ).push(c));
            lemma_dec_value_push(s@.subrange(start as int, i as int), c);
        }
        if !over {
            acc = acc * 10 + d as u128;
            if acc > 0x8000_0000_0000_0000 {
                over = true;
            }
        }
        i = i + 1;
    }
    proof {
        assert(s@.subrange(start as int, n as int) =~= digits);
        assert(all_digits(digits));
        assert(digits.len() >= 1);
    }
    if over {
        proof {
            assert(dec_value(digits) > 0x8000_0000_0000_0000);
            assert(i64::MIN == -0x8000_0000_0000_0000 && i64::MAX == 0x7fff_ffff_ffff_ffff);
            if neg {
                assert(spec_parse_signed(s@) == Some(-(dec_value(digits) as int)));
            } else {
                assert(spec_parse_signed(s@) == Some(dec_value(digits) as int));
            }
            assert(spec_parse_i64(s@) is None);
        }
        return None;
    }
    if neg {
        proof {
            assert(s@[0] == '-');
        }
        Some((-(acc as i128)) as i64)
    } else {
        if acc > 0x7fff_ffff_ffff_ffff {
            return None;
        }
        Some(acc as i64)
    }
}

/// Parses signed decimal text into an `i16`; exactly the strings that
/// denote an in-range value are accepted.
pub fn parse_i16_str(s: &str) -> (r: Option<i16>)
    ensures
        r == spec_parse_i16(s@),
{
    match parse_i64_str(s) {
        Some(v) => {
            if -32768 <= v && v <= 32767 {
                Some(v as i16)
            } else {
                None
            }
        },
        None => None,
    }
}

/// Formatting an `i64` and parsing the text back returns the value.
pub proof fn lemma_i64_dec_round_trip(n: i64)
    ensures
        spec_parse_i64(int_to_dec(n as int)) == Some(n),
{
    if n < 0 {
        let mag = (-(n as int)) as nat;
        lemma_nat_to_dec_digits(mag);
        let cs = seq!['-'] + nat_to_dec(mag);
        assert(cs[0] == '-');
        assert(cs.skip(1) =~= nat_to_dec(mag));
        assert(spec_parse_signed(cs) == Some(-(mag as int)));
    } else {
        let cs = nat_to_dec(n as nat);
        lemma_nat_to_dec_digits(n as nat);
        assert(is_digit(cs[0]));
        assert(cs[0] != '-') by {
            if cs[0] == '-' {
                assert(('-') as u32 == 45);
            }
        }
        assert(spec_parse_signed(cs) == Some(n as int));
    }
}

/// Formatting an `i16` and parsing the text back returns the value.
pub proof fn lemma_i16_dec_round_trip(n: i16)
    ensures
        spec_parse_i16(int_to_dec(n as int)) == Some(n),
{
    lemma_i64_dec_round_trip(n as i64);
}

} // verus!
