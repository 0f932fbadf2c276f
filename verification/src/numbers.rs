//! Decimal ASCII rendering and parsing of unsigned integers, used for status
//! codes, the Content-Length header and the song-number query parameter.

use vstd::prelude::*;

verus! {

pub const DIGIT_ZERO: u8 = 48;

/// The decimal digits of `n`, most significant first; empty for zero.
pub open spec fn spec_digits(n: nat) -> Seq<u8>
    decreases n,
{
    if n == 0 {
        Seq::empty()
    } else {
        spec_digits(n / 10) + seq![(n % 10 + 48) as u8]
    }
}

/// The decimal rendering of `n`: its digits, or `"0"` for zero.
pub open spec fn spec_decimal(n: nat) -> Seq<u8> {
    if n == 0 {
        seq![DIGIT_ZERO]
    } else {
        spec_digits(n)
    }
}

/// `b` is an ASCII decimal digit.
pub open spec fn is_digit(b: u8) -> bool {
    48 <= b <= 57
}

/// Every byte of `s` is an ASCII decimal digit.
pub open spec fn all_digits(s: Seq<u8>) -> bool {
    forall|i: int| 0 <= i < s.len() ==> is_digit(#[trigger] s[i])
}

/// The number denoted by a sequence of decimal digits.
pub open spec fn digits_value(s: Seq<u8>) -> nat
    decreases s.len(),
{
    if s.len() == 0 {
        0
    } else {
        digits_value(s.drop_last()) * 10 + (s.last() - 48) as nat
    }
}

/// The result of parsing `s` as a decimal number no greater than `bound`:
/// `None` unless `s` is one or more digits denoting such a number.
pub open spec fn spec_parse_decimal(s: Seq<u8>, bound: nat) -> Option<nat> {
    if s.len() > 0 && all_digits(s) && digits_value(s) <= bound {
        Some(digits_value(s))
    } else {
        None
    }
}

proof fn lemma_digits_are_digits(n: nat)
    ensures
        all_digits(spec_digits(n)),
        n > 0 ==> spec_digits(n).len() > 0,
    decreases n,
{
    if n > 0 {
        lemma_digits_are_digits(n / 10);
    }
}

/// The decimal rendering consists of digits only and is never empty.
pub proof fn lemma_decimal_digits(n: nat)
    ensures
        all_digits(spec_decimal(n)),
        spec_decimal(n).len() > 0,
{
    lemma_digits_are_digits(n);
}

proof fn lemma_digits_value_of_digits(n: nat)
    ensures
        digits_value(spec_digits(n)) == n,
    decreases n,
{
    if n > 0 {
        lemma_digits_value_of_digits(n / 10);
        assert(spec_digits(n).drop_last() =~= spec_digits(n / 10));
    }
}

/// Parsing inverts rendering: the decimal text of `n` parses back to `n`.
pub proof fn lemma_decimal_round_trip(n: nat, bound: nat)
    requires
        n <= bound,
    ensures
        spec_parse_decimal(spec_decimal(n), bound) == Some(n),
{
    lemma_decimal_digits(n);
    if n == 0 {
        assert(seq![DIGIT_ZERO].drop_last() =~= Seq::<u8>::empty());
        assert(digits_value(Seq::<u8>::empty()) == 0);
        assert(seq![DIGIT_ZERO].last() == DIGIT_ZERO);
        assert(digits_value(seq![DIGIT_ZERO]) == 0);
    } else {
        lemma_digits_value_of_digits(n);
    }
}

/// Appending digits to a digit string never shrinks its value.
proof fn lemma_digits_value_prefix(s: Seq<u8>, k: int)
    requires
        0 <= k <= s.len(),
    ensures
        digits_value(s.subrange(0, k)) <= digits_value(s),
    decreases s.len() - k,
{
    if k < s.len() {
        lemma_digits_value_prefix(s, k + 1);
        let p = s.subrange(0, k + 1);
        assert(p.drop_last() =~= s.subrange(0, k));
        assert(digits_value(p) == digits_value(s.subrange(0, k)) * 10 + (p.last() - 48) as nat);
    } else {
        assert(s.subrange(0, k) =~= s);
    }
}

/// The lowercase hexadecimal digit for a value below sixteen.
pub open spec fn spec_hex_digit(d: nat) -> u8 {
    if d < 10 {
        (d + 48) as u8
    } else {
        (d + 87) as u8
    }
}

/// The hexadecimal digits of `n`, most significant first; empty for zero.
pub open spec fn spec_hex_digits(n: nat) -> Seq<u8>
    decreases n,
{
    if n == 0 {
        Seq::empty()
    } else {
        spec_hex_digits(n / 16) + seq![spec_hex_digit(n % 16)]
    }
}

/// The lowercase hexadecimal rendering of `n`: its digits, or `"0"`.
pub open spec fn spec_hex(n: nat) -> Seq<u8> {
    if n == 0 {
        seq![DIGIT_ZERO]
    } else {
        spec_hex_digits(n)
    }
}

/// `b` is an ASCII hexadecimal digit, either case.
pub open spec fn is_hex_digit(b: u8) -> bool {
    (48 <= b <= 57) || (97 <= b <= 102) || (65 <= b <= 70)
}

/// The value of one hexadecimal digit.
pub open spec fn hex_digit_value(b: u8) -> nat {
    if 48 <= b <= 57 {
        (b - 48) as nat
    } else if 97 <= b <= 102 {
        (b - 87) as nat
    } else {
        (b - 55) as nat
    }
}

/// Every byte of `s` is a hexadecimal digit.
pub open spec fn all_hex_digits(s: Seq<u8>) -> bool {
    forall|i: int| 0 <= i < s.len() ==> is_hex_digit(#[trigger] s[i])
}

/// The number denoted by a sequence of hexadecimal digits.
pub open spec fn hex_digits_value(s: Seq<u8>) -> nat
    decreases s.len(),
{
    if s.len() == 0 {
        0
    } else {
        hex_digits_value(s.drop_last()) * 16 + hex_digit_value(s.last())
    }
}

/// The result of parsing `s` as a hexadecimal number no greater than
/// `bound`: `None` unless `s` is one or more hex digits denoting such a
/// number.
pub open spec fn spec_parse_hex(s: Seq<u8>, bound: nat) -> Option<nat> {
    if s.len() > 0 && all_hex_digits(s) && hex_digits_value(s) <= bound {
        Some(hex_digits_value(s))
    } else {
        None
    }
}

proof fn lemma_hex_digits_are_digits(n: nat)
    ensures
        all_hex_digits(spec_hex_digits(n)),
        n > 0 ==> spec_hex_digits(n).len() > 0,
    decreases n,
{
    if n > 0 {
        lemma_hex_digits_are_digits(n / 16);
    }
}

/// The hexadecimal rendering consists of hex digits only and is never
/// empty.
pub proof fn lemma_hex_clean(n: nat)
    ensures
        all_hex_digits(spec_hex(n)),
        spec_hex(n).len() > 0,
{
    lemma_hex_digits_are_digits(n);
}

proof fn lemma_hex_value_of_digits(n: nat)
    ensures
        hex_digits_value(spec_hex_digits(n)) == n,
    decreases n,
{
    if n > 0 {
        lemma_hex_value_of_digits(n / 16);
        assert(spec_hex_digits(n).drop_last() =~= spec_hex_digits(n / 16));
        assert(hex_digit_value(spec_hex_digit(n % 16)) == n % 16);
    }
}

/// Parsing inverts hexadecimal rendering.
pub proof fn lemma_hex_round_trip(n: nat, bound: nat)
    requires
        n <= bound,
    ensures
        spec_parse_hex(spec_hex(n), bound) == Some(n),
{
    lemma_hex_clean(n);
    if n == 0 {
        assert(seq![DIGIT_ZERO].drop_last() =~= Seq::<u8>::empty());
        assert(hex_digits_value(Seq::<u8>::empty()) == 0);
        assert(seq![DIGIT_ZERO].last() == DIGIT_ZERO);
        assert(hex_digits_value(seq![DIGIT_ZERO]) == 0);
    } else {
        lemma_hex_value_of_digits(n);
    }
}

/// Appending hex digits to a hex string never shrinks its value.
proof fn lemma_hex_value_prefix(s: Seq<u8>, k: int)
    requires
        0 <= k <= s.len(),
    ensures
        hex_digits_value(s.subrange(0, k)) <= hex_digits_value(s),
    decreases s.len() - k,
{
    if k < s.len() {
        lemma_hex_value_prefix(s, k + 1);
        let p = s.subrange(0, k + 1);
        assert(p.drop_last() =~= s.subrange(0, k));
        assert(hex_digits_value(p) == hex_digits_value(s.subrange(0, k)) * 16 + hex_digit_value(
            p.last(),
        ));
    } else {
        assert(s.subrange(0, k) =~= s);
    }
}

/// Renders `n` as lowercase hexadecimal ASCII and appends it to `out`.
pub fn append_hex(out: &mut Vec<u8>, n: u16)
    ensures
        final(out)@ == old(out)@ + spec_hex(n as nat),
{
    if n == 0 {
        out.push(DIGIT_ZERO);
        proof {
            assert(out@ =~= old(out)@ + spec_hex(0));
        }
        return ;
    }
    let mut reversed: Vec<u8> = Vec::new();
    let mut num: u16 = n;
    while num > 0
        invariant
            spec_hex_digits(n as nat) == spec_hex_digits(num as nat) + reversed@.reverse(),
        decreases num,
    {
        let digit = (num % 16) as u8;
        if digit < 10 {
            reversed.push(digit + 48);
        } else {
            reversed.push(digit + 87);
        }
        num = num / 16;
        proof {
            assert(spec_hex_digits(n as nat) =~= spec_hex_digits(num as nat) + reversed@.reverse());
        }
    }
    proof {
        assert(spec_hex_digits(n as nat) =~= reversed@.reverse());
    }
    let mut i: usize = reversed.len();
    while i > 0
        invariant
            i <= reversed@.len(),
            out@ == old(out)@ + reversed@.reverse().subrange(0, reversed@.len() - i),
        decreases i,
    {
        i = i - 1;
        out.push(reversed[i]);
        proof {
            assert(out@ =~= old(out)@ + reversed@.reverse().subrange(0, reversed@.len() - i));
        }
    }
    proof {
        assert(reversed@.reverse().subrange(0, reversed@.len() as int) =~= reversed@.reverse());
        assert(out@ =~= old(out)@ + spec_hex_digits(n as nat));
    }
}

/// Parses `s` as a hexadecimal group no larger than `ffff`; `None` on empty
/// input, a non-hex byte, or a larger value.
pub fn parse_hex_group(s: &[u8]) -> (r: Option<u16>)
    ensures
        match r {
            Some(v) => spec_parse_hex(s@, 0xffff) == Some(v as nat),
            None => spec_parse_hex(s@, 0xffff) is None,
        },
{
    if s.len() == 0 {
        return None;
    }
    let mut acc: usize = 0;
    let mut i: usize = 0;
    while i < s.len()
        invariant
            i <= s@.len(),
            s@.len() > 0,
            acc <= 0xffff,
            all_hex_digits(s@.subrange(0, i as int)),
            acc as nat == hex_digits_value(s@.subrange(0, i as int)),
        decreases s@.len() - i,
    {
        let b = s[i];
        let digit: usize = if b >= 48 && b <= 57 {
            (b - 48) as usize
        } else if b >= 97 && b <= 102 {
            (b - 87) as usize
        } else if b >= 65 && b <= 70 {
            (b - 55) as usize
        } else {
            proof {
                assert(!is_hex_digit(s@[i as int]));
            }
            return None;
        };
        acc = acc * 16 + digit;
        i = i + 1;
        proof {
            let p = s@.subrange(0, i as int);
            assert(p.drop_last() =~= s@.subrange(0, i - 1));
            assert(all_hex_digits(p));
            assert(hex_digit_value(p.last()) == digit);
        }
        if acc > 0xffff {
            proof {
                lemma_hex_value_prefix(s@, i as int);
            }
            return None;
        }
    }
    proof {
        assert(s@.subrange(0, s@.len() as int) =~= s@);
    }
    Some(acc as u16)
}

/// Renders `n` as decimal ASCII and appends it to `out`.
pub fn append_decimal(out: &mut Vec<u8>, n: usize)
    ensures
        final(out)@ == old(out)@ + spec_decimal(n as nat),
{
    if n == 0 {
        out.push(DIGIT_ZERO);
        proof {
            assert(out@ =~= old(out)@ + spec_decimal(0));
        }
        return ;
    }
    let mut reversed: Vec<u8> = Vec::new();
    let mut num: usize = n;
    while num > 0
        invariant
            spec_digits(n as nat) == spec_digits(num as nat) + reversed@.reverse(),
        decreases num,
    {
        let digit = (num % 10) as u8;
        reversed.push(digit + 48);
        num = num / 10;
        proof {
            assert(spec_digits(n as nat) =~= spec_digits(num as nat) + reversed@.reverse());
        }
    }
    proof {
        assert(spec_digits(n as nat) =~= reversed@.reverse());
    }
    let mut i: usize = reversed.len();
    while i > 0
        invariant
            i <= reversed@.len(),
            out@ == old(out)@ + reversed@.reverse().subrange(
                0,
                reversed@.len() - i,
            ),
        decreases i,
    {
        i = i - 1;
        out.push(reversed[i]);
        proof {
            assert(out@ =~= old(out)@ + reversed@.reverse().subrange(
                0,
                reversed@.len() - i,
            ));
        }
    }
    proof {
        assert(reversed@.reverse().subrange(0, reversed@.len() as int) =~= reversed@.reverse());
        assert(out@ =~= old(out)@ + spec_digits(n as nat));
    }
}

/// Parses `s` as a decimal `usize`; `None` on empty input, a non-digit byte,
/// or overflow.
pub fn parse_usize(s: &[u8]) -> (r: Option<usize>)
    ensures
        match r {
            Some(v) => spec_parse_decimal(s@, usize::MAX as nat) == Some(v as nat),
            None => spec_parse_decimal(s@, usize::MAX as nat) is None,
        },
{
    if s.len() == 0 {
        return None;
    }
    let mut acc: usize = 0;
    let mut i: usize = 0;
    while i < s.len()
        invariant
            i <= s@.len(),
            s@.len() > 0,
            all_digits(s@.subrange(0, i as int)),
            acc as nat == digits_value(s@.subrange(0, i as int)),
        decreases s@.len() - i,
    {
        let b = s[i];
        if b < 48 || b > 57 {
            proof {
                assert(!is_digit(s@[i as int]));
            }
            return None;
        }
        let digit = (b - 48) as usize;
        if acc > usize::MAX / 10 {
            proof {
                let p = s@.subrange(0, i + 1);
                assert(p.drop_last() =~= s@.subrange(0, i as int));
                assert(digits_value(p) >= acc * 10) by (nonlinear_arith)
                    requires
                        digits_value(p) == digits_value(p.drop_last()) * 10 + (p.last()
                            - 48) as nat,
                        digits_value(p.drop_last()) == acc as nat,
                ;
                assert(acc * 10 > usize::MAX) by (nonlinear_arith)
                    requires
                        acc > usize::MAX / 10,
                        usize::MAX >= 10,
                ;
                lemma_digits_value_prefix(s@, i + 1);
            }
            return None;
        }
        let shifted = acc * 10;
        proof {
            assert(acc * 10 <= usize::MAX) by (nonlinear_arith)
                requires
                    acc <= usize::MAX / 10,
            ;
        }
        if shifted > usize::MAX - digit {
            proof {
                let p = s@.subrange(0, i + 1);
                assert(p.drop_last() =~= s@.subrange(0, i as int));
                lemma_digits_value_prefix(s@, i + 1);
            }
            return None;
        }
        acc = shifted + digit;
        i = i + 1;
        proof {
            let p = s@.subrange(0, i as int);
            assert(p.drop_last() =~= s@.subrange(0, i - 1));
            assert(all_digits(p));
        }
    }
    proof {
        assert(s@.subrange(0, s@.len() as int) =~= s@);
    }
    Some(acc)
}

/// Parses `s` as a decimal `u32`; `None` on empty input, a non-digit byte, or
/// a value above `u32::MAX`.
pub fn parse_u32(s: &[u8]) -> (r: Option<u32>)
    ensures
        match r {
            Some(v) => spec_parse_decimal(s@, u32::MAX as nat) == Some(v as nat),
            None => spec_parse_decimal(s@, u32::MAX as nat) is None,
        },
{
    match parse_usize(s) {
        Some(v) => {
            if v <= u32::MAX as usize {
                Some(v as u32)
            } else {
                None
            }
        },
        None => None,
    }
}

} // verus!
