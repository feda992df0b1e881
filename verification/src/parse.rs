//! Verified parsing of the two numeric catalog fields: a decimal byte size
//! and a 32-digit hexadecimal digest.

use vstd::prelude::*;

verus! {

/// Why a raw catalog field failed to parse.
#[derive(Debug, PartialEq, Eq, Structural, Clone, Copy)]
pub enum ParseError {
    /// The size field is empty.
    EmptySize,
    /// The size field holds a character that is no decimal digit.
    BadSizeDigit,
    /// The size field is all digits but its value does not fit in 64 bits.
    SizeTooLarge,
    /// The digest field is not exactly 32 characters long.
    BadDigestLength,
    /// The digest field holds a character that is no hexadecimal digit.
    BadDigestDigit,
}

pub open spec fn is_dec_digit(c: char) -> bool {
    48 <= c as int <= 57
}

pub open spec fn dec_digit_val(c: char) -> int {
    c as int - 48
}

pub open spec fn all_dec_digits(s: Seq<char>) -> bool {
    forall|i: int| 0 <= i < s.len() ==> is_dec_digit(#[trigger] s[i])
}

/// The value of a decimal digit string, read most significant digit first.
pub open spec fn dec_val(s: Seq<char>) -> int
    decreases s.len(),
{
    if s.len() == 0 {
        0
    } else {
        dec_val(s.drop_last()) * 10 + dec_digit_val(s.last())
    }
}

pub open spec fn is_hex_digit(c: char) -> bool {
    ||| 48 <= c as int <= 57
    ||| 65 <= c as int <= 70
    ||| 97 <= c as int <= 102
}

pub open spec fn hex_digit_val(c: char) -> int {
    if 48 <= c as int <= 57 {
        c as int - 48
    } else if 65 <= c as int <= 70 {
        c as int - 55
    } else {
        c as int - 87
    }
}

pub open spec fn all_hex_digits(s: Seq<char>) -> bool {
    forall|i: int| 0 <= i < s.len() ==> is_hex_digit(#[trigger] s[i])
}

/// The value of a hexadecimal digit string, read most significant digit first.
pub open spec fn hex_val(s: Seq<char>) -> int
    decreases s.len(),
{
    if s.len() == 0 {
        0
    } else {
        hex_val(s.drop_last()) * 16 + hex_digit_val(s.last())
    }
}

pub open spec fn pow16(n: nat) -> int
    decreases n,
{
    if n == 0 {
        1
    } else {
        16 * pow16((n - 1) as nat)
    }
}

proof fn lemma_pow16_pos(n: nat)
    ensures
        pow16(n) >= 1,
    decreases n,
{
    if n > 0 {
        lemma_pow16_pos((n - 1) as nat);
    }
}

proof fn lemma_pow16_mono(a: nat, b: nat)
    requires
        a <= b,
    ensures
        pow16(a) <= pow16(b),
    decreases b - a,
{
    if a < b {
        lemma_pow16_mono(a, (b - 1) as nat);
        lemma_pow16_pos((b - 1) as nat);
    }
}

proof fn lemma_dec_val_nonneg(s: Seq<char>)
    requires
        all_dec_digits(s),
    ensures
        dec_val(s) >= 0,
    decreases s.len(),
{
    if s.len() > 0 {
        assert(all_dec_digits(s.drop_last()));
        lemma_dec_val_nonneg(s.drop_last());
    }
}

/// Reading further digits can only grow the value.
proof fn lemma_dec_val_prefix_le(s: Seq<char>, i: int)
    requires
        all_dec_digits(s),
        0 <= i <= s.len(),
    ensures
        dec_val(s.subrange(0, i)) <= dec_val(s),
    decreases s.len() - i,
{
    if i == s.len() {
        assert(s.subrange(0, i) =~= s);
    } else {
        lemma_dec_val_prefix_le(s, i + 1);
        assert(s.subrange(0, i + 1).drop_last() =~= s.subrange(0, i));
        assert(s.subrange(0, i + 1).last() == s[i]);
        assert(all_dec_digits(s.subrange(0, i)));
        lemma_dec_val_nonneg(s.subrange(0, i));
    }
}

proof fn lemma_hex_val_bound(s: Seq<char>)
    requires
        all_hex_digits(s),
    ensures
        0 <= hex_val(s) < pow16(s.len()),
    decreases s.len(),
{
    if s.len() > 0 {
        assert(all_hex_digits(s.drop_last()));
        lemma_hex_val_bound(s.drop_last());
        let h = hex_val(s.drop_last());
        let b = pow16((s.len() - 1) as nat);
        assert(s.drop_last().len() == (s.len() - 1) as nat);
        assert(is_hex_digit(s.last())) by {
            assert(s.last() == s[s.len() - 1]);
        }
        assert(h * 16 + hex_digit_val(s.last()) < 16 * b) by (nonlinear_arith)
            requires
                h < b,
                hex_digit_val(s.last()) < 16,
        ;
    }
}

/// Parses a byte size: a nonempty string of decimal digits whose value fits
/// in 64 bits. Anything else is rejected, with the reason.
pub fn parse_size(s: &str) -> (r: Result<u64, ParseError>)
    ensures
        match r {
            Ok(n) => s@.len() > 0 && all_dec_digits(s@) && n == dec_val(s@),
            Err(ParseError::EmptySize) => s@.len() == 0,
            Err(ParseError::BadSizeDigit) => s@.len() > 0 && !all_dec_digits(s@),
            Err(ParseError::SizeTooLarge) => all_dec_digits(s@) && dec_val(s@) > u64::MAX,
            Err(_) => false,
        },
{
    let n = s.unicode_len();
    if n == 0 {
        return Err(ParseError::EmptySize);
    }
    let mut i: usize = 0;
    while i < n
        invariant
            n == s@.len(),
            0 <= i <= n,
            all_dec_digits(s@.subrange(0, i as int)),
        decreases n - i,
    {
        let c = s.get_char(i);
        let cv = c as u32;
        if cv < 48 || cv > 57 {
            assert(!is_dec_digit(s@[i as int]));
            return Err(ParseError::BadSizeDigit);
        }
        assert(s@.subrange(0, i + 1 as int).drop_last() =~= s@.subrange(0, i as int));
        assert(forall|k: int| 0 <= k < i + 1 ==> is_dec_digit(#[trigger] s@.subrange(0, i + 1)[k]));
        i = i + 1;
    }
    assert(s@.subrange(0, n as int) =~= s@);
    let mut val: u64 = 0;
    let mut j: usize = 0;
    while j < n
        invariant
            n == s@.len(),
            0 <= j <= n,
            all_dec_digits(s@),
            val == dec_val(s@.subrange(0, j as int)),
        decreases n - j,
    {
        let c = s.get_char(j);
        let d = (c as u32 - 48) as u64;
        proof {
            assert(s@.subrange(0, j + 1 as int).drop_last() =~= s@.subrange(0, j as int));
            assert(s@.subrange(0, j + 1 as int).last() == s@[j as int]);
        }
        let v10 = match val.checked_mul(10) {
            Some(v) => v,
            None => {
                proof {
                    lemma_dec_val_prefix_le(s@, j + 1);
                }
                return Err(ParseError::SizeTooLarge);
            },
        };
        let v = match v10.checked_add(d) {
            Some(v) => v,
            None => {
                proof {
                    lemma_dec_val_prefix_le(s@, j + 1);
                }
                return Err(ParseError::SizeTooLarge);
            },
        };
        val = v;
        j = j + 1;
    }
    assert(s@.subrange(0, n as int) =~= s@);
    Ok(val)
}

/// Parses a digest: exactly 32 hexadecimal digits, either case, read into a
/// 128-bit value most significant digit first. Anything else is rejected,
/// with the reason.
pub fn md5_digest(s: &str) -> (r: Result<u128, ParseError>)
    ensures
        match r {
            Ok(d) => s@.len() == 32 && all_hex_digits(s@) && d == hex_val(s@),
            Err(ParseError::BadDigestLength) => s@.len() != 32,
            Err(ParseError::BadDigestDigit) => s@.len() == 32 && !all_hex_digits(s@),
            Err(_) => false,
        },
{
    let n = s.unicode_len();
    if n != 32 {
        return Err(ParseError::BadDigestLength);
    }
    let mut val: u128 = 0;
    let mut i: usize = 0;
    while i < 32
        invariant
            s@.len() == 32,
            0 <= i <= 32,
            all_hex_digits(s@.subrange(0, i as int)),
            val == hex_val(s@.subrange(0, i as int)),
            val < pow16(i as nat),
        decreases 32 - i,
    {
        let c = s.get_char(i);
        let cv = c as u32;
        let d: u128 = if 48 <= cv && cv <= 57 {
            (cv - 48) as u128
        } else if 65 <= cv && cv <= 70 {
            (cv - 55) as u128
        } else if 97 <= cv && cv <= 102 {
            (cv - 87) as u128
        } else {
            assert(!is_hex_digit(s@[i as int]));
            return Err(ParseError::BadDigestDigit);
        };
        proof {
            assert(is_hex_digit(s@[i as int]));
            assert(d == hex_digit_val(s@[i as int]));
            assert(s@.subrange(0, i + 1 as int).drop_last() =~= s@.subrange(0, i as int));
            assert(s@.subrange(0, i + 1 as int).last() == s@[i as int]);
            lemma_pow16_mono((i + 1) as nat, 32);
            assert(pow16(32) == 0x100000000000000000000000000000000) by {
                reveal_with_fuel(pow16, 33);
            }
            assert(pow16((i + 1) as nat) == 16 * pow16(i as nat));
            assert(val * 16 <= (pow16(i as nat) - 1) * 16) by (nonlinear_arith)
                requires
                    val <= pow16(i as nat) - 1,
            ;
        }
        val = val * 16 + d;
        i = i + 1;
    }
    assert(s@.subrange(0, 32) =~= s@);
    Ok(val)
}

} // verus!
