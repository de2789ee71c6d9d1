//! Decoding of a string-table index from the text of an indirect name field.
//!
//! An indirect section name stores its string-table index as ASCII text in
//! one of two forms: plain decimal, or a base-64-like positional numeral
//! system over the alphabet `A`-`Z`, `a`-`z`, `0`-`9`, `+`, `/` (digit values
//! 0 through 63, most significant digit first).

use vstd::prelude::*;

verus! {

/// Whether `c` is a digit of the base-64-like alphabet.
pub open spec fn is_b64_char(c: u8) -> bool {
    ||| 65 <= c <= 90
    ||| 97 <= c <= 122
    ||| 48 <= c <= 57
    ||| c == 43
    ||| c == 47
}

/// The numeric value of one digit of the base-64-like alphabet.
pub open spec fn b64_digit(c: u8) -> nat {
    if 65 <= c <= 90 {
        (c - 65) as nat
    } else if 97 <= c <= 122 {
        (c - 97 + 26) as nat
    } else if 48 <= c <= 57 {
        (c - 48 + 52) as nat
    } else if c == 43 {
        62
    } else {
        63
    }
}

/// The value of a base-64-like digit string, most significant digit first.
pub open spec fn b64_value(s: Seq<u8>) -> nat
    decreases s.len(),
{
    if s.len() == 0 {
        0
    } else {
        b64_value(s.drop_last()) * 64 + b64_digit(s.last())
    }
}

/// Whether `c` is an ASCII decimal digit.
pub open spec fn is_dec_char(c: u8) -> bool {
    48 <= c <= 57
}

/// The value of an ASCII decimal digit string, most significant digit first.
pub open spec fn dec_value(s: Seq<u8>) -> nat
    decreases s.len(),
{
    if s.len() == 0 {
        0
    } else {
        dec_value(s.drop_last()) * 10 + (if is_dec_char(s.last()) {
            (s.last() - 48) as nat
        } else {
            0
        })
    }
}

/// 64 raised to `n`.
pub open spec fn pow64(n: nat) -> nat
    decreases n,
{
    if n == 0 {
        1
    } else {
        64 * pow64((n - 1) as nat)
    }
}

/// 10 raised to `n`.
pub open spec fn pow10(n: nat) -> nat
    decreases n,
{
    if n == 0 {
        1
    } else {
        10 * pow10((n - 1) as nat)
    }
}

proof fn lemma_pow64_mono(a: nat, b: nat)
    requires
        a <= b,
    ensures
        pow64(a) <= pow64(b),
    decreases b,
{
    if a < b {
        lemma_pow64_mono(a, (b - 1) as nat);
    }
}

proof fn lemma_pow10_mono(a: nat, b: nat)
    requires
        a <= b,
    ensures
        pow10(a) <= pow10(b),
    decreases b,
{
    if a < b {
        lemma_pow10_mono(a, (b - 1) as nat);
    }
}

/// Decodes a base-64-like string-table index (the text after the `//` marker
/// of an indirect section name, already trimmed of the marker and of any NUL
/// padding). The index text of a well-formed name field never exceeds 6
/// digits; longer input, or any byte outside the 64-symbol alphabet, is
/// rejected.
pub fn base64_decode_string_entry(s: &[u8]) -> (r: Result<u64, ()>)
    ensures
        match r {
            Ok(v) => {
                &&& s@.len() <= 6
                &&& forall|i: int| 0 <= i < s@.len() ==> is_b64_char(#[trigger] s@[i])
                &&& v == b64_value(s@)
            },
            Err(_) => s@.len() > 6 || exists|i: int|
                0 <= i < s@.len() && !is_b64_char(#[trigger] s@[i]),
        },
{
    if s.len() > 6 {
        return Err(());
    }
    let mut val: u64 = 0;
    let mut i: usize = 0;
    while i < s.len()
        invariant
            0 <= i <= s@.len() <= 6,
            forall|j: int| 0 <= j < i ==> is_b64_char(#[trigger] s@[j]),
            val == b64_value(s@.take(i as int)),
            val < pow64(i as nat),
        decreases s@.len() - i,
    {
        let c = s[i];
        let d: u8 = if 65 <= c && c <= 90 {
            c - 65
        } else if 97 <= c && c <= 122 {
            c - 97 + 26
        } else if 48 <= c && c <= 57 {
            c - 48 + 52
        } else if c == 43 {
            62
        } else if c == 47 {
            63
        } else {
            assert(!is_b64_char(s@[i as int]));
            return Err(());
        };
        proof {
            assert(s@.take(i as int + 1).drop_last() =~= s@.take(i as int));
            assert(s@.take(i as int + 1).last() == s@[i as int]);
            lemma_pow64_mono(i as nat, 5);
            assert(pow64(5) == 0x40000000) by {
                reveal_with_fuel(pow64, 6);
            }
        }
        val = val * 64 + (d as u64);
        i += 1;
    }
    proof {
        assert(s@.take(i as int) =~= s@);
    }
    Ok(val)
}

/// Decodes a decimal string-table index (the text after the `/` marker of an
/// indirect section name, already trimmed of the marker and of any NUL
/// padding). The text must be non-empty and all decimal digits; its length is
/// bounded by the 7 bytes that follow the marker in the 8-byte name field.
pub fn decimal_decode_string_entry(s: &[u8]) -> (r: Result<u64, ()>)
    requires
        s@.len() <= 7,
    ensures
        match r {
            Ok(v) => {
                &&& s@.len() >= 1
                &&& forall|i: int| 0 <= i < s@.len() ==> is_dec_char(#[trigger] s@[i])
                &&& v == dec_value(s@)
            },
            Err(_) => s@.len() == 0 || exists|i: int|
                0 <= i < s@.len() && !is_dec_char(#[trigger] s@[i]),
        },
{
    if s.len() == 0 {
        return Err(());
    }
    let mut val: u64 = 0;
    let mut i: usize = 0;
    while i < s.len()
        invariant
            0 <= i <= s@.len() <= 7,
            forall|j: int| 0 <= j < i ==> is_dec_char(#[trigger] s@[j]),
            val == dec_value(s@.take(i as int)),
            val < pow10(i as nat),
        decreases s@.len() - i,
    {
        let c = s[i];
        if c < 48 || c > 57 {
            assert(!is_dec_char(s@[i as int]));
            return Err(());
        }
        let d: u8 = c - 48;
        proof {
            assert(s@.take(i as int + 1).drop_last() =~= s@.take(i as int));
            assert(s@.take(i as int + 1).last() == s@[i as int]);
            lemma_pow10_mono(i as nat, 6);
            assert(pow10(6) == 1000000) by {
                reveal_with_fuel(pow10, 7);
            }
        }
        val = val * 10 + (d as u64);
        i += 1;
    }
    proof {
        assert(s@.take(i as int) =~= s@);
    }
    Ok(val)
}

} // verus!
