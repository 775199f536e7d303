//! The byte-count parser: turns a human-friendly size string into a byte
//! count. The input is either a hexadecimal literal prefixed `0x` with no
//! suffix, or a decimal numeral optionally followed by a case-sensitive
//! suffix choosing a power-of-ten or power-of-two multiplier.

use vstd::prelude::*;
use vstd::string::StrSliceExecFns;

verus! {

/// Why a byte count failed to parse: the numeral itself (bad digits, or a
/// value past `u64::MAX`), an unknown suffix, or an overflowing
/// multiplication of numeral and suffix multiplier.
#[derive(Debug, Clone, Copy, PartialEq, Eq, Structural)]
pub enum ByteCountError {
    InvalidNumeral,
    InvalidSuffix,
    Overflow,
}

/// A decimal digit `'0'..='9'`.
pub open spec fn is_dec_digit(c: char) -> bool {
    0x30 <= c as u32 <= 0x39
}

/// The value of a decimal digit.
pub open spec fn dec_digit_val(c: char) -> nat {
    (c as u32 - 0x30) as nat
}

/// A hexadecimal digit, either case.
pub open spec fn is_hex_digit(c: char) -> bool {
    is_dec_digit(c) || (0x41 <= c as u32 <= 0x46) || (0x61 <= c as u32 <= 0x66)
}

/// The value of a hexadecimal digit.
pub open spec fn hex_digit_val(c: char) -> nat {
    if is_dec_digit(c) {
        dec_digit_val(c)
    } else if 0x41 <= c as u32 <= 0x46 {
        (c as u32 - 0x37) as nat
    } else {
        (c as u32 - 0x57) as nat
    }
}

/// An ASCII letter.
pub open spec fn is_alpha(c: char) -> bool {
    (0x41 <= c as u32 <= 0x5a) || (0x61 <= c as u32 <= 0x7a)
}

/// The value of a string of decimal digits, most significant first.
pub open spec fn dec_value_spec(s: Seq<char>) -> nat
    decreases s.len(),
{
    if s.len() == 0 {
        0
    } else {
        dec_value_spec(s.drop_last()) * 10 + dec_digit_val(s.last())
    }
}

/// The value of a string of hexadecimal digits, most significant first.
pub open spec fn hex_value_spec(s: Seq<char>) -> nat
    decreases s.len(),
{
    if s.len() == 0 {
        0
    } else {
        hex_value_spec(s.drop_last()) * 16 + hex_digit_val(s.last())
    }
}

/// Whether every character is a decimal digit.
pub open spec fn all_dec_digits(s: Seq<char>) -> bool {
    forall|i: int| 0 <= i < s.len() ==> is_dec_digit(s[i])
}

/// Whether every character is a hexadecimal digit.
pub open spec fn all_hex_digits(s: Seq<char>) -> bool {
    forall|i: int| 0 <= i < s.len() ==> is_hex_digit(s[i])
}

/// The index of the first ASCII letter, or the length when there is none.
/// Everything from here on is the suffix; everything before is the
/// numeral.
pub open spec fn first_alpha_spec(s: Seq<char>) -> int
    decreases s.len(),
{
    if s.len() == 0 {
        0
    } else if is_alpha(s[0]) {
        0
    } else {
        1 + first_alpha_spec(s.drop_first())
    }
}

/// The multiplier a suffix selects: none or `b`/`B` count single bytes,
/// `kB`/`KB`, `MB`, `GB`, `TB` are powers of ten, and `k`/`K`/`KiB`,
/// `M`/`MiB`, `G`/`GiB`, `T`/`TiB` are powers of two. Anything else is
/// unknown.
pub open spec fn suffix_multiplier_spec(s: Seq<char>) -> Option<u64> {
    if s.len() == 0 {
        Some(1u64)
    } else if s.len() == 1 {
        if s[0] == 'b' || s[0] == 'B' {
            Some(1u64)
        } else if s[0] == 'k' || s[0] == 'K' {
            Some(0x400u64)
        } else if s[0] == 'M' {
            Some(0x100000u64)
        } else if s[0] == 'G' {
            Some(0x40000000u64)
        } else if s[0] == 'T' {
            Some(0x10000000000u64)
        } else {
            None
        }
    } else if s.len() == 2 && s[1] == 'B' {
        if s[0] == 'k' || s[0] == 'K' {
            Some(1000u64)
        } else if s[0] == 'M' {
            Some(1000000u64)
        } else if s[0] == 'G' {
            Some(1000000000u64)
        } else if s[0] == 'T' {
            Some(1000000000000u64)
        } else {
            None
        }
    } else if s.len() == 3 && s[1] == 'i' && s[2] == 'B' {
        if s[0] == 'K' {
            Some(0x400u64)
        } else if s[0] == 'M' {
            Some(0x100000u64)
        } else if s[0] == 'G' {
            Some(0x40000000u64)
        } else if s[0] == 'T' {
            Some(0x10000000000u64)
        } else {
            None
        }
    } else {
        None
    }
}

/// What `parse_byte_count` returns for each input, and with which error
/// it fails: a `0x`-prefixed input is read as hexadecimal with no suffix
/// allowed; otherwise the digits before the first letter are the numeral
/// and the rest is the suffix, and the result is numeral times
/// multiplier, with every overflow of `u64` an error.
pub open spec fn parse_byte_count_spec(s: Seq<char>) -> Result<u64, ByteCountError> {
    if s.len() >= 2 && s[0] == '0' && s[1] == 'x' {
        let h = s.skip(2);
        if h.len() > 0 && all_hex_digits(h) && hex_value_spec(h) <= u64::MAX {
            Ok(hex_value_spec(h) as u64)
        } else {
            Err(ByteCountError::InvalidNumeral)
        }
    } else {
        let i = first_alpha_spec(s);
        let num = s.take(i);
        let suf = s.skip(i);
        if !(num.len() > 0 && all_dec_digits(num) && dec_value_spec(num) <= u64::MAX) {
            Err(ByteCountError::InvalidNumeral)
        } else {
            match suffix_multiplier_spec(suf) {
                Some(m) => if dec_value_spec(num) * m <= u64::MAX {
                    Ok((dec_value_spec(num) * m) as u64)
                } else {
                    Err(ByteCountError::Overflow)
                },
                None => Err(ByteCountError::InvalidSuffix),
            }
        }
    }
}

/// A digit string's prefixes never exceed its value.
proof fn lemma_dec_prefix_le(s: Seq<char>, j: int)
    requires
        0 <= j <= s.len(),
    ensures
        dec_value_spec(s.take(j)) <= dec_value_spec(s),
    decreases s.len() - j,
{
    if j < s.len() {
        assert(s.take(j + 1).drop_last() =~= s.take(j));
        assert(s.take(j + 1).last() == s[j]);
        assert(dec_value_spec(s.take(j + 1)) == dec_value_spec(s.take(j)) * 10 + dec_digit_val(
            s[j],
        ));
        assert(dec_value_spec(s.take(j)) <= dec_value_spec(s.take(j)) * 10) by (nonlinear_arith);
        lemma_dec_prefix_le(s, j + 1);
    } else {
        assert(s.take(j) =~= s);
    }
}

/// A hex string's prefixes never exceed its value.
proof fn lemma_hex_prefix_le(s: Seq<char>, j: int)
    requires
        0 <= j <= s.len(),
    ensures
        hex_value_spec(s.take(j)) <= hex_value_spec(s),
    decreases s.len() - j,
{
    if j < s.len() {
        assert(s.take(j + 1).drop_last() =~= s.take(j));
        assert(s.take(j + 1).last() == s[j]);
        assert(hex_value_spec(s.take(j + 1)) == hex_value_spec(s.take(j)) * 16 + hex_digit_val(
            s[j],
        ));
        assert(hex_value_spec(s.take(j)) <= hex_value_spec(s.take(j)) * 16) by (nonlinear_arith);
        lemma_hex_prefix_le(s, j + 1);
    } else {
        assert(s.take(j) =~= s);
    }
}

/// If nothing before `i` is a letter and `i` is the length or a letter,
/// then `i` is the first-letter index.
proof fn lemma_first_alpha_at(s: Seq<char>, i: int)
    requires
        0 <= i <= s.len(),
        forall|j: int| 0 <= j < i ==> !is_alpha(s[j]),
        i == s.len() || is_alpha(s[i]),
    ensures
        first_alpha_spec(s) == i,
    decreases s.len(),
{
    if s.len() == 0 {
    } else if is_alpha(s[0]) {
        assert(i == 0);
    } else {
        assert(i >= 1);
        assert(forall|j: int| 0 <= j < i - 1 ==> s.drop_first()[j] == s[j + 1]);
        lemma_first_alpha_at(s.drop_first(), i - 1);
    }
}

/// Reads the hexadecimal digits of `input` from position `from` on.
fn parse_hex_part(input: &str, from: usize, n: usize) -> (r: Result<u64, ByteCountError>)
    requires
        from <= n,
        n == input@.len(),
    ensures
        ({
            let h = input@.skip(from as int);
            r == (if h.len() > 0 && all_hex_digits(h) && hex_value_spec(h) <= u64::MAX {
                Ok::<u64, ByteCountError>(hex_value_spec(h) as u64)
            } else {
                Err::<u64, ByteCountError>(ByteCountError::InvalidNumeral)
            })
        }),
{
    let ghost h = input@.skip(from as int);
    if from == n {
        return Err(ByteCountError::InvalidNumeral);
    }
    let mut value: u64 = 0;
    let mut j: usize = from;
    while j < n
        invariant
            from <= j <= n,
            n == input@.len(),
            h == input@.skip(from as int),
            forall|k: int| 0 <= k < j - from ==> is_hex_digit(h[k]),
            value == hex_value_spec(h.take(j - from)),
        decreases n - j,
    {
        let c = input.get_char(j);
        let u = c as u32;
        proof {
            assert(h[j - from] == input@[j as int]);
        }
        let d: u64;
        if 0x30 <= u && u <= 0x39 {
            d = (u - 0x30) as u64;
        } else if 0x41 <= u && u <= 0x46 {
            d = (u - 0x37) as u64;
        } else if 0x61 <= u && u <= 0x66 {
            d = (u - 0x57) as u64;
        } else {
            proof {
                assert(!is_hex_digit(h[j - from]));
                assert(!all_hex_digits(h));
            }
            return Err(ByteCountError::InvalidNumeral);
        }
        proof {
            assert(is_hex_digit(h[j - from]));
            assert(d == hex_digit_val(h[j - from]));
            assert(h.take(j - from + 1).drop_last() =~= h.take(j - from));
            assert(h.take(j - from + 1).last() == h[j - from]);
        }
        match value.checked_mul(16) {
            Some(v16) => {
                match v16.checked_add(d) {
                    Some(v) => {
                        value = v;
                    },
                    None => {
                        proof {
                            assert(hex_value_spec(h.take(j - from + 1)) > u64::MAX);
                            lemma_hex_prefix_le(h, j - from + 1);
                        }
                        return Err(ByteCountError::InvalidNumeral);
                    },
                }
            },
            None => {
                proof {
                    assert(hex_value_spec(h.take(j - from + 1)) > u64::MAX);
                    lemma_hex_prefix_le(h, j - from + 1);
                }
                return Err(ByteCountError::InvalidNumeral);
            },
        }
        j = j + 1;
    }
    proof {
        assert(h.take(n - from) =~= h);
    }
    Ok(value)
}

/// Parses a byte count. Accepts either a hex literal prefixed `0x`, or a
/// decimal numeral with an optional suffix: `b`/`B` for single bytes,
/// `kB`/`KB`, `MB`, `GB`, `TB` for powers of ten, and `k`/`K`/`KiB`,
/// `M`/`MiB`, `G`/`GiB`, `T`/`TiB` for powers of two. An overflowing
/// value is an error, never a truncation.
pub fn parse_byte_count(input: &str) -> (r: Result<u64, ByteCountError>)
    ensures
        r == parse_byte_count_spec(input@),
{
    let n = input.unicode_len();
    if n >= 2 && input.get_char(0) == '0' && input.get_char(1) == 'x' {
        return parse_hex_part(input, 2, n);
    }
    let mut i: usize = 0;
    while i < n
        invariant
            0 <= i <= n,
            n == input@.len(),
            forall|j: int| 0 <= j < i ==> !is_alpha(input@[j]),
        ensures
            i <= n,
            n == input@.len(),
            forall|j: int| 0 <= j < i ==> !is_alpha(input@[j]),
            i == n || is_alpha(input@[i as int]),
        decreases n - i,
    {
        let c = input.get_char(i);
        let u = c as u32;
        if (0x41 <= u && u <= 0x5a) || (0x61 <= u && u <= 0x7a) {
            proof {
                assert(is_alpha(input@[i as int]));
            }
            break ;
        }
        i = i + 1;
    }
    proof {
        lemma_first_alpha_at(input@, i as int);
    }
    let ghost num = input@.take(i as int);
    let ghost suf = input@.skip(i as int);
    if i == 0 {
        return Err(ByteCountError::InvalidNumeral);
    }
    let mut value: u64 = 0;
    let mut j: usize = 0;
    while j < i
        invariant
            0 <= j <= i <= n,
            n == input@.len(),
            !(input@.len() >= 2 && input@[0] == '0' && input@[1] == 'x'),
            i as int == first_alpha_spec(input@),
            num == input@.take(i as int),
            suf == input@.skip(i as int),
            forall|k: int| 0 <= k < j ==> is_dec_digit(num[k]),
            value == dec_value_spec(num.take(j as int)),
        decreases i - j,
    {
        let c = input.get_char(j);
        let u = c as u32;
        proof {
            assert(num[j as int] == input@[j as int]);
        }
        if !(0x30 <= u && u <= 0x39) {
            proof {
                assert(!is_dec_digit(num[j as int]));
                assert(!all_dec_digits(num));
            }
            return Err(ByteCountError::InvalidNumeral);
        }
        let d: u64 = (u - 0x30) as u64;
        proof {
            assert(is_dec_digit(num[j as int]));
            assert(d == dec_digit_val(num[j as int]));
            assert(num.take(j + 1).drop_last() =~= num.take(j as int));
            assert(num.take(j + 1).last() == num[j as int]);
        }
        match value.checked_mul(10) {
            Some(v10) => {
                match v10.checked_add(d) {
                    Some(v) => {
                        value = v;
                    },
                    None => {
                        proof {
                            assert(dec_value_spec(num.take(j + 1)) > u64::MAX);
                            lemma_dec_prefix_le(num, j + 1);
                        }
                        return Err(ByteCountError::InvalidNumeral);
                    },
                }
            },
            None => {
                proof {
                    assert(dec_value_spec(num.take(j + 1)) > u64::MAX);
                    lemma_dec_prefix_le(num, j + 1);
                }
                return Err(ByteCountError::InvalidNumeral);
            },
        }
        j = j + 1;
    }
    proof {
        assert(num.take(i as int) =~= num);
    }
    let mlen = n - i;
    let mult: u64;
    if mlen == 0 {
        mult = 1;
    } else {
        let c0 = input.get_char(i);
        proof {
            assert(suf[0] == input@[i as int]);
        }
        if mlen == 1 {
            if c0 == 'b' || c0 == 'B' {
                mult = 1;
            } else if c0 == 'k' || c0 == 'K' {
                mult = 0x400;
            } else if c0 == 'M' {
                mult = 0x100000;
            } else if c0 == 'G' {
                mult = 0x40000000;
            } else if c0 == 'T' {
                mult = 0x10000000000;
            } else {
                return Err(ByteCountError::InvalidSuffix);
            }
        } else if mlen == 2 {
            let c1 = input.get_char(i + 1);
            proof {
                assert(suf[1] == input@[i + 1]);
            }
            if c1 == 'B' && (c0 == 'k' || c0 == 'K') {
                mult = 1000;
            } else if c1 == 'B' && c0 == 'M' {
                mult = 1000000;
            } else if c1 == 'B' && c0 == 'G' {
                mult = 1000000000;
            } else if c1 == 'B' && c0 == 'T' {
                mult = 1000000000000;
            } else {
                return Err(ByteCountError::InvalidSuffix);
            }
        } else if mlen == 3 {
            let c1 = input.get_char(i + 1);
            let c2 = input.get_char(i + 2);
            proof {
                assert(suf[1] == input@[i + 1]);
                assert(suf[2] == input@[i + 2]);
            }
            if c1 == 'i' && c2 == 'B' && c0 == 'K' {
                mult = 0x400;
            } else if c1 == 'i' && c2 == 'B' && c0 == 'M' {
                mult = 0x100000;
            } else if c1 == 'i' && c2 == 'B' && c0 == 'G' {
                mult = 0x40000000;
            } else if c1 == 'i' && c2 == 'B' && c0 == 'T' {
                mult = 0x10000000000;
            } else {
                return Err(ByteCountError::InvalidSuffix);
            }
        } else {
            return Err(ByteCountError::InvalidSuffix);
        }
    }
    proof {
        assert(suffix_multiplier_spec(suf) == Some(mult));
    }
    match value.checked_mul(mult) {
        Some(total) => Ok(total),
        None => Err(ByteCountError::Overflow),
    }
}

} // verus!
