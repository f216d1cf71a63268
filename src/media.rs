use vstd::prelude::*;

use vstd::string::StringSliceAdditionalSpecFns;

use crate::Id;

verus! {

/// Value of an ASCII hexadecimal digit, either case.
pub open spec fn hex_digit(b: u8) -> Option<int> {
    if 48 <= b <= 57 {
        Some(b - 48)
    } else if 97 <= b <= 102 {
        Some(b - 87)
    } else if 65 <= b <= 70 {
        Some(b - 55)
    } else {
        None
    }
}

/// Value of a byte written as two hexadecimal digits.
pub open spec fn pair_value(a: u8, b: u8) -> Option<int> {
    match (hex_digit(a), hex_digit(b)) {
        (Some(x), Some(y)) => Some(16 * x + y),
        _ => None,
    }
}

/// Big-endian value of the first `n` two-character bytes of `s`.
pub open spec fn key_value(s: Seq<u8>, n: int) -> Option<int>
    decreases n,
{
    if n <= 0 {
        Some(0)
    } else {
        match (key_value(s, n - 1), pair_value(s[2 * n - 2], s[2 * n - 1])) {
            (Some(v), Some(p)) => Some(v * 256 + p),
            _ => None,
        }
    }
}

/// The id a media key names: its 16 hexadecimal characters read as the
/// eight big-endian bytes of a two's complement integer; 0 for a key that
/// is not such.
pub open spec fn media_key(s: Seq<u8>) -> int {
    if s.len() != 16 {
        0
    } else {
        match key_value(s, 8) {
            Some(v) => if v >= 0x8000_0000_0000_0000 {
                v - 0x1_0000_0000_0000_0000
            } else {
                v
            },
            None => 0,
        }
    }
}

fn hex_digit_exec(b: u8) -> (r: Option<u64>)
    ensures
        match hex_digit(b) {
            Some(v) => r == Some(v as u64),
            None => r is None,
        },
{
    if 48 <= b && b <= 57 {
        Some((b - 48) as u64)
    } else if 97 <= b && b <= 102 {
        Some((b - 87) as u64)
    } else if 65 <= b && b <= 70 {
        Some((b - 55) as u64)
    } else {
        None
    }
}

fn pair_value_exec(a: u8, b: u8) -> (r: Option<u64>)
    ensures
        match pair_value(a, b) {
            Some(v) => r == Some(v as u64) && 0 <= v < 256,
            None => r is None,
        },
{
    match (hex_digit_exec(a), hex_digit_exec(b)) {
        (Some(x), Some(y)) => Some(16 * x + y),
        _ => None,
    }
}

proof fn lemma_key_value_none(s: Seq<u8>, n: int, m: int)
    requires
        0 <= n <= m,
        key_value(s, n) is None,
    ensures
        key_value(s, m) is None,
    decreases m - n,
{
    if n < m {
        lemma_key_value_none(s, n, m - 1);
    }
}

proof fn lemma_key_value_bound(s: Seq<u8>, n: int)
    requires
        0 <= n,
        2 * n <= s.len(),
    ensures
        key_value(s, n) matches Some(v) ==> 0 <= v < vstd::arithmetic::power::pow(256, n as nat),
    decreases n,
{
    vstd::arithmetic::power::lemma_pow0(256);
    if n > 0 {
        lemma_key_value_bound(s, n - 1);
        vstd::arithmetic::power::lemma_pow_adds(256, (n - 1) as nat, 1);
        vstd::arithmetic::power::lemma_pow1(256);
        if let Some(v) = key_value(s, n) {
            let w = key_value(s, n - 1)->Some_0;
            let p = pair_value(s[2 * n - 2], s[2 * n - 1])->Some_0;
            let q = vstd::arithmetic::power::pow(256, (n - 1) as nat);
            assert(0 <= p < 256);
            assert(0 <= w * 256 + p < q * 256) by (nonlinear_arith)
                requires
                    0 <= w < q,
                    0 <= p < 256,
            ;
        }
    }
}

/// Parses a 16-digit hexadecimal media key into an id; 0 where the key is
/// not such.
pub fn parse_media_key(key: &str) -> (r: Id)
    ensures
        r == media_key(key.spec_bytes()),
{
    let b = key.as_bytes();
    if b.len() != 16 {
        return 0;
    }
    let mut acc: u64 = 0;
    let mut i: usize = 0;
    while i < 8
        invariant
            b@ == key.spec_bytes(),
            b@.len() == 16,
            0 <= i <= 8,
            key_value(b@, i as int) == Some(acc as int),
        decreases 8 - i,
    {
        proof {
            lemma_key_value_bound(b@, i as int);
            vstd::arithmetic::power::lemma_pow_increases(256, i as nat, 7);
            assert(vstd::arithmetic::power::pow(256, 7) == 0x100_0000_0000_0000) by {
                reveal_with_fuel(vstd::arithmetic::power::pow, 8);
            }
        }
        let p = match pair_value_exec(b[2 * i], b[2 * i + 1]) {
            Some(p) => p,
            None => {
                proof {
                    lemma_key_value_none(b@, i + 1, 8);
                }
                return 0;
            },
        };
        assert(acc * 256 + p <= u64::MAX) by (nonlinear_arith)
            requires
                acc < 0x100_0000_0000_0000,
                p < 256,
        ;
        acc = acc * 256 + p;
        i += 1;
    }
    if acc >= 0x8000_0000_0000_0000 {
        ((acc - 0x8000_0000_0000_0000) as i64) + i64::MIN
    } else {
        acc as i64
    }
}

} // verus!
