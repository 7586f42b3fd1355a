//! Exact decimal values for money.
//!
//! A `Decimal` is the pair `mantissa * 10^(-scale)`. The library never
//! rounds: a balance travels from the backend snapshot into the account set
//! verbatim, so no floating-point drift can occur inside the core.

use vstd::prelude::*;
use vstd::string::StrSliceExecFns;
use vstd::string::StringSliceAdditionalSpecFns;

verus! {

/// The ASCII code of a decimal digit.
pub open spec fn is_digit(c: u8) -> bool {
    48 <= c <= 57
}

/// The first position at or after `i` holding no digit.
pub open spec fn digits_end(s: Seq<u8>, i: int) -> int
    decreases s.len() - i,
{
    if 0 <= i < s.len() && is_digit(s[i]) {
        digits_end(s, i + 1)
    } else {
        i
    }
}

/// Left fold of a digit run onto an accumulator: reading the digits of
/// `s[i..j]` after the digits already in `acc`.
pub open spec fn digits_val_from(s: Seq<u8>, i: int, j: int, acc: int) -> int
    decreases j - i,
{
    if i < j && 0 <= i < s.len() {
        digits_val_from(s, i + 1, j, acc * 10 + (s[i] - 48))
    } else {
        acc
    }
}

/// Ten to the `n`.
pub open spec fn pow10(n: nat) -> int
    decreases n,
{
    if n == 0 {
        1
    } else {
        10 * pow10((n - 1) as nat)
    }
}

/// `digits_end` never moves backwards and stays inside the sequence.
pub proof fn lemma_digits_end_bounds(s: Seq<u8>, i: int)
    requires
        0 <= i <= s.len(),
    ensures
        i <= digits_end(s, i) <= s.len(),
    decreases s.len() - i,
{
    if i < s.len() && is_digit(s[i]) {
        lemma_digits_end_bounds(s, i + 1);
    }
}

/// `pow10` is positive and grows with its argument.
pub proof fn lemma_pow10_mono(a: nat, b: nat)
    requires
        a <= b,
    ensures
        0 < pow10(a) <= pow10(b),
    decreases b - a,
{
    if a < b {
        lemma_pow10_mono(a, (b - 1) as nat);
    } else {
        lemma_pow10_pos(a);
    }
}

/// `pow10` is positive.
pub proof fn lemma_pow10_pos(n: nat)
    ensures
        pow10(n) > 0,
    decreases n,
{
    if n > 0 {
        lemma_pow10_pos((n - 1) as nat);
    }
}

/// The two powers of ten the digit cap leans on.
proof fn lemma_pow10_cap()
    ensures
        pow10(27) == 1000000000000000000000000000,
        pow10(28) == 10000000000000000000000000000,
{
    reveal_with_fuel(pow10, 29);
}

/// An exact decimal number: `mantissa / 10^scale`.
///
/// `in_range` bounds the pair to what a 96-bit decimal representation can
/// carry, so the boundary code can hand the value to such a representation
/// without loss.
#[derive(Clone, Copy, Debug, PartialEq, Eq, Structural)]
pub struct Decimal {
    pub mantissa: i128,
    pub scale: u32,
}

impl Decimal {
    /// The value fits a 96-bit mantissa with at most 28 fractional digits.
    pub open spec fn in_range(self) -> bool {
        &&& -0x1000000000000000000000000 < self.mantissa < 0x1000000000000000000000000
        &&& self.scale <= 28
    }

    /// Build a decimal, refusing a pair outside the representable range.
    pub fn new(mantissa: i128, scale: u32) -> (r: Option<Decimal>)
        ensures
            match r {
                Some(d) => d.mantissa == mantissa && d.scale == scale && d.in_range(),
                None => !(Decimal { mantissa, scale }).in_range(),
            },
    {
        if -0x1000000000000000000000000i128 < mantissa && mantissa
            < 0x1000000000000000000000000i128 && scale <= 28 {
            Some(Decimal { mantissa, scale })
        } else {
            None
        }
    }
}

/// Scan one digit run from `start`, folding its digits onto `acc0`. Fails
/// once more than 28 digits have been read in all.
fn digits_run(s: &Vec<u8>, start: usize, acc0: i128, cnt0: u32) -> (r: Option<(i128, usize, u32)>)
    requires
        start <= s@.len(),
        cnt0 <= 28,
        0 <= acc0 < pow10(cnt0 as nat),
    ensures
        match r {
            Some(t) => {
                &&& t.1 == digits_end(s@, start as int)
                &&& t.0 == digits_val_from(s@, start as int, t.1 as int, acc0 as int)
                &&& t.2 == cnt0 + (t.1 - start)
                &&& t.2 <= 28
                &&& 0 <= t.0 < pow10(t.2 as nat)
            },
            None => cnt0 + (digits_end(s@, start as int) - start) > 28,
        },
{
    let n = s.len();
    let mut i: usize = start;
    let mut acc: i128 = acc0;
    let mut cnt: u32 = cnt0;
    proof {
        lemma_digits_end_bounds(s@, start as int);
    }
    while i < n && 48 <= s[i] && s[i] <= 57
        invariant
            start <= i <= n,
            n == s@.len(),
            cnt == cnt0 + (i - start),
            cnt <= 28,
            0 <= acc < pow10(cnt as nat),
            digits_end(s@, start as int) == digits_end(s@, i as int),
            forall|j: int|
                i as int <= j <= s@.len() ==> digits_val_from(s@, start as int, j, acc0 as int)
                    == digits_val_from(s@, i as int, j, acc as int),
        decreases n - i,
    {
        let c = s[i];
        if cnt == 28 {
            proof {
                lemma_digits_end_bounds(s@, i as int + 1);
                assert(digits_end(s@, i as int) == digits_end(s@, i as int + 1));
            }
            return None;
        }
        proof {
            lemma_pow10_mono(cnt as nat, 27);
            lemma_pow10_cap();
            assert(pow10((cnt + 1) as nat) == 10 * pow10(cnt as nat));
        }
        let acc2 = acc * 10 + ((c - 48) as i128);
        proof {
            assert(digits_end(s@, i as int) == digits_end(s@, i as int + 1));
            assert forall|j: int|
                i as int + 1 <= j <= s@.len() implies digits_val_from(
                s@,
                start as int,
                j,
                acc0 as int,
            ) == digits_val_from(s@, i as int + 1, j, acc2 as int) by {
                assert(digits_val_from(s@, i as int, j, acc as int) == digits_val_from(
                    s@,
                    i as int + 1,
                    j,
                    (acc as int) * 10 + (s@[i as int] - 48),
                ));
            }
        }
        acc = acc2;
        cnt = cnt + 1;
        i = i + 1;
    }
    proof {
        assert(digits_end(s@, i as int) == i as int);
    }
    Some((acc, i, cnt))
}

/// The grammar of a plain decimal literal: an optional minus sign, integer
/// digits, and an optional dot with fraction digits; nothing else, at most
/// 28 digits in all, and no exponent notation. The value is exact: the
/// mantissa is the digit string read as an integer, the scale is the
/// fraction's length.
pub open spec fn spec_parse_decimal(s: Seq<u8>) -> Option<Decimal> {
    let i0: int = if s.len() > 0 && s[0] == 45 {
        1
    } else {
        0
    };
    let neg = i0 == 1;
    let j = digits_end(s, i0);
    if j == i0 || j - i0 > 28 {
        None
    } else if j == s.len() {
        Some(signed_decimal(neg, digits_val_from(s, i0, j, 0), 0))
    } else if s[j] == 46 {
        let k = digits_end(s, j + 1);
        if k == j + 1 || k != s.len() || (j - i0) + (k - (j + 1)) > 28 {
            None
        } else {
            Some(
                signed_decimal(
                    neg,
                    digits_val_from(s, j + 1, k, digits_val_from(s, i0, j, 0)),
                    (k - (j + 1)) as u32,
                ),
            )
        }
    } else {
        None
    }
}

/// The decimal for a parsed magnitude and sign.
pub open spec fn signed_decimal(neg: bool, m: int, scale: u32) -> Decimal {
    Decimal {
        mantissa: (if neg {
            -m
        } else {
            m
        }) as i128,
        scale,
    }
}

impl Decimal {
    /// Parse a plain decimal literal exactly: no floating point stands
    /// between the digits and the value. Anything outside the grammar of
    /// `spec_parse_decimal`, including exponent notation and a 29th digit,
    /// is refused.
    pub fn parse(text: &str) -> (r: Option<Decimal>)
        ensures
            r == spec_parse_decimal(text.spec_bytes()),
            r is Some ==> r.unwrap().in_range(),
    {
        let bytes = text.as_bytes_vec();
        Self::parse_bytes(&bytes)
    }

    /// `parse`, over the literal's bytes.
    pub fn parse_bytes(s: &Vec<u8>) -> (r: Option<Decimal>)
        ensures
            r == spec_parse_decimal(s@),
            r is Some ==> r.unwrap().in_range(),
    {
        let n = s.len();
        let neg = n > 0 && s[0] == 45;
        let i0: usize = if neg {
            1
        } else {
            0
        };
        proof {
            lemma_pow10_cap();
            lemma_digits_end_bounds(s@, i0 as int);
        }
        let (ip, j, cnt) = match digits_run(s, i0, 0, 0) {
            Some(t) => t,
            None => {
                return None;
            },
        };
        if j == i0 {
            return None;
        }
        if j == n {
            proof {
                lemma_pow10_mono(cnt as nat, 28);
            }
            let m = if neg {
                -ip
            } else {
                ip
            };
            return Some(Decimal { mantissa: m, scale: 0 });
        }
        if s[j] != 46 {
            return None;
        }
        let (m0, k, cnt2) = match digits_run(s, j + 1, ip, cnt) {
            Some(t) => t,
            None => {
                return None;
            },
        };
        if k == j + 1 || k != n {
            return None;
        }
        proof {
            lemma_pow10_mono(cnt2 as nat, 28);
        }
        let m = if neg {
            -m0
        } else {
            m0
        };
        Some(Decimal { mantissa: m, scale: (k - (j + 1)) as u32 })
    }
}

} // verus!
