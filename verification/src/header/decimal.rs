//! Exact decimal numbers for header fields that carry fractional values
//! (sampling frequency, counter frequency, base counter, ADC gain).
//!
//! A value is kept as `mantissa * 10^(-scale)` in a canonical form: the scale
//! is zero, or the mantissa is not divisible by ten. Two canonical decimals
//! denote the same number exactly when their fields are equal.

use vstd::prelude::*;

use crate::header::text::{all_digits, digits_val, is_digit, lemma_digits_val_nonneg,
    spec_find, spec_parse_i64, spec_parse_uint, find_char, parse_i64, parse_u64, digit,
    lemma_spec_find};

verus! {

/// `10^e`.
pub open spec fn pow10(e: nat) -> int
    decreases e,
{
    if e == 0 {
        1
    } else {
        10 * pow10((e - 1) as nat)
    }
}

/// Powers of ten are positive.
pub broadcast proof fn lemma_pow10_pos(e: nat)
    ensures
        #[trigger] pow10(e) >= 1,
    decreases e,
{
    if e > 0 {
        lemma_pow10_pos((e - 1) as nat);
    }
}

/// The canonical form of a non-negative mantissa and scale: trailing factors
/// of ten move out of the mantissa; zero has scale zero.
pub open spec fn spec_norm(m: int, s: int) -> (int, int)
    decreases (if s >= 0 {
        s
    } else {
        0int
    }),
{
    if m == 0 {
        (0int, 0int)
    } else if s > 0 && m % 10 == 0 {
        spec_norm(m / 10, s - 1)
    } else {
        (m, s)
    }
}

/// The canonical form with the sign applied to the mantissa.
pub open spec fn spec_norm_signed(neg: bool, mag: int, s: int) -> (int, int) {
    let n = spec_norm(mag, s);
    (
        if neg {
            -n.0
        } else {
            n.0
        },
        n.1,
    )
}

/// Normalization keeps the magnitude bounded and the result canonical.
pub proof fn lemma_spec_norm(m: int, s: int)
    requires
        0 <= m,
        0 <= s,
    ensures
        0 <= spec_norm(m, s).0 <= m,
        0 <= spec_norm(m, s).1 <= s,
        spec_norm(m, s).1 == 0 || spec_norm(m, s).0 % 10 != 0,
    decreases s,
{
    if m != 0 && s > 0 && m % 10 == 0 {
        lemma_spec_norm(m / 10, s - 1);
    }
}

/// An exact decimal number: `mantissa * 10^(-scale)`, canonical.
#[derive(Debug, Clone, Copy)]
pub struct Decimal {
    mantissa: i64,
    scale: u32,
}

impl Decimal {
    /// The mantissa.
    pub closed spec fn spec_mantissa(&self) -> int {
        self.mantissa as int
    }

    /// The scale: the power of ten dividing the mantissa.
    pub closed spec fn spec_scale(&self) -> int {
        self.scale as int
    }

    /// Canonical: scale zero, or a mantissa not divisible by ten.
    pub open spec fn wf(&self) -> bool {
        self.spec_scale() == 0 || self.spec_mantissa() % 10 != 0
    }

    /// The denoted value, as the canonical pair.
    pub open spec fn spec_pair(&self) -> (int, int) {
        (self.spec_mantissa(), self.spec_scale())
    }

    /// Builds the decimal `mantissa * 10^(-decimals)`, normalized.
    pub fn new(mantissa: i64, decimals: u32) -> (r: Decimal)
        ensures
            r.wf(),
            r.spec_pair() == spec_norm_signed(
                mantissa < 0,
                (if mantissa >= 0 {
                    mantissa as int
                } else {
                    -(mantissa as int)
                }),
                decimals as int,
            ),
    {
        let neg = mantissa < 0;
        let mag: u64 = if mantissa >= 0 {
            mantissa as u64
        } else {
            (-(mantissa as i128)) as u64
        };
        Decimal::build(neg, mag, decimals)
    }

    /// Builds the decimal `(sign) mag * 10^(-decimals)`, normalized.
    /// The magnitude must leave the signed mantissa representable.
    fn build(neg: bool, mag: u64, decimals: u32) -> (r: Decimal)
        requires
            mag <= 0x8000_0000_0000_0000u64,
            neg || mag <= i64::MAX,
        ensures
            r.wf(),
            r.spec_pair() == spec_norm_signed(neg, mag as int, decimals as int),
    {
        proof {
            lemma_spec_norm(mag as int, decimals as int);
        }
        let mut m: u64 = mag;
        let mut sc: u32 = decimals;
        if m == 0 {
            sc = 0;
        } else {
            while sc > 0 && m % 10 == 0
                invariant
                    m >= 1,
                    m <= mag,
                    sc <= decimals,
                    spec_norm(m as int, sc as int) == spec_norm(mag as int, decimals as int),
                decreases sc,
            {
                m = m / 10;
                sc = sc - 1;
                assert(m >= 1);
            }
        }
        let mantissa: i64 = if neg {
            (-(m as i128)) as i64
        } else {
            m as i64
        };
        Decimal { mantissa, scale: sc }
    }

    /// The mantissa, sign included.
    pub fn mantissa(&self) -> (r: i64)
        ensures
            r as int == self.spec_mantissa(),
    {
        self.mantissa
    }

    /// The scale.
    pub fn scale(&self) -> (r: u32)
        ensures
            r as int == self.spec_scale(),
    {
        self.scale
    }

    /// Whether the value is strictly positive.
    pub fn is_positive(&self) -> (r: bool)
        ensures
            r == (self.spec_mantissa() > 0),
    {
        self.mantissa > 0
    }

    /// Whether the value is an integer, in which case the mantissa is it.
    pub fn as_integer(&self) -> (r: Option<i64>)
        ensures
            self.spec_scale() == 0 ==> r == Some((self.spec_mantissa() as i64)),
            self.spec_scale() != 0 ==> r is None,
    {
        if self.scale == 0 {
            Some(self.mantissa)
        } else {
            None
        }
    }
}

impl PartialEq for Decimal {
    /// Canonical decimals are equal exactly when their fields are.
    fn eq(&self, other: &Decimal) -> (r: bool) {
        self.mantissa == other.mantissa && self.scale == other.scale
    }
}

impl vstd::std_specs::cmp::PartialEqSpecImpl for Decimal {
    open spec fn obeys_eq_spec() -> bool {
        true
    }

    open spec fn eq_spec(&self, other: &Decimal) -> bool {
        self.spec_mantissa() == other.spec_mantissa() && self.spec_scale() == other.spec_scale()
    }
}

/// The position of the exponent marker (`e` or `E`), or the length.
pub open spec fn spec_find_exp(s: Seq<char>) -> int {
    if spec_find(s, 'e') <= spec_find(s, 'E') {
        spec_find(s, 'e')
    } else {
        spec_find(s, 'E')
    }
}

/// The decimal a token denotes, as a canonical `(mantissa, scale)` pair:
/// an optional sign, digits with at most one decimal point (at least one
/// digit in all), and an optional integer exponent. `None` when malformed,
/// or when the value cannot be represented with an `i64` mantissa.
pub open spec fn spec_parse_decimal(s: Seq<char>) -> Option<(int, int)> {
    if s.len() == 0 {
        None
    } else {
        let neg = s[0] == '-';
        let m0 = if s[0] == '-' || s[0] == '+' {
            s.skip(1)
        } else {
            s
        };
        let epos = spec_find_exp(m0);
        let mant = m0.take(epos);
        let dot = spec_find(mant, '.');
        let dig = if dot < mant.len() {
            mant.take(dot) + mant.skip(dot + 1)
        } else {
            mant
        };
        let fraclen: int = if dot < mant.len() {
            mant.len() - dot - 1
        } else {
            0
        };
        let exp: Option<i64> = if epos < m0.len() {
            spec_parse_i64(m0.skip(epos + 1))
        } else {
            Some(0i64)
        };
        if !(dig.len() >= 1 && all_digits(dig)) {
            None
        } else if exp is None {
            None
        } else if digits_val(dig) > i64::MAX {
            None
        } else if digits_val(dig) == 0 {
            Some((0int, 0int))
        } else {
            let texp = exp->Some_0 - fraclen;
            if texp >= 0 {
                if digits_val(dig) * pow10(texp as nat) > i64::MAX {
                    None
                } else {
                    Some(
                        (
                            if neg {
                                -(digits_val(dig) * pow10(texp as nat))
                            } else {
                                digits_val(dig) * pow10(texp as nat)
                            },
                            0int,
                        ),
                    )
                }
            } else {
                if -texp > u32::MAX {
                    None
                } else {
                    Some(spec_norm_signed(neg, digits_val(dig), -texp))
                }
            }
        }
    }
}

/// `10^(a+b) == 10^a * 10^b`.
pub proof fn lemma_pow10_adds(a: nat, b: nat)
    ensures
        pow10(a + b) == pow10(a) * pow10(b),
    decreases a,
{
    if a > 0 {
        lemma_pow10_adds((a - 1) as nat, b);
        vstd::arithmetic::mul::lemma_mul_is_associative(10, pow10((a - 1) as nat), pow10(b));
    }
}

/// Whether every character of the token is a digit.
fn check_digits(s: &str) -> (r: bool)
    ensures
        r == all_digits(s@),
{
    let n = s.unicode_len();
    let mut i: usize = 0;
    while i < n
        invariant
            i <= n,
            n == s@.len(),
            forall|k: int| 0 <= k < i ==> is_digit(s@[k]),
        decreases n - i,
    {
        let c = s.get_char(i);
        if !digit(c) {
            return false;
        }
        i = i + 1;
    }
    true
}

impl Decimal {
    /// Parses a token as a decimal number, per `spec_parse_decimal`.
    #[verifier::rlimit(50)]
    #[verifier::loop_isolation(false)]
    pub fn parse(s: &str) -> (r: Option<Decimal>)
        ensures
            match r {
                Some(d) => spec_parse_decimal(s@) == Some(d.spec_pair()) && d.wf(),
                None => spec_parse_decimal(s@) is None,
            },
    {
        broadcast use lemma_digits_val_nonneg, lemma_pow10_pos;

        let n = s.unicode_len();
        if n == 0 {
            return None;
        }
        let c0 = s.get_char(0);
        let neg = c0 == '-';
        let start: usize = if c0 == '-' || c0 == '+' {
            1
        } else {
            0
        };
        let sub = s.substring_char(start, n);
        proof {
            assert(sub@ =~= (if s@[0] == '-' || s@[0] == '+' {
                s@.skip(1)
            } else {
                s@
            }));
        }
        let ghost m0 = sub@;
        let sub_len = sub.unicode_len();
        let e1 = find_char(sub, 'e');
        let e2 = find_char(sub, 'E');
        let epos = if e1 <= e2 {
            e1
        } else {
            e2
        };
        proof {
            lemma_spec_find(m0, 'e');
            lemma_spec_find(m0, 'E');
            assert(epos == spec_find_exp(m0));
        }
        let mant = sub.substring_char(0, epos);
        proof {
            assert(mant@ =~= m0.take(epos as int));
        }
        let mant_len = mant.unicode_len();
        let dot = find_char(mant, '.');
        proof {
            lemma_spec_find(mant@, '.');
        }
        let dig: String = if dot < mant_len {
            mant.substring_char(0, dot).to_owned().concat(mant.substring_char(dot + 1, mant_len))
        } else {
            mant.to_owned()
        };
        proof {
            assert(dig@ =~= (if spec_find(mant@, '.') < mant@.len() {
                mant@.take(spec_find(mant@, '.')) + mant@.skip(spec_find(mant@, '.') + 1)
            } else {
                mant@
            }));
        }
        let fraclen: usize = if dot < mant_len {
            mant_len - dot - 1
        } else {
            0
        };
        // The digits must be non-empty and all decimal.
        if dig.as_str().unicode_len() == 0 {
            return None;
        }
        if !check_digits(dig.as_str()) {
            return None;
        }
        // The exponent, when present, must be a signed integer.
        let mut exp: i64 = 0;
        if epos < sub_len {
            let exp_tok = sub.substring_char(epos + 1, sub_len);
            proof {
                assert(exp_tok@ =~= m0.skip(epos as int + 1));
            }
            match parse_i64(exp_tok) {
                Some(e) => {
                    exp = e;
                },
                None => {
                    return None;
                },
            }
        }
        // The digits' value, bounded by the representable mantissa range.
        let v: u64 = match parse_u64(dig.as_str()) {
            Some(v) => v,
            None => {
                return None;
            },
        };
        proof {
            assert(dig@.len() > 0 && dig@[0] != '+');
            assert(spec_parse_uint(dig@) == Some(digits_val(dig@)));
        }
        if v > i64::MAX as u64 {
            return None;
        }
        if v == 0 {
            return Some(Decimal { mantissa: 0, scale: 0 });
        }
        let texp: i128 = (exp as i128) - (fraclen as i128);
        if texp >= 0 {
            // Multiply the exponent out; the value must stay representable.
            let ghost tx = texp as nat;
            let mut mag: u64 = v;
            let mut k: i128 = 0;
            proof {
                assert(pow10(0) == 1);
                assert(v * pow10(0) == v) by (nonlinear_arith)
                    requires
                        pow10(0) == 1,
                ;
            }
            while k < texp
                invariant
                    0 <= k <= texp,
                    texp == tx,
                    v >= 1,
                    mag as int == v * pow10(k as nat),
                    mag >= 1,
                decreases texp - k,
            {
                let ghost oldmag = mag as int;
                mag = match mag.checked_mul(10) {
                    Some(x) => x,
                    None => {
                        // Overflow: the full value exceeds the mantissa range.
                        proof {
                            lemma_pow10_adds((k + 1) as nat, (tx - k - 1) as nat);
                            lemma_pow10_pos((tx - k - 1) as nat);
                            assert(pow10((k + 1) as nat) == 10 * pow10(k as nat));
                            assert(v * pow10(tx) > u64::MAX) by (nonlinear_arith)
                                requires
                                    pow10(tx) == pow10((k + 1) as nat) * pow10(
                                        (tx - k - 1) as nat,
                                    ),
                                    pow10((k + 1) as nat) == 10 * pow10(k as nat),
                                    pow10((tx - k - 1) as nat) >= 1,
                                    v * pow10(k as nat) == oldmag,
                                    oldmag * 10 > u64::MAX,
                                    oldmag >= 1,
                            ;
                            assert(digits_val(dig@) * pow10(tx) > i64::MAX);
                        }
                        return None;
                    },
                };
                proof {
                    assert(mag as int == oldmag * 10);
                    assert(pow10((k + 1) as nat) == 10 * pow10(k as nat));
                    assert(v * pow10((k + 1) as nat) == oldmag * 10) by (nonlinear_arith)
                        requires
                            pow10((k + 1) as nat) == 10 * pow10(k as nat),
                            v * pow10(k as nat) == oldmag,
                    ;
                }
                k = k + 1;
            }
            if mag > i64::MAX as u64 {
                return None;
            }
            let r = Decimal::build(neg, mag, 0);
            proof {
                assert(spec_norm(mag as int, 0) == (mag as int, 0int));
            }
            Some(r)
        } else {
            let scale_wide: i128 = -texp;
            if scale_wide > u32::MAX as i128 {
                return None;
            }
            let r = Decimal::build(neg, v, scale_wide as u32);
            Some(r)
        }
    }
}

} // verus!
