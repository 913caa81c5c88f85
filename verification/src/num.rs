//! Exact decimal numbers for the configuration language's numeric tests.
//!
//! A numeric operand is read as an exact decimal: an optional sign, digits,
//! and an optional fraction part. A value is held as a sign, a mantissa and
//! a scale, denoting `mant / 10^scale` with the sign applied. Comparisons
//! and the modulo test are exact over these rationals. The grammar caps the
//! fraction at eighteen digits and the mantissa at what fits in 64 bits;
//! longer notations, exponent forms and infinities are not numeric to this
//! library.

use vstd::arithmetic::mul::lemma_mul_upper_bound;
use vstd::prelude::*;

use crate::chars::all_digits;
use crate::chars::digits_to_u64;
use crate::chars::digits_val;
use crate::chars::find_sub;
use crate::chars::lemma_find_characterization;
use crate::chars::match_at;
use crate::chars::push_all;
use crate::chars::spec_find;
use crate::chars::str_to_chars;
use crate::chars::subrange_chars;

verus! {

/// The mathematical content of a [`Number`]: the value is
/// `mant / 10^scale`, negated when `neg` is set.
pub struct NumV {
    pub neg: bool,
    pub mant: nat,
    pub scale: nat,
}

/// Ten to the power `e`.
pub open spec fn pow10(e: nat) -> nat
    decreases e,
{
    if e == 0 {
        1
    } else {
        10 * pow10((e - 1) as nat)
    }
}

/// The decimal grammar: an optional sign, then digits with at most one
/// point, at least one digit in all, a fraction of at most eighteen digits,
/// and a combined digit string whose value fits in 64 bits.
pub open spec fn spec_parse_number(s: Seq<char>) -> Option<NumV> {
    let neg = s.len() > 0 && s[0] == '-';
    let body = if s.len() > 0 && (s[0] == '-' || s[0] == '+') {
        s.subrange(1, s.len() as int)
    } else {
        s
    };
    match spec_find(body, seq!['.']) {
        Some(i) => {
            let ip = body.subrange(0, i as int);
            let fp = body.subrange(i + 1 as int, body.len() as int);
            if all_digits(ip) && all_digits(fp) && ip.len() + fp.len() >= 1 && fp.len() <= 18
                && digits_val(ip + fp) <= u64::MAX {
                Some(NumV { neg, mant: digits_val(ip + fp), scale: fp.len() })
            } else {
                None
            }
        },
        None => {
            if body.len() >= 1 && all_digits(body) && digits_val(body) <= u64::MAX {
                Some(NumV { neg, mant: digits_val(body), scale: 0nat })
            } else {
                None
            }
        },
    }
}

/// Whether `s` denotes a number in this library's decimal grammar.
pub open spec fn is_numeric_str(s: Seq<char>) -> bool {
    spec_parse_number(s) is Some
}

/// The sign of a decimal value: -1, 0 or 1.
pub open spec fn num_sign(a: NumV) -> int {
    if a.mant == 0 {
        0
    } else if a.neg {
        -1
    } else {
        1
    }
}

/// Whether `a < b` as exact rationals, by cross-multiplying the scales.
pub open spec fn num_lt(a: NumV, b: NumV) -> bool {
    num_sign(a) * (a.mant * pow10(b.scale)) < num_sign(b) * (b.mant * pow10(a.scale))
}

/// Whether the remainder of `v` divided by `d` equals `r`, exactly.
///
/// The remainder is the truncated one: its magnitude is `|v| mod |d|` over
/// a common scale and its sign follows the dividend. A zero divisor makes
/// the test false.
pub open spec fn num_mod_eq(v: NumV, d: NumV, r: NumV) -> bool {
    if d.mant == 0 {
        false
    } else {
        let s = max3(v.scale, d.scale, r.scale);
        let vm = v.mant * pow10((s - v.scale) as nat);
        let dm = d.mant * pow10((s - d.scale) as nat);
        let rm = r.mant * pow10((s - r.scale) as nat);
        let m = vm % dm;
        m == rm && (m == 0 || v.neg == r.neg)
    }
}

/// The largest of three naturals.
pub open spec fn max3(a: nat, b: nat, c: nat) -> nat {
    if a >= b && a >= c {
        a
    } else if b >= c {
        b
    } else {
        c
    }
}

/// Powers of ten grow with the exponent and are at least one.
pub proof fn lemma_pow10_le(e1: nat, e2: nat)
    requires
        e1 <= e2,
    ensures
        1 <= pow10(e1) <= pow10(e2),
    decreases e2,
{
    if e2 == 0 {
    } else if e1 == e2 {
        lemma_pow10_le(0, (e2 - 1) as nat);
    } else {
        lemma_pow10_le(e1, (e2 - 1) as nat);
    }
}

/// The numeric value of ten to the eighteenth.
pub proof fn lemma_pow10_18()
    ensures
        pow10(18) == 1_000_000_000_000_000_000,
{
    reveal_with_fuel(pow10, 20);
}

/// An exact decimal number: sign, mantissa and scale. The value denoted is
/// `mant / 10^scale`, negated when `neg` is set.
#[derive(Debug, Clone, Copy, PartialEq, Eq)]
pub struct Number {
    neg: bool,
    mant: u64,
    scale: u32,
}

impl View for Number {
    type V = NumV;

    closed spec fn view(&self) -> NumV {
        NumV { neg: self.neg, mant: self.mant as nat, scale: self.scale as nat }
    }
}

impl Number {
    #[verifier::type_invariant]
    spec fn wf(self) -> bool {
        self.scale <= 18
    }

    /// Reads a number in the decimal grammar from a string.
    pub fn from_decimal_str(s: &str) -> (r: Option<Number>)
        ensures
            match r {
                Some(n) => spec_parse_number(s@) == Some(n@),
                None => spec_parse_number(s@) is None,
            },
    {
        let v = str_to_chars(s);
        Self::from_chars(&v)
    }

    /// Reads a number in the decimal grammar from a character vector.
    pub(crate) fn from_chars(v: &Vec<char>) -> (r: Option<Number>)
        ensures
            match r {
                Some(n) => spec_parse_number(v@) == Some(n@),
                None => spec_parse_number(v@) is None,
            },
    {
        let neg = v.len() > 0 && v[0] == '-';
        let start: usize = if v.len() > 0 && (v[0] == '-' || v[0] == '+') {
            1
        } else {
            0
        };
        let body = subrange_chars(v, start, v.len());
        proof {
            if start == 0 {
                assert(v@.subrange(0, v@.len() as int) =~= v@);
            }
        }
        let mut dot: Vec<char> = Vec::new();
        dot.push('.');
        proof {
            assert(dot@ =~= seq!['.']);
        }
        match find_sub(&body, &dot) {
            Some(i) => {
                proof {
                    lemma_find_characterization(body@, dot@);
                    assert(match_at(body@, dot@, i as int));
                }
                let fp_len = body.len() - (i + 1);
                let mut cat = subrange_chars(&body, 0, i);
                let fp = subrange_chars(&body, i + 1, body.len());
                push_all(&mut cat, &fp);
                let ghost ip_s = body@.subrange(0, i as int);
                let ghost fp_s = body@.subrange(i + 1 as int, body@.len() as int);
                proof {
                    assert(cat@ =~= ip_s + fp_s);
                }
                if fp_len > 18 {
                    return None;
                }
                if cat.len() == 0 {
                    return None;
                }
                match digits_to_u64(&cat, 0, cat.len()) {
                    Some(m) => {
                        proof {
                            assert(cat@.subrange(0, cat@.len() as int) =~= cat@);
                            assert forall|j: int| 0 <= j < ip_s.len() implies crate::chars::is_digit(
                                ip_s[j],
                            ) by {
                                assert(cat@[j] == ip_s[j]);
                            }
                            assert forall|j: int| 0 <= j < fp_s.len() implies crate::chars::is_digit(
                                fp_s[j],
                            ) by {
                                assert(cat@[ip_s.len() + j] == fp_s[j]);
                            }
                        }
                        Some(Number { neg, mant: m, scale: fp_len as u32 })
                    },
                    None => {
                        proof {
                            assert(cat@.subrange(0, cat@.len() as int) =~= cat@);
                            if all_digits(ip_s) && all_digits(fp_s) {
                                assert forall|j: int|
                                    0 <= j < cat@.len() implies crate::chars::is_digit(
                                    cat@[j],
                                ) by {
                                    if j < ip_s.len() {
                                        assert(cat@[j] == ip_s[j]);
                                    } else {
                                        assert(cat@[j] == fp_s[j - ip_s.len()]);
                                    }
                                }
                            }
                        }
                        None
                    },
                }
            },
            None => {
                if body.len() == 0 {
                    return None;
                }
                match digits_to_u64(&body, 0, body.len()) {
                    Some(m) => {
                        proof {
                            assert(body@.subrange(0, body@.len() as int) =~= body@);
                        }
                        Some(Number { neg, mant: m, scale: 0 })
                    },
                    None => {
                        proof {
                            assert(body@.subrange(0, body@.len() as int) =~= body@);
                        }
                        None
                    },
                }
            },
        }
    }

    /// Whether this number is strictly less than `other`, exactly.
    pub fn lt(&self, other: &Number) -> (r: bool)
        ensures
            r == num_lt(self@, other@),
    {
        proof {
            use_type_invariant(&*self);
            use_type_invariant(&*other);
        }
        let pa = mul_mant_pow10(self.mant, other.scale);
        let pb = mul_mant_pow10(other.mant, self.scale);
        let na = self.neg && self.mant != 0;
        let nb = other.neg && other.mant != 0;
        proof {
            if self.mant != 0 {
                lemma_pow10_le(0, other.scale as nat);
                assert(pa >= 1) by (nonlinear_arith)
                    requires
                        pa == self.mant as nat * pow10(other.scale as nat),
                        self.mant >= 1,
                        pow10(other.scale as nat) >= 1,
                ;
            }
            if other.mant != 0 {
                lemma_pow10_le(0, self.scale as nat);
                assert(pb >= 1) by (nonlinear_arith)
                    requires
                        pb == other.mant as nat * pow10(self.scale as nat),
                        other.mant >= 1,
                        pow10(self.scale as nat) >= 1,
                ;
            }
        }
        proof {
            let l = self@.mant * pow10(other@.scale);
            let rr = other@.mant * pow10(self@.scale);
            assert(pa == l);
            assert(pb == rr);
            if self.mant == 0 {
                assert(pa == 0) by (nonlinear_arith)
                    requires
                        pa == self.mant as nat * pow10(other.scale as nat),
                        self.mant == 0,
                ;
            }
            if other.mant == 0 {
                assert(pb == 0) by (nonlinear_arith)
                    requires
                        pb == other.mant as nat * pow10(self.scale as nat),
                        other.mant == 0,
                ;
            }
            assert(num_sign(self@) * l == if na {
                -(pa as int)
            } else {
                pa as int
            });
            assert(num_sign(other@) * rr == if nb {
                -(pb as int)
            } else {
                pb as int
            });
        }
        if na {
            if nb {
                pb < pa
            } else {
                true
            }
        } else {
            if nb {
                false
            } else {
                pa < pb
            }
        }
    }

    /// Whether this number is strictly greater than `other`, exactly.
    pub fn gt(&self, other: &Number) -> (r: bool)
        ensures
            r == num_lt(other@, self@),
    {
        other.lt(self)
    }

    /// Whether the truncated remainder of `self` divided by `divisor`
    /// equals `remainder`, exactly.
    pub fn mod_eq(&self, divisor: &Number, remainder: &Number) -> (r: bool)
        ensures
            r == num_mod_eq(self@, divisor@, remainder@),
    {
        proof {
            use_type_invariant(&*self);
            use_type_invariant(&*divisor);
            use_type_invariant(&*remainder);
        }
        let mut s = self.scale;
        if divisor.scale > s {
            s = divisor.scale;
        }
        if remainder.scale > s {
            s = remainder.scale;
        }
        proof {
            assert(s as nat == max3(self@.scale, divisor@.scale, remainder@.scale));
        }
        let vm = mul_mant_pow10(self.mant, s - self.scale);
        let dm = mul_mant_pow10(divisor.mant, s - divisor.scale);
        let rm = mul_mant_pow10(remainder.mant, s - remainder.scale);
        proof {
            lemma_pow10_le(0, (s - divisor.scale) as nat);
            if divisor.mant != 0 {
                assert(dm >= 1) by (nonlinear_arith)
                    requires
                        dm == divisor.mant as nat * pow10((s - divisor.scale) as nat),
                        divisor.mant >= 1,
                        pow10((s - divisor.scale) as nat) >= 1,
                ;
            }
            if divisor.mant == 0 {
                assert(dm == 0) by (nonlinear_arith)
                    requires
                        dm == divisor.mant as nat * pow10(
                            (max3(self@.scale, divisor@.scale, remainder@.scale) - divisor@.scale)
                                as nat,
                        ),
                        divisor.mant == 0,
                ;
            }
        }
        if dm == 0 {
            return false;
        }
        let m = vm % dm;
        m == rm && (m == 0 || self.neg == remainder.neg)
    }
}

/// The product of a 64-bit mantissa and a power of ten up to the
/// eighteenth, which always fits in 128 bits.
fn mul_mant_pow10(m: u64, e: u32) -> (r: u128)
    requires
        e <= 18,
    ensures
        r == m as nat * pow10(e as nat),
{
    let p = pow10_u128(e);
    proof {
        lemma_pow10_le(e as nat, 18);
        lemma_pow10_18();
        lemma_mul_upper_bound(m as int, u64::MAX as int, p as int, 1_000_000_000_000_000_000);
    }
    (m as u128) * p
}

/// Ten to the power `e` as a 128-bit integer.
fn pow10_u128(e: u32) -> (r: u128)
    requires
        e <= 18,
    ensures
        r == pow10(e as nat),
{
    let mut r: u128 = 1;
    let mut k: u32 = 0;
    while k < e
        invariant
            k <= e <= 18,
            r == pow10(k as nat),
        decreases e - k,
    {
        proof {
            lemma_pow10_le(k as nat, 17);
            lemma_pow10_le(17, 18);
            lemma_pow10_18();
        }
        r = r * 10;
        k = k + 1;
    }
    r
}

} // verus!
