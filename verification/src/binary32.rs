//! Single-precision arithmetic on integers.
//!
//! The pixel formulas of this library are defined on IEEE 754 binary32 values
//! with round-to-nearest, ties-to-even. A binary32 magnitude is a dyadic
//! rational whose significand fits in 24 bits, so every operation here works
//! on a significand/exponent pair and rounds its exact result back to 24
//! significant bits. The exponent is not limited: where the range of binary32
//! matters (overflow to infinity), the caller tests for it.

use vstd::arithmetic::div_mod::*;
use vstd::arithmetic::mul::*;
use vstd::arithmetic::power2::*;
use vstd::prelude::*;

verus! {

/// One more than the largest 24-bit significand.
pub const SIG_LIMIT: u64 = 0x100_0000;

/// The smallest significand with all 24 bits in use.
pub const SIG_TOP: u64 = 0x80_0000;

/// The non-negative dyadic rational `mant * 2^exp`.
pub struct Dyadic {
    pub mant: nat,
    pub exp: int,
}

/// The integer nearest to `n / d`; of two equally near, the even one.
pub open spec fn round_half_even(n: nat, d: nat) -> nat {
    let q = n / d;
    let r = n % d;
    if 2 * r < d {
        q
    } else if 2 * r > d {
        q + 1
    } else if q % 2 == 0 {
        q
    } else {
        q + 1
    }
}

/// How many bits `x` has beyond 24.
pub open spec fn excess_bits(x: nat) -> nat
    decreases x,
{
    if x < 0x100_0000 {
        0
    } else {
        1 + excess_bits(x / 2)
    }
}

/// A significand that rounding carried up to `2^24`, written with 24 bits again.
pub open spec fn carried(m: nat, e: int) -> Dyadic {
    if m == 0x100_0000 {
        Dyadic { mant: 0x80_0000, exp: e + 1 }
    } else {
        Dyadic { mant: m, exp: e }
    }
}

/// The value with a 24-bit significand nearest to `x * 2^e`, ties to even.
pub open spec fn round_sig(x: nat, e: int) -> Dyadic {
    let s = excess_bits(x);
    carried(round_half_even(x, pow2(s)), e + s)
}

/// The rounded product of two values.
pub open spec fn product(a: Dyadic, b: Dyadic) -> Dyadic {
    round_sig(a.mant * b.mant, a.exp + b.exp)
}

/// The least `k` for which `n * 2^k / d` has 24 bits before the point.
pub open spec fn quotient_shift(n: nat, d: nat) -> nat
    decreases
        (if n < 0x80_0000 * d {
            0x80_0000 * d - n
        } else {
            0
        }),
{
    if n == 0 || n >= 0x80_0000 * d {
        0
    } else {
        1 + quotient_shift(2 * n, d)
    }
}

/// The rounded quotient of two values; `b` is not zero.
pub open spec fn quotient(a: Dyadic, b: Dyadic) -> Dyadic {
    if a.mant == 0 {
        Dyadic { mant: 0, exp: 0 }
    } else {
        let k = quotient_shift(a.mant, b.mant);
        carried(round_half_even(a.mant * pow2(k), b.mant), a.exp - b.exp - k)
    }
}

/// The significand of `a` when it is written with the exponent `e <= a.exp`.
pub open spec fn aligned(a: Dyadic, e: int) -> nat {
    a.mant * pow2((a.exp - e) as nat)
}

pub open spec fn lower_exp(a: Dyadic, b: Dyadic) -> int {
    if a.exp <= b.exp {
        a.exp
    } else {
        b.exp
    }
}

/// The rounded sum of two values.
pub open spec fn sum(a: Dyadic, b: Dyadic) -> Dyadic {
    if a.mant == 0 {
        b
    } else if b.mant == 0 {
        a
    } else {
        let e = lower_exp(a, b);
        round_sig(aligned(a, e) + aligned(b, e), e)
    }
}

/// The rounded difference `a - b`, and zero where `b` exceeds `a`.
pub open spec fn difference(a: Dyadic, b: Dyadic) -> Dyadic {
    let e = lower_exp(a, b);
    let x = aligned(a, e);
    let y = aligned(b, e);
    if x >= y {
        round_sig((x - y) as nat, e)
    } else {
        Dyadic { mant: 0, exp: 0 }
    }
}

/// The integer part of a value.
pub open spec fn floor_of(a: Dyadic) -> nat {
    if a.exp >= 0 {
        a.mant * pow2(a.exp as nat)
    } else {
        a.mant / pow2((-a.exp) as nat)
    }
}

/// The integer part of a value, and `cap` where it is larger: what a
/// conversion from binary32 to an unsigned integer type with that maximum gives.
pub open spec fn floor_capped(a: Dyadic, cap: nat) -> nat {
    if floor_of(a) >= cap {
        cap
    } else {
        floor_of(a)
    }
}

/// An integer below `2^24`, which binary32 holds exactly.
pub open spec fn small_int(x: nat) -> Dyadic {
    Dyadic { mant: x, exp: 0 }
}

/// A value with a 24-bit significand and an exponent that fits the machine.
#[derive(Clone, Copy, Debug)]
pub struct Binary32 {
    pub mant: u32,
    pub exp: i32,
}

/// The bound that the operations keep exponents far inside of.
pub const EXP_LIMIT: i32 = 100_000;

impl View for Binary32 {
    type V = Dyadic;

    open spec fn view(&self) -> Dyadic {
        Dyadic { mant: self.mant as nat, exp: self.exp as int }
    }
}

impl Binary32 {
    /// The significand fits in 24 bits and the exponent is within `lim`.
    pub open spec fn within(&self, lim: int) -> bool {
        &&& self.mant < SIG_LIMIT
        &&& -lim <= self.exp <= lim
    }
}

/// The powers of two beyond `2^32` that the bounds here need.
pub proof fn lemma_pow2_values()
    ensures
        pow2(23) == 0x80_0000,
        pow2(24) == 0x100_0000,
        pow2(31) == 0x8000_0000,
        pow2(32) == 0x1_0000_0000,
        pow2(47) == 0x8000_0000_0000,
        pow2(48) == 0x1_0000_0000_0000,
        pow2(64) == 0x1_0000_0000_0000_0000,
        pow2(72) == 0x100_0000_0000_0000_0000,
        pow2(96) == 0x1_0000_0000_0000_0000_0000_0000,
{
    lemma2_to64();
    lemma_pow2_adds(32, 15);
    lemma_pow2_adds(32, 16);
    lemma_pow2_adds(64, 8);
    lemma_pow2_adds(64, 32);
}

/// `pow2` does not decrease.
pub proof fn lemma_pow2_monotonic(a: nat, b: nat)
    requires
        a <= b,
    ensures
        pow2(a) <= pow2(b),
        pow2(a) > 0,
{
    lemma_pow2_pos(a);
    if a < b {
        lemma_pow2_strictly_increases(a, b);
    }
}

/// A power of two below `pow2(b)` has an exponent below `b`.
pub proof fn lemma_pow2_below(a: nat, b: nat)
    requires
        pow2(a) < pow2(b),
    ensures
        a < b,
{
    if a >= b {
        lemma_pow2_monotonic(b, a);
    }
}

proof fn lemma_excess_step(x: nat, p: nat)
    requires
        p > 0,
        x / p >= 0x100_0000,
    ensures
        (x / p) / 2 == x / (2 * p),
        excess_bits(x / p) == 1 + excess_bits(x / (2 * p)),
{
    lemma_div_denominator(x as int, p as int, 2);
    assert(p * 2 == 2 * p);
}

/// A value with `s >= 1` excess bits or more is at least `2^24 * 2^(s-1)`.
pub proof fn lemma_excess_lower(x: nat, s: nat)
    requires
        s >= 1,
        excess_bits(x) >= s,
    ensures
        x >= 0x100_0000 * pow2((s - 1) as nat),
    decreases s,
{
    lemma2_to64();
    if s == 1 {
        assert(x >= 0x100_0000);
    } else {
        assert(x >= 0x100_0000);
        lemma_excess_lower(x / 2, (s - 1) as nat);
        lemma_pow2_unfold((s - 1) as nat);
        let ph: nat = pow2((s - 2) as nat);
        assert(x / 2 >= 0x100_0000 * ph);
        assert(x >= 2 * (x / 2));
        assert(0x100_0000 * (2 * ph) == 2 * (0x100_0000 * ph)) by (nonlinear_arith);
    }
}

/// A value below `2^24 * 2^j` has at most `j` excess bits.
pub proof fn lemma_excess_bound(x: nat, j: nat)
    requires
        x < 0x100_0000 * pow2(j),
    ensures
        excess_bits(x) <= j,
{
    if excess_bits(x) > j {
        lemma_excess_lower(x, j + 1);
    }
}

/// `2^k` as a machine integer.
pub fn power_of_two(k: u32) -> (p: u128)
    requires
        k <= 96,
    ensures
        p == pow2(k as nat),
        0 < p <= 0x1_0000_0000_0000_0000_0000_0000,
{
    let mut p: u128 = 1;
    let mut i: u32 = 0;
    proof {
        lemma2_to64();
        lemma_pow2_values();
    }
    while i < k
        invariant
            i <= k <= 96,
            p == pow2(i as nat),
            pow2(96) == 0x1_0000_0000_0000_0000_0000_0000,
        decreases k - i,
    {
        proof {
            lemma_pow2_unfold((i + 1) as nat);
            lemma_pow2_strictly_increases(i as nat, 96);
        }
        p = p * 2;
        i = i + 1;
    }
    proof {
        lemma_pow2_monotonic(k as nat, 96);
    }
    p
}

/// Rounds `x * 2^e` to 24 significant bits.
pub fn round_to_sig(x: u128, e: i32) -> (r: Binary32)
    requires
        x < 0x1_0000_0000_0000_0000_0000_0000,
        -EXP_LIMIT <= e <= EXP_LIMIT,
    ensures
        r@ == round_sig(x as nat, e as int),
        r.mant < SIG_LIMIT,
        x > 0 ==> r.mant > 0,
        x >= SIG_TOP ==> r.mant >= SIG_TOP,
        r.exp == e + excess_bits(x as nat) || r.exp == e + excess_bits(x as nat) + 1,
        excess_bits(x as nat) <= 72,
{
    let mut s: i32 = 0;
    let mut p: u128 = 1;
    let mut y: u128 = x;
    proof {
        lemma2_to64();
        lemma_pow2_values();
    }
    while y >= 0x100_0000
        invariant
            0 <= s <= 72,
            p == pow2(s as nat),
            p > 0,
            y == x / p,
            x < 0x1_0000_0000_0000_0000_0000_0000,
            pow2(72) == 0x100_0000_0000_0000_0000,
            excess_bits(x as nat) == s + excess_bits(y as nat),
        decreases y,
    {
        proof {
            lemma_excess_step(x as nat, p as nat);
            lemma_pow2_unfold((s + 1) as nat);
            // p * 2^24 <= x < 2^96, so p < 2^72
            lemma_fundamental_div_mod(x as int, p as int);
            assert(p * (x / p) <= x);
            assert(p * 0x100_0000 <= p * (x / p)) by (nonlinear_arith)
                requires
                    p > 0,
                    (x / p) >= 0x100_0000,
            ;
            assert(p < 0x100_0000_0000_0000_0000);
            if s >= 72 {
                lemma_pow2_monotonic(72, s as nat);
                assert(false);
            }
        }
        y = y / 2;
        p = p * 2;
        s = s + 1;
    }
    let q: u128 = x / p;
    let rem: u128 = x % p;
    proof {
        lemma_fundamental_div_mod(x as int, p as int);
        lemma_pow2_monotonic(s as nat, 72);
    }
    let twice: u128 = 2 * rem;
    let m: u128 = if twice < p {
        q
    } else if twice > p {
        q + 1
    } else if q % 2 == 0 {
        q
    } else {
        q + 1
    };
    assert(m == round_half_even(x as nat, pow2(s as nat)));
    proof {
        if x > 0 && m == 0 {
            assert(q == 0);
            assert(y == 0);
        }
        if x >= SIG_TOP && m < SIG_TOP {
            if s == 0 {
                assert(p == 1);
                assert(q == x);
            } else {
                assert(q == y);
                lemma_pow2_unfold(s as nat);
                let ph: nat = pow2((s - 1) as nat);
                assert(p == 2 * ph);
                lemma_pow2_pos((s - 1) as nat);
                lemma_excess_lower(x as nat, s as nat);
                assert(x >= 0x80_0000 * p) by (nonlinear_arith)
                    requires
                        x >= 0x100_0000 * ph,
                        p == 2 * ph,
                ;
                assert(p * (x / p) + x % p == x);
                assert(q >= 0x80_0000) by (nonlinear_arith)
                    requires
                        x >= 0x80_0000 * p,
                        p * q + rem == x,
                        rem < p,
                        p > 0,
                ;
            }
        }
    }
    if m == 0x100_0000 {
        Binary32 { mant: 0x80_0000, exp: e + s + 1 }
    } else {
        Binary32 { mant: m as u32, exp: e + s }
    }
}

impl Binary32 {
    /// The integer `x`, which binary32 holds exactly below `2^24`.
    pub fn small(x: u32) -> (r: Binary32)
        requires
            x < SIG_LIMIT,
        ensures
            r@ == small_int(x as nat),
            r.mant == x,
            r.exp == 0,
    {
        Binary32 { mant: x, exp: 0 }
    }

    /// The binary32 nearest to the integer `x`.
    pub fn nearest(x: u32) -> (r: Binary32)
        ensures
            r@ == round_sig(x as nat, 0),
            r.mant < SIG_LIMIT,
            0 <= r.exp <= 9,
            x > 0 ==> r.mant > 0,
            x < SIG_LIMIT ==> r@ == small_int(x as nat),
    {
        proof {
            lemma2_to64();
            lemma_excess_bound(x as nat, 8);
        }
        round_to_sig(x as u128, 0)
    }

    /// The rounded product.
    pub fn times(self, o: Binary32) -> (r: Binary32)
        requires
            self.within(40_000),
            o.within(40_000),
        ensures
            r@ == product(self@, o@),
            r.mant < SIG_LIMIT,
            (self.mant > 0 && o.mant > 0) ==> r.mant > 0,
            self.exp + o.exp <= r.exp <= self.exp + o.exp + 25,
            r.exp <= self.exp + o.exp + excess_bits(self.mant as nat * o.mant as nat) + 1,
    {
        proof {
            assert(self.mant as nat * o.mant as nat <= 0xff_ffff * 0xff_ffff) by (nonlinear_arith)
                requires
                    self.mant <= 0xff_ffff,
                    o.mant <= 0xff_ffff,
            ;
        }
        let x: u128 = self.mant as u128 * o.mant as u128;
        proof {
            lemma_pow2_values();
            lemma_excess_bound(x as nat, 24);
            if self.mant > 0 && o.mant > 0 {
                assert(self.mant as nat * o.mant as nat > 0) by (nonlinear_arith)
                    requires
                        self.mant > 0,
                        o.mant > 0,
                ;
            }
        }
        round_to_sig(x, self.exp + o.exp)
    }

    /// The rounded quotient.
    pub fn over(self, o: Binary32) -> (r: Binary32)
        requires
            self.within(40_000),
            o.within(40_000),
            o.mant > 0,
        ensures
            r@ == quotient(self@, o@),
            r.mant < SIG_LIMIT,
            self.mant == 0 ==> r.mant == 0 && r.exp == 0,
            self.mant > 0 ==> r.mant >= SIG_TOP,
            self.mant > 0 ==> self.exp - o.exp - 47 <= r.exp <= self.exp - o.exp + 1,
            self.mant > 0 ==> r.exp >= self.exp - o.exp - quotient_shift(
                self.mant as nat,
                o.mant as nat,
            ),
            self.mant > 0 ==> self.mant * pow2(quotient_shift(self.mant as nat, o.mant as nat))
                < 0x100_0000 * o.mant,
    {
        if self.mant == 0 {
            return Binary32 { mant: 0, exp: 0 };
        }
        let d: u64 = o.mant as u64;
        let lim: u64 = d * 0x80_0000;
        let mut n: u64 = self.mant as u64;
        let mut k: i32 = 0;
        proof {
            lemma2_to64();
            lemma_pow2_values();
            assert(self.mant * pow2(0) == self.mant) by (nonlinear_arith)
                requires
                    pow2(0) == 1,
            ;
        }
        while n < lim
            invariant
                lim == 0x80_0000 * d,
                d == o.mant,
                0 < d < 0x100_0000,
                0 < n < 2 * lim,
                0 <= k <= 47,
                n == self.mant * pow2(k as nat),
                pow2(47) == 0x8000_0000_0000,
                quotient_shift(self.mant as nat, d as nat) == k + quotient_shift(n as nat, d as nat),
            decreases 48 - k,
        {
            proof {
                lemma_pow2_unfold((k + 1) as nat);
                lemma_pow2_pos(k as nat);
                assert(self.mant * (2 * pow2(k as nat)) == 2 * (self.mant * pow2(k as nat)))
                    by (nonlinear_arith);
                // 2^k <= n < 2^47
                assert(pow2(k as nat) <= n) by (nonlinear_arith)
                    requires
                        n == self.mant * pow2(k as nat),
                        self.mant >= 1,
                ;
                if k >= 47 {
                    lemma_pow2_monotonic(47, k as nat);
                    assert(false);
                }
            }
            n = 2 * n;
            k = k + 1;
        }
        let q: u64 = n / d;
        let rem: u64 = n % d;
        proof {
            lemma_fundamental_div_mod(n as int, d as int);
            assert(q >= 0x80_0000 && q < 0x100_0000) by (nonlinear_arith)
                requires
                    n >= 0x80_0000 * d,
                    n < 2 * (0x80_0000 * d),
                    d * q + rem == n,
                    0 <= rem < d,
                    d > 0,
            ;
        }
        let twice: u64 = 2 * rem;
        let m: u64 = if twice < d {
            q
        } else if twice > d {
            q + 1
        } else if q % 2 == 0 {
            q
        } else {
            q + 1
        };
        assert(m == round_half_even(self.mant as nat * pow2(k as nat), o.mant as nat));
        if m == 0x100_0000 {
            Binary32 { mant: 0x80_0000, exp: self.exp - o.exp - k + 1 }
        } else {
            Binary32 { mant: m as u32, exp: self.exp - o.exp - k }
        }
    }

    /// The significand at the exponent `e`, which is at most 64 below this one.
    fn aligned_to(self, e: i32) -> (x: u128)
        requires
            self.within(40_000),
            0 <= self.exp - e <= 64,
        ensures
            x == aligned(self@, e as int),
            x < 0x100_0000_0000_0000_0000_0000,
            self.mant > 0 ==> x > 0,
    {
        let p: u128 = power_of_two((self.exp - e) as u32);
        proof {
            lemma_pow2_values();
            lemma_pow2_monotonic((self.exp - e) as nat, 64);
            assert(self.mant as nat * p as nat <= 0xff_ffff * 0x1_0000_0000_0000_0000)
                by (nonlinear_arith)
                requires
                    self.mant <= 0xff_ffff,
                    p <= 0x1_0000_0000_0000_0000,
            ;
            if self.mant > 0 {
                assert(self.mant as nat * p as nat > 0) by (nonlinear_arith)
                    requires
                        self.mant > 0,
                        p > 0,
                ;
            }
        }
        self.mant as u128 * p
    }

    /// The rounded sum.
    pub fn plus(self, o: Binary32) -> (r: Binary32)
        requires
            self.within(40_000),
            o.within(40_000),
            self.mant > 0 && o.mant > 0 ==> -64 <= self.exp - o.exp <= 64,
        ensures
            r@ == sum(self@, o@),
            r.within(40_100),
    {
        if self.mant == 0 {
            return o;
        }
        if o.mant == 0 {
            return self;
        }
        let e: i32 = if self.exp <= o.exp {
            self.exp
        } else {
            o.exp
        };
        let x: u128 = self.aligned_to(e);
        let y: u128 = o.aligned_to(e);
        round_to_sig(x + y, e)
    }

    /// The rounded difference, and zero where `o` is the larger.
    pub fn minus(self, o: Binary32) -> (r: Binary32)
        requires
            self.within(40_000),
            o.within(40_000),
            -64 <= self.exp - o.exp <= 64,
        ensures
            r@ == difference(self@, o@),
            r.mant < SIG_LIMIT,
            r.mant > 0 ==> r.exp >= lower_exp(self@, o@),
            r.mant > 0 ==> r.exp <= lower_exp(self@, o@) + 73,
            r.mant > 0 ==> r.exp <= lower_exp(self@, o@) + excess_bits(aligned(self@, lower_exp(self@, o@))) + 1,
            r.mant == 0 ==> r.exp == 0 || r.exp == lower_exp(self@, o@),
    {
        let e: i32 = if self.exp <= o.exp {
            self.exp
        } else {
            o.exp
        };
        let x: u128 = self.aligned_to(e);
        let y: u128 = o.aligned_to(e);
        if x >= y {
            proof {
                lemma_excess_monotonic((x - y) as nat, x as nat);
            }
            round_to_sig(x - y, e)
        } else {
            Binary32 { mant: 0, exp: 0 }
        }
    }

    /// The integer part, and `cap` where it is larger.
    pub fn floor_to(self, cap: u32) -> (v: u32)
        requires
            self.within(100_000),
        ensures
            v == floor_capped(self@, cap as nat),
            v <= cap,
    {
        if self.mant == 0 {
            proof {
                if self.exp < 0 {
                    lemma_pow2_pos((-self.exp) as nat);
                    assert(0nat / pow2((-self.exp) as nat) == 0) by (nonlinear_arith)
                        requires
                            pow2((-self.exp) as nat) > 0,
                    ;
                } else {
                    assert(0 * pow2(self.exp as nat) == 0) by (nonlinear_arith);
                }
            }
            return 0;
        }
        proof {
            lemma_pow2_values();
        }
        if self.exp >= 0 {
            if self.exp >= 32 {
                proof {
                    lemma_pow2_monotonic(32, self.exp as nat);
                    assert(self.mant * pow2(self.exp as nat) >= pow2(self.exp as nat))
                        by (nonlinear_arith)
                        requires
                            self.mant >= 1,
                    ;
                }
                cap
            } else {
                let p: u128 = power_of_two(self.exp as u32);
                proof {
                    lemma_pow2_monotonic(self.exp as nat, 32);
                    assert(self.mant as nat * p as nat <= 0xff_ffff * 0x1_0000_0000)
                        by (nonlinear_arith)
                        requires
                            self.mant <= 0xff_ffff,
                            p <= 0x1_0000_0000,
                    ;
                }
                let v: u128 = self.mant as u128 * p;
                if v >= cap as u128 {
                    cap
                } else {
                    v as u32
                }
            }
        } else {
            if self.exp <= -24 {
                proof {
                    lemma_pow2_monotonic(24, (-self.exp) as nat);
                    lemma_div_is_zero(self.mant as nat, pow2((-self.exp) as nat));
                }
                0
            } else {
                let p: u128 = power_of_two((-self.exp) as u32);
                let v: u128 = self.mant as u128 / p;
                proof {
                    assert(v <= self.mant) by (nonlinear_arith)
                        requires
                            v == self.mant as u128 / p,
                            p > 0,
                    ;
                }
                if v >= cap as u128 {
                    cap
                } else {
                    v as u32
                }
            }
        }
    }
}

/// An 8-bit value as a fraction of the largest: `v / 255`, rounded.
pub open spec fn byte_fraction(v: u8) -> Dyadic {
    quotient(small_int(v as nat), small_int(255))
}

/// `v / 255`, rounded.
pub fn fraction_of_byte(v: u8) -> (r: Binary32)
    ensures
        r@ == byte_fraction(v),
        r.mant < SIG_LIMIT,
        -31 <= r.exp <= 1,
        v == 0 ==> r.mant == 0 && r.exp == 0,
        v > 0 ==> r.mant >= SIG_TOP,
{
    let r: Binary32 = Binary32::small(v as u32).over(Binary32::small(255));
    proof {
        lemma_pow2_values();
        if v > 0 {
            let k: nat = quotient_shift(v as nat, 255);
            lemma_pow2_pos(k);
            assert(pow2(k) <= v * pow2(k)) by (nonlinear_arith)
                requires
                    v >= 1,
            ;
            lemma_pow2_below(k, 32);
        }
    }
    r
}

/// Whether a binary32 bit pattern has its sign bit set.
pub open spec fn sign_bit(bits: u32) -> bool {
    bits >= 0x8000_0000
}

/// A bit pattern without its sign bit.
pub open spec fn magnitude_bits(bits: u32) -> u32 {
    if bits >= 0x8000_0000 {
        (bits - 0x8000_0000) as u32
    } else {
        bits
    }
}

/// Whether a bit pattern is a NaN.
pub open spec fn is_nan(bits: u32) -> bool {
    magnitude_bits(bits) > 0x7f80_0000
}

/// Whether a bit pattern is an infinity.
pub open spec fn is_infinite(bits: u32) -> bool {
    magnitude_bits(bits) == 0x7f80_0000
}

/// Whether a bit pattern is neither NaN nor an infinity.
pub open spec fn is_finite(bits: u32) -> bool {
    magnitude_bits(bits) < 0x7f80_0000
}

/// Whether a bit pattern is a finite number above zero.
pub open spec fn is_positive_finite(bits: u32) -> bool {
    0 < bits < 0x7f80_0000
}

/// The absolute value that a finite bit pattern stands for: the fraction
/// field with its hidden bit at the exponent field's scale, or the bare
/// fraction at `2^-149` for a subnormal pattern.
pub open spec fn magnitude_of(bits: u32) -> Dyadic {
    let a = magnitude_bits(bits);
    let field = a / 0x80_0000;
    let fraction = a % 0x80_0000;
    if field == 0 {
        Dyadic { mant: fraction as nat, exp: -149 }
    } else {
        Dyadic { mant: (fraction + 0x80_0000) as nat, exp: field - 150 }
    }
}

/// The same value with the top bit of its 24-bit significand set.
pub open spec fn normalized(a: Dyadic) -> Dyadic
    decreases
        (if a.mant < 0x80_0000 {
            0x80_0000 - a.mant
        } else {
            0
        }),
{
    if a.mant == 0 || a.mant >= 0x80_0000 {
        a
    } else {
        normalized(Dyadic { mant: 2 * a.mant, exp: a.exp - 1 })
    }
}

/// The bit pattern of a value in the normal range of binary32, with the
/// given sign; a zero has the pattern of `+0.0`.
pub open spec fn packed(negative: bool, a: Dyadic) -> int {
    let n = normalized(a);
    if a.mant == 0 {
        0
    } else {
        (if negative {
            0x8000_0000int
        } else {
            0int
        }) + (n.exp + 150) * 0x80_0000 + (n.mant - 0x80_0000)
    }
}

/// The absolute value of a finite bit pattern.
pub fn unpack(bits: u32) -> (r: Binary32)
    requires
        is_finite(bits),
    ensures
        r@ == magnitude_of(bits),
        r.mant < SIG_LIMIT,
        -149 <= r.exp <= 104,
        r.mant == 0 <==> magnitude_bits(bits) == 0,
        magnitude_bits(bits) >= 0x80_0000 ==> r.mant >= SIG_TOP,
{
    let a: u32 = if bits >= 0x8000_0000 {
        bits - 0x8000_0000
    } else {
        bits
    };
    let field: u32 = a / 0x80_0000;
    let fraction: u32 = a % 0x80_0000;
    if field == 0 {
        Binary32 { mant: fraction, exp: -149 }
    } else {
        Binary32 { mant: fraction + 0x80_0000, exp: field as i32 - 150 }
    }
}

/// The bit pattern of a value with the given sign.
pub fn pack(negative: bool, a: Binary32) -> (bits: u32)
    requires
        a.mant < SIG_LIMIT,
        -126 <= a.exp <= 104,
    ensures
        bits == packed(negative, a@),
{
    if a.mant == 0 {
        return 0;
    }
    let mut m: u32 = a.mant;
    let mut e: i32 = a.exp;
    proof {
        lemma_pow2_values();
        lemma2_to64();
        assert(a.mant * pow2(0) == a.mant) by (nonlinear_arith)
            requires
                pow2(0) == 1,
        ;
    }
    while m < 0x80_0000
        invariant
            0 < m < 0x100_0000,
            0 <= a.exp - e <= 23,
            -126 <= a.exp <= 104,
            a.mant >= 1,
            pow2(23) == 0x80_0000,
            m == a.mant * pow2((a.exp - e) as nat),
            normalized(a@) == normalized(Dyadic { mant: m as nat, exp: e as int }),
        decreases 24 - (a.exp - e),
    {
        proof {
            let k: nat = (a.exp - e) as nat;
            lemma_pow2_unfold(k + 1);
            assert(a.mant * (2 * pow2(k)) == 2 * (a.mant * pow2(k))) by (nonlinear_arith);
            assert(pow2(k) <= m) by (nonlinear_arith)
                requires
                    m == a.mant * pow2(k),
                    a.mant >= 1,
            ;
            if k >= 23 {
                lemma_pow2_monotonic(23, k);
                assert(false);
            }
        }
        m = 2 * m;
        e = e - 1;
    }
    let sign: u32 = if negative {
        0x8000_0000
    } else {
        0
    };
    sign + ((e + 150) as u32) * 0x80_0000 + (m - 0x80_0000)
}

/// A smaller value has no more excess bits.
pub proof fn lemma_excess_monotonic(x: nat, y: nat)
    requires
        x <= y,
    ensures
        excess_bits(x) <= excess_bits(y),
    decreases y,
{
    if x >= 0x100_0000 {
        lemma_excess_monotonic(x / 2, y / 2);
    }
}

/// A numerator below its denominator gives the quotient zero.
proof fn lemma_div_is_zero(x: nat, d: nat)
    requires
        x < d,
    ensures
        x / d == 0,
{
    lemma_basic_div(x as int, d as int);
}

} // verus!
