use vstd::prelude::*;

verus! {

/// Magnitude bound kept by every fixed-point coordinate (2^40); about
/// sixteen million pixels, far beyond any framebuffer this crate serves.
pub const FX_LIM: i64 = 1099511627776;

/// A fixed-point value within the coordinate range.
pub open spec fn fx_ok(v: i64) -> bool {
    -FX_LIM <= v <= FX_LIM
}

/// Saturation of a mathematical value into the coordinate range.
pub open spec fn fx_clamp(v: int) -> int {
    if v < -(FX_LIM as int) {
        -(FX_LIM as int)
    } else if v > FX_LIM as int {
        FX_LIM as int
    } else {
        v
    }
}

/// Division with the quotient rounded toward zero, the rule every
/// coordinate division in this crate follows.
pub open spec fn tdiv(a: int, b: int) -> int
    recommends
        b > 0,
{
    if a >= 0 {
        a / b
    } else {
        -((-a) / b)
    }
}

/// Saturating fixed-point addition.
pub fn fx_add(a: i64, b: i64) -> (r: i64)
    requires
        fx_ok(a),
        fx_ok(b),
    ensures
        r == fx_clamp(a + b),
        fx_ok(r),
{
    let s: i64 = a + b;
    if s < -FX_LIM {
        -FX_LIM
    } else if s > FX_LIM {
        FX_LIM
    } else {
        s
    }
}

/// Fixed-point negation.
pub fn fx_neg(a: i64) -> (r: i64)
    requires
        fx_ok(a),
    ensures
        r == -a,
        fx_ok(r),
{
    -a
}

/// Truncating division of a signed value by a positive divisor.
pub fn sdiv(a: i64, b: i64) -> (r: i64)
    requires
        b >= 1,
        -0x4000000000000000 < a < 0x4000000000000000,
    ensures
        r == tdiv(a as int, b as int),
{
    if a >= 0 {
        let q: u64 = a as u64 / b as u64;
        q as i64
    } else {
        let m: u64 = (-a) as u64;
        let q: u64 = m / b as u64;
        -(q as i64)
    }
}

/// Truncating division of a wide signed value by a positive divisor.
pub fn sdiv128(a: i128, b: i128) -> (r: i128)
    requires
        b >= 1,
        -0x40000000000000000000000000000000 < a < 0x40000000000000000000000000000000,
    ensures
        r == tdiv(a as int, b as int),
{
    if a >= 0 {
        let q: u128 = a as u128 / b as u128;
        q as i128
    } else {
        let m: u128 = (-a) as u128;
        let q: u128 = m / b as u128;
        -(q as i128)
    }
}

/// Design-unit magnitude bound: 65536 design units in fixed point (2^32),
/// far beyond the signed 16-bit range a font can hold.
pub const DU_LIM: i64 = 4294967296;

/// A fixed-point design-unit coordinate within range.
pub open spec fn du_ok(v: i64) -> bool {
    -DU_LIM <= v <= DU_LIM
}

/// Saturation of a mathematical value into the design-unit range.
pub open spec fn du_clamp(v: int) -> int {
    if v < -(DU_LIM as int) {
        -(DU_LIM as int)
    } else if v > DU_LIM as int {
        DU_LIM as int
    } else {
        v
    }
}

/// Saturating clamp into the design-unit range.
pub fn du_sat(v: i64) -> (r: i64)
    ensures
        r == du_clamp(v as int),
        du_ok(r),
{
    if v < -DU_LIM {
        -DU_LIM
    } else if v > DU_LIM {
        DU_LIM
    } else {
        v
    }
}

/// The pixel column or row of a fixed-point coordinate: negatives
/// saturate to zero, as a conversion to an unsigned pixel index does.
pub open spec fn px_of(v: int) -> int {
    if v < 0 {
        0
    } else {
        v / 65536
    }
}

/// Executable pixel mapping of a fixed-point coordinate.
pub fn fx_to_px(v: i64) -> (r: u64)
    requires
        -0x80000000000000 <= v <= 0x80000000000000,
    ensures
        r == px_of(v as int),
        r <= 0x8000000000,
{
    if v < 0 {
        0
    } else {
        proof {
            vstd::arithmetic::div_mod::lemma_div_is_ordered(v as int, 0x80000000000000, 65536);
        }
        (v as u64) / 65536
    }
}

/// The fixed-point coordinate of an integer pixel position, saturated.
pub fn fx_of_px(v: u32) -> (r: i64)
    ensures
        r == fx_clamp(v as int * 65536),
        fx_ok(r),
{
    let wide: i64 = (v as i64) * 65536;
    if wide > FX_LIM {
        FX_LIM
    } else {
        wide
    }
}

/// The magnitude of a value is at most the integer square root of any
/// bound on its square.
pub proof fn lemma_abs_le_sqrt(v: int, s: int)
    requires
        v * v <= s,
        0 <= s,
    ensures
        (if v >= 0 { v } else { -v }) <= sqrt_floor(s as nat),
{
    let a = (if v >= 0 { v } else { -v }) as nat;
    assert(a * a == v * v) by (nonlinear_arith)
        requires
            a == (if v >= 0 { v } else { -v }),
    ;
    lemma_sqrt_square(a);
    lemma_sqrt_mono((a * a) as nat, s as nat);
}

/// A pixel coordinate is never negative.
pub proof fn lemma_px_of_nonneg(v: int)
    ensures
        px_of(v) >= 0,
{
    if v >= 0 {
        vstd::arithmetic::div_mod::lemma_div_pos_is_pos(v, 65536);
    }
}

pub proof fn lemma_tdiv_bound(a: int, b: int, c: int)
    requires
        b >= 1,
        c >= 0,
        -(c * b) <= a <= c * b,
    ensures
        -c <= tdiv(a, b) <= c,
{
    if a >= 0 {
        vstd::arithmetic::div_mod::lemma_div_is_ordered(a, c * b, b);
        vstd::arithmetic::div_mod::lemma_div_multiples_vanish(c, b);
        vstd::arithmetic::div_mod::lemma_div_pos_is_pos(a, b);
        assert(a / b <= (c * b) / b);
        assert(c * b == b * c) by (nonlinear_arith);
        assert((b * c) / b == c);
        assert(a / b >= 0);
        assert(tdiv(a, b) == a / b);
    } else {
        vstd::arithmetic::div_mod::lemma_div_is_ordered(-a, c * b, b);
        vstd::arithmetic::div_mod::lemma_div_multiples_vanish(c, b);
        vstd::arithmetic::div_mod::lemma_div_pos_is_pos(-a, b);
        assert((-a) / b <= (c * b) / b);
        assert(c * b == b * c) by (nonlinear_arith);
        assert((b * c) / b == c);
        assert((-a) / b >= 0);
        assert(tdiv(a, b) == -((-a) / b));
    }
}

pub proof fn lemma_mul_bound(a: int, b: int, ma: int, mb: int)
    requires
        -ma <= a <= ma,
        -mb <= b <= mb,
        0 <= ma,
        0 <= mb,
    ensures
        -(ma * mb) <= a * b <= ma * mb,
{
    assert(-(ma * mb) <= a * b <= ma * mb) by (nonlinear_arith)
        requires
            -ma <= a <= ma,
            -mb <= b <= mb,
            0 <= ma,
            0 <= mb,
    ;
}

/// Checked wide multiplication: the caller supplies magnitude bounds under
/// which the product cannot overflow.
pub fn mulb(a: i128, b: i128, ba: i128, bb: i128) -> (r: i128)
    requires
        -ba <= a <= ba,
        -bb <= b <= bb,
        0 <= ba,
        0 <= bb,
        ba as int * bb as int <= 0x40000000000000000000000000000000,
    ensures
        r == a as int * b as int,
        -(ba as int * bb as int) <= r as int <= ba as int * bb as int,
{
    proof {
        lemma_mul_bound(a as int, b as int, ba as int, bb as int);
    }
    a * b
}

/// The integer square root: the greatest `r` with `r * r <= n`.
pub open spec fn sqrt_floor(n: nat) -> nat
    decreases n,
{
    if n == 0 {
        0
    } else {
        let p = sqrt_floor((n - 1) as nat);
        if (p + 1) * (p + 1) <= n {
            p + 1
        } else {
            p
        }
    }
}

pub proof fn lemma_sqrt_floor(n: nat)
    ensures
        sqrt_floor(n) * sqrt_floor(n) <= n,
        n < (sqrt_floor(n) + 1) * (sqrt_floor(n) + 1),
    decreases n,
{
    let s = sqrt_floor(n);
    if n == 0 {
        assert(s == 0);
        assert(s * s <= n) by (nonlinear_arith)
            requires
                s == 0,
                n == 0nat,
        ;
        assert(n < (s + 1) * (s + 1)) by (nonlinear_arith)
            requires
                s == 0,
                n == 0nat,
        ;
    } else {
        lemma_sqrt_floor((n - 1) as nat);
        let p = sqrt_floor((n - 1) as nat);
        if (p + 1) * (p + 1) <= n {
            assert(s == p + 1);
            assert(s * s <= n);
            assert(n <= (p + 1) * (p + 1));
            assert(n < (p + 1 + 1) * (p + 1 + 1)) by (nonlinear_arith)
                requires
                    n <= (p + 1) * (p + 1),
            ;
            assert(n < (s + 1) * (s + 1));
        } else {
            assert(s == p);
            assert(s * s <= n);
            assert(n < (s + 1) * (s + 1));
        }
    }
}

pub proof fn lemma_sqrt_unique(n: nat, r: nat)
    requires
        r * r <= n,
        n < (r + 1) * (r + 1),
    ensures
        r == sqrt_floor(n),
{
    lemma_sqrt_floor(n);
    let s = sqrt_floor(n);
    if r < s {
        assert((r + 1) * (r + 1) <= s * s) by (nonlinear_arith)
            requires
                r + 1 <= s,
        ;
        assert(false);
    }
    if s < r {
        assert((s + 1) * (s + 1) <= r * r) by (nonlinear_arith)
            requires
                s + 1 <= r,
        ;
        assert(false);
    }
}

pub proof fn lemma_sqrt_mono(a: nat, b: nat)
    requires
        a <= b,
    ensures
        sqrt_floor(a) <= sqrt_floor(b),
{
    lemma_sqrt_floor(a);
    lemma_sqrt_floor(b);
    let sa = sqrt_floor(a);
    let sb = sqrt_floor(b);
    if sb < sa {
        assert((sb + 1) * (sb + 1) <= sa * sa) by (nonlinear_arith)
            requires
                sb + 1 <= sa,
        ;
        assert(false);
    }
}

pub proof fn lemma_sqrt_square(x: nat)
    ensures
        sqrt_floor(x * x) == x,
{
    assert(x * x < (x + 1) * (x + 1)) by (nonlinear_arith);
    lemma_sqrt_unique(x * x, x);
}

/// Executable integer square root by bisection.
pub fn isqrt(n: u128) -> (r: u64)
    requires
        n < 0x1000000000000000000000,
    ensures
        r == sqrt_floor(n as nat),
{
    let mut lo: u64 = 0;
    let mut hi: u64 = 0x400000000000;
    while lo + 1 < hi
        invariant
            (lo as nat) * (lo as nat) <= n as nat,
            (n as nat) < (hi as nat) * (hi as nat),
            lo < hi <= 0x400000000000,
        decreases hi - lo,
    {
        let mid: u64 = lo + (hi - lo) / 2;
        proof {
            assert((mid as int) * (mid as int) <= 0x400000000000 * 0x400000000000) by (nonlinear_arith)
                requires
                    0 <= mid as int <= 0x400000000000,
            ;
        }
        if (mid as u128) * (mid as u128) <= n {
            lo = mid;
        } else {
            hi = mid;
        }
    }
    proof {
        lemma_sqrt_unique(n as nat, lo as nat);
    }
    lo
}

} // verus!
