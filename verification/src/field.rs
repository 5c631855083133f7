//! Arithmetic in the Goldilocks field, whose elements are held as canonical
//! `u64` values below the order `2^64 - 2^32 + 1`.
use vstd::arithmetic::div_mod::*;
use vstd::prelude::*;

verus! {

/// The order of the Goldilocks field, `2^64 - 2^32 + 1`.
pub const ORDER: u64 = 0xffff_ffff_0000_0001u64;

/// The Goldilocks order as a mathematical integer.
pub open spec fn p() -> int {
    ORDER as int
}

/// Reduction of an integer into the field, `x mod p`, always in `0..p`.
pub open spec fn fmod(x: int) -> int {
    x % p()
}

/// A `u64` holds a canonical field element when it is below the order.
pub open spec fn is_canonical(x: u64) -> bool {
    x < ORDER
}

/// The field element that stands for a signed integer: `v mod p`.
pub open spec fn of_int(v: int) -> int {
    fmod(v)
}

/// `fmod` is the identity on `0..p`.
pub proof fn lemma_fmod_small(x: int)
    requires
        0 <= x < p(),
    ensures
        fmod(x) == x,
{
    lemma_small_mod(x as nat, p() as nat);
}

/// `fmod` subtracts `p` once on `p..2p`.
pub proof fn lemma_fmod_sub_once(x: int)
    requires
        p() <= x < 2 * p(),
    ensures
        fmod(x) == x - p(),
{
    lemma_fundamental_div_mod_converse(x, p(), 1, x - p());
}

/// `fmod` adds `p` once on `-p..0`.
pub proof fn lemma_fmod_add_once(x: int)
    requires
        -p() <= x < 0,
    ensures
        fmod(x) == x + p(),
{
    lemma_fundamental_div_mod_converse(x, p(), -1, x + p());
}

/// `fmod` lands in `0..p`.
pub proof fn lemma_fmod_range(x: int)
    ensures
        0 <= fmod(x) < p(),
{
    lemma_mod_bound(x, p());
}

/// The inverse of two in the field, `(p + 1) / 2`.
pub open spec fn half() -> int {
    (p() + 1) / 2
}

/// Multiplying by two and then by the inverse of two gives back a field
/// element.
proof fn lemma_twice_half(a: int)
    requires
        0 <= a < p(),
    ensures
        fmod(fmod(a * 2) * half()) == a,
{
    let pp = p();
    assert(half() * 2 == pp + 1);
    lemma_mul_mod_noop_left(a * 2, half(), pp);
    assert((a * 2) * half() == a * (half() * 2)) by (nonlinear_arith);
    assert(a * (pp + 1) == a * pp + a) by (nonlinear_arith);
    lemma_mod_multiples_vanish(a, a, pp);
    lemma_fmod_small(a);
}

/// Halving in the field: the half of `x` doubles back to `x`.
pub proof fn lemma_half(x: int)
    requires
        0 <= x < p(),
    ensures
        0 <= fmod(x * half()) < p(),
        fmod(fmod(x * half()) * 2) == x,
{
    let pp = p();
    lemma_fmod_range(x * half());
    assert(half() * 2 == pp + 1);
    lemma_mul_mod_noop_left(x * half(), 2, pp);
    assert((x * half()) * 2 == x * (half() * 2)) by (nonlinear_arith);
    assert(x * (pp + 1) == x * pp + x) by (nonlinear_arith);
    lemma_mod_multiples_vanish(x, x, pp);
    lemma_fmod_small(x);
}

/// Field elements with equal doubles are equal.
pub proof fn lemma_half_unique(a: int, b: int)
    requires
        0 <= a < p(),
        0 <= b < p(),
        fmod(a * 2) == fmod(b * 2),
    ensures
        a == b,
{
    lemma_twice_half(a);
    lemma_twice_half(b);
}

/// Adds two canonical field elements.
pub fn add(a: u64, b: u64) -> (r: u64)
    requires
        is_canonical(a),
        is_canonical(b),
    ensures
        is_canonical(r),
        r == fmod(a + b),
{
    let s: u128 = a as u128 + b as u128;
    if s >= ORDER as u128 {
        proof {
            lemma_fmod_sub_once(a + b);
        }
        (s - ORDER as u128) as u64
    } else {
        proof {
            lemma_fmod_small(a + b);
        }
        s as u64
    }
}

/// Subtracts two canonical field elements.
pub fn sub(a: u64, b: u64) -> (r: u64)
    requires
        is_canonical(a),
        is_canonical(b),
    ensures
        is_canonical(r),
        r == fmod(a - b),
{
    if a >= b {
        proof {
            lemma_fmod_small(a - b);
        }
        a - b
    } else {
        proof {
            lemma_fmod_add_once(a - b);
        }
        ORDER - (b - a)
    }
}

/// Multiplies two canonical field elements.
pub fn mul(a: u64, b: u64) -> (r: u64)
    requires
        is_canonical(a),
        is_canonical(b),
    ensures
        is_canonical(r),
        r == fmod(a * b),
{
    proof {
        vstd::arithmetic::mul::lemma_mul_upper_bound(a as int, ORDER as int, b as int, ORDER as int);
        assert((ORDER as int) * (ORDER as int) < 0x1_0000_0000_0000_0000_0000_0000_0000_0000)
            by (nonlinear_arith);
    }
    let prod: u128 = (a as u128) * (b as u128);
    let m: u128 = prod % (ORDER as u128);
    proof {
        lemma_mod_bound(a * b, p());
    }
    m as u64
}

/// The canonical field element of a signed 64-bit integer, `v mod p`
/// (plonky2's `from_noncanonical_i64`).
pub fn from_i64(v: i64) -> (r: u64)
    ensures
        is_canonical(r),
        r == of_int(v as int),
{
    if v >= 0 {
        proof {
            lemma_fmod_small(v as int);
        }
        v as u64
    } else {
        proof {
            lemma_fmod_add_once(v as int);
        }
        let m: u64 = if v == i64::MIN {
            0x8000_0000_0000_0000u64
        } else {
            (-v) as u64
        };
        ORDER - m
    }
}

/// The field element of a boolean: one for `true`, zero for `false`.
pub fn from_bool(b: bool) -> (r: u64)
    ensures
        is_canonical(r),
        r == (if b { 1u64 } else { 0u64 }),
{
    if b {
        1
    } else {
        0
    }
}

/// The field element `-1`, that is `p - 1`.
pub fn neg_one() -> (r: u64)
    ensures
        is_canonical(r),
        r == fmod(-1),
        r == ORDER - 1,
{
    proof {
        lemma_fmod_add_once(-1);
    }
    ORDER - 1
}

} // verus!
