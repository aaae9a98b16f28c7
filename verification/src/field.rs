//! Arithmetic in the prime field of order `P = 2^64 - 2^32 + 1`.
//!
//! Evaluation domains are multiplicative subgroups of order `2^m`; this
//! prime has a subgroup of order `2^32`, generated by [`OMEGA_32`], so
//! every domain the protocol needs is available. Elements are `u64`
//! values below [`P`]; every operation is specified against plain
//! modular arithmetic on `int` and proved, including the binary
//! exponentiation that the inversion and domain-generator computations
//! use.

use vstd::prelude::*;
use vstd::arithmetic::div_mod::{
    lemma_mul_mod_noop_left, lemma_mul_mod_noop_right, lemma_small_mod, lemma_mod_bound,
};
use vstd::arithmetic::mul::lemma_mul_is_associative;

verus! {

/// The field modulus, `2^64 - 2^32 + 1`.
pub const P: u64 = 18446744069414584321;

/// A generator of the multiplicative subgroup of order `2^32`.
pub const OMEGA_32: u64 = 1753635133440165772;

/// The inverse of two: `(P + 1) / 2`.
pub const INV_TWO: u64 = 9223372034707292161;

pub open spec fn in_field(a: int) -> bool {
    0 <= a < P
}

pub open spec fn add_f(a: int, b: int) -> int {
    (a + b) % (P as int)
}

pub open spec fn sub_f(a: int, b: int) -> int {
    (a - b) % (P as int)
}

pub open spec fn mul_f(a: int, b: int) -> int {
    (a * b) % (P as int)
}

pub open spec fn pow_f(a: int, e: nat) -> int
    decreases e,
{
    if e == 0 {
        1
    } else {
        mul_f(a, pow_f(a, (e - 1) as nat))
    }
}

/// The multiplicative inverse of a nonzero element, by Fermat's little
/// theorem; on zero it yields zero.
pub open spec fn inv_f(a: int) -> int {
    pow_f(a, (P - 2) as nat)
}

/// The spec-level image of [`f_add`], on `u64` representatives.
pub open spec fn add64(a: u64, b: u64) -> u64 {
    add_f(a as int, b as int) as u64
}

/// The spec-level image of [`f_sub`], on `u64` representatives.
pub open spec fn sub64(a: u64, b: u64) -> u64 {
    sub_f(a as int, b as int) as u64
}

/// The spec-level image of [`f_mul`], on `u64` representatives.
pub open spec fn mul64(a: u64, b: u64) -> u64 {
    mul_f(a as int, b as int) as u64
}

/// The spec-level image of [`f_pow`], on `u64` representatives.
pub open spec fn pow64(a: u64, e: nat) -> u64 {
    pow_f(a as int, e) as u64
}

/// The spec-level image of [`f_inv`], on `u64` representatives.
pub open spec fn inv64(a: u64) -> u64 {
    inv_f(a as int) as u64
}

pub proof fn lemma_mul_f_in_field(a: int, b: int)
    ensures
        in_field(mul_f(a, b)),
{
    lemma_mod_bound(a * b, P as int);
}

pub proof fn lemma_pow_f_in_field(a: int, e: nat)
    ensures
        in_field(pow_f(a, e)),
    decreases e,
{
    if e == 0 {
    } else {
        lemma_pow_f_in_field(a, (e - 1) as nat);
        lemma_mul_f_in_field(a, pow_f(a, (e - 1) as nat));
    }
}

pub proof fn lemma_mul_f_comm(a: int, b: int)
    ensures
        mul_f(a, b) == mul_f(b, a),
{
}

/// Multiplication of residues may be carried out on any representatives:
/// `((a mod P) * b) mod P == (a * b) mod P`, in both arguments.
pub proof fn lemma_mul_f_assoc(a: int, b: int, c: int)
    ensures
        mul_f(mul_f(a, b), c) == mul_f(a, mul_f(b, c)),
{
    lemma_mul_mod_noop_left(a * b, c, P as int);
    lemma_mul_mod_noop_right(a, b * c, P as int);
    lemma_mul_is_associative(a, b, c);
}

pub proof fn lemma_pow_f_square(a: int, k: nat)
    ensures
        pow_f(mul_f(a, a), k) == pow_f(a, 2 * k),
    decreases k,
{
    if k == 0 {
    } else {
        lemma_pow_f_square(a, (k - 1) as nat);
        // pow_f(a, 2k) == mul_f(a, mul_f(a, pow_f(a, 2k - 2)))
        assert(pow_f(a, 2 * k) == mul_f(a, pow_f(a, (2 * k - 1) as nat)));
        assert(pow_f(a, (2 * k - 1) as nat) == mul_f(a, pow_f(a, (2 * k - 2) as nat)));
        lemma_mul_f_assoc(a, a, pow_f(a, (2 * k - 2) as nat));
        assert(2 * ((k - 1) as nat) == 2 * k - 2);
    }
}

fn add_raw(a: u64, b: u64) -> (r: u64)
    requires
        a < P,
        b < P,
    ensures
        r as int == add_f(a as int, b as int),
{
    let s: u128 = a as u128 + b as u128;
    let m: u128 = if s >= P as u128 {
        s - P as u128
    } else {
        s
    };
    proof {
        if s >= P as u128 {
            assert((a + b) % (P as int) == a + b - P) by {
                lemma_small_mod((a + b - P) as nat, P as nat);
                assert((a + b) % (P as int) == ((a + b - P) + P) % (P as int));
                vstd::arithmetic::div_mod::lemma_mod_add_multiples_vanish(
                    a + b - P,
                    P as int,
                );
            }
        } else {
            lemma_small_mod((a + b) as nat, P as nat);
        }
    }
    m as u64
}

/// Field addition.
pub fn f_add(a: u64, b: u64) -> (r: u64)
    requires
        a < P,
        b < P,
    ensures
        r == add64(a, b),
        r < P,
{
    let r = add_raw(a, b);
    proof {
        lemma_mod_bound(a + b, P as int);
    }
    r
}

/// Field subtraction.
pub fn f_sub(a: u64, b: u64) -> (r: u64)
    requires
        a < P,
        b < P,
    ensures
        r == sub64(a, b),
        r < P,
{
    let r: u64 = if a >= b {
        a - b
    } else {
        a + (P - b)
    };
    proof {
        if a >= b {
            lemma_small_mod((a - b) as nat, P as nat);
        } else {
            lemma_small_mod((a + P - b) as nat, P as nat);
            vstd::arithmetic::div_mod::lemma_mod_add_multiples_vanish(a - b, P as int);
        }
    }
    r
}

/// Field multiplication, through a 128-bit intermediate product.
pub fn f_mul(a: u64, b: u64) -> (r: u64)
    requires
        a < P,
        b < P,
    ensures
        r == mul64(a, b),
        r < P,
{
    proof {
        assert((a as u128) * (b as u128) < 0x100000000000000000000000000000000) by (nonlinear_arith)
            requires
                a < 0x10000000000000000,
                b < 0x10000000000000000,
        ;
    }
    let prod: u128 = (a as u128) * (b as u128);
    let r: u128 = prod % (P as u128);
    proof {
        lemma_mod_bound(a * b, P as int);
    }
    r as u64
}

/// Field exponentiation by binary square-and-multiply.
pub fn f_pow(a: u64, e: u64) -> (r: u64)
    requires
        a < P,
    ensures
        r == pow64(a, e as nat),
        r < P,
{
    let mut result: u64 = 1;
    let mut base: u64 = a;
    let mut exp: u64 = e;
    proof {
        lemma_small_mod(1nat, P as nat);
    }
    while exp > 0
        invariant
            result < P,
            base < P,
            pow_f(a as int, e as nat) == mul_f(result as int, pow_f(base as int, exp as nat)),
        decreases exp,
    {
        let ghost old_result = result as int;
        let ghost old_base = base as int;
        let ghost old_exp = exp as nat;
        if exp % 2 == 1 {
            result = f_mul(result, base);
            proof {
                // result' * base^(exp-1) == result * base^exp
                lemma_mul_f_assoc(old_result, old_base, pow_f(old_base, (old_exp - 1) as nat));
                lemma_mul_f_comm(old_base, pow_f(old_base, (old_exp - 1) as nat));
                lemma_mul_mod_noop_left(
                    old_result * old_base,
                    pow_f(old_base, (old_exp - 1) as nat),
                    P as int,
                );
                lemma_mul_mod_noop_right(
                    old_result,
                    old_base * pow_f(old_base, (old_exp - 1) as nat),
                    P as int,
                );
                lemma_mul_is_associative(
                    old_result,
                    old_base,
                    pow_f(old_base, (old_exp - 1) as nat),
                );
            }
            exp = exp - 1;
        }
        let ghost mid_exp = exp as nat;
        base = f_mul(base, base);
        exp = exp / 2;
        proof {
            lemma_pow_f_square(old_base, exp as nat);
            assert(2 * (exp as nat) == mid_exp);
        }
    }
    proof {
        assert(pow_f(base as int, 0) == 1);
        lemma_small_mod(result as nat, P as nat);
    }
    result
}

/// Field inversion by exponentiation with `P - 2`.
pub fn f_inv(a: u64) -> (r: u64)
    requires
        a < P,
    ensures
        r == inv64(a),
        r < P,
{
    f_pow(a, P - 2)
}

} // verus!
