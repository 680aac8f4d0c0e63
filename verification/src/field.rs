//! Arithmetic in the prime field of order `2^64 - 2^32 + 1`.
//!
//! A field element is carried as a `u64`. Any `u64` stands for its residue
//! modulo [`ORDER`]; the representative below `ORDER` is the canonical one.

use vstd::arithmetic::div_mod::{lemma_mul_mod_noop_general, lemma_small_mod, lemma_mod_bound};
use vstd::prelude::*;

verus! {

/// The order of the field.
pub const ORDER: u64 = 0xFFFF_FFFF_0000_0001;

/// The residue that `x` stands for.
pub open spec fn residue(x: u64) -> int {
    (x as int) % (ORDER as int)
}

/// Whether `x` is the canonical representative of its residue.
pub open spec fn is_canonical(x: u64) -> bool {
    x < ORDER
}

/// Whether every element of `s` is canonical.
pub open spec fn all_canonical(s: Seq<u64>) -> bool {
    forall|i: int| 0 <= i < s.len() ==> is_canonical(#[trigger] s[i])
}

/// Product of the elements of `s` as an integer, before reduction.
pub open spec fn product(s: Seq<u64>) -> int
    decreases s.len(),
{
    if s.len() == 0 {
        1
    } else {
        product(s.drop_last()) * (s.last() as int)
    }
}

/// The canonical representative of `x`.
pub fn canonical(x: u64) -> (r: u64)
    ensures
        r == residue(x),
        is_canonical(r),
{
    if x >= ORDER {
        let r: u64 = x - ORDER;
        proof {
            assert((x as int) % (ORDER as int) == r as int) by {
                vstd::arithmetic::div_mod::lemma_fundamental_div_mod_converse(
                    x as int,
                    ORDER as int,
                    1,
                    r as int,
                );
            }
        }
        r
    } else {
        proof {
            lemma_small_mod(x as nat, ORDER as nat);
        }
        x
    }
}

/// Whether `a` and `b` stand for the same field element.
pub fn field_eq(a: u64, b: u64) -> (r: bool)
    ensures
        r == (residue(a) == residue(b)),
{
    canonical(a) == canonical(b)
}

/// Product of two field elements, canonical.
pub fn field_mul(a: u64, b: u64) -> (r: u64)
    ensures
        r == ((a as int) * (b as int)) % (ORDER as int),
        is_canonical(r),
{
    assert((a as int) * (b as int) <= 0xFFFF_FFFF_FFFF_FFFF * 0xFFFF_FFFF_FFFF_FFFF) by (nonlinear_arith)
        requires
            0 <= a <= 0xFFFF_FFFF_FFFF_FFFF,
            0 <= b <= 0xFFFF_FFFF_FFFF_FFFF,
    ;
    assert((a as int) * (b as int) >= 0) by (nonlinear_arith)
        requires
            0 <= a,
            0 <= b,
    ;
    let wide: u128 = (a as u128) * (b as u128);
    let reduced: u128 = wide % (ORDER as u128);
    proof {
        lemma_mod_bound(wide as int, ORDER as int);
    }
    reduced as u64
}

/// Sum of two field elements, canonical.
pub fn field_add(a: u64, b: u64) -> (r: u64)
    ensures
        r == ((a as int) + (b as int)) % (ORDER as int),
        is_canonical(r),
{
    let wide: u128 = (a as u128) + (b as u128);
    let reduced: u128 = wide % (ORDER as u128);
    proof {
        lemma_mod_bound(wide as int, ORDER as int);
    }
    reduced as u64
}

/// Additive inverse of a field element, canonical.
pub fn field_neg(a: u64) -> (r: u64)
    ensures
        r == (-(a as int)) % (ORDER as int),
        is_canonical(r),
        (residue(a) + r) % (ORDER as int) == 0,
{
    let c: u64 = canonical(a);
    if c == 0 {
        proof {
            lemma_neg_residue(a as int, 0, 0);
        }
        0
    } else {
        let r: u64 = ORDER - c;
        proof {
            lemma_neg_residue(a as int, c as int, r as int);
        }
        r
    }
}

/// Where `c` is the residue of `x` and `r` the canonical value with
/// `c + r` a multiple of the order, `r` is the residue of `-x`.
proof fn lemma_neg_residue(x: int, c: int, r: int)
    requires
        c == x % (ORDER as int),
        0 <= r < ORDER,
        (c == 0 && r == 0) || (c != 0 && r == ORDER - c),
    ensures
        r == (-x) % (ORDER as int),
        (c + r) % (ORDER as int) == 0,
{
    let p = ORDER as int;
    let q = x / p;
    vstd::arithmetic::div_mod::lemma_fundamental_div_mod(x, p);
    assert(x == p * q + c);
    if c == 0 {
        assert(-x == (-q) * p + 0) by (nonlinear_arith)
            requires
                x == p * q + c,
                c == 0,
        ;
        vstd::arithmetic::div_mod::lemma_fundamental_div_mod_converse(-x, p, -q, 0);
        lemma_small_mod(0, ORDER as nat);
    } else {
        lemma_mod_bound(x, p);
        assert(-x == (-q - 1) * p + r) by (nonlinear_arith)
            requires
                x == p * q + c,
                r == p - c,
        ;
        vstd::arithmetic::div_mod::lemma_fundamental_div_mod_converse(-x, p, -q - 1, r);
        vstd::arithmetic::div_mod::lemma_fundamental_div_mod_converse(c + r, p, 1, 0);
    }
}

/// Difference of two field elements, canonical.
pub fn field_sub(a: u64, b: u64) -> (r: u64)
    ensures
        r == ((a as int) - (b as int)) % (ORDER as int),
        is_canonical(r),
{
    let cb: u64 = canonical(b);
    let wide: u128 = (a as u128) + ((ORDER - cb) as u128);
    let reduced: u128 = wide % (ORDER as u128);
    proof {
        let p = ORDER as int;
        lemma_mod_bound(wide as int, p);
        vstd::arithmetic::div_mod::lemma_mod_add_multiples_vanish((a as int) - (cb as int), p);
        vstd::arithmetic::div_mod::lemma_sub_mod_noop_right(a as int, b as int, p);
        assert(wide as int == p + ((a as int) - (cb as int)));
    }
    reduced as u64
}

/// A canonical representative is its own residue.
pub proof fn lemma_canonical_residue(x: u64)
    requires
        is_canonical(x),
    ensures
        residue(x) == x,
{
    lemma_small_mod(x as nat, ORDER as nat);
}

/// Multiplying a reduced product by one more factor and reducing again
/// gives the reduced product of all factors.
pub proof fn lemma_product_step(s: Seq<u64>, acc: u64, next: u64)
    requires
        acc == product(s) % (ORDER as int),
    ensures
        ((acc as int) * (next as int)) % (ORDER as int) == product(s.push(next)) % (ORDER as int),
{
    assert(s.push(next).drop_last() =~= s);
    assert(s.push(next).last() == next);
    lemma_mul_mod_noop_general(product(s), next as int, ORDER as int);
}

/// `a` to the power `e` in the field, by squaring: the power for `e / 2`
/// is squared, and multiplied by `a` once more where `e` is odd.
pub open spec fn fpow(a: int, e: nat) -> int
    decreases e,
{
    if e == 0 {
        1
    } else {
        let half = fpow(a, e / 2);
        let square = (half * half) % (ORDER as int);
        if e % 2 == 1 {
            (square * a) % (ORDER as int)
        } else {
            square
        }
    }
}

/// The candidate for the inverse of `a`: `a^(ORDER - 2)`.
pub open spec fn finv(a: int) -> int {
    fpow(a, (ORDER - 2) as nat)
}

/// Whether `a` times its candidate inverse is one.
pub open spec fn has_inverse(a: int) -> bool {
    (a * finv(a)) % (ORDER as int) == 1
}

/// `a` to the power `e`, canonical.
pub fn field_pow(a: u64, e: u64) -> (r: u64)
    ensures
        r == fpow(residue(a), e as nat),
        is_canonical(r),
    decreases e,
{
    if e == 0 {
        1
    } else {
        let half: u64 = field_pow(a, e / 2);
        let square: u64 = field_mul(half, half);
        if e % 2 == 1 {
            let r: u64 = field_mul(square, canonical(a));
            r
        } else {
            square
        }
    }
}

/// The inverse of `a`: the element that gives one when multiplied by `a`.
/// It is computed as `a^(ORDER - 2)` and returned where the product with
/// `a` is one, which it is not for zero.
pub fn field_inverse(a: u64) -> (r: Option<u64>)
    ensures
        r.is_some() <==> has_inverse(residue(a)),
        residue(a) == 0 ==> r.is_none(),
        r.is_some() ==> {
            &&& r.unwrap() == finv(residue(a))
            &&& is_canonical(r.unwrap())
            &&& (residue(a) * (r.unwrap() as int)) % (ORDER as int) == 1
        },
{
    let c: u64 = canonical(a);
    let candidate: u64 = field_pow(a, ORDER - 2);
    proof {
        if c == 0 {
            assert(0 * (candidate as int) == 0);
            lemma_small_mod(0, ORDER as nat);
        }
    }
    if field_mul(c, candidate) == 1 {
        Some(candidate)
    } else {
        None
    }
}

} // verus!
