//! The quadratic extension of the field: elements `c0 + c1 * X` with
//! `X * X = 7`.

use crate::field::{
    canonical,
    field_add,
    field_inverse,
    field_mul,
    field_sub,
    finv,
    has_inverse,
    lemma_canonical_residue,
    residue,
    ORDER,
};
use vstd::prelude::*;

verus! {

/// The square of the generator of the extension.
pub const W: u64 = 7;

/// Number of times the unit of the extension's two-power subgroup can be
/// halved in order.
pub const TWO_ADICITY: usize = 33;

/// Second coordinate of the generator of the two-power subgroup of the
/// extension, an element of order `2^33`; its first coordinate is zero.
pub const POWER_OF_TWO_GENERATOR_C1: u64 = 15659105665374529263;

/// An element of the extension, by its two coordinates.
#[derive(Clone, Copy, Debug, PartialEq, Eq, Structural)]
pub struct QuadraticExtension {
    pub c0: u64,
    pub c1: u64,
}

/// The element that a [`QuadraticExtension`] stands for: the residues of
/// its coordinates.
pub struct ExtValue {
    pub c0: int,
    pub c1: int,
}

impl View for QuadraticExtension {
    type V = ExtValue;

    open spec fn view(&self) -> ExtValue {
        ExtValue { c0: residue(self.c0), c1: residue(self.c1) }
    }
}

/// Sum in the base field.
pub open spec fn fadd(a: int, b: int) -> int {
    (a + b) % (ORDER as int)
}

/// Difference in the base field.
pub open spec fn fsub(a: int, b: int) -> int {
    (a - b) % (ORDER as int)
}

/// Product in the base field.
pub open spec fn fmul(a: int, b: int) -> int {
    (a * b) % (ORDER as int)
}

pub open spec fn ext_zero() -> ExtValue {
    ExtValue { c0: 0, c1: 0 }
}

pub open spec fn ext_one() -> ExtValue {
    ExtValue { c0: 1, c1: 0 }
}

/// Sum in the extension.
pub open spec fn ext_add(a: ExtValue, b: ExtValue) -> ExtValue {
    ExtValue { c0: fadd(a.c0, b.c0), c1: fadd(a.c1, b.c1) }
}

/// Difference in the extension.
pub open spec fn ext_sub(a: ExtValue, b: ExtValue) -> ExtValue {
    ExtValue { c0: fsub(a.c0, b.c0), c1: fsub(a.c1, b.c1) }
}

/// Product in the extension: `(a0 + a1 X)(b0 + b1 X)` with `X * X = 7`.
pub open spec fn ext_mul(a: ExtValue, b: ExtValue) -> ExtValue {
    ExtValue {
        c0: fadd(fmul(a.c0, b.c0), fmul(W as int, fmul(a.c1, b.c1))),
        c1: fadd(fmul(a.c0, b.c1), fmul(a.c1, b.c0)),
    }
}

/// `x` squared `k` times: `x^(2^k)`.
pub open spec fn ext_exp_power_of_2(x: ExtValue, k: nat) -> ExtValue
    decreases k,
{
    if k == 0 {
        x
    } else {
        let y = ext_exp_power_of_2(x, (k - 1) as nat);
        ext_mul(y, y)
    }
}

/// The polynomial with coefficients `terms`, lowest first, at `base`.
pub open spec fn reduce_with_powers(terms: Seq<ExtValue>, base: ExtValue) -> ExtValue
    decreases terms.len(),
{
    if terms.len() == 0 {
        ext_zero()
    } else {
        ext_add(terms[0], ext_mul(base, reduce_with_powers(terms.skip(1), base)))
    }
}

/// The norm of `a`: `a` times its conjugate, an element of the base field.
pub open spec fn ext_norm(a: ExtValue) -> int {
    fsub(fmul(a.c0, a.c0), fmul(W as int, fmul(a.c1, a.c1)))
}

/// The candidate for the inverse of `a`: its conjugate divided by its norm.
pub open spec fn ext_inverse(a: ExtValue) -> ExtValue {
    let scale = finv(ext_norm(a));
    ExtValue { c0: fmul(a.c0, scale), c1: fmul(fsub(0, a.c1), scale) }
}

/// Whether the norm of `a` has an inverse and `a` times its candidate
/// inverse is one.
pub open spec fn ext_has_inverse(a: ExtValue) -> bool {
    has_inverse(ext_norm(a)) && ext_mul(a, ext_inverse(a)) == ext_one()
}

/// The generator of the two-power subgroup.
pub open spec fn power_of_two_generator() -> ExtValue {
    ExtValue { c0: 0, c1: POWER_OF_TWO_GENERATOR_C1 as int }
}

/// The root of unity of order `2^n_log` that is used for domains of that
/// size.
pub open spec fn primitive_root_of_unity_spec(n_log: nat) -> ExtValue {
    ext_exp_power_of_2(power_of_two_generator(), (TWO_ADICITY - n_log) as nat)
}

/// The values of a list of elements.
pub open spec fn ext_views(s: Seq<QuadraticExtension>) -> Seq<ExtValue> {
    Seq::new(s.len(), |i: int| s[i]@)
}

impl QuadraticExtension {
    /// Whether both coordinates are canonical.
    pub open spec fn is_canonical(self) -> bool {
        self.c0 < ORDER && self.c1 < ORDER
    }

    pub fn zero() -> (r: QuadraticExtension)
        ensures
            r@ == ext_zero(),
            r.is_canonical(),
    {
        proof {
            lemma_canonical_residue(0);
        }
        QuadraticExtension { c0: 0, c1: 0 }
    }

    pub fn one() -> (r: QuadraticExtension)
        ensures
            r@ == ext_one(),
            r.is_canonical(),
    {
        proof {
            lemma_canonical_residue(0);
            lemma_canonical_residue(1);
        }
        QuadraticExtension { c0: 1, c1: 0 }
    }

    /// Whether `self` and `other` are the same element.
    pub fn is_equal(&self, other: &QuadraticExtension) -> (r: bool)
        ensures
            r == (self@ == other@),
    {
        canonical(self.c0) == canonical(other.c0) && canonical(self.c1) == canonical(other.c1)
    }

    pub fn add(&self, other: &QuadraticExtension) -> (r: QuadraticExtension)
        ensures
            r@ == ext_add(self@, other@),
            r.is_canonical(),
    {
        let c0: u64 = field_add(canonical(self.c0), canonical(other.c0));
        let c1: u64 = field_add(canonical(self.c1), canonical(other.c1));
        proof {
            lemma_canonical_residue(c0);
            lemma_canonical_residue(c1);
        }
        QuadraticExtension { c0, c1 }
    }

    pub fn sub(&self, other: &QuadraticExtension) -> (r: QuadraticExtension)
        ensures
            r@ == ext_sub(self@, other@),
            r.is_canonical(),
    {
        let c0: u64 = field_sub(canonical(self.c0), canonical(other.c0));
        let c1: u64 = field_sub(canonical(self.c1), canonical(other.c1));
        proof {
            lemma_canonical_residue(c0);
            lemma_canonical_residue(c1);
        }
        QuadraticExtension { c0, c1 }
    }

    pub fn mul(&self, other: &QuadraticExtension) -> (r: QuadraticExtension)
        ensures
            r@ == ext_mul(self@, other@),
            r.is_canonical(),
    {
        let a0: u64 = canonical(self.c0);
        let a1: u64 = canonical(self.c1);
        let b0: u64 = canonical(other.c0);
        let b1: u64 = canonical(other.c1);
        let c0: u64 = field_add(field_mul(a0, b0), field_mul(W, field_mul(a1, b1)));
        let c1: u64 = field_add(field_mul(a0, b1), field_mul(a1, b0));
        proof {
            lemma_canonical_residue(c0);
            lemma_canonical_residue(c1);
        }
        QuadraticExtension { c0, c1 }
    }

    /// The element of the base field `c0`.
    pub fn from_base(c0: u64) -> (r: QuadraticExtension)
        ensures
            r@ == (ExtValue { c0: residue(c0), c1: 0 }),
    {
        proof {
            lemma_canonical_residue(0);
        }
        QuadraticExtension { c0, c1: 0 }
    }

    /// The inverse: the element that gives one when multiplied by `self`.
    /// It is computed as the conjugate divided by the norm and returned
    /// where the product with `self` is one, which it is not for zero.
    pub fn inverse(&self) -> (r: Option<QuadraticExtension>)
        ensures
            r.is_some() <==> ext_has_inverse(self@),
            self@ == ext_zero() ==> r.is_none(),
            r.is_some() ==> {
                &&& r.unwrap()@ == ext_inverse(self@)
                &&& ext_mul(self@, r.unwrap()@) == ext_one()
            },
    {
        let a0: u64 = canonical(self.c0);
        let a1: u64 = canonical(self.c1);
        let norm: u64 = field_sub(field_mul(a0, a0), field_mul(W, field_mul(a1, a1)));
        proof {
            lemma_canonical_residue(norm);
            lemma_canonical_residue(0);
            if self@ == ext_zero() {
                assert(0 * 0 == 0);
                assert((W as int) * 0 == 0);
                assert(norm == 0);
            }
        }
        match field_inverse(norm) {
            None => None,
            Some(scale) => {
                let c0: u64 = field_mul(a0, scale);
                let c1: u64 = field_mul(field_sub(0, a1), scale);
                proof {
                    lemma_canonical_residue(c0);
                    lemma_canonical_residue(c1);
                }
                let candidate = QuadraticExtension { c0, c1 };
                if self.mul(&candidate).is_equal(&QuadraticExtension::one()) {
                    Some(candidate)
                } else {
                    None
                }
            },
        }
    }

    /// The root of unity of order `2^n_log` that is used for domains of
    /// that size.
    pub fn primitive_root_of_unity(n_log: usize) -> (r: QuadraticExtension)
        requires
            n_log <= TWO_ADICITY,
        ensures
            r@ == primitive_root_of_unity_spec(n_log as nat),
    {
        proof {
            lemma_canonical_residue(0);
            lemma_canonical_residue(POWER_OF_TWO_GENERATOR_C1);
        }
        let generator = QuadraticExtension { c0: 0, c1: POWER_OF_TWO_GENERATOR_C1 };
        generator.exp_power_of_2(TWO_ADICITY - n_log)
    }

    /// `self` squared `power_log` times.
    pub fn exp_power_of_2(&self, power_log: usize) -> (r: QuadraticExtension)
        ensures
            r@ == ext_exp_power_of_2(self@, power_log as nat),
    {
        let mut acc: QuadraticExtension = *self;
        let mut i: usize = 0;
        while i < power_log
            invariant
                i <= power_log,
                acc@ == ext_exp_power_of_2(self@, i as nat),
            decreases power_log - i,
        {
            acc = acc.mul(&acc);
            i = i + 1;
        }
        acc
    }
}

/// The polynomial with coefficients `terms[start..end]`, lowest first, at
/// `base`.
pub fn reduce_range(
    terms: &Vec<QuadraticExtension>,
    start: usize,
    end: usize,
    base: &QuadraticExtension,
) -> (r: QuadraticExtension)
    requires
        start <= end <= terms@.len(),
    ensures
        r@ == reduce_with_powers(ext_views(terms@).subrange(start as int, end as int), base@),
{
    let ghost values = ext_views(terms@);
    let mut acc: QuadraticExtension = QuadraticExtension::zero();
    let mut k: usize = end;
    assert(values.subrange(end as int, end as int).len() == 0);
    while k > start
        invariant
            start <= k <= end <= terms@.len(),
            values == ext_views(terms@),
            acc@ == reduce_with_powers(values.subrange(k as int, end as int), base@),
        decreases k - start,
    {
        k = k - 1;
        proof {
            let tail = values.subrange(k as int, end as int);
            assert(tail[0] == terms@[k as int]@);
            assert(tail.skip(1) =~= values.subrange(k + 1, end as int));
        }
        acc = terms[k].add(&base.mul(&acc));
    }
    acc
}

} // verus!
