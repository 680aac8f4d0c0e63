//! The polynomial identity of one table at the challenge point.
//!
//! With a trace of `2^degree_bits` rows and the challenge point `zeta`, the
//! quotient openings come in chunks of `quotient_degree_factor` values, one
//! chunk for each challenge. Chunk `i` is recombined as a polynomial in
//! `zeta^(2^degree_bits)`, and the identity asks that the vanishing value
//! `i` is `Z_H(zeta)` times that, with
//! `Z_H(zeta) = zeta^(2^degree_bits) - 1`.

use crate::error::VerifyError;
use crate::extension::{
    ext_exp_power_of_2,
    ext_has_inverse,
    ext_inverse,
    ext_mul,
    ext_one,
    ext_sub,
    ext_views,
    primitive_root_of_unity_spec,
    reduce_range,
    reduce_with_powers,
    ExtValue,
    QuadraticExtension,
    TWO_ADICITY,
};
use crate::field::{field_pow, fpow};
use crate::table::Table;
use vstd::prelude::*;

verus! {

/// `Z_H(zeta)` for a trace of `2^degree_bits` rows.
pub open spec fn z_h(zeta: ExtValue, degree_bits: nat) -> ExtValue {
    ext_sub(ext_exp_power_of_2(zeta, degree_bits), ext_one())
}

/// The number of rows `2^log_n` as an element of the field.
pub open spec fn domain_size(log_n: nat) -> ExtValue {
    ExtValue { c0: fpow(2, log_n), c1: 0 }
}

/// `n * x - n`: what the first-row indicator divides `Z_H(x)` by.
pub open spec fn l_1_denominator(log_n: nat, x: ExtValue) -> ExtValue {
    ext_sub(ext_mul(domain_size(log_n), x), domain_size(log_n))
}

/// `n * (g * x - 1)`: what the last-row indicator divides `Z_H(x)` by, with
/// `g` the root of unity of the domain.
pub open spec fn l_last_denominator(log_n: nat, x: ExtValue) -> ExtValue {
    ext_mul(
        domain_size(log_n),
        ext_sub(ext_mul(primitive_root_of_unity_spec(log_n), x), ext_one()),
    )
}

/// The first-row indicator polynomial at `x`.
pub open spec fn l_1(log_n: nat, x: ExtValue) -> ExtValue {
    ext_mul(z_h(x, log_n), ext_inverse(l_1_denominator(log_n, x)))
}

/// The last-row indicator polynomial at `x`.
pub open spec fn l_last(log_n: nat, x: ExtValue) -> ExtValue {
    ext_mul(z_h(x, log_n), ext_inverse(l_last_denominator(log_n, x)))
}

/// The number of rows `2^log_n` as an element of the field.
fn eval_domain_size(log_n: usize) -> (n: QuadraticExtension)
    ensures
        n@ == domain_size(log_n as nat),
{
    proof {
        crate::field::lemma_canonical_residue(2);
    }
    let size: u64 = field_pow(2, log_n as u64);
    proof {
        crate::field::lemma_canonical_residue(size);
    }
    QuadraticExtension::from_base(size)
}

/// `Z_H(x)` for a domain of `2^log_n` rows.
fn eval_z_h(log_n: usize, x: &QuadraticExtension) -> (z: QuadraticExtension)
    ensures
        z@ == z_h(x@, log_n as nat),
{
    x.exp_power_of_2(log_n).sub(&QuadraticExtension::one())
}

/// `n * x - n`.
fn eval_l_1_denominator(log_n: usize, x: &QuadraticExtension) -> (d: QuadraticExtension)
    ensures
        d@ == l_1_denominator(log_n as nat, x@),
{
    let n = eval_domain_size(log_n);
    n.mul(x).sub(&n)
}

/// `n * (g * x - 1)`.
fn eval_l_last_denominator(log_n: usize, x: &QuadraticExtension) -> (d: QuadraticExtension)
    requires
        log_n <= TWO_ADICITY,
    ensures
        d@ == l_last_denominator(log_n as nat, x@),
{
    let n = eval_domain_size(log_n);
    let g = QuadraticExtension::primitive_root_of_unity(log_n);
    let inner = g.mul(x).sub(&QuadraticExtension::one());
    n.mul(&inner)
}

/// The first-row and last-row indicator polynomials of a domain of
/// `2^log_n` rows at `x`, or `None` where one of the two denominators has
/// no inverse, as at the points where it is zero.
pub fn eval_l_1_and_l_last(log_n: usize, x: &QuadraticExtension) -> (r: Option<
    (QuadraticExtension, QuadraticExtension),
>)
    requires
        log_n <= TWO_ADICITY,
    ensures
        r.is_some() <==> ext_has_inverse(l_1_denominator(log_n as nat, x@)) && ext_has_inverse(
            l_last_denominator(log_n as nat, x@),
        ),
        r.is_some() ==> r.unwrap().0@ == l_1(log_n as nat, x@) && r.unwrap().1@ == l_last(
            log_n as nat,
            x@,
        ),
{
    let z_x = eval_z_h(log_n, x);
    let l_1_inverse = match eval_l_1_denominator(log_n, x).inverse() {
        Some(v) => v,
        None => {
            return None;
        },
    };
    let l_last_inverse = match eval_l_last_denominator(log_n, x).inverse() {
        Some(v) => v,
        None => {
            return None;
        },
    };
    Some((z_x.mul(&l_1_inverse), z_x.mul(&l_last_inverse)))
}

/// Chunk `i` of `s`, in chunks of `size`; the last one may be shorter.
pub open spec fn chunk(s: Seq<ExtValue>, size: nat, i: int) -> Seq<ExtValue> {
    s.subrange(
        i * size,
        if (i + 1) * size <= s.len() {
            (i + 1) * size
        } else {
            s.len() as int
        },
    )
}

/// Whether there is a vanishing value `i` and it is `Z_H(zeta)` times the
/// recombined chunk `i` of the quotient openings.
pub open spec fn chunk_identity_holds(
    zeta: ExtValue,
    degree_bits: nat,
    vanishing: Seq<ExtValue>,
    quotient: Seq<ExtValue>,
    size: nat,
    i: int,
) -> bool {
    &&& i < vanishing.len()
    &&& vanishing[i] == ext_mul(
        z_h(zeta, degree_bits),
        reduce_with_powers(chunk(quotient, size, i), ext_exp_power_of_2(zeta, degree_bits)),
    )
}

/// Whether the identity holds for every chunk of the quotient openings.
pub open spec fn identity_holds(
    zeta: ExtValue,
    degree_bits: nat,
    vanishing: Seq<ExtValue>,
    quotient: Seq<ExtValue>,
    size: nat,
) -> bool {
    forall|i: int|
        0 <= i && i * size < quotient.len() ==> #[trigger] chunk_identity_holds(
            zeta,
            degree_bits,
            vanishing,
            quotient,
            size,
            i,
        )
}

/// Checks the polynomial identity of `table` at `zeta`.
pub fn check_quotient_identity(
    table: Table,
    degree_bits: usize,
    zeta: &QuadraticExtension,
    vanishing_polys_zeta: &Vec<QuadraticExtension>,
    quotient_polys: &Vec<QuadraticExtension>,
    quotient_degree_factor: usize,
) -> (r: Result<(), VerifyError>)
    requires
        quotient_degree_factor > 0,
    ensures
        identity_holds(
            zeta@,
            degree_bits as nat,
            ext_views(vanishing_polys_zeta@),
            ext_views(quotient_polys@),
            quotient_degree_factor as nat,
        ) ==> r == Ok::<(), VerifyError>(()),
        !identity_holds(
            zeta@,
            degree_bits as nat,
            ext_views(vanishing_polys_zeta@),
            ext_views(quotient_polys@),
            quotient_degree_factor as nat,
        ) ==> r == Err::<(), VerifyError>(VerifyError::IdentityMismatch(table)),
{
    let ghost vanishing = ext_views(vanishing_polys_zeta@);
    let ghost quotient = ext_views(quotient_polys@);
    let ghost size = quotient_degree_factor as nat;
    let len: usize = quotient_polys.len();
    if len == 0 {
        assert forall|i: int| 0 <= i && i * size < quotient.len() implies #[trigger] chunk_identity_holds(
            zeta@,
            degree_bits as nat,
            vanishing,
            quotient,
            size,
            i,
        ) by {
            assert(i * size >= 0) by (nonlinear_arith)
                requires
                    i >= 0,
                    size >= 0,
            ;
        }
        return Ok(());
    }
    let zeta_pow_deg = zeta.exp_power_of_2(degree_bits);
    let z_h_zeta = eval_z_h(degree_bits, zeta);
    let mut i: usize = 0;
    let mut start: usize = 0;
    loop
        invariant
            start == i * size,
            start < len,
            len == quotient_polys@.len(),
            size == quotient_degree_factor,
            size > 0,
            vanishing == ext_views(vanishing_polys_zeta@),
            quotient == ext_views(quotient_polys@),
            zeta_pow_deg@ == ext_exp_power_of_2(zeta@, degree_bits as nat),
            z_h_zeta@ == z_h(zeta@, degree_bits as nat),
            forall|h: int|
                0 <= h < i ==> #[trigger] chunk_identity_holds(
                    zeta@,
                    degree_bits as nat,
                    vanishing,
                    quotient,
                    size,
                    h,
                ),
        decreases len - start,
    {
        let is_last: bool = len - start <= quotient_degree_factor;
        let end: usize = if is_last {
            len
        } else {
            start + quotient_degree_factor
        };
        proof {
            assert((i + 1) * size == i * size + size) by (nonlinear_arith);
            assert(chunk(quotient, size, i as int) =~= quotient.subrange(start as int, end as int));
        }
        let holds: bool = if i < vanishing_polys_zeta.len() {
            let recombined = reduce_range(quotient_polys, start, end, &zeta_pow_deg);
            let expected = z_h_zeta.mul(&recombined);
            assert(vanishing[i as int] == vanishing_polys_zeta@[i as int]@);
            vanishing_polys_zeta[i].is_equal(&expected)
        } else {
            false
        };
        assert(holds == chunk_identity_holds(
            zeta@,
            degree_bits as nat,
            vanishing,
            quotient,
            size,
            i as int,
        ));
        if !holds {
            return Err(VerifyError::IdentityMismatch(table));
        }
        if is_last {
            assert forall|h: int| 0 <= h && h * size < quotient.len() implies #[trigger] chunk_identity_holds(
                zeta@,
                degree_bits as nat,
                vanishing,
                quotient,
                size,
                h,
            ) by {
                if h > i {
                    assert(h * size >= (i + 1) * size) by (nonlinear_arith)
                        requires
                            h >= i + 1,
                            size > 0,
                    ;
                }
            }
            return Ok(());
        }
        start = end;
        i = i + 1;
    }
}

/// The verdict on one table's proof: the polynomial identity is checked
/// first, and what the low-degree test returned counts only where the
/// identity holds.
pub fn verify_stark_proof_with_challenges(
    table: Table,
    degree_bits: usize,
    zeta: &QuadraticExtension,
    vanishing_polys_zeta: &Vec<QuadraticExtension>,
    quotient_polys: &Vec<QuadraticExtension>,
    quotient_degree_factor: usize,
    fri_accepted: bool,
) -> (r: Result<(), VerifyError>)
    requires
        quotient_degree_factor > 0,
    ensures
        r == (if !identity_holds(
            zeta@,
            degree_bits as nat,
            ext_views(vanishing_polys_zeta@),
            ext_views(quotient_polys@),
            quotient_degree_factor as nat,
        ) {
            Err::<(), VerifyError>(VerifyError::IdentityMismatch(table))
        } else if !fri_accepted {
            Err::<(), VerifyError>(VerifyError::FriVerificationFailed(table))
        } else {
            Ok::<(), VerifyError>(())
        }),
{
    match check_quotient_identity(
        table,
        degree_bits,
        zeta,
        vanishing_polys_zeta,
        quotient_polys,
        quotient_degree_factor,
    ) {
        Err(e) => Err(e),
        Ok(_) => {
            if fri_accepted {
                Ok(())
            } else {
                Err(VerifyError::FriVerificationFailed(table))
            }
        },
    }
}

} // verus!
