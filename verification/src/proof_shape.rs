//! How many values a table's proof holds, by the shape of its table.

use crate::config::StarkConfig;
use vstd::prelude::*;

verus! {

/// What the layout of a proof depends on in a table.
#[derive(Clone, Copy, Debug, PartialEq, Eq, Structural)]
pub struct StarkShape {
    /// Number of trace columns.
    pub columns: usize,
    /// Number of permutation accumulator polynomials.
    pub num_permutation_batches: usize,
    /// Number of chunks that the quotient of one challenge is split into.
    pub quotient_degree_factor: usize,
}

/// Number of openings in each part of an opening set.
#[derive(Clone, Copy, Debug, PartialEq, Eq, Structural)]
pub struct OpeningSetShape {
    pub local_values: usize,
    pub next_values: usize,
    pub permutation_ctl_zs: usize,
    pub permutation_ctl_zs_next: usize,
    pub ctl_zs_last: usize,
    pub quotient_polys: usize,
}

impl StarkShape {
    /// Number of polynomials behind the second commitment: the permutation
    /// accumulators and the lookup accumulators.
    pub open spec fn num_auxiliary(self, num_ctl_zs: usize) -> int {
        self.num_permutation_batches + num_ctl_zs
    }

    /// Number of quotient polynomials: one chunk list for each challenge.
    pub open spec fn num_quotient(self, config: StarkConfig) -> int {
        self.quotient_degree_factor * config.num_challenges
    }

    /// Whether the counts fit machine integers.
    pub open spec fn fits(self, num_ctl_zs: usize, config: StarkConfig) -> bool {
        self.num_auxiliary(num_ctl_zs) <= usize::MAX && self.num_quotient(config) <= usize::MAX
    }

    /// Tests [`Self::fits`].
    pub fn check_fits(&self, num_ctl_zs: usize, config: &StarkConfig) -> (r: bool)
        ensures
            r == self.fits(num_ctl_zs, *config),
    {
        self.num_permutation_batches.checked_add(num_ctl_zs).is_some()
            && self.quotient_degree_factor.checked_mul(config.num_challenges).is_some()
    }

    /// Number of polynomials behind each of the three commitments: trace,
    /// auxiliary, quotient.
    pub fn num_leaves_per_oracle(&self, num_ctl_zs: usize, config: &StarkConfig) -> (r: [usize; 3])
        requires
            self.fits(num_ctl_zs, *config),
        ensures
            r[0] == self.columns,
            r[1] == self.num_auxiliary(num_ctl_zs),
            r[2] == self.num_quotient(*config),
    {
        [
            self.columns,
            self.num_permutation_batches + num_ctl_zs,
            self.quotient_degree_factor * config.num_challenges,
        ]
    }

    /// Number of openings in each part of the opening set.
    pub fn opening_set_shape(&self, num_ctl_zs: usize, config: &StarkConfig) -> (r: OpeningSetShape)
        requires
            self.fits(num_ctl_zs, *config),
        ensures
            r.local_values == self.columns,
            r.next_values == self.columns,
            r.permutation_ctl_zs == self.num_auxiliary(num_ctl_zs),
            r.permutation_ctl_zs_next == self.num_auxiliary(num_ctl_zs),
            r.ctl_zs_last == num_ctl_zs,
            r.quotient_polys == self.num_quotient(*config),
    {
        OpeningSetShape {
            local_values: self.columns,
            next_values: self.columns,
            permutation_ctl_zs: self.num_permutation_batches + num_ctl_zs,
            permutation_ctl_zs_next: self.num_permutation_batches + num_ctl_zs,
            ctl_zs_last: num_ctl_zs,
            quotient_polys: self.quotient_degree_factor * config.num_challenges,
        }
    }
}

} // verus!
