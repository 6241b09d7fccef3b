//! Random strategy initialization.
//!
//! A fresh strategy draws every `(period, agent, parameter)` cell from an
//! approximate log-normal distribution: `2^(mu + sigma * z)` with `z` a sum of
//! four centered uniform variates, clamped to the smallest positive
//! fixed-point value.  Nothing is assumed about the random values themselves;
//! the contracts state only what holds of every outcome: the shape, and that
//! every entry is strictly positive.

use vstd::prelude::*;
use crate::fx::Fx;
use crate::strategies::{Actions, ActionKind, Strategies};
use crate::errors::ValidationError;

verus! {

/// Relies on rand::random: an unconstrained draw; nothing is assumed of its
/// value.
pub assume_specification<T>[ rand::random::<T> ]() -> (r: T)
    where
        rand::distributions::Standard: rand::distributions::Distribution<T>,
;

/// One approximately log-normal draw: `2^(mu + sigma * z)` with `z` the sum
/// of four uniform variates on `[-0.5, 0.5)`, clamped to stay strictly
/// positive.
fn sample_log2_normal(mu: Fx, sigma: Fx) -> (r: Fx)
    ensures
        r.v >= 1,
{
    let mut z = Fx::zero();
    for k in 0..4u64 {
        let w = rand::random::<u64>();
        let u = Fx::raw(((w % 65536) as i64) - 32768);
        z = z.add(u);
    }
    mu.add(sigma.mul(z)).exp2_pos()
}

impl Strategies {
    /// A random strategy profile: `t` periods, `n` agents, every cell drawn
    /// log-normally around `2^mu` with spread `sigma`, so every entry is
    /// strictly positive.  Fails with `EmptyList` when `t` or `n` is zero.
    pub fn random(t: usize, n: usize, kind: ActionKind, mu: Fx, sigma: Fx) -> (r: Result<
        Strategies,
        ValidationError,
    >)
        ensures
            r is Ok <==> (t >= 1 && n >= 1),
            r matches Ok(s) ==> s.wf() && s.t_spec() == t as int && s.n_spec() == n as int
                && s.kind_spec() == kind && (forall|p: int, q: int, j: int|
                0 <= p < t as int && 0 <= q < n as int && 0 <= j < kind.k_spec()
                    ==> #[trigger] s@[p].m[q][j] >= 1),
    {
        if t == 0 || n == 0 {
            return Err(ValidationError::EmptyList);
        }
        let k = kind.k();
        let mut acts: Vec<Actions> = Vec::new();
        for p in 0..t
            invariant
                k as int == kind.k_spec(),
                n >= 1,
                acts@.len() == p,
                forall|a: int|
                    0 <= a < p ==> (#[trigger] acts@[a]).wf() && acts@[a].kind == kind
                        && acts@[a].n_spec() == n as int,
                forall|a: int, q: int, j: int|
                    0 <= a < p && 0 <= q < n as int && 0 <= j < kind.k_spec()
                        ==> #[trigger] acts@[a]@.m[q][j] >= 1,
        {
            let mut rows: Vec<Vec<Fx>> = Vec::new();
            for q in 0..n
                invariant
                    k as int == kind.k_spec(),
                    rows@.len() == q,
                    forall|a: int|
                        0 <= a < q ==> (#[trigger] rows@[a])@.len() == k as int,
                    forall|a: int, j: int|
                        0 <= a < q && 0 <= j < k as int ==> (#[trigger] rows@[a]@[j]).v >= 1,
            {
                let mut row: Vec<Fx> = Vec::new();
                for j in 0..k
                    invariant
                        row@.len() == j,
                        forall|b: int| 0 <= b < j ==> (#[trigger] row@[b]).v >= 1,
                {
                    row.push(sample_log2_normal(mu, sigma));
                }
                rows.push(row);
            }
            let a = Actions { kind, rows };
            proof {
                assert forall|q: int, j: int|
                    0 <= q < n as int && 0 <= j < kind.k_spec() implies #[trigger] a@.m[q][j]
                    >= 1 by {
                    assert(a@.m[q] == crate::strategies::fx_row(a.rows@[q]@));
                }
                assert forall|q: int| 0 <= q < n as int implies (#[trigger] a@.m[q]).len()
                    == kind.k_spec() by {
                    assert(a@.m[q] == crate::strategies::fx_row(a.rows@[q]@));
                }
            }
            acts.push(a);
        }
        let s = Strategies { acts };
        proof {
            assert forall|p: int, q: int, j: int|
                0 <= p < t as int && 0 <= q < n as int && 0 <= j < kind.k_spec()
                implies #[trigger] s@[p].m[q][j] >= 1 by {
                assert(s@[p] == s.acts@[p]@);
            }
            assert(s@[0] == s.acts@[0]@);
        }
        Ok(s)
    }
}

} // verus!
