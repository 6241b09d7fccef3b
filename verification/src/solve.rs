//! The equilibrium solver: iterated best response.
//!
//! Each round holds every agent's strategy fixed except one and maximizes
//! that agent's discounted aggregate utility with a derivative-free
//! Nelder-Mead simplex search.  The search runs in log space: parameters are
//! exponentiated (and floored at the smallest positive value) before being
//! written into the strategy, so every strategy the solver produces is
//! strictly positive — that is the system's positivity guarantee, and it is
//! verified here.  All agents' best responses are computed against the same
//! snapshot and committed together; the solver stops when the payoff vector
//! is stable within the configured relative tolerance (plus an absolute
//! floor at the square root of the fixed-point resolution), reports
//! "reached max iterations" when the budget runs out, and fails only when
//! the initial guess is rejected up front.
//!
//! The contracts carry the evidence for all of this.  The inner search
//! promises a result no worse, under the exact objective model, than the seed
//! and every vertex of the initial simplex ([`nelder_mead`]); each round is
//! pinned as a synchronous update by [`round_witness`]; and a completed solve
//! exhibits the whole chain of rounds from the materialized guess to the
//! returned strategy, with the convergence criterion attached to `Success`
//! ([`solve_chain`]).

use vstd::prelude::*;
use crate::fx::{Fx, neg_model, add_model};
use crate::fxpow::exp2_model;
use crate::strategies::{Strategies, ActionKind, ActionsV, fx_row, fx_mat};
use crate::state::state_n;
use crate::errors::ValidationError;
use crate::aggregator::{Aggregator, AggV, agg_u_i_model, strat_mats};
use crate::utils::{isapprox_iters, isapprox_all_model, clone_row};
use vstd::arithmetic::mul::lemma_mul_inequality;
use vstd::arithmetic::div_mod::{lemma_div_multiples_vanish_fancy, lemma_mod_multiples_vanish, lemma_small_mod};
use crate::fxpow::log2_model;

verus! {

/// The log-space mean of a random initial guess: about `2^-1.5`.
pub const INIT_MU_RAW: i64 = -98304;

/// The log-space spread of a random initial guess: about `0.15`.
pub const INIT_SIGMA_RAW: i64 = 9830;

/// The absolute convergence floor: the square root of the fixed-point
/// resolution.
pub const EPS_SQRT_RAW: i64 = 256;

/// Where the solver starts: a fixed strategy profile, or a random one of the
/// given horizon length.
pub enum InitGuess {
    Random(usize),
    Fixed(Strategies),
}

/// Configuration of the inner Nelder-Mead simplex search.
pub struct NMOptions {
    pub init_simplex_size: Fx,
    pub iters: u64,
    pub tol: Fx,
}

impl Default for NMOptions {
    /// A simplex a tenth of a unit wide, two hundred inner iterations, and
    /// the smallest positive tolerance.
    fn default() -> (r: NMOptions)
        ensures
            r.init_simplex_size.v == 6554,
            r.iters == 200,
            r.tol.v == 1,
    {
        NMOptions { init_simplex_size: Fx::raw(6554), iters: 200, tol: Fx::raw(1) }
    }
}

/// Configuration of one solve: initial guess, round budget, convergence
/// tolerance, and the inner search's options.
pub struct SolverOptions {
    pub init_guess: InitGuess,
    pub iters: u64,
    pub tol: Fx,
    pub nm_options: NMOptions,
    /// How many candidate strategies the mixed-strategy solver keeps.
    pub hist_size: usize,
}

/// How a solve ended.
#[derive(Clone, Copy, PartialEq, Eq, Structural, Debug)]
pub enum SolverStatus {
    /// The payoff vector stabilized within tolerance.
    Success,
    /// The round budget ran out; the last strategy is still returned.
    ReachedMaxIterations,
    /// The initial guess was rejected (wrong shape for the aggregator, or a
    /// non-positive entry, which log-space search cannot seed from).
    Failed,
}

/// What a solve returns: the status and, unless it failed, a strategy.
pub struct SolverResult {
    pub status: SolverStatus,
    pub strategies: Option<Strategies>,
}

/// Whether every action entry of every period is strictly positive.
pub open spec fn all_positive(s: Seq<ActionsV>) -> bool {
    forall|t: int, q: int, j: int|
        0 <= t < s.len() && 0 <= q < s[t].m.len() && 0 <= j < s[t].m[q].len()
            ==> #[trigger] s[t].m[q][j] >= 1
}

/// Clamp a raw value to the smallest positive fixed-point value.
pub open spec fn pos1(x: int) -> int {
    if x < 1 {
        1
    } else {
        x
    }
}

/// The `t x k` action rows encoded by a flat log-space parameter vector:
/// entry `(t, j)` is `2^params[t*k + j]`, floored at the smallest positive
/// value.
pub open spec fn params_rows(params: Seq<int>, tt: int, k: int) -> Seq<Seq<int>> {
    Seq::new(tt as nat, |t: int| Seq::new(k as nat, |j: int| pos1(exp2_model(params[t * k + j]))))
}

/// The strategy matrices with agent `i`'s row replaced in every period.
pub open spec fn replace_agent(sm: Seq<Seq<Seq<int>>>, i: int, rows: Seq<Seq<int>>) -> Seq<
    Seq<Seq<int>>,
> {
    Seq::new(sm.len(), |t: int| sm[t].update(i, rows[t]))
}

/// What the inner search minimizes: minus agent `i`'s aggregate utility,
/// after the exponentiated parameters are written into the strategy.
pub open spec fn objective_model(
    a: AggV,
    kind: ActionKind,
    sm: Seq<Seq<Seq<int>>>,
    i: int,
    params: Seq<int>,
    tt: int,
    k: int,
) -> int {
    neg_model(agg_u_i_model(a, kind, replace_agent(sm, i, params_rows(params, tt, k)), i))
}

impl Aggregator {
    /// The action kind the aggregator's beliefs price.
    pub fn kind(&self) -> (r: ActionKind)
        requires
            self.wf(),
        ensures
            r == self.kind_spec(),
    {
        self.state0.belief(0).cost_func.kind
    }
}

/// Turn a flat log-space parameter vector into `t` positive action rows of
/// width `k`.
fn params_to_rows(params: &Vec<Fx>, tt: usize, k: usize) -> (r: Vec<Vec<Fx>>)
    requires
        params@.len() == tt as int * k as int,
        k >= 1,
    ensures
        r@.len() == tt as int,
        forall|t: int| 0 <= t < tt as int ==> (#[trigger] r@[t])@.len() == k as int,
        forall|t: int|
            0 <= t < tt as int ==> fx_row((#[trigger] r@[t])@) == params_rows(
                fx_row(params@),
                tt as int,
                k as int,
            )[t],
        forall|t: int, j: int|
            0 <= t < tt as int && 0 <= j < k as int ==> (#[trigger] r@[t]@[j]).v >= 1,
{
    let mut r: Vec<Vec<Fx>> = Vec::new();
    let plen = params.len();
    let mut idx: usize = 0;
    proof {
        assert(0int * k as int == 0) by (nonlinear_arith);
    }
    for t in 0..tt
        invariant
            params@.len() == tt as int * k as int,
            plen == params@.len(),
            k >= 1,
            idx as int == t as int * k as int,
            idx <= params@.len(),
            r@.len() == t,
            forall|p: int| 0 <= p < t ==> (#[trigger] r@[p])@.len() == k as int,
            forall|p: int|
                0 <= p < t ==> fx_row((#[trigger] r@[p])@) == params_rows(
                    fx_row(params@),
                    tt as int,
                    k as int,
                )[p],
            forall|p: int, j: int|
                0 <= p < t && 0 <= j < k as int ==> (#[trigger] r@[p]@[j]).v >= 1,
    {
        let mut row: Vec<Fx> = Vec::new();
        for j in 0..k
            invariant
                params@.len() == tt as int * k as int,
                plen == params@.len(),
                t < tt,
                k >= 1,
                idx as int == t as int * k as int + j,
                row@.len() == j,
                forall|q: int|
                    0 <= q < j ==> (#[trigger] row@[q]).v as int == pos1(
                        exp2_model(fx_row(params@)[t as int * k as int + q]),
                    ),
                forall|q: int| 0 <= q < j ==> (#[trigger] row@[q]).v >= 1,
        {
            proof {
                lemma_mul_inequality(t as int + 1, tt as int, k as int);
                assert((t as int + 1) * (k as int) == t as int * k as int + k as int) by (nonlinear_arith);
                assert(t as int * k as int >= 0) by (nonlinear_arith)
                    requires
                        t >= 0,
                        k >= 0,
                ;
                assert(t as int * k as int + j < params@.len());
                assert(fx_row(params@)[t as int * k as int + j] == params@[t as int * k as int
                    + j].v as int);
            }
            row.push(params[idx].exp2_pos());
            idx = idx + 1;
        }
        proof {
            lemma_mul_inequality(t as int + 1, tt as int, k as int);
            assert((t as int + 1) * (k as int) == t as int * k as int + k as int) by (nonlinear_arith);
            assert(fx_row(row@) =~= params_rows(fx_row(params@), tt as int, k as int)[t as int]);
        }
        r.push(row);
    }
    r
}

/// Evaluate the inner objective: write the exponentiated parameters into a
/// copy of the strategy and return minus agent `i`'s aggregate utility.
fn objective(agg: &Aggregator, base: &Strategies, i: usize, params: &Vec<Fx>) -> (r: Fx)
    requires
        agg.wf(),
        agg.fits(*base),
        (i as int) < agg.n_spec(),
        params@.len() == base.t_spec() * agg.kind_spec().k_spec(),
    ensures
        r.v as int == objective_model(
            agg@,
            base.kind_spec(),
            strat_mats(base@),
            i as int,
            fx_row(params@),
            base.t_spec(),
            agg.kind_spec().k_spec(),
        ),
{
    let tt = base.t();
    let k = agg.kind().k();
    let rows = params_to_rows(params, tt, k);
    let mut strat = base.clone();
    strat.set_i(i, &rows);
    proof {
        assert(strat_mats(strat@) =~= replace_agent(
            strat_mats(base@),
            i as int,
            params_rows(fx_row(params@), tt as int, k as int),
        ));
    }
    agg.u_i(i, &strat).neg()
}

/// The value the inner search assigns to a parameter vector: minus agent
/// `i`'s aggregate utility on `base` with the exponentiated parameters
/// written in.
pub open spec fn obj_at(agg: Aggregator, base: Strategies, i: int, p: Seq<int>) -> int {
    objective_model(
        agg@,
        base.kind_spec(),
        strat_mats(base@),
        i,
        p,
        base.t_spec(),
        agg.kind_spec().k_spec(),
    )
}

/// The per-point shape a simplex search over `agg`, `base` and agent `i`
/// works with.
pub open spec fn nm_dim(agg: Aggregator, base: Strategies) -> int {
    base.t_spec() * agg.kind_spec().k_spec()
}

/// One vertex of the initial simplex: the seed with coordinate `j` moved by
/// `step`.
pub open spec fn perturbed(seed: Seq<int>, j: int, step: int) -> Seq<int> {
    seed.update(j, add_model(seed[j], step))
}

/// The mixture objective: the inner objective summed (left fold, saturating)
/// over a history of candidate strategies.
pub open spec fn mixed_obj_at(agg: Aggregator, hist: Seq<Strategies>, i: int, p: Seq<int>) -> int
    decreases hist.len(),
{
    if hist.len() == 0 {
        0
    } else {
        add_model(mixed_obj_at(agg, hist.drop_last(), i, p), obj_at(agg, hist.last(), i, p))
    }
}

/// Whether every strategy of a history fits the aggregator and shares one
/// horizon length.
pub open spec fn hist_wf(agg: Aggregator, hist: Seq<Strategies>) -> bool {
    &&& hist.len() >= 1
    &&& forall|h: int| 0 <= h < hist.len() ==> agg.fits(#[trigger] hist[h])
    &&& forall|h: int| 0 <= h < hist.len() ==> (#[trigger] hist[h]).t_spec() == hist[0].t_spec()
}

/// Evaluate the mixture objective: the inner objective summed over the whole
/// history.
fn objective_mixed(agg: &Aggregator, hist: &Vec<Strategies>, i: usize, params: &Vec<Fx>) -> (r: Fx)
    requires
        agg.wf(),
        hist_wf(*agg, hist@),
        (i as int) < agg.n_spec(),
        params@.len() == hist@[0].t_spec() * agg.kind_spec().k_spec(),
    ensures
        r.v as int == mixed_obj_at(*agg, hist@, i as int, fx_row(params@)),
{
    let hh = hist.len();
    let mut acc = Fx::zero();
    for h in 0..hh
        invariant
            hh == hist@.len(),
            agg.wf(),
            hist_wf(*agg, hist@),
            (i as int) < agg.n_spec(),
            params@.len() == hist@[0].t_spec() * agg.kind_spec().k_spec(),
            acc.v as int == mixed_obj_at(*agg, hist@.take(h as int), i as int, fx_row(params@)),
    {
        acc = acc.add(objective(agg, &hist[h], i, params));
        proof {
            assert(hist@.take(h + 1).drop_last() =~= hist@.take(h as int));
            assert(hist@.take(h + 1).last() == hist@[h as int]);
        }
    }
    proof {
        assert(hist@.take(hh as int) =~= hist@);
    }
    acc
}

/// The centroid of every simplex vertex but `skip`.
fn centroid(verts: &Vec<Vec<Fx>>, skip: usize, d: usize) -> (r: Vec<Fx>)
    requires
        verts@.len() >= 2,
        1 <= d <= 65536,
        forall|p: int| 0 <= p < verts@.len() ==> (#[trigger] verts@[p])@.len() == d as int,
    ensures
        r@.len() == d as int,
{
    let m = verts.len();
    let mut r: Vec<Fx> = Vec::new();
    for q in 0..d
        invariant
            m == verts@.len(),
            m >= 2,
            1 <= d <= 65536,
            forall|p: int| 0 <= p < verts@.len() ==> (#[trigger] verts@[p])@.len() == d as int,
            r@.len() == q,
    {
        let mut s = Fx::zero();
        for j in 0..m
            invariant
                m == verts@.len(),
                q < d,
                forall|p: int| 0 <= p < verts@.len() ==> (#[trigger] verts@[p])@.len() == d as int,
        {
            if j != skip {
                s = s.add(verts[j][q]);
            }
        }
        r.push(s.div(Fx::of_int((m - 1) as i64)));
    }
    r
}

/// The point `c + w * (c - x)`, coordinate by coordinate.
fn step_from(c: &Vec<Fx>, x: &Vec<Fx>, w: Fx) -> (r: Vec<Fx>)
    requires
        c@.len() == x@.len(),
    ensures
        r@.len() == c@.len(),
{
    let d = c.len();
    let mut r: Vec<Fx> = Vec::new();
    for q in 0..d
        invariant
            d == c@.len(),
            c@.len() == x@.len(),
            r@.len() == q,
    {
        r.push(c[q].add(w.mul(c[q].sub(x[q]))));
    }
    r
}

/// One derivative-free simplex search for agent `i`'s best response, in log
/// space.  The result has the seed's length, and its objective value is
/// never worse than the seed's: the search starts from the seed and only
/// ever keeps improvements.
fn nelder_mead(
    agg: &Aggregator,
    hist: &Vec<Strategies>,
    i: usize,
    seed: &Vec<Fx>,
    opts: &NMOptions,
) -> (r: Vec<Fx>)
    requires
        agg.wf(),
        hist_wf(*agg, hist@),
        (i as int) < agg.n_spec(),
        seed@.len() == nm_dim(*agg, hist@[0]),
    ensures
        r@.len() == seed@.len(),
        mixed_obj_at(*agg, hist@, i as int, fx_row(r@)) <= mixed_obj_at(
            *agg,
            hist@,
            i as int,
            fx_row(seed@),
        ),
        seed@.len() <= 65536 ==> forall|j: int|
            0 <= j < seed@.len() ==> mixed_obj_at(*agg, hist@, i as int, fx_row(r@))
                <= mixed_obj_at(
                *agg,
                hist@,
                i as int,
                perturbed(fx_row(seed@), j, opts.init_simplex_size.v as int),
            ),
{
    let d = seed.len();
    if d == 0 || d > 65536 {
        let r = clone_row(seed);
        return r;
    }
    let ghost step: int = opts.init_simplex_size.v as int;
    // the initial simplex: the seed, plus the seed perturbed along each axis
    let mut verts: Vec<Vec<Fx>> = Vec::new();
    verts.push(clone_row(seed));
    for j in 0..d
        invariant
            d == seed@.len(),
            step == opts.init_simplex_size.v as int,
            verts@.len() == j + 1,
            forall|p: int| 0 <= p < verts@.len() ==> (#[trigger] verts@[p])@.len() == d as int,
            fx_row(verts@[0]@) == fx_row(seed@),
            forall|p: int|
                1 <= p < verts@.len() ==> fx_row((#[trigger] verts@[p])@) == perturbed(
                    fx_row(seed@),
                    p - 1,
                    step,
                ),
    {
        let mut v: Vec<Fx> = Vec::new();
        for q in 0..d
            invariant
                d == seed@.len(),
                j < d,
                step == opts.init_simplex_size.v as int,
                v@.len() == q,
                forall|p: int|
                    0 <= p < q ==> (#[trigger] v@[p]).v as int == (if p == j as int {
                        add_model(fx_row(seed@)[p], step)
                    } else {
                        fx_row(seed@)[p]
                    }),
        {
            proof {
                assert(fx_row(seed@)[q as int] == seed@[q as int].v as int);
            }
            if q == j {
                v.push(seed[q].add(opts.init_simplex_size));
            } else {
                v.push(seed[q]);
            }
        }
        proof {
            assert(fx_row(v@) =~= perturbed(fx_row(seed@), j as int, step));
        }
        verts.push(v);
    }
    let mut costs: Vec<Fx> = Vec::new();
    let mut best = clone_row(seed);
    let mut best_c = objective_mixed(agg, hist, i, &best);
    for j in 0..d + 1
        invariant
            d == seed@.len(),
            1 <= d <= 65536,
            step == opts.init_simplex_size.v as int,
            agg.wf(),
            hist_wf(*agg, hist@),
            (i as int) < agg.n_spec(),
            seed@.len() == nm_dim(*agg, hist@[0]),
            verts@.len() == d + 1,
            forall|p: int| 0 <= p < verts@.len() ==> (#[trigger] verts@[p])@.len() == d as int,
            fx_row(verts@[0]@) == fx_row(seed@),
            forall|p: int|
                1 <= p < verts@.len() ==> fx_row((#[trigger] verts@[p])@) == perturbed(
                    fx_row(seed@),
                    p - 1,
                    step,
                ),
            costs@.len() == j,
            best@.len() == d,
            best_c.v as int == mixed_obj_at(*agg, hist@, i as int, fx_row(best@)),
            best_c.v as int <= mixed_obj_at(*agg, hist@, i as int, fx_row(seed@)),
            forall|p: int|
                0 <= p < j ==> best_c.v as int <= mixed_obj_at(
                    *agg,
                    hist@,
                    i as int,
                    fx_row((#[trigger] verts@[p])@),
                ),
    {
        let c = objective_mixed(agg, hist, i, &verts[j]);
        if c.lt(best_c) {
            best = clone_row(&verts[j]);
            best_c = c;
        }
        costs.push(c);
    }
    proof {
        assert forall|j: int|
            0 <= j < d as int implies best_c.v as int <= mixed_obj_at(
            *agg,
            hist@,
            i as int,
            perturbed(fx_row(seed@), j, step),
        ) by {
            assert(fx_row(verts@[j + 1]@) == perturbed(fx_row(seed@), j, step));
            assert(best_c.v as int <= mixed_obj_at(*agg, hist@, i as int, fx_row(verts@[j + 1]@)));
        }
    }
    let mut it: u64 = 0;
    while it < opts.iters
        invariant
            d == seed@.len(),
            1 <= d <= 65536,
            agg.wf(),
            hist_wf(*agg, hist@),
            (i as int) < agg.n_spec(),
            seed@.len() == nm_dim(*agg, hist@[0]),
            verts@.len() == d + 1,
            forall|p: int| 0 <= p < verts@.len() ==> (#[trigger] verts@[p])@.len() == d as int,
            costs@.len() == d + 1,
            best@.len() == d,
            step == opts.init_simplex_size.v as int,
            best_c.v as int == mixed_obj_at(*agg, hist@, i as int, fx_row(best@)),
            best_c.v as int <= mixed_obj_at(*agg, hist@, i as int, fx_row(seed@)),
            forall|j: int|
                0 <= j < d as int ==> best_c.v as int <= mixed_obj_at(
                    *agg,
                    hist@,
                    i as int,
                    #[trigger] perturbed(fx_row(seed@), j, step),
                ),
        decreases opts.iters - it,
    {
        it = it + 1;
        // locate the best and worst vertices
        let mut lo: usize = 0;
        let mut hi: usize = 0;
        for j in 1..d + 1
            invariant
                costs@.len() == d + 1,
                lo < d + 1,
                hi < d + 1,
        {
            if costs[j].lt(costs[lo]) {
                lo = j;
            }
            if costs[hi].lt(costs[j]) {
                hi = j;
            }
        }
        if costs[hi].sub(costs[lo]).le(opts.tol) {
            break;
        }
        let cent = centroid(&verts, hi, d);
        // the second-worst cost
        let mut sw = costs[lo];
        for j in 0..d + 1
            invariant
                costs@.len() == d + 1,
                hi < d + 1,
        {
            if j != hi && sw.lt(costs[j]) {
                sw = costs[j];
            }
        }
        // reflect the worst vertex through the centroid
        let xr = step_from(&cent, &verts[hi], Fx::one());
        let fr = objective_mixed(agg, hist, i, &xr);
        if fr.lt(best_c) {
            best = clone_row(&xr);
            best_c = fr;
        }
        if fr.lt(costs[lo]) {
            // try expanding further in the same direction
            let xe = step_from(&cent, &verts[hi], Fx::of_int(2));
            let fe = objective_mixed(agg, hist, i, &xe);
            if fe.lt(best_c) {
                best = clone_row(&xe);
                best_c = fe;
            }
            if fe.lt(fr) {
                verts[hi] = xe;
                costs[hi] = fe;
            } else {
                verts[hi] = xr;
                costs[hi] = fr;
            }
        } else if fr.lt(sw) {
            verts[hi] = xr;
            costs[hi] = fr;
        } else {
            // contract the worst vertex halfway toward the centroid
            let xc = step_from(&cent, &verts[hi], Fx::raw(-32768));
            let fc = objective_mixed(agg, hist, i, &xc);
            if fc.lt(best_c) {
                best = clone_row(&xc);
                best_c = fc;
            }
            if fc.lt(costs[hi]) {
                verts[hi] = xc;
                costs[hi] = fc;
            } else {
                // shrink every vertex halfway toward the best one
                let anchor = clone_row(&verts[lo]);
                let mut j: usize = 0;
                while j < d + 1
                    invariant
                        d == seed@.len(),
                        1 <= d <= 65536,
                        agg.wf(),
                        hist_wf(*agg, hist@),
                        (i as int) < agg.n_spec(),
                        seed@.len() == nm_dim(*agg, hist@[0]),
                        verts@.len() == d + 1,
                        forall|p: int| 0 <= p < verts@.len() ==> (#[trigger] verts@[p])@.len()
                            == d as int,
                        costs@.len() == d + 1,
                        anchor@.len() == d,
                        lo < d + 1,
                        best@.len() == d,
                        step == opts.init_simplex_size.v as int,
                        best_c.v as int == mixed_obj_at(*agg, hist@, i as int, fx_row(best@)),
                        best_c.v as int <= mixed_obj_at(*agg, hist@, i as int, fx_row(seed@)),
                        forall|jj: int|
                            0 <= jj < d as int ==> best_c.v as int <= mixed_obj_at(
                                *agg,
                                hist@,
                                i as int,
                                #[trigger] perturbed(fx_row(seed@), jj, step),
                            ),
                    decreases d + 1 - j,
                {
                    if j != lo {
                        let v = step_from(&anchor, &verts[j], Fx::raw(-32768));
                        let fv = objective_mixed(agg, hist, i, &v);
                        if fv.lt(best_c) {
                            best = clone_row(&v);
                            best_c = fv;
                        }
                        verts[j] = v;
                        costs[j] = fv;
                    }
                    j = j + 1;
                }
            }
        }
    }
    best
}

/// Whether a fixed initial guess must be rejected: it does not fit the
/// aggregator, or holds a non-positive entry (which the log-space search
/// cannot seed from).  A random guess is rejected only for a zero horizon.
pub open spec fn guess_rejected(agg: Aggregator, options: SolverOptions) -> bool {
    match options.init_guess {
        InitGuess::Random(t) => t == 0,
        InitGuess::Fixed(s) => !(s.wf() && s.n_spec() == agg.n_spec() && s.kind_spec()
            == agg.kind_spec() && all_positive(s@)),
    }
}

/// Check at run time that a fixed initial guess fits the aggregator and is
/// strictly positive.
fn validate_guess(agg: &Aggregator, s: &Strategies) -> (b: bool)
    requires
        agg.wf(),
    ensures
        b == (s.wf() && s.n_spec() == agg.n_spec() && s.kind_spec() == agg.kind_spec()
            && all_positive(s@)),
{
    let tt = s.acts.len();
    if tt == 0 {
        return false;
    }
    let n = agg.n();
    let kind = agg.kind();
    let k = kind.k();
    for t in 0..tt
        invariant
            tt == s.acts@.len(),
            tt >= 1,
            agg.wf(),
            n as int == agg.n_spec(),
            kind == agg.kind_spec(),
            k as int == kind.k_spec(),
            forall|p: int|
                0 <= p < t ==> (#[trigger] s.acts@[p]).kind == kind && s.acts@[p].n_spec()
                    == n as int && s.acts@[p].wf(),
            forall|p: int, q: int, j: int|
                0 <= p < t && 0 <= q < n as int && 0 <= j < k as int ==> #[trigger] s@[p].m[q][j]
                    >= 1,
    {
        let a = &s.acts[t];
        if a.kind != kind {
            proof {
                if s.acts@[0].kind == agg.kind_spec() {
                    assert(!s.wf());
                }
            }
            return false;
        }
        if a.rows.len() != n {
            proof {
                if s.acts@[0].n_spec() == agg.n_spec() {
                    assert(!s.wf());
                }
            }
            return false;
        }
        for q in 0..n
            invariant
                tt == s.acts@.len(),
                t < tt,
                a == &s.acts@[t as int],
                a.kind == kind,
                a.rows@.len() == n,
                k as int == kind.k_spec(),
                forall|p: int| 0 <= p < q ==> (#[trigger] a.rows@[p])@.len() == k as int,
                forall|p: int, j: int|
                    0 <= p < q && 0 <= j < k as int ==> (#[trigger] a.rows@[p]@[j]).v >= 1,
        {
            if a.rows[q].len() != k {
                proof {
                    assert(a@.m[q as int] == fx_row(a.rows@[q as int]@));
                    assert(!a.wf());
                }
                return false;
            }
            let row = &a.rows[q];
            for j in 0..k
                invariant
                    tt == s.acts@.len(),
                    t < tt,
                    a == &s.acts@[t as int],
                    row == &a.rows@[q as int],
                    q < n,
                    a.rows@.len() == n,
                    row@.len() == k,
                    forall|p: int| 0 <= p < j ==> (#[trigger] row@[p]).v >= 1,
            {
                if row[j].v < 1 {
                    proof {
                        assert(s@[t as int].m == fx_mat(s.acts@[t as int].rows@));
                        assert(s@[t as int].m[q as int] == fx_row(a.rows@[q as int]@));
                        assert(s@[t as int].m[q as int][j as int] < 1);
                        assert(!all_positive(s@));
                    }
                    return false;
                }
            }
        }
        proof {
            assert(a.wf()) by {
                assert forall|p: int| 0 <= p < a@.m.len() implies (#[trigger] a@.m[p]).len()
                    == a.kind.k_spec() by {
                    assert(a@.m[p] == fx_row(a.rows@[p]@));
                }
                assert forall|p: int, j: int|
                    0 <= p < a@.m.len() && 0 <= j < a.kind.k_spec() implies #[trigger] a@.m[p][j]
                    >= 0 by {
                    assert(a@.m[p] == fx_row(a.rows@[p]@));
                }
            }
            assert forall|q: int, j: int|
                0 <= q < n as int && 0 <= j < k as int implies #[trigger] s@[t as int].m[q][j]
                >= 1 by {
                assert(s@[t as int].m == fx_mat(s.acts@[t as int].rows@));
                assert(s@[t as int].m[q] == fx_row(a.rows@[q]@));
            }
        }
    }
    proof {
        assert(s.acts@[0].kind == kind && s.acts@[0].n_spec() == n as int);
        assert forall|p: int, q: int, j: int|
            0 <= p < s@.len() && 0 <= q < s@[p].m.len() && 0 <= j < s@[p].m[q].len()
            implies #[trigger] s@[p].m[q][j] >= 1 by {
            assert(s@[p] == s.acts@[p]@);
            assert(s.acts@[p].wf());
        }
    }
    true
}

/// The log-space seed the per-agent search starts from: the base-two
/// logarithm of every cell of agent `i`'s series in `before`, period-major.
pub open spec fn seed_of(before: Seq<ActionsV>, i: int, k: int) -> Seq<int> {
    Seq::new((before.len() * k as nat) as nat, |idx: int| log2_model(before[idx / k].m[i][idx % k]))
}

/// The flattened log-space encoding of agent `i`'s current time series: the
/// base-two logarithm of every cell, period-major.
fn flatten_agent(s: &Strategies, i: usize, k: usize) -> (r: Vec<Fx>)
    requires
        s.wf(),
        (i as int) < s.n_spec(),
        k as int == s.kind_spec().k_spec(),
        k >= 1,
    ensures
        r@.len() == s.t_spec() * k as int,
        fx_row(r@) == seed_of(s@, i as int, k as int),
{
    let tt = s.acts.len();
    let mut r: Vec<Fx> = Vec::new();
    proof {
        assert(0int * k as int == 0) by (nonlinear_arith);
    }
    for t in 0..tt
        invariant
            tt == s.acts@.len(),
            s.wf(),
            (i as int) < s.n_spec(),
            k as int == s.kind_spec().k_spec(),
            k >= 1,
            r@.len() == t as int * k as int,
            forall|id: int|
                0 <= id < r@.len() ==> (#[trigger] r@[id]).v as int == log2_model(
                    s@[id / k as int].m[i as int][id % k as int],
                ),
    {
        proof {
            assert(s.acts@[t as int]@.m[i as int] == fx_row(s.acts@[t as int].rows@[i as int]@));
            assert(s@[t as int] == s.acts@[t as int]@);
        }
        for j in 0..k
            invariant
                tt == s.acts@.len(),
                s.wf(),
                (i as int) < s.n_spec(),
                t < tt,
                k as int == s.kind_spec().k_spec(),
                k >= 1,
                s.acts@[t as int].rows@[i as int]@.len() == k as int,
                s@[t as int].m[i as int] == fx_row(s.acts@[t as int].rows@[i as int]@),
                r@.len() == t as int * k as int + j,
                forall|id: int|
                    0 <= id < r@.len() ==> (#[trigger] r@[id]).v as int == log2_model(
                        s@[id / k as int].m[i as int][id % k as int],
                    ),
        {
            proof {
                let id = t as int * k as int + j as int;
                assert(t as int * k as int == k as int * t as int) by (nonlinear_arith);
                lemma_div_multiples_vanish_fancy(t as int, j as int, k as int);
                lemma_mod_multiples_vanish(t as int, j as int, k as int);
                lemma_small_mod(j as nat, k as nat);
                assert(id / k as int == t as int && id % k as int == j as int);
            }
            r.push(s.acts[t].rows[i][j].log2());
        }
        proof {
            assert((t as int + 1) * (k as int) == t as int * k as int + k as int) by (nonlinear_arith);
        }
    }
    proof {
        assert(s@.len() == s.acts@.len());
        assert(fx_row(r@) =~= seed_of(s@, i as int, k as int));
    }
    r
}

/// The single-strategy inner objective, over views alone.
pub open spec fn obj_of(agg: Aggregator, before: Seq<ActionsV>, i: int, p: Seq<int>) -> int {
    objective_model(
        agg@,
        agg.kind_spec(),
        strat_mats(before),
        i,
        p,
        before.len() as int,
        agg.kind_spec().k_spec(),
    )
}

/// Whether `p` is an acceptable best response for agent `i` against the
/// snapshot `before`: it has the search's dimension, and its objective is no
/// worse than the log-space seed's nor (for searchable dimensions) than any
/// vertex of the seed's initial simplex.
pub open spec fn response_ok(
    agg: Aggregator,
    before: Seq<ActionsV>,
    i: int,
    p: Seq<int>,
    step: int,
) -> bool {
    let k = agg.kind_spec().k_spec();
    let dim = before.len() * k;
    let seed = seed_of(before, i, k);
    &&& p.len() == dim
    &&& obj_of(agg, before, i, p) <= obj_of(agg, before, i, seed)
    &&& (dim <= 65536 ==> forall|j: int|
        0 <= j < dim ==> obj_of(agg, before, i, p) <= obj_of(
            agg,
            before,
            i,
            #[trigger] perturbed(seed, j, step),
        ))
}

/// The witness of one synchronous best-response round: per-agent response
/// parameters, each acceptable against the round-start snapshot `before`,
/// whose exponentiated images replace every agent's series at once.
pub open spec fn round_witness(
    agg: Aggregator,
    before: Seq<ActionsV>,
    after: Seq<ActionsV>,
    ps: Seq<Seq<int>>,
    step: int,
) -> bool {
    let k = agg.kind_spec().k_spec();
    let tt = before.len() as int;
    &&& ps.len() == agg.n_spec()
    &&& (forall|i: int| 0 <= i < ps.len() ==> response_ok(agg, before, i, #[trigger] ps[i], step))
    &&& after.len() == before.len()
    &&& (forall|t: int|
        0 <= t < after.len() ==> (#[trigger] after[t]).kind == before[t].kind && after[t].m.len()
            == before[t].m.len())
    &&& (forall|t: int, q: int|
        0 <= t < after.len() && 0 <= q < after[t].m.len() ==> #[trigger] after[t].m[q] == (if q
            < agg.n_spec() {
            params_rows(ps[q], tt, k)[t]
        } else {
            before[t].m[q]
        }))
}

/// One synchronous best-response round took `before` to `after`.
pub open spec fn round_rel(agg: Aggregator, before: Seq<ActionsV>, after: Seq<ActionsV>, step: int) -> bool {
    exists|ps: Seq<Seq<int>>| round_witness(agg, before, after, ps, step)
}

/// The per-agent aggregate payoff vector of a strategy, over views alone.
pub open spec fn payoffs_of(agg: Aggregator, s: Seq<ActionsV>) -> Seq<int> {
    Seq::new(agg.n_spec() as nat, |i: int| agg_u_i_model(agg@, agg.kind_spec(), strat_mats(s), i))
}

/// The horizon the configured guess materializes to.
pub open spec fn guess_horizon(options: SolverOptions) -> int {
    match options.init_guess {
        InitGuess::Random(t) => t as int,
        InitGuess::Fixed(g) => g@.len() as int,
    }
}

/// The execution evidence behind a completed solve: the strategy views at the
/// round boundaries.  The chain starts at the materialized guess (for a fixed
/// guess, the guess itself), every step is one synchronous best-response
/// round, it ends at the returned strategy, `Success` means the last round's
/// payoff vector agreed with the previous one within the tolerance plus the
/// absolute floor, and an exhausted budget means every budgeted round ran.
pub open spec fn solve_chain(
    agg: Aggregator,
    options: SolverOptions,
    chain: Seq<Seq<ActionsV>>,
    last: Seq<ActionsV>,
    status: SolverStatus,
) -> bool {
    &&& chain.len() >= 2
    &&& chain.len() <= options.iters + 1
    &&& chain.last() == last
    &&& (options.init_guess matches InitGuess::Fixed(g) ==> chain.first() == g@)
    &&& (forall|m: int|
        0 <= m < chain.len() - 1 ==> round_rel(
            agg,
            #[trigger] chain[m],
            chain[m + 1],
            options.nm_options.init_simplex_size.v as int,
        ))
    &&& (status == SolverStatus::Success ==> isapprox_all_model(
        payoffs_of(agg, chain.last()),
        payoffs_of(agg, chain[chain.len() - 2]),
        options.tol.v as int,
        EPS_SQRT_RAW as int,
    ))
    &&& (status == SolverStatus::ReachedMaxIterations ==> chain.len() == options.iters + 1)
}

/// The mixture objective over a history of strategy views (left fold,
/// saturating).
pub open spec fn mixed_obj_of(agg: Aggregator, hists: Seq<Seq<ActionsV>>, i: int, p: Seq<int>) -> int
    decreases hists.len(),
{
    if hists.len() == 0 {
        0
    } else {
        add_model(
            mixed_obj_of(agg, hists.drop_last(), i, p),
            obj_of(agg, hists.last(), i, p),
        )
    }
}

/// Whether `p` is an acceptable mixture response for agent `i`: it has the
/// search's dimension and its mixture objective over `hists` is no worse than
/// that of the log-space seed taken from `src`, nor (for searchable
/// dimensions) than any vertex of that seed's initial simplex.
pub open spec fn mixed_response_ok(
    agg: Aggregator,
    hists: Seq<Seq<ActionsV>>,
    src: Seq<ActionsV>,
    i: int,
    p: Seq<int>,
    step: int,
) -> bool {
    let k = agg.kind_spec().k_spec();
    let dim = src.len() * k;
    let seed = seed_of(src, i, k);
    &&& p.len() == dim
    &&& mixed_obj_of(agg, hists, i, p) <= mixed_obj_of(agg, hists, i, seed)
    &&& (dim <= 65536 ==> forall|j: int|
        0 <= j < dim ==> mixed_obj_of(agg, hists, i, p) <= mixed_obj_of(
            agg,
            hists,
            i,
            #[trigger] perturbed(seed, j, step),
        ))
}

/// The witness of one mixed-strategy slot update: per-agent responses to the
/// mixture `hists`, each seeded from the fresh draw `src`, whose exponentiated
/// images replace every agent's series of the slot at once.
pub open spec fn mixed_round_witness(
    agg: Aggregator,
    hists: Seq<Seq<ActionsV>>,
    before: Seq<ActionsV>,
    after: Seq<ActionsV>,
    src: Seq<ActionsV>,
    ps: Seq<Seq<int>>,
    step: int,
) -> bool {
    let k = agg.kind_spec().k_spec();
    let tt = before.len() as int;
    &&& ps.len() == agg.n_spec()
    &&& src.len() == before.len()
    &&& (forall|i: int|
        0 <= i < ps.len() ==> mixed_response_ok(agg, hists, src, i, #[trigger] ps[i], step))
    &&& after.len() == before.len()
    &&& (forall|t: int|
        0 <= t < after.len() ==> (#[trigger] after[t]).kind == before[t].kind && after[t].m.len()
            == before[t].m.len())
    &&& (forall|t: int, q: int|
        0 <= t < after.len() && 0 <= q < after[t].m.len() ==> #[trigger] after[t].m[q] == (if q
            < agg.n_spec() {
            params_rows(ps[q], tt, k)[t]
        } else {
            before[t].m[q]
        }))
}

/// The exec-level mixture objective equals the view-level one when every
/// history entry prices the aggregator's action kind.
proof fn lemma_mixed_obj_view(agg: Aggregator, hist: Seq<Strategies>, i: int, p: Seq<int>)
    requires
        forall|h: int| 0 <= h < hist.len() ==> (#[trigger] hist[h]).kind_spec() == agg.kind_spec(),
    ensures
        mixed_obj_at(agg, hist, i, p) == mixed_obj_of(
            agg,
            hist.map_values(|s: Strategies| s@),
            i,
            p,
        ),
    decreases hist.len(),
{
    let hv = hist.map_values(|s: Strategies| s@);
    if hist.len() > 0 {
        lemma_mixed_obj_view(agg, hist.drop_last(), i, p);
        assert(hist.drop_last().map_values(|s: Strategies| s@) =~= hv.drop_last());
        assert(hv.last() == hist.last()@);
        assert(hist.last().t_spec() == hist.last()@.len());
        assert(obj_at(agg, hist.last(), i, p) == obj_of(agg, hv.last(), i, p));
    } else {
        assert(hv =~= Seq::<Seq<ActionsV>>::empty());
    }
}

/// A one-strategy mixture collapses to the plain objective.
proof fn lemma_mixed_singleton(agg: Aggregator, hist: Seq<Strategies>, i: int, p: Seq<int>)
    requires
        hist.len() == 1,
    ensures
        mixed_obj_at(agg, hist, i, p) == obj_at(agg, hist[0], i, p),
{
    reveal_with_fuel(mixed_obj_at, 2);
    assert(hist.drop_last() =~= Seq::<Strategies>::empty());
    assert(hist.last() == hist[0]);
    let x = obj_at(agg, hist[0], i, p);
    let m2 = replace_agent(
        strat_mats(hist[0]@),
        i,
        params_rows(p, hist[0].t_spec(), agg.kind_spec().k_spec()),
    );
    assert(x == neg_model(agg_u_i_model(agg@, hist[0].kind_spec(), m2, i)));
    assert(i64::MIN as int <= x <= i64::MAX as int);
}

/// Materialize the configured initial strategy: a fresh random profile, or a
/// validated copy of the fixed guess.  `None` exactly when the guess is
/// rejected.
fn init_strategy(agg: &Aggregator, options: &SolverOptions) -> (r: Option<Strategies>)
    requires
        agg.wf(),
    ensures
        r is Some <==> !guess_rejected(*agg, *options),
        r matches Some(s) ==> s.wf() && s.n_spec() == agg.n_spec() && s.kind_spec()
            == agg.kind_spec() && all_positive(s@),
        r matches Some(s) ==> match options.init_guess {
            InitGuess::Random(t) => s.t_spec() == t as int,
            InitGuess::Fixed(g) => s@ == g@,
        },
        r matches Some(s) ==> s.t_spec() == guess_horizon(*options),
{
    let n = agg.n();
    proof {
        match &options.init_guess {
            InitGuess::Fixed(g) => {
                assert(g@.len() == g.acts@.len());
            },
            InitGuess::Random(_) => {},
        }
    }
    proof {
        assert(state_n(agg.state0@) >= 1);
    }
    match &options.init_guess {
        InitGuess::Random(t) => {
            let made = Strategies::random(
                *t,
                n,
                agg.kind(),
                Fx::raw(INIT_MU_RAW),
                Fx::raw(INIT_SIGMA_RAW),
            );
            match made {
                Ok(s) => {
                    proof {
                        assert(all_positive(s@)) by {
                            assert forall|p: int, q: int, j: int|
                                0 <= p < s@.len() && 0 <= q < s@[p].m.len() && 0 <= j
                                    < s@[p].m[q].len() implies #[trigger] s@[p].m[q][j] >= 1 by {
                                assert(s@[p] == s.acts@[p]@);
                                assert(s.acts@[p].wf());
                            }
                        }
                    }
                    Some(s)
                },
                Err(_) => None,
            }
        },
        InitGuess::Fixed(g) => {
            if !validate_guess(agg, g) {
                None
            } else {
                Some(g.clone())
            }
        },
    }
}

/// One full solve by iterated best response.  The guess is rejected up front
/// (status `Failed`, no strategy) exactly when [`guess_rejected`] says so;
/// otherwise every returned strategy fits the aggregator and is strictly
/// positive, a zero round budget returns `ReachedMaxIterations` with the
/// initial guess unchanged, and a stabilized payoff vector returns
/// `Success`.
#[verifier::rlimit(50)]
pub fn solve(agg: &Aggregator, options: &SolverOptions) -> (r: SolverResult)
    requires
        agg.wf(),
    ensures
        (r.status == SolverStatus::Failed) <==> guess_rejected(*agg, *options),
        (r.status == SolverStatus::Failed) <==> (r.strategies is None),
        r.strategies matches Some(s) ==> s.wf() && s.n_spec() == agg.n_spec() && s.kind_spec()
            == agg.kind_spec() && all_positive(s@),
        !guess_rejected(*agg, *options) && options.iters == 0 ==> r.status
            == SolverStatus::ReachedMaxIterations,
        !guess_rejected(*agg, *options) && options.iters == 0 && (options.init_guess matches
        InitGuess::Fixed(g)) ==> (r.strategies matches Some(s) && s@ == options.init_guess->Fixed_0@),
        r.strategies matches Some(s) ==> s.t_spec() == guess_horizon(*options),
        !guess_rejected(*agg, *options) && options.iters > 0 ==> (r.strategies matches Some(s)
            && exists|chain: Seq<Seq<ActionsV>>| solve_chain(*agg, *options, chain, s@, r.status)),
{
    let n = agg.n();
    let mut strat = match init_strategy(agg, options) {
        Some(s) => s,
        None => {
            return SolverResult { status: SolverStatus::Failed, strategies: None };
        },
    };
    let ghost start = strat@;
    let ghost step: int = options.nm_options.init_simplex_size.v as int;
    let tt = strat.t();
    let k = agg.kind().k();
    if options.iters == 0 {
        return SolverResult { status: SolverStatus::ReachedMaxIterations, strategies: Some(strat) };
    }
    let mut last = agg.u(&strat);
    proof {
        assert(fx_row(last@) =~= payoffs_of(*agg, strat@));
    }
    let eps = Fx::raw(EPS_SQRT_RAW);
    let ghost mut chain: Seq<Seq<ActionsV>> = seq![strat@];
    let mut round: u64 = 0;
    while round < options.iters
        invariant
            !guess_rejected(*agg, *options),
            options.iters > 0,
            round <= options.iters,
            agg.wf(),
            strat.wf(),
            strat.n_spec() == agg.n_spec(),
            strat.kind_spec() == agg.kind_spec(),
            strat.t_spec() == tt as int,
            tt as int == guess_horizon(*options),
            all_positive(strat@),
            n as int == agg.n_spec(),
            k as int == agg.kind_spec().k_spec(),
            step == options.nm_options.init_simplex_size.v as int,
            eps.v == EPS_SQRT_RAW,
            chain.len() == round + 1,
            chain.first() == start,
            chain.last() == strat@,
            (options.init_guess matches InitGuess::Fixed(g) ==> start == g@),
            forall|m: int|
                0 <= m < chain.len() - 1 ==> round_rel(*agg, #[trigger] chain[m], chain[m + 1], step),
            fx_row(last@) == payoffs_of(*agg, strat@),
        decreases options.iters - round,
    {
        round = round + 1;
        let ghost before_v = strat@;
        let mut hist: Vec<Strategies> = Vec::new();
        hist.push(strat.clone());
        proof {
            assert(hist@[0]@ == before_v);
        }
        let ghost mut ps: Seq<Seq<int>> = Seq::empty();
        let mut responses: Vec<Vec<Vec<Fx>>> = Vec::new();
        for i in 0..n
            invariant
                agg.wf(),
                hist@.len() == 1,
                hist_wf(*agg, hist@),
                hist@[0].t_spec() == tt as int,
                hist@[0]@ == before_v,
                step == options.nm_options.init_simplex_size.v as int,
                n as int == agg.n_spec(),
                k as int == agg.kind_spec().k_spec(),
                responses@.len() == i,
                ps.len() == i,
                forall|p: int| 0 <= p < i ==> response_ok(*agg, before_v, p, #[trigger] ps[p], step),
                forall|p: int, t: int|
                    0 <= p < i && 0 <= t < tt as int ==> fx_row(
                        (#[trigger] responses@[p]@[t])@,
                    ) == params_rows(ps[p], tt as int, k as int)[t],
                forall|p: int|
                    0 <= p < i ==> (#[trigger] responses@[p])@.len() == tt as int,
                forall|p: int, t: int|
                    0 <= p < i && 0 <= t < tt as int ==> (#[trigger] responses@[p]@[t])@.len()
                        == k as int,
                forall|p: int, t: int, j: int|
                    0 <= p < i && 0 <= t < tt as int && 0 <= j < k as int
                        ==> (#[trigger] responses@[p]@[t]@[j]).v >= 1,
        {
            let seed = flatten_agent(&hist[0], i, k);
            let params = nelder_mead(agg, &hist, i, &seed, &options.nm_options);
            proof {
                let pv = fx_row(params@);
                let sv = fx_row(seed@);
                assert(hist@[0].kind_spec() == agg.kind_spec());
                assert(hist@[0].t_spec() == hist@[0]@.len());
                lemma_mixed_singleton(*agg, hist@, i as int, pv);
                lemma_mixed_singleton(*agg, hist@, i as int, sv);
                assert(obj_of(*agg, before_v, i as int, pv) <= obj_of(*agg, before_v, i as int, sv));
                assert(sv == seed_of(before_v, i as int, k as int));
                assert forall|j: int|
                    0 <= j < tt as int * k as int && tt as int * k as int <= 65536 implies obj_of(
                    *agg,
                    before_v,
                    i as int,
                    pv,
                ) <= obj_of(
                    *agg,
                    before_v,
                    i as int,
                    #[trigger] perturbed(seed_of(before_v, i as int, k as int), j, step),
                ) by {
                    lemma_mixed_singleton(
                        *agg,
                        hist@,
                        i as int,
                        perturbed(seed_of(before_v, i as int, k as int), j, step),
                    );
                }
                assert(response_ok(*agg, before_v, i as int, pv, step));
                ps = ps.push(pv);
            }
            let rows = params_to_rows(&params, tt, k);
            responses.push(rows);
        }
        let mut i2: usize = 0;
        while i2 < n
            invariant
                agg.wf(),
                strat.wf(),
                strat.n_spec() == agg.n_spec(),
                strat.kind_spec() == agg.kind_spec(),
                strat.t_spec() == tt as int,
                all_positive(strat@),
                i2 <= n,
                n as int == agg.n_spec(),
                k as int == agg.kind_spec().k_spec(),
                responses@.len() == n,
                ps.len() == n,
                strat@.len() == before_v.len(),
                forall|t: int|
                    0 <= t < strat@.len() ==> (#[trigger] strat@[t]).kind == before_v[t].kind
                        && strat@[t].m.len() == before_v[t].m.len(),
                forall|t: int, q: int|
                    0 <= t < strat@.len() && 0 <= q < strat@[t].m.len()
                        ==> #[trigger] strat@[t].m[q] == (if q < i2 as int {
                        params_rows(ps[q], tt as int, k as int)[t]
                    } else {
                        before_v[t].m[q]
                    }),
                forall|p: int, t: int|
                    0 <= p < n && 0 <= t < tt as int ==> fx_row(
                        (#[trigger] responses@[p]@[t])@,
                    ) == params_rows(ps[p], tt as int, k as int)[t],
                forall|p: int|
                    0 <= p < n ==> (#[trigger] responses@[p])@.len() == tt as int,
                forall|p: int, t: int|
                    0 <= p < n && 0 <= t < tt as int ==> (#[trigger] responses@[p]@[t])@.len()
                        == k as int,
                forall|p: int, t: int, j: int|
                    0 <= p < n && 0 <= t < tt as int && 0 <= j < k as int
                        ==> (#[trigger] responses@[p]@[t]@[j]).v >= 1,
            decreases n - i2,
        {
            let ghost before = strat@;
            strat.set_i(i2, &responses[i2]);
            proof {
                assert forall|t: int, q: int, j: int|
                    0 <= t < strat@.len() && 0 <= q < strat@[t].m.len() && 0 <= j
                        < strat@[t].m[q].len() implies #[trigger] strat@[t].m[q][j] >= 1 by {
                    assert(strat@[t].m == before[t].m.update(
                        i2 as int,
                        fx_row(responses@[i2 as int]@[t]@),
                    ));
                    if q == i2 as int {
                        assert(strat@[t].m[q] == fx_row(responses@[i2 as int]@[t]@));
                    } else {
                        assert(strat@[t].m[q] == before[t].m[q]);
                    }
                }
                assert forall|t: int, q: int|
                    0 <= t < strat@.len() && 0 <= q < strat@[t].m.len()
                        implies #[trigger] strat@[t].m[q] == (if q < i2 as int + 1 {
                        params_rows(ps[q], tt as int, k as int)[t]
                    } else {
                        before_v[t].m[q]
                    }) by {
                    assert(strat@[t].m == before[t].m.update(
                        i2 as int,
                        fx_row(responses@[i2 as int]@[t]@),
                    ));
                }
            }
            i2 = i2 + 1;
        }
        proof {
            assert(round_witness(*agg, before_v, strat@, ps, step));
            assert(round_rel(*agg, before_v, strat@, step));
            chain = chain.push(strat@);
        }
        let new_p = agg.u(&strat);
        proof {
            assert(fx_row(new_p@) =~= payoffs_of(*agg, strat@));
        }
        if isapprox_iters(&new_p, &last, options.tol, eps) {
            proof {
                assert(chain[chain.len() - 2] == before_v);
                assert(solve_chain(*agg, *options, chain, strat@, SolverStatus::Success));
            }
            return SolverResult { status: SolverStatus::Success, strategies: Some(strat) };
        }
        last = new_p;
    }
    proof {
        assert(chain.len() == options.iters + 1);
        assert(solve_chain(*agg, *options, chain, strat@, SolverStatus::ReachedMaxIterations));
    }
    SolverResult { status: SolverStatus::ReachedMaxIterations, strategies: Some(strat) }
}

/// The returned history's last slot holds a genuine mixture response: for
/// some fresh seed draw and per-agent responses, the slot's final value is
/// the committed image of responses that are acceptable against the mixture
/// of the other slots' final values and the slot's own previous value.
pub open spec fn last_slot_refreshed(
    agg: Aggregator,
    hist: Seq<Strategies>,
    pre: Seq<ActionsV>,
    src: Seq<ActionsV>,
    ps: Seq<Seq<int>>,
    step: int,
) -> bool {
    mixed_round_witness(
        agg,
        hist.map_values(|s: Strategies| s@).update(hist.len() - 1, pre),
        pre,
        hist[hist.len() - 1]@,
        src,
        ps,
        step,
    )
}

/// The mixed-strategy variant: keep a fixed-size history of candidate
/// strategies and, each round, re-optimize every agent's response against the
/// empirical mixture over the whole history, one history slot at a time, each
/// slot seeded from a fresh random draw.  Fails with `EmptyList` on a zero
/// history size and `DimensionMismatch` exactly when the initial guess is
/// rejected; every returned strategy fits the aggregator and is strictly
/// positive.
pub fn solve_mixed(agg: &Aggregator, options: &SolverOptions) -> (r: Result<
    Vec<Strategies>,
    ValidationError,
>)
    requires
        agg.wf(),
    ensures
        r is Ok <==> (!guess_rejected(*agg, *options) && options.hist_size >= 1),
        r matches Ok(v) ==> v@.len() == options.hist_size && (forall|h: int|
            0 <= h < v@.len() ==> (#[trigger] v@[h]).wf() && v@[h].n_spec() == agg.n_spec()
                && v@[h].kind_spec() == agg.kind_spec() && all_positive(v@[h]@)),
        r matches Ok(v) ==> forall|h: int|
            0 <= h < v@.len() ==> (#[trigger] v@[h]).t_spec() == guess_horizon(*options),
        options.iters > 0 ==> (r matches Ok(v) ==> exists|
            pre: Seq<ActionsV>,
            src: Seq<ActionsV>,
            ps2: Seq<Seq<int>>,
        |
            last_slot_refreshed(
                *agg,
                v@,
                pre,
                src,
                ps2,
                options.nm_options.init_simplex_size.v as int,
            )),
{
    if options.hist_size == 0 {
        return Err(ValidationError::EmptyList);
    }
    let n = agg.n();
    let k = agg.kind().k();
    let hh = options.hist_size;
    let ghost t0: int = guess_horizon(*options);
    let ghost step: int = options.nm_options.init_simplex_size.v as int;
    let mut hist: Vec<Strategies> = Vec::new();
    let mut h: usize = 0;
    while h < hh
        invariant
            agg.wf(),
            h <= hh,
            hist@.len() == h,
            n as int == agg.n_spec(),
            k as int == agg.kind_spec().k_spec(),
            t0 == guess_horizon(*options),
            h >= 1 ==> !guess_rejected(*agg, *options),
            forall|p: int|
                0 <= p < h ==> (#[trigger] hist@[p]).wf() && hist@[p].n_spec() == agg.n_spec()
                    && hist@[p].kind_spec() == agg.kind_spec() && all_positive(hist@[p]@),
            forall|p: int| 0 <= p < h ==> (#[trigger] hist@[p]).t_spec() == t0,
        decreases hh - h,
    {
        match init_strategy(agg, options) {
            Some(s) => {
                hist.push(s);
            },
            None => {
                return Err(ValidationError::DimensionMismatch);
            },
        }
        h = h + 1;
    }
    if options.iters == 0 {
        return Ok(hist);
    }
    let tt = hist[0].t();
    let ghost mut pre_w: Seq<ActionsV> = Seq::empty();
    let ghost mut src_w: Seq<ActionsV> = Seq::empty();
    let ghost mut ps_w: Seq<Seq<int>> = Seq::empty();
    let mut round: u64 = 0;
    while round < options.iters
        invariant
            !guess_rejected(*agg, *options),
            agg.wf(),
            hh >= 1,
            hh == options.hist_size,
            hist@.len() == hh,
            n as int == agg.n_spec(),
            k as int == agg.kind_spec().k_spec(),
            t0 == guess_horizon(*options),
            tt as int == t0,
            step == options.nm_options.init_simplex_size.v as int,
            forall|p: int|
                0 <= p < hh ==> (#[trigger] hist@[p]).wf() && hist@[p].n_spec() == agg.n_spec()
                    && hist@[p].kind_spec() == agg.kind_spec() && all_positive(hist@[p]@),
            forall|p: int| 0 <= p < hh ==> (#[trigger] hist@[p]).t_spec() == tt as int,
            round >= 1 ==> last_slot_refreshed(*agg, hist@, pre_w, src_w, ps_w, step),
        decreases options.iters - round,
    {
        round = round + 1;
        let mut j: usize = 0;
        while j < hh
            invariant
                agg.wf(),
                j <= hh,
                hh >= 1,
                hist@.len() == hh,
                n as int == agg.n_spec(),
                k as int == agg.kind_spec().k_spec(),
                step == options.nm_options.init_simplex_size.v as int,
                forall|p: int|
                    0 <= p < hh ==> (#[trigger] hist@[p]).wf() && hist@[p].n_spec()
                        == agg.n_spec() && hist@[p].kind_spec() == agg.kind_spec() && all_positive(
                        hist@[p]@,
                    ),
                forall|p: int| 0 <= p < hh ==> (#[trigger] hist@[p]).t_spec() == tt as int,
                j == hh ==> last_slot_refreshed(*agg, hist@, pre_w, src_w, ps_w, step),
            decreases hh - j,
        {
            let ghost hv_resp = hist@.map_values(|s2: Strategies| s2@);
            let ghost hexec_before = hist@;
            // a fresh random seed strategy for this slot; it cannot fail, the
            // shapes being positive
            proof {
                assert(state_n(agg.state0@) >= 1);
                assert(hist@[0].t_spec() >= 1);
            }
            let seed_strat = match Strategies::random(
                tt,
                n,
                agg.kind(),
                Fx::raw(INIT_MU_RAW),
                Fx::raw(INIT_SIGMA_RAW),
            ) {
                Ok(s) => s,
                Err(e) => {
                    return Err(e);
                },
            };
            // every agent's response to the mixture, computed on the same
            // snapshot of the history
            let ghost mut ps: Seq<Seq<int>> = Seq::empty();
            let mut responses: Vec<Vec<Vec<Fx>>> = Vec::new();
            for i in 0..n
                invariant
                    agg.wf(),
                    hh >= 1,
                    hist@.len() == hh,
                    hist_wf(*agg, hist@),
                    hv_resp == hist@.map_values(|s2: Strategies| s2@),
                    step == options.nm_options.init_simplex_size.v as int,
                    seed_strat.wf(),
                    seed_strat.t_spec() == tt as int,
                    seed_strat.n_spec() == agg.n_spec(),
                    seed_strat.kind_spec() == agg.kind_spec(),
                    n as int == agg.n_spec(),
                    k as int == agg.kind_spec().k_spec(),
                    hist@[0].t_spec() == tt as int,
                    responses@.len() == i,
                    ps.len() == i,
                    forall|p: int|
                        0 <= p < i ==> mixed_response_ok(
                            *agg,
                            hv_resp,
                            seed_strat@,
                            p,
                            #[trigger] ps[p],
                            step,
                        ),
                    forall|p: int, t: int|
                        0 <= p < i && 0 <= t < tt as int ==> fx_row(
                            (#[trigger] responses@[p]@[t])@,
                        ) == params_rows(ps[p], tt as int, k as int)[t],
                    forall|p: int| 0 <= p < i ==> (#[trigger] responses@[p])@.len() == tt as int,
                    forall|p: int, t: int|
                        0 <= p < i && 0 <= t < tt as int ==> (#[trigger] responses@[p]@[t])@.len()
                            == k as int,
                    forall|p: int, t: int, q: int|
                        0 <= p < i && 0 <= t < tt as int && 0 <= q < k as int
                            ==> (#[trigger] responses@[p]@[t]@[q]).v >= 1,
            {
                let seed = flatten_agent(&seed_strat, i, k);
                let params = nelder_mead(agg, &hist, i, &seed, &options.nm_options);
                proof {
                    let pv = fx_row(params@);
                    let sv = fx_row(seed@);
                    assert forall|p2: int| 0 <= p2 < hist@.len() implies (#[trigger] hist@[p2]).kind_spec()
                        == agg.kind_spec() by {}
                    lemma_mixed_obj_view(*agg, hist@, i as int, pv);
                    lemma_mixed_obj_view(*agg, hist@, i as int, sv);
                    assert(sv == seed_of(seed_strat@, i as int, k as int));
                    assert(seed_strat@.len() == seed_strat.acts@.len());
                    assert forall|j2: int|
                        0 <= j2 < seed_strat@.len() * k as int && seed_strat@.len() * k as int
                            <= 65536 implies mixed_obj_of(*agg, hv_resp, i as int, pv)
                        <= mixed_obj_of(
                        *agg,
                        hv_resp,
                        i as int,
                        #[trigger] perturbed(seed_of(seed_strat@, i as int, k as int), j2, step),
                    ) by {
                        lemma_mixed_obj_view(
                            *agg,
                            hist@,
                            i as int,
                            perturbed(seed_of(seed_strat@, i as int, k as int), j2, step),
                        );
                    }
                    assert(mixed_response_ok(*agg, hv_resp, seed_strat@, i as int, pv, step));
                    ps = ps.push(pv);
                }
                responses.push(params_to_rows(&params, tt, k));
            }
            // commit all agents' responses into slot j
            let mut i2: usize = 0;
            while i2 < n
                invariant
                    agg.wf(),
                    i2 <= n,
                    j < hh,
                    hh >= 1,
                    hist@.len() == hh,
                    n as int == agg.n_spec(),
                    k as int == agg.kind_spec().k_spec(),
                    hexec_before.len() == hh,
                    hv_resp == hexec_before.map_values(|s2: Strategies| s2@),
                    forall|p: int| 0 <= p < hh && p != j as int ==> hist@[p] == hexec_before[p],
                    hist@[j as int]@.len() == hv_resp[j as int].len(),
                    forall|t: int|
                        0 <= t < hist@[j as int]@.len() ==> (#[trigger] hist@[j as int]@[t]).kind
                            == hv_resp[j as int][t].kind && hist@[j as int]@[t].m.len()
                            == hv_resp[j as int][t].m.len(),
                    forall|t: int, q: int|
                        0 <= t < hist@[j as int]@.len() && 0 <= q < hist@[j as int]@[t].m.len()
                            ==> #[trigger] hist@[j as int]@[t].m[q] == (if q < i2 as int {
                            params_rows(ps[q], tt as int, k as int)[t]
                        } else {
                            hv_resp[j as int][t].m[q]
                        }),
                    ps.len() == n,
                    forall|p: int|
                        0 <= p < hh ==> (#[trigger] hist@[p]).wf() && hist@[p].n_spec()
                            == agg.n_spec() && hist@[p].kind_spec() == agg.kind_spec()
                            && all_positive(hist@[p]@),
                    forall|p: int| 0 <= p < hh ==> (#[trigger] hist@[p]).t_spec() == tt as int,
                    responses@.len() == n,
                    forall|p: int, t: int|
                        0 <= p < n && 0 <= t < tt as int ==> fx_row(
                            (#[trigger] responses@[p]@[t])@,
                        ) == params_rows(ps[p], tt as int, k as int)[t],
                    forall|p: int| 0 <= p < n ==> (#[trigger] responses@[p])@.len() == tt as int,
                    forall|p: int, t: int|
                        0 <= p < n && 0 <= t < tt as int ==> (#[trigger] responses@[p]@[t])@.len()
                            == k as int,
                    forall|p: int, t: int, q: int|
                        0 <= p < n && 0 <= t < tt as int && 0 <= q < k as int
                            ==> (#[trigger] responses@[p]@[t]@[q]).v >= 1,
                decreases n - i2,
            {
                let ghost before = hist@;
                let slot = &mut hist[j];
                let ghost slot_before = slot@;
                slot.set_i(i2, &responses[i2]);
                proof {
                    assert forall|t: int, q: int, w: int|
                        0 <= t < slot@.len() && 0 <= q < slot@[t].m.len() && 0 <= w
                            < slot@[t].m[q].len() implies #[trigger] slot@[t].m[q][w] >= 1 by {
                        assert(slot@[t].m == slot_before[t].m.update(
                            i2 as int,
                            fx_row(responses@[i2 as int]@[t]@),
                        ));
                        if q == i2 as int {
                            assert(slot@[t].m[q] == fx_row(responses@[i2 as int]@[t]@));
                        } else {
                            assert(slot@[t].m[q] == before[j as int]@[t].m[q]);
                        }
                    }
                    assert forall|t: int, q: int|
                        0 <= t < slot@.len() && 0 <= q < slot@[t].m.len()
                            implies #[trigger] slot@[t].m[q] == (if q < i2 as int + 1 {
                            params_rows(ps[q], tt as int, k as int)[t]
                        } else {
                            hv_resp[j as int][t].m[q]
                        }) by {
                        assert(slot@[t].m == slot_before[t].m.update(
                            i2 as int,
                            fx_row(responses@[i2 as int]@[t]@),
                        ));
                    }
                }
                i2 = i2 + 1;
            }
            proof {
                if j + 1 == hh {
                    pre_w = hv_resp[j as int];
                    src_w = seed_strat@;
                    ps_w = ps;
                    assert(hist@.map_values(|s2: Strategies| s2@).update(
                        hist@.len() - 1,
                        pre_w,
                    ) =~= hv_resp);
                    assert(mixed_round_witness(
                        *agg,
                        hv_resp,
                        pre_w,
                        hist@[j as int]@,
                        src_w,
                        ps_w,
                        step,
                    ));
                    assert(last_slot_refreshed(*agg, hist@, pre_w, src_w, ps_w, step));
                }
            }
            j = j + 1;
        }
    }
    proof {
        assert(last_slot_refreshed(*agg, hist@, pre_w, src_w, ps_w, step));
    }
    Ok(hist)
}

/// Solve a whole batch of scenarios: one result per aggregator, each exactly
/// as [`solve`] would return it.
pub fn solve_all(aggs: &Vec<Aggregator>, options: &SolverOptions) -> (r: Vec<SolverResult>)
    requires
        forall|i: int| 0 <= i < aggs@.len() ==> (#[trigger] aggs@[i]).wf(),
    ensures
        r@.len() == aggs@.len(),
        forall|i: int|
            0 <= i < r@.len() ==> ((#[trigger] r@[i]).status == SolverStatus::Failed
                <==> guess_rejected(aggs@[i], *options)),
        forall|i: int|
            0 <= i < r@.len() ==> ((#[trigger] r@[i]).strategies matches Some(s) ==> s.wf()
                && s.n_spec() == aggs@[i].n_spec() && s.kind_spec() == aggs@[i].kind_spec()
                && all_positive(s@) && s.t_spec() == guess_horizon(*options)),
        forall|i: int|
            0 <= i < r@.len() && !guess_rejected(aggs@[i], *options) && options.iters > 0 ==> ((
            #[trigger] r@[i]).strategies matches Some(s) && exists|chain: Seq<Seq<ActionsV>>|
                solve_chain(aggs@[i], *options, chain, s@, r@[i].status)),
{
    let len = aggs.len();
    let mut r: Vec<SolverResult> = Vec::new();
    for i in 0..len
        invariant
            len == aggs@.len(),
            forall|p: int| 0 <= p < aggs@.len() ==> (#[trigger] aggs@[p]).wf(),
            r@.len() == i,
            forall|p: int|
                0 <= p < i ==> ((#[trigger] r@[p]).status == SolverStatus::Failed
                    <==> guess_rejected(aggs@[p], *options)),
            forall|p: int|
                0 <= p < i ==> ((#[trigger] r@[p]).strategies matches Some(s) ==> s.wf()
                    && s.n_spec() == aggs@[p].n_spec() && s.kind_spec() == aggs@[p].kind_spec()
                    && all_positive(s@) && s.t_spec() == guess_horizon(*options)),
            forall|p: int|
                0 <= p < i && !guess_rejected(aggs@[p], *options) && options.iters > 0 ==> ((
                #[trigger] r@[p]).strategies matches Some(s) && exists|chain: Seq<Seq<ActionsV>>|
                    solve_chain(aggs@[p], *options, chain, s@, r@[p].status)),
    {
        r.push(solve(&aggs[i], options));
    }
    r
}

} // verus!
