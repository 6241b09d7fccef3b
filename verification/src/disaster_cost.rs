//! The disaster cost: what each agent pays when no winner was safe.
//!
//! `ConstantDisasterCost` charges a fixed per-agent amount, independent of
//! the signals.

use vstd::prelude::*;
use crate::fx::Fx;
use crate::strategies::fx_row;
use crate::errors::ValidationError;
use crate::utils::clone_row;

verus! {

/// A per-agent cost charged when a disaster occurs.
#[derive(Debug)]
pub struct ConstantDisasterCost {
    pub d: Vec<Fx>,
}

impl View for ConstantDisasterCost {
    type V = Seq<int>;

    open spec fn view(&self) -> Seq<int> {
        fx_row(self.d@)
    }
}

impl ConstantDisasterCost {
    /// The shape invariant: at least one agent.
    pub open spec fn wf(self) -> bool {
        self@.len() >= 1
    }

    /// The number of agents.
    pub open spec fn n_spec(self) -> int {
        self@.len() as int
    }

    /// Build a disaster cost charging `d` to each of `n` agents.  Fails with
    /// `EmptyList` when `n` is zero.
    pub fn new(n: usize, d: Fx) -> (r: Result<ConstantDisasterCost, ValidationError>)
        ensures
            r matches Ok(c) ==> c.wf() && c@ == Seq::new(n as nat, |i: int| d.v as int),
            r is Ok <==> n >= 1,
    {
        if n == 0 {
            return Err(ValidationError::EmptyList);
        }
        let mut dv: Vec<Fx> = Vec::new();
        for i in 0..n
            invariant
                dv@.len() == i,
                forall|p: int| 0 <= p < i ==> (#[trigger] dv@[p]).v == d.v,
        {
            dv.push(d);
        }
        let c = ConstantDisasterCost { d: dv };
        proof {
            assert(c@ =~= Seq::new(n as nat, |i: int| d.v as int));
        }
        Ok(c)
    }

    /// The number of agents.
    pub fn n(&self) -> (r: usize)
        ensures
            r as int == self.n_spec(),
    {
        self.d.len()
    }

    /// Agent `i`'s cost if a disaster occurs (the signals play no role).
    pub fn d_i(&self, i: usize, _s: &Vec<Fx>, _p: &Vec<Fx>) -> (r: Fx)
        requires
            self.wf(),
            (i as int) < self.n_spec(),
        ensures
            r.v as int == self@[i as int],
    {
        proof {
            assert(self@[i as int] == self.d@[i as int].v as int);
        }
        self.d[i]
    }
}

impl Clone for ConstantDisasterCost {
    /// Cloning keeps the cost vector.
    fn clone(&self) -> (r: Self)
        ensures
            r@ == self@,
    {
        ConstantDisasterCost { d: clone_row(&self.d) }
    }
}

} // verus!
