//! The belief model: which payoff function each agent uses to evaluate a
//! period.
//!
//! `CommonBeliefs` gives every agent one shared payoff function;
//! `HetBeliefs` gives each agent its own, so beliefs may diverge over time as
//! each one's production state is mutated independently.

use vstd::prelude::*;
use crate::strategies::Actions;
use crate::payoff_func::{ModularPayoff, PayoffV, payoff_mutated};
use crate::errors::ValidationError;

verus! {

/// The mathematical content of a belief assignment.
#[verifier::ext_equal]
pub enum StateV {
    Common(PayoffV),
    Het(Seq<PayoffV>),
}

/// The payoff function agent `i` believes in.
pub open spec fn belief_of(sv: StateV, i: int) -> PayoffV {
    match sv {
        StateV::Common(pf) => pf,
        StateV::Het(pfs) => pfs[i],
    }
}

/// The number of agents of a belief assignment.
pub open spec fn state_n(sv: StateV) -> int {
    match sv {
        StateV::Common(pf) => pf.n,
        StateV::Het(pfs) => pfs.len() as int,
    }
}

/// The belief assignment after one period of actions: every belief's
/// production state advances.
pub open spec fn state_mutated(sv: StateV, kind: crate::strategies::ActionKind, m: Seq<Seq<int>>) -> StateV {
    match sv {
        StateV::Common(pf) => StateV::Common(payoff_mutated(pf, kind, m)),
        StateV::Het(pfs) => StateV::Het(
            Seq::new(pfs.len(), |i: int| payoff_mutated(pfs[i], kind, m)),
        ),
    }
}

/// Advancing a belief assignment changes no agent count and no action kind:
/// only the production coefficients move.
pub proof fn lemma_state_mutated_fields(sv: StateV, kind: crate::strategies::ActionKind, m: Seq<Seq<int>>)
    ensures
        state_n(state_mutated(sv, kind, m)) == state_n(sv),
        forall|j: int|
            0 <= j < state_n(sv) ==> (#[trigger] belief_of(state_mutated(sv, kind, m), j)).kind
                == belief_of(sv, j).kind && belief_of(state_mutated(sv, kind, m), j).n == belief_of(
                sv,
                j,
            ).n,
{
    match sv {
        StateV::Common(pf) => {},
        StateV::Het(pfs) => {
            assert forall|j: int| 0 <= j < state_n(sv) implies (#[trigger] belief_of(
                state_mutated(sv, kind, m),
                j,
            )).kind == belief_of(sv, j).kind && belief_of(state_mutated(sv, kind, m), j).n
                == belief_of(sv, j).n by {
                assert(state_mutated(sv, kind, m)->Het_0[j] == payoff_mutated(pfs[j], kind, m));
            }
        },
    }
}

/// All agents share one payoff function.
#[derive(Debug)]
pub struct CommonBeliefs(pub ModularPayoff);

/// Each agent holds its own payoff function.
#[derive(Debug)]
pub struct HetBeliefs {
    pub beliefs: Vec<ModularPayoff>,
}

/// A period's belief assignment: shared or heterogeneous.
#[derive(Debug)]
pub enum State {
    Common(CommonBeliefs),
    Het(HetBeliefs),
}

impl View for State {
    type V = StateV;

    open spec fn view(&self) -> StateV {
        match self {
            State::Common(c) => StateV::Common(c.0@),
            State::Het(h) => StateV::Het(h.beliefs@.map_values(|b: ModularPayoff| b@)),
        }
    }
}

impl HetBeliefs {
    /// Build a heterogeneous belief assignment: one payoff function per
    /// agent.  Fails with `EmptyList` when no belief is given and
    /// `DimensionMismatch` when some belief's agent count differs from the
    /// number of beliefs.
    pub fn new(beliefs: Vec<ModularPayoff>) -> (r: Result<HetBeliefs, ValidationError>)
        requires
            forall|i: int| 0 <= i < beliefs@.len() ==> (#[trigger] beliefs@[i]).wf(),
        ensures
            r matches Ok(h) ==> h.beliefs@ == beliefs@ && State::Het(h).wf(),
            beliefs@.len() == 0 <==> r == Err::<HetBeliefs, ValidationError>(
                ValidationError::EmptyList,
            ),
            r is Ok <==> (beliefs@.len() >= 1 && forall|i: int|
                0 <= i < beliefs@.len() ==> (#[trigger] beliefs@[i]).n_spec()
                    == beliefs@.len() as int),
    {
        if beliefs.len() == 0 {
            return Err(ValidationError::EmptyList);
        }
        let n = beliefs.len();
        for i in 0..n
            invariant
                n == beliefs@.len(),
                forall|p: int|
                    0 <= p < i ==> (#[trigger] beliefs@[p]).n_spec() == beliefs@.len() as int,
        {
            if beliefs[i].n() != n {
                return Err(ValidationError::DimensionMismatch);
            }
        }
        Ok(HetBeliefs { beliefs })
    }
}

impl State {
    /// The invariant: every belief well formed, with an agent count matching
    /// the assignment's own.
    pub open spec fn wf(self) -> bool {
        match self {
            State::Common(c) => c.0.wf(),
            State::Het(h) => {
                &&& h.beliefs@.len() >= 1
                &&& forall|i: int| 0 <= i < h.beliefs@.len() ==> (#[trigger] h.beliefs@[i]).wf()
                &&& forall|i: int|
                    0 <= i < h.beliefs@.len() ==> (#[trigger] h.beliefs@[i]).n_spec()
                        == h.beliefs@.len() as int
            },
        }
    }

    /// The number of agents.
    pub fn n(&self) -> (r: usize)
        requires
            self.wf(),
        ensures
            r as int == state_n(self@),
    {
        match self {
            State::Common(c) => c.0.n(),
            State::Het(h) => h.beliefs.len(),
        }
    }

    /// The payoff function agent `i` believes in.
    pub fn belief(&self, i: usize) -> (r: &ModularPayoff)
        requires
            self.wf(),
            (i as int) < state_n(self@),
        ensures
            r@ == belief_of(self@, i as int),
            r.wf(),
            r.n_spec() == state_n(self@),
    {
        match self {
            State::Common(c) => &c.0,
            State::Het(h) => &h.beliefs[i],
        }
    }

    /// Advance every belief by one period of actions.
    pub fn mutate_on(&mut self, actions: &Actions)
        requires
            old(self).wf(),
            actions.wf(),
        ensures
            final(self)@ == state_mutated(old(self)@, actions.kind, actions@.m),
            final(self).wf(),
            state_n(final(self)@) == state_n(old(self)@),
    {
        match self {
            State::Common(c) => {
                c.0.mutate_on(actions);
                proof {
                    assert(self@ =~= state_mutated(old(self)@, actions.kind, actions@.m));
                }
            },
            State::Het(h) => {
                let n = h.beliefs.len();
                let mut i: usize = 0;
                while i < n
                    invariant
                        n == h.beliefs@.len(),
                        i <= n,
                        actions.wf(),
                        forall|p: int|
                            i <= p < n ==> h.beliefs@[p] == old(self)->Het_0.beliefs@[p],
                        forall|p: int| 0 <= p < n ==> (#[trigger] h.beliefs@[p]).wf(),
                        forall|p: int|
                            0 <= p < n ==> (#[trigger] h.beliefs@[p]).n_spec() == n as int,
                        forall|p: int|
                            0 <= p < i ==> (#[trigger] h.beliefs@[p])@ == payoff_mutated(
                                old(self)->Het_0.beliefs@[p]@,
                                actions.kind,
                                actions@.m,
                            ),
                    decreases n - i,
                {
                    let b = &mut h.beliefs[i];
                    b.mutate_on(actions);
                    i = i + 1;
                }
                proof {
                    assert(self@ =~= state_mutated(old(self)@, actions.kind, actions@.m));
                }
            },
        }
    }
}

impl Clone for State {
    /// Cloning keeps every belief, and a well-formed state stays well formed.
    fn clone(&self) -> (r: Self)
        ensures
            r@ == self@,
            self.wf() ==> r.wf(),
    {
        match self {
            State::Common(c) => {
                let b = c.0.clone();
                proof {
                    if self.wf() {
                        crate::payoff_func::lemma_payoff_wf_view(c.0, b);
                    }
                }
                State::Common(CommonBeliefs(b))
            },
            State::Het(h) => {
                let n = h.beliefs.len();
                let mut beliefs: Vec<ModularPayoff> = Vec::new();
                for i in 0..n
                    invariant
                        n == h.beliefs@.len(),
                        beliefs@.len() == i,
                        forall|p: int| 0 <= p < i ==> (#[trigger] beliefs@[p])@ == h.beliefs@[p]@,
                        forall|p: int|
                            0 <= p < i ==> ((#[trigger] h.beliefs@[p]).wf() ==> beliefs@[p].wf()),
                {
                    let b = h.beliefs[i].clone();
                    proof {
                        if h.beliefs@[i as int].wf() {
                            crate::payoff_func::lemma_payoff_wf_view(h.beliefs@[i as int], b);
                        }
                    }
                    beliefs.push(b);
                }
                let r = State::Het(HetBeliefs { beliefs });
                proof {
                    assert(beliefs@.map_values(|b: ModularPayoff| b@) =~= h.beliefs@.map_values(
                        |b: ModularPayoff| b@,
                    ));
                }
                r
            },
        }
    }
}

} // verus!
