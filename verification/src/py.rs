//! Plain-data handle types for a host binding layer.
//!
//! A host embedding (for instance a Python extension) works with opaque
//! handles rather than the library's generic surface.  These types are those
//! handles: thin verified wrappers that erase nothing but give each value a
//! stable, kind-tagged shape and a tag string.  The host glue itself lives
//! outside the verified crate.

use vstd::prelude::*;
use crate::strategies::{Actions, ActionKind, ActionsV, Strategies};
use crate::cost_func::FixedCost;
use crate::state::State;
use crate::errors::ValidationError;

verus! {

/// A period's action matrix, tagged by its kind at the type level.
#[derive(Debug)]
pub enum ActionContainer {
    Basic(Actions),
    Invest(Actions),
    Sharing(Actions),
}

impl ActionContainer {
    /// The variant tag agrees with the wrapped matrix's kind, and the matrix
    /// is well formed.
    pub open spec fn wf(self) -> bool {
        match self {
            ActionContainer::Basic(a) => a.wf() && a.kind == ActionKind::Basic,
            ActionContainer::Invest(a) => a.wf() && a.kind == ActionKind::Invest,
            ActionContainer::Sharing(a) => a.wf() && a.kind == ActionKind::Sharing,
        }
    }

    /// The wrapped action matrix.
    pub open spec fn inner_spec(self) -> Actions {
        match self {
            ActionContainer::Basic(a) => a,
            ActionContainer::Invest(a) => a,
            ActionContainer::Sharing(a) => a,
        }
    }

    /// Wrap an action matrix in the variant matching its kind.
    pub fn of_actions(a: Actions) -> (r: ActionContainer)
        requires
            a.wf(),
        ensures
            r.wf(),
            r.inner_spec() == a,
    {
        match a.kind {
            ActionKind::Basic => ActionContainer::Basic(a),
            ActionKind::Invest => ActionContainer::Invest(a),
            ActionKind::Sharing => ActionContainer::Sharing(a),
        }
    }

    /// The wrapped action matrix.
    pub fn actions(&self) -> (r: &Actions)
        ensures
            r == self.inner_spec(),
    {
        match self {
            ActionContainer::Basic(a) => a,
            ActionContainer::Invest(a) => a,
            ActionContainer::Sharing(a) => a,
        }
    }
}

/// A host handle for one period's actions.
#[derive(Debug)]
pub struct PyActions(pub ActionContainer);

impl PyActions {
    /// The handle invariant: the container is well formed.
    pub open spec fn wf(self) -> bool {
        self.0.wf()
    }

    /// The number of agents.
    pub fn n(&self) -> (r: usize)
        ensures
            r as int == self.0.inner_spec().n_spec(),
    {
        self.0.actions().n()
    }

    /// The tag string of the wrapped action kind.
    pub fn py_type(&self) -> (r: &'static str)
        ensures
            self.0 is Basic ==> r@ == "basic"@,
            self.0 is Invest ==> r@ == "invest"@,
            self.0 is Sharing ==> r@ == "sharing"@,
    {
        match &self.0 {
            ActionContainer::Basic(_) => "basic",
            ActionContainer::Invest(_) => "invest",
            ActionContainer::Sharing(_) => "sharing",
        }
    }
}

/// A host handle for a strategy profile.
#[derive(Debug)]
pub struct PyStrategies(pub Strategies);

impl PyStrategies {
    /// Build a strategy handle from per-period action handles, checking the
    /// shared shape exactly as [`Strategies::from_actions`] does.
    pub fn from_actions_list(list: Vec<PyActions>) -> (r: Result<PyStrategies, ValidationError>)
        requires
            forall|t: int| 0 <= t < list@.len() ==> (#[trigger] list@[t]).wf(),
        ensures
            r matches Ok(s) ==> s.0.wf() && s.0.acts@.len() == list@.len() && (forall|t: int|
                0 <= t < list@.len() ==> (#[trigger] s.0.acts@[t])@ == list@[t].0.inner_spec()@),
            list@.len() == 0 <==> r == Err::<PyStrategies, ValidationError>(
                ValidationError::EmptyList,
            ),
            r is Ok <==> (list@.len() >= 1 && (forall|t: int|
                0 <= t < list@.len() ==> (#[trigger] list@[t]).0.inner_spec().kind
                    == list@[0].0.inner_spec().kind && list@[t].0.inner_spec().n_spec()
                    == list@[0].0.inner_spec().n_spec())),
    {
        let mut acts: Vec<Actions> = Vec::new();
        let len = list.len();
        for t in 0..len
            invariant
                len == list@.len(),
                forall|p: int| 0 <= p < list@.len() ==> (#[trigger] list@[p]).wf(),
                acts@.len() == t,
                forall|p: int|
                    0 <= p < t ==> (#[trigger] acts@[p])@ == list@[p].0.inner_spec()@
                        && acts@[p].kind == list@[p].0.inner_spec().kind && acts@[p].wf(),
        {
            acts.push(list[t].0.actions().clone());
        }
        proof {
            assert forall|t: int|
                0 <= t < list@.len() implies (#[trigger] acts@[t]).kind
                == list@[t].0.inner_spec().kind && acts@[t].n_spec()
                == list@[t].0.inner_spec().n_spec() by {
                assert(acts@[t]@ == list@[t].0.inner_spec()@);
            }
        }
        let ghost av = acts@;
        let res = Strategies::from_actions(acts);
        proof {
            if res is Ok {
                assert forall|t: int|
                    0 <= t < list@.len() implies (#[trigger] list@[t]).0.inner_spec().kind
                    == list@[0].0.inner_spec().kind && list@[t].0.inner_spec().n_spec()
                    == list@[0].0.inner_spec().n_spec() by {
                    assert((#[trigger] av[t]).kind == av[0].kind && av[t].n_spec()
                        == av[0].n_spec());
                }
            } else {
                if list@.len() >= 1 && (forall|t: int|
                    0 <= t < list@.len() ==> (#[trigger] list@[t]).0.inner_spec().kind
                        == list@[0].0.inner_spec().kind && list@[t].0.inner_spec().n_spec()
                        == list@[0].0.inner_spec().n_spec()) {
                    assert forall|t: int|
                        0 <= t < av.len() implies (#[trigger] av[t]).kind == av[0].kind
                        && av[t].n_spec() == av[0].n_spec() by {
                        assert((#[trigger] list@[t]).0.inner_spec().kind
                            == list@[0].0.inner_spec().kind && list@[t].0.inner_spec().n_spec()
                            == list@[0].0.inner_spec().n_spec());
                    }
                    assert(false);
                }
            }
        }
        match res {
            Ok(s) => Ok(PyStrategies(s)),
            Err(e) => Err(e),
        }
    }

    /// Read the per-period action handles back; this is the inverse of
    /// [`PyStrategies::from_actions_list`] on the wrapped matrices.
    pub fn to_actions_list(self) -> (r: Vec<PyActions>)
        requires
            self.0.wf(),
        ensures
            r@.len() == self.0.acts@.len(),
            forall|t: int|
                0 <= t < r@.len() ==> (#[trigger] r@[t]).0.inner_spec() == self.0.acts@[t],
            forall|t: int| 0 <= t < r@.len() ==> (#[trigger] r@[t]).wf(),
    {
        let acts = self.0.into_actions();
        let ghost av = acts@;
        let mut r: Vec<PyActions> = Vec::new();
        let len = acts.len();
        let mut rest = acts;
        let mut t: usize = 0;
        while t < len
            invariant
                t <= len,
                len == av.len(),
                rest@.len() == av.len() - t,
                forall|p: int| 0 <= p < rest@.len() ==> #[trigger] rest@[p] == av[t + p],
                forall|p: int| t <= p < len ==> (#[trigger] av[p]).wf(),
                r@.len() == t,
                forall|p: int| 0 <= p < t ==> (#[trigger] r@[p]).0.inner_spec() == av[p],
                forall|p: int| 0 <= p < t ==> (#[trigger] r@[p]).wf(),
            decreases len - t,
        {
            let a = rest.remove(0);
            r.push(PyActions(ActionContainer::of_actions(a)));
            t = t + 1;
        }
        r
    }
}

/// A host handle for a belief state.
#[derive(Debug)]
pub struct PyState(pub State);

impl PyState {
    /// The tag string of the belief variant.
    pub fn atype(&self) -> (r: &'static str)
        ensures
            self.0 is Common ==> r@ == "common"@,
            self.0 is Het ==> r@ == "het"@,
    {
        match &self.0 {
            State::Common(_) => "common",
            State::Het(_) => "het",
        }
    }
}

/// Unwrap a state handle into the state it carries.
pub fn as_state(x: &PyState) -> (r: State)
    ensures
        r@ == x.0@,
        x.0.wf() ==> r.wf(),
{
    x.0.clone()
}

/// A host handle for an action cost function.
#[derive(Debug)]
pub struct PyCostFunc(pub FixedCost);

impl PyCostFunc {
    /// The action kind this cost function prices.
    pub fn atype(&self) -> (r: ActionKind)
        ensures
            r == self.0.kind,
    {
        self.0.kind
    }
}

} // verus!
