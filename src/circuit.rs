//! The steps that a folding scheme proves: each is `t` inverse rounds of the
//! delay function, from the result of a forward evaluation back to its start.
//! A chain of them is planned here from a run of forward evaluations.
use vstd::prelude::*;
use crate::field::{Fe, ScalarField};
use crate::minroot::{eval_spec, lemma_eval_adds, Evaluation, MinRootVDF, State, StateVal};

verus! {

/// One step of the chain: `t` inverse rounds, from `result` back to `input`.
/// Both states are absent in the circuit used only for its shape.
#[derive(Clone, Copy, Debug)]
pub struct InverseMinRootCircuit {
    pub inverse_exponent: u64,
    pub result: Option<State>,
    pub input: Option<State>,
    pub t: u64,
}

/// The number of field elements passed from one step to the next.
pub open spec fn arity_spec() -> nat {
    3
}

/// `c` is the `j`-th step of a chain of `per_step`-round evaluations from `initial`,
/// counted from the start of the forward direction.
pub open spec fn is_chain_step(
    f: ScalarField,
    c: InverseMinRootCircuit,
    initial: StateVal,
    j: nat,
    per_step: nat,
) -> bool {
    &&& c.inverse_exponent == 5
    &&& c.t == per_step
    &&& c.input matches Some(s) && s@ == eval_spec(f, initial, j * per_step) && s.wf(f)
    &&& c.result matches Some(s) && s@ == eval_spec(f, initial, (j + 1) * per_step) && s.wf(f)
}

impl InverseMinRootCircuit {
    /// The step that inverts evaluation `v`, which ran from `previous_state`.
    pub fn new<V: MinRootVDF>(v: &Evaluation<V>, previous_state: State) -> (r: Self)
        ensures
            r.inverse_exponent == 5,
            r.result == Some(v.result),
            r.input == Some(previous_state),
            r.t == v.t,
    {
        InverseMinRootCircuit {
            inverse_exponent: V::inverse_exponent(),
            result: Some(v.result),
            input: Some(previous_state),
            t: v.t,
        }
    }

    /// The circuit used to set up parameters: the shape of a step, without values.
    pub fn circuit_primary(num_iters_per_step: u64) -> (r: Self)
        ensures
            r.inverse_exponent == 5,
            r.result is None,
            r.input is None,
            r.t == num_iters_per_step,
    {
        InverseMinRootCircuit { inverse_exponent: 5, result: None, input: None, t: num_iters_per_step }
    }

    /// The number of field elements passed from one step to the next.
    pub fn arity(&self) -> (r: usize)
        ensures
            r == arity_spec(),
    {
        3
    }

    /// The outputs of the step computed natively: the state the step inverts back to.
    pub fn output(&self, z: &[Fe]) -> (r: Vec<Fe>)
        requires
            self.result is Some,
            self.input is Some,
        ensures
            r@ == seq![self.input->0.x, self.input->0.y, self.input->0.i],
    {
        let state = self.input.unwrap();
        vec![state.x, state.y, state.i]
    }

    /// Evaluates `num_steps` forward evaluations of `num_iters_per_step` rounds each
    /// from `initial_state`, and returns the final state as `[x, y, i]` with the
    /// steps that invert them, last evaluation first.
    pub fn eval_and_make_circuits<V: MinRootVDF>(
        _v: V,
        num_iters_per_step: u64,
        num_steps: usize,
        initial_state: State,
    ) -> (r: (Vec<Fe>, Vec<InverseMinRootCircuit>))
        requires
            num_steps > 0,
            initial_state.wf(V::spec_field()),
        ensures
            r.1@.len() == num_steps,
            forall|k: int|
                0 <= k < num_steps ==> is_chain_step(
                    V::spec_field(),
                    #[trigger] r.1@[k],
                    initial_state@,
                    (num_steps - 1 - k) as nat,
                    num_iters_per_step as nat,
                ),
            r.0@.len() == 3,
            r.1@[0].result matches Some(s) && r.0@ == seq![s.x, s.y, s.i],
    {
        let ghost f = V::spec_field();
        let ghost per = num_iters_per_step as nat;
        let mut forward: Vec<InverseMinRootCircuit> = Vec::new();
        let mut state = initial_state;
        let mut z0: Vec<Fe> = Vec::new();
        let mut k: usize = 0;
        proof {
            assert(eval_spec(f, initial_state@, 0) == initial_state@);
        }
        while k < num_steps
            invariant
                k <= num_steps,
                f == V::spec_field(),
                per == num_iters_per_step as nat,
                forward@.len() == k,
                state.wf(f),
                state@ == eval_spec(f, initial_state@, (k as nat) * per),
                forall|q: int|
                    0 <= q < k ==> is_chain_step(f, #[trigger] forward@[q], initial_state@, q as nat, per),
                k > 0 ==> forward@[k - 1].result == Some(state) && z0@ == seq![state.x, state.y, state.i],
            decreases num_steps - k,
        {
            let (z, proof) = Evaluation::<V>::eval(state, num_iters_per_step);
            proof {
                lemma_eval_adds(f, initial_state@, (k as nat) * per, per);
                assert((k as nat) * per + per == ((k + 1) as nat) * per) by (nonlinear_arith);
            }
            let step = InverseMinRootCircuit::new(&proof, state);
            state = proof.result;
            forward.push(step);
            z0 = z;
            k = k + 1;
        }
        let mut circuits: Vec<InverseMinRootCircuit> = Vec::new();
        let mut j: usize = num_steps;
        while j > 0
            invariant
                j <= num_steps,
                forward@.len() == num_steps,
                circuits@.len() == num_steps - j,
                forall|p: int| 0 <= p < num_steps - j ==> #[trigger] circuits@[p] == forward@[num_steps - 1 - p],
            decreases j,
        {
            j = j - 1;
            circuits.push(forward[j]);
        }
        proof {
            assert forall|p: int| 0 <= p < num_steps implies is_chain_step(
                f,
                #[trigger] circuits@[p],
                initial_state@,
                (num_steps - 1 - p) as nat,
                per,
            ) by {
                assert(circuits@[p] == forward@[num_steps - 1 - p]);
            }
        }
        (z0, circuits)
    }
}

} // verus!
