//! The out-of-circuit check of a chain of steps, in the order a folding scheme
//! takes them: each step must start at the outputs of the one before it, and
//! its input must be what its inverse rounds make of its result.
use vstd::prelude::*;
use crate::circuit::{arity_spec, is_chain_step, InverseMinRootCircuit};
use crate::field::{fe_eq, fe_is_canonical, Fe, ScalarField};
use crate::minroot::{
    eval_spec, fifth_power_undoes_root, inverse_eval_spec, lemma_eval_adds,
    lemma_inverse_eval_undoes_eval, state_eq, state_val_wf, MinRootVDF, PallasVDF, State,
    StateVal,
};

verus! {

/// Why a chain was refused.
#[derive(Clone, Copy, Debug, PartialEq, Eq, Structural)]
pub enum ChainError {
    /// The public inputs or outputs do not hold exactly `arity` elements.
    ShapeMismatch,
    /// A step carries no states, or its input is not what its inverse rounds make of its result.
    CircuitUnsatisfied,
    /// A step does not start where the chain stands.
    FoldingFailure,
    /// A chain of no steps.
    NoSteps,
}

/// The state spelled by three elements.
pub open spec fn state_of(z: Seq<Fe>) -> StateVal {
    (z[0].val(), z[1].val(), z[2].val())
}

/// Step `c` starts at `z` and is satisfied.
pub open spec fn step_ok(c: InverseMinRootCircuit, z: StateVal) -> bool {
    &&& c.result matches Some(r) && r.wf(ScalarField::Pallas) && r@ == z
    &&& c.input matches Some(i) && i@ == inverse_eval_spec(
        ScalarField::Pallas,
        c.result->0@,
        c.t as nat,
    )
}

/// The refusal of a step that is not `step_ok` at `z`.
pub open spec fn step_error(c: InverseMinRootCircuit, z: StateVal) -> ChainError {
    if c.result is None || c.input is None || !c.result->0.wf(ScalarField::Pallas) {
        ChainError::CircuitUnsatisfied
    } else if c.result->0@ != z {
        ChainError::FoldingFailure
    } else {
        ChainError::CircuitUnsatisfied
    }
}

/// Where the chain `cs`, taken in order from `z0`, ends; `None` where a step fails.
#[verifier::opaque]
pub open spec fn chain_end(cs: Seq<InverseMinRootCircuit>, z0: StateVal) -> Option<StateVal>
    decreases cs.len(),
{
    if cs.len() == 0 {
        Some(z0)
    } else {
        match chain_end(cs.drop_last(), z0) {
            Some(z) => if step_ok(cs.last(), z) {
                Some(cs.last().input->0@)
            } else {
                None
            },
            None => None,
        }
    }
}

/// Whether two lists of elements spell the same values.
pub fn values_eq(a: &[Fe], b: &[Fe]) -> (r: bool)
    ensures
        r == (a@.len() == b@.len() && forall|k: int| 0 <= k < a@.len() ==> a@[k].val() == b@[k].val()),
{
    if a.len() != b.len() {
        return false;
    }
    let mut k: usize = 0;
    while k < a.len()
        invariant
            a@.len() == b@.len(),
            k <= a@.len(),
            forall|q: int| 0 <= q < k ==> a@[q].val() == b@[q].val(),
        decreases a@.len() - k,
    {
        if !fe_eq(&a[k], &b[k]) {
            return false;
        }
        k = k + 1;
    }
    true
}

/// Checks one step against the outputs `z` it must start at; returns its input.
pub fn check_step(c: &InverseMinRootCircuit, z: &[Fe]) -> (r: Result<State, ChainError>)
    requires
        z@.len() == arity_spec(),
    ensures
        r is Ok <==> step_ok(*c, state_of(z@)),
        r matches Ok(s) ==> c.input == Some(s),
        r matches Err(e) ==> e == step_error(*c, state_of(z@)),
{
    match (c.result, c.input) {
        (Some(result), Some(input)) => {
            let f = ScalarField::Pallas;
            if !(fe_is_canonical(f, &result.x) && fe_is_canonical(f, &result.y)
                && fe_is_canonical(f, &result.i)) {
                return Err(ChainError::CircuitUnsatisfied);
            }
            let at = State { x: z[0], y: z[1], i: z[2] };
            if !state_eq(&result, &at) {
                return Err(ChainError::FoldingFailure);
            }
            if PallasVDF::check(result, c.t, input) {
                Ok(input)
            } else {
                Err(ChainError::CircuitUnsatisfied)
            }
        },
        _ => Err(ChainError::CircuitUnsatisfied),
    }
}

/// A chain of steps checked so far: its public inputs `z0`, its outputs `zi`,
/// and the number of steps taken.
#[derive(Debug)]
pub struct ChainProof {
    pub z0: Vec<Fe>,
    pub zi: Vec<Fe>,
    pub num_steps: usize,
}

impl ChainProof {
    pub open spec fn wf(&self) -> bool {
        self.z0@.len() == arity_spec() && self.zi@.len() == arity_spec()
    }

    /// Starts a chain at `z0` with its first step.
    pub fn prove_first_step(circuit: &InverseMinRootCircuit, z0: Vec<Fe>) -> (r: Result<
        Self,
        ChainError,
    >)
        ensures
            z0@.len() != arity_spec() ==> r == Err::<Self, ChainError>(ChainError::ShapeMismatch),
            z0@.len() == arity_spec() ==> (r is Ok <==> step_ok(*circuit, state_of(z0@))),
            z0@.len() == arity_spec() && !step_ok(*circuit, state_of(z0@)) ==> r == Err::<
                Self,
                ChainError,
            >(step_error(*circuit, state_of(z0@))),
            r matches Ok(p) ==> p.wf() && p.num_steps == 1 && p.z0@ == z0@ && state_of(p.zi@)
                == circuit.input->0@,
    {
        if z0.len() != 3 {
            return Err(ChainError::ShapeMismatch);
        }
        match check_step(circuit, z0.as_slice()) {
            Ok(input) => Ok(ChainProof { z0, zi: vec![input.x, input.y, input.i], num_steps: 1 }),
            Err(e) => Err(e),
        }
    }

    /// Takes the next step, which must start at the chain's outputs.
    pub fn prove_step(self, circuit: &InverseMinRootCircuit) -> (r: Result<Self, ChainError>)
        requires
            self.wf(),
            self.num_steps < usize::MAX,
        ensures
            r is Ok <==> step_ok(*circuit, state_of(self.zi@)),
            !step_ok(*circuit, state_of(self.zi@)) ==> r == Err::<Self, ChainError>(
                step_error(*circuit, state_of(self.zi@)),
            ),
            r matches Ok(p) ==> p.wf() && p.num_steps == self.num_steps + 1 && p.z0@ == self.z0@
                && state_of(p.zi@) == circuit.input->0@,
    {
        match check_step(circuit, self.zi.as_slice()) {
            Ok(input) => Ok(
                ChainProof {
                    z0: self.z0,
                    zi: vec![input.x, input.y, input.i],
                    num_steps: self.num_steps + 1,
                },
            ),
            Err(e) => Err(e),
        }
    }

    /// Takes every step of `circuits` in order from `z0`.
    pub fn prove_recursively(circuits: &[InverseMinRootCircuit], z0: Vec<Fe>) -> (r: Result<
        Self,
        ChainError,
    >)
        ensures
            circuits@.len() == 0 ==> r == Err::<Self, ChainError>(ChainError::NoSteps),
            circuits@.len() > 0 && z0@.len() != arity_spec() ==> r == Err::<Self, ChainError>(
                ChainError::ShapeMismatch,
            ),
            circuits@.len() > 0 && z0@.len() == arity_spec() ==> (r is Ok <==> chain_end(
                circuits@,
                state_of(z0@),
            ) is Some),
            r matches Ok(p) ==> p.wf() && p.num_steps == circuits@.len() && p.z0@ == z0@
                && Some(state_of(p.zi@)) == chain_end(circuits@, state_of(z0@)),
    {
        if circuits.len() == 0 {
            return Err(ChainError::NoSteps);
        }
        let ghost start = state_of(z0@);
        proof {
            lemma_chain_end_step(circuits@, start, 0);
        }
        let mut proof = match ChainProof::prove_first_step(&circuits[0], z0) {
            Ok(p) => p,
            Err(e) => {
                proof {
                    if z0@.len() == arity_spec() {
                        lemma_chain_end_fails_after(circuits@, start, 1);
                    }
                }
                return Err(e);
            },
        };
        let mut k: usize = 1;
        while k < circuits.len()
            invariant
                1 <= k <= circuits@.len(),
                proof.wf(),
                proof.num_steps == k,
                proof.z0@ == z0@,
                z0@.len() == arity_spec(),
                start == state_of(z0@),
                Some(state_of(proof.zi@)) == chain_end(circuits@.subrange(0, k as int), start),
            decreases circuits@.len() - k,
        {
            proof {
                lemma_chain_end_step(circuits@, start, k as nat);
            }
            proof = match proof.prove_step(&circuits[k]) {
                Ok(p) => p,
                Err(e) => {
                    proof {
                        lemma_chain_end_fails_after(circuits@, start, (k + 1) as nat);
                    }
                    return Err(e);
                },
            };
            k = k + 1;
        }
        proof {
            assert(circuits@.subrange(0, circuits@.len() as int) =~= circuits@);
        }
        Ok(proof)
    }

    /// Whether `num_steps` steps take `z0` to `zi`. No chain has zero steps.
    pub fn verify(&self, num_steps: usize, z0: &[Fe], zi: &[Fe]) -> (r: Result<bool, ChainError>)
        ensures
            num_steps == 0 ==> r == Err::<bool, ChainError>(ChainError::NoSteps),
            num_steps > 0 ==> r == Ok::<bool, ChainError>(
                num_steps == self.num_steps && z0@.len() == self.z0@.len() && zi@.len()
                    == self.zi@.len() && (forall|k: int|
                    0 <= k < z0@.len() ==> z0@[k].val() == self.z0@[k].val()) && (forall|k: int|
                    0 <= k < zi@.len() ==> zi@[k].val() == self.zi@[k].val()),
            ),
    {
        if num_steps == 0 {
            return Err(ChainError::NoSteps);
        }
        Ok(num_steps == self.num_steps && values_eq(z0, self.z0.as_slice()) && values_eq(
            zi,
            self.zi.as_slice(),
        ))
    }
}

/// The chain's first `k + 1` steps end where step `k` takes the end of the first `k`.
proof fn lemma_chain_end_step(cs: Seq<InverseMinRootCircuit>, z0: StateVal, k: nat)
    requires
        k < cs.len(),
    ensures
        chain_end(cs.subrange(0, (k + 1) as int), z0) == match chain_end(
            cs.subrange(0, k as int),
            z0,
        ) {
            Some(z) => if step_ok(cs[k as int], z) {
                Some(cs[k as int].input->0@)
            } else {
                None
            },
            None => None,
        },
        k == 0 ==> chain_end(cs.subrange(0, k as int), z0) == Some(z0),
{
    reveal(chain_end);
    let prefix = cs.subrange(0, (k + 1) as int);
    assert(prefix.drop_last() =~= cs.subrange(0, k as int));
    assert(prefix.last() == cs[k as int]);
    if k == 0 {
        assert(cs.subrange(0, 0) =~= Seq::<InverseMinRootCircuit>::empty());
    }
}

/// A chain that fails on a prefix fails as a whole.
proof fn lemma_chain_end_fails_after(cs: Seq<InverseMinRootCircuit>, z0: StateVal, n: nat)
    requires
        n <= cs.len(),
        chain_end(cs.subrange(0, n as int), z0) is None,
    ensures
        chain_end(cs, z0) is None,
    decreases cs.len() - n,
{
    if n < cs.len() {
        lemma_chain_end_step(cs, z0, n);
        lemma_chain_end_fails_after(cs, z0, n + 1);
    } else {
        assert(cs.subrange(0, n as int) =~= cs);
    }
}

/// A chain made from `k` forward evaluations of `t` rounds each, taken in order
/// from the last evaluation's result, passes every step and ends at the initial
/// state, where the fifth power undoes the forward step.
pub proof fn lemma_made_chain_ends_at_start(
    circuits: Seq<InverseMinRootCircuit>,
    initial: StateVal,
    t: nat,
)
    requires
        fifth_power_undoes_root(ScalarField::Pallas),
        state_val_wf(ScalarField::Pallas, initial),
        forall|k: int|
            0 <= k < circuits.len() ==> is_chain_step(
                ScalarField::Pallas,
                #[trigger] circuits[k],
                initial,
                (circuits.len() - 1 - k) as nat,
                t,
            ),
    ensures
        chain_end(circuits, eval_spec(ScalarField::Pallas, initial, circuits.len() * t)) == Some(
            initial,
        ),
{
    let len = circuits.len();
    lemma_made_chain_prefix(circuits, initial, t, len);
    assert(circuits.subrange(0, len as int) =~= circuits);
    assert(((len - len) as nat) * t == 0) by (nonlinear_arith);
    assert(eval_spec(ScalarField::Pallas, initial, 0) == initial);
}

/// The first `n` steps of such a chain end `n` evaluations before its last one.
proof fn lemma_made_chain_prefix(
    circuits: Seq<InverseMinRootCircuit>,
    initial: StateVal,
    t: nat,
    n: nat,
)
    requires
        n <= circuits.len(),
        fifth_power_undoes_root(ScalarField::Pallas),
        state_val_wf(ScalarField::Pallas, initial),
        forall|k: int|
            0 <= k < circuits.len() ==> is_chain_step(
                ScalarField::Pallas,
                #[trigger] circuits[k],
                initial,
                (circuits.len() - 1 - k) as nat,
                t,
            ),
    ensures
        chain_end(
            circuits.subrange(0, n as int),
            eval_spec(ScalarField::Pallas, initial, circuits.len() * t),
        ) == Some(eval_spec(ScalarField::Pallas, initial, ((circuits.len() - n) as nat) * t)),
    decreases n,
{
    let f = ScalarField::Pallas;
    let len = circuits.len();
    let z0 = eval_spec(f, initial, len * t);
    if n == 0 {
        reveal(chain_end);
        assert(circuits.subrange(0, 0) =~= Seq::<InverseMinRootCircuit>::empty());
        assert(len * t == ((len - 0) as nat) * t);
    } else {
        let m = (n - 1) as nat;
        lemma_made_chain_prefix(circuits, initial, t, m);
        lemma_chain_end_step(circuits, z0, m);
        let c = circuits[m as int];
        let j = (len - 1 - m) as nat;
        assert(is_chain_step(f, c, initial, j, t));
        assert(((len - m) as nat) * t == (j + 1) * t);
        lemma_inverse_eval_undoes_eval_chain(initial, j * t, t);
        lemma_eval_adds(f, initial, j * t, t);
        assert(j * t + t == (j + 1) * t) by (nonlinear_arith);
        assert(((len - n) as nat) * t == j * t);
    }
}

/// `t` inverse rounds undo the `t` forward rounds after the first `a`.
proof fn lemma_inverse_eval_undoes_eval_chain(initial: StateVal, a: nat, t: nat)
    requires
        fifth_power_undoes_root(ScalarField::Pallas),
        state_val_wf(ScalarField::Pallas, initial),
    ensures
        inverse_eval_spec(ScalarField::Pallas, eval_spec(ScalarField::Pallas, initial, a + t), t)
            == eval_spec(ScalarField::Pallas, initial, a),
        state_val_wf(ScalarField::Pallas, eval_spec(ScalarField::Pallas, initial, a)),
{
    let f = ScalarField::Pallas;
    lemma_inverse_eval_undoes_eval(f, initial, a);
    let mid = eval_spec(f, initial, a);
    lemma_eval_adds(f, initial, a, t);
    lemma_inverse_eval_undoes_eval(f, mid, t);
}

} // verus!
