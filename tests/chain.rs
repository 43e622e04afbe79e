use ff::{Field, PrimeFieldBits};
use minroot_vdf::chain::{check_step, values_eq, ChainError, ChainProof};
use minroot_vdf::circuit::InverseMinRootCircuit;
use minroot_vdf::field::Fe;
use minroot_vdf::minroot::{MinRootVDF, PallasVDF, State};
use nova_snark::provider::pasta::pallas;
use rand_core::SeedableRng;
use rand_xorshift::XorShiftRng;

const TEST_SEED: [u8; 16] = [42; 16];

fn small(n: u64) -> Fe {
    Fe { limbs: [n, 0, 0, 0] }
}

fn seeded_start(initial_i: u64) -> State {
    let mut rng = XorShiftRng::from_seed(TEST_SEED);
    let x = Fe { limbs: pallas::Scalar::random(&mut rng).to_le_bits().into_inner() };
    State { x, y: small(0), i: small(initial_i) }
}

fn nova_proof_aux<V: MinRootVDF>(num_iters_per_step: u64, num_steps: usize) {
    let initial_state = seeded_start(1);
    let zi = vec![initial_state.x, initial_state.y, initial_state.i];

    let (z0, circuits) = InverseMinRootCircuit::eval_and_make_circuits(
        V::new(),
        num_iters_per_step,
        num_steps,
        initial_state,
    );

    let recursive_snark = ChainProof::prove_recursively(&circuits, z0.clone()).unwrap();

    let res = recursive_snark.verify(num_steps, &z0, &zi);

    assert!(res.unwrap());
}

#[test]
fn test_nova_proof() {
    nova_proof_aux::<PallasVDF>(5, 3);
}

#[test]
fn chain_steps_fold_one_at_a_time() {
    let start = seeded_start(0);
    let (z0, circuits) = InverseMinRootCircuit::eval_and_make_circuits(PallasVDF::new(), 4, 3, start);
    assert_eq!(circuits.len(), 3);
    let mut proof = ChainProof::prove_first_step(&circuits[0], z0.clone()).unwrap();
    for circuit in &circuits[1..] {
        proof = proof.prove_step(circuit).unwrap();
    }
    assert_eq!(proof.num_steps, 3);
    assert_eq!(proof.zi, vec![start.x, start.y, start.i]);
    assert_eq!(proof.verify(3, &z0, &[start.x, start.y, start.i]), Ok(true));
    assert_eq!(proof.verify(2, &z0, &[start.x, start.y, start.i]), Ok(false));
}

#[test]
fn chain_in_permuted_order_is_refused() {
    let start = seeded_start(0);
    let (z0, mut circuits) = InverseMinRootCircuit::eval_and_make_circuits(PallasVDF::new(), 4, 3, start);
    circuits.swap(0, 2);
    assert_eq!(
        ChainProof::prove_recursively(&circuits, z0).unwrap_err(),
        ChainError::FoldingFailure
    );
}

#[test]
fn verify_rejects_a_perturbed_output() {
    let start = seeded_start(1);
    let (z0, circuits) = InverseMinRootCircuit::eval_and_make_circuits(PallasVDF::new(), 5, 3, start);
    let proof = ChainProof::prove_recursively(&circuits, z0.clone()).unwrap();
    let good = vec![start.x, start.y, start.i];
    assert_eq!(proof.verify(3, &z0, &good), Ok(true));
    for k in 0..3 {
        let mut bad = good.clone();
        bad[k] = small(7);
        assert_eq!(proof.verify(3, &z0, &bad), Ok(false));
    }
    let mut bad_start = z0.clone();
    bad_start[2] = small(0);
    assert_eq!(proof.verify(3, &bad_start, &good), Ok(false));
}

#[test]
fn one_step_is_the_shortest_chain() {
    let start = seeded_start(0);
    let (z0, circuits) = InverseMinRootCircuit::eval_and_make_circuits(PallasVDF::new(), 2, 1, start);
    let proof = ChainProof::prove_recursively(&circuits, z0.clone()).unwrap();
    assert_eq!(proof.verify(1, &z0, &[start.x, start.y, start.i]), Ok(true));
    assert_eq!(
        ChainProof::prove_recursively(&[], z0.clone()).unwrap_err(),
        ChainError::NoSteps
    );
    assert_eq!(proof.verify(0, &z0, &[start.x, start.y, start.i]), Err(ChainError::NoSteps));
}

#[test]
fn chain_errors_name_their_cause() {
    let start = seeded_start(0);
    let (z0, circuits) = InverseMinRootCircuit::eval_and_make_circuits(PallasVDF::new(), 3, 2, start);
    assert_eq!(
        ChainProof::prove_recursively(&circuits, z0[..2].to_vec()).unwrap_err(),
        ChainError::ShapeMismatch
    );
    let shape_only = InverseMinRootCircuit::circuit_primary(3);
    assert_eq!(
        ChainProof::prove_first_step(&shape_only, z0.clone()).unwrap_err(),
        ChainError::CircuitUnsatisfied
    );
    let mut forged = circuits[0];
    forged.input = Some(State { x: small(1), y: small(2), i: small(3) });
    assert_eq!(check_step(&forged, &z0).unwrap_err(), ChainError::CircuitUnsatisfied);
    assert_eq!(check_step(&circuits[1], &z0).unwrap_err(), ChainError::FoldingFailure);
    assert_eq!(check_step(&circuits[0], &z0).unwrap(), circuits[0].input.unwrap());
}

#[test]
fn circuit_output_is_the_step_input() {
    let start = seeded_start(0);
    let (z0, circuits) = InverseMinRootCircuit::eval_and_make_circuits(PallasVDF::new(), 3, 2, start);
    let last = &circuits[1];
    assert_eq!(last.arity(), 3);
    assert_eq!(last.output(&z0), vec![start.x, start.y, start.i]);
    assert_eq!(last.inverse_exponent, 5);
    assert_eq!(last.t, 3);
    assert!(values_eq(&z0, &[circuits[0].result.unwrap().x, circuits[0].result.unwrap().y, circuits[0].result.unwrap().i]));
    assert_eq!(circuits[0].input, circuits[1].result);
}
