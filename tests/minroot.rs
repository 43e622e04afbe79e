use ff::{Field, PrimeFieldBits};
use minroot_vdf::field::{fe_add, fe_from_u64, fe_mul, fe_pow, fe_reduce, fe_square, fe_sub, Fe, ScalarField};
use minroot_vdf::minroot::{EvalMode, Evaluation, MinRootVDF, PallasVDF, State, VestaVDF};
use nova_snark::provider::pasta::{pallas, vesta};
use rand_core::SeedableRng;
use rand_xorshift::XorShiftRng;

const TEST_SEED: [u8; 16] = [42; 16];

fn random_pallas(rng: &mut XorShiftRng) -> Fe {
    Fe { limbs: pallas::Scalar::random(&mut *rng).to_le_bits().into_inner() }
}

fn random_vesta(rng: &mut XorShiftRng) -> Fe {
    Fe { limbs: vesta::Scalar::random(&mut *rng).to_le_bits().into_inner() }
}

fn random_element<V: MinRootVDF>(rng: &mut XorShiftRng) -> Fe {
    match V::field() {
        ScalarField::Pallas => random_pallas(rng),
        ScalarField::Vesta => random_vesta(rng),
    }
}

fn small(n: u64) -> Fe {
    Fe { limbs: [n, 0, 0, 0] }
}

const PALLAS_MODULUS: [u64; 4] = [0x8c46eb2100000001, 0x224698fc0994a8dd, 0, 0x4000000000000000];

#[test]
fn test_exponents() {
    assert_eq!(PallasVDF::inverse_exponent(), 5);
    assert_eq!(VestaVDF::inverse_exponent(), 5);
}

fn steps_aux<V: MinRootVDF>() {
    let mut rng = XorShiftRng::from_seed(TEST_SEED);
    let mut vdf = V::new();
    for _ in 0..100 {
        let x = random_element::<V>(&mut rng);
        let y = vdf.forward_step(x);
        let z = V::inverse_step(y);
        assert_eq!(x, z);
    }
}

#[test]
fn test_steps() {
    steps_aux::<PallasVDF>();
    steps_aux::<VestaVDF>();
}

fn eval_aux2<V: MinRootVDF>(eval_mode: EvalMode) {
    let mut rng = XorShiftRng::from_seed(TEST_SEED);
    let mut vdf = V::new_with_mode(eval_mode);
    for _ in 0..10 {
        let t = 10;
        let x = random_element::<V>(&mut rng);
        let y = random_element::<V>(&mut rng);
        let x = State { x, y, i: small(0) };
        let result = vdf.eval(x, t);
        let again = V::inverse_eval(result, t);
        assert_eq!(x, again);
        assert!(V::check(result, t, x));
    }
}

#[test]
fn test_eval() {
    println!("top");
    for mode in EvalMode::all().iter() {
        eval_aux2::<PallasVDF>(*mode);
    }
}

fn vanilla_proof_aux<V: MinRootVDF>() {
    let mut rng = XorShiftRng::from_seed(TEST_SEED);
    let x = random_element::<V>(&mut rng);
    let x = State { x, y: small(0), i: small(0) };
    let t = 4;
    let n = 3;
    let (_z0, first_proof) = Evaluation::<V>::eval(x, t);
    let mut acc = first_proof;
    for _ in 1..n {
        let (_, new_proof) = Evaluation::<V>::eval(acc.result, t);
        acc = acc.append(new_proof).expect("failed to append proof");
    }
    assert_eq!(V::element(acc.t), acc.result.i);
    assert_eq!(n * t, acc.t);
    assert!(acc.verify(x));
}

#[test]
fn test_vanilla_proof() {
    vanilla_proof_aux::<PallasVDF>();
    vanilla_proof_aux::<VestaVDF>();
}

#[test]
fn eval_modes_are_listed_in_order() {
    assert_eq!(
        EvalMode::all(),
        vec![
            EvalMode::LTRSequential,
            EvalMode::LTRAddChainSequential,
            EvalMode::RTLSequential,
            EvalMode::RTLAddChainSequential,
        ]
    );
}

#[test]
fn forward_step_variants_agree() {
    let mut rng = XorShiftRng::from_seed(TEST_SEED);
    let mut vdf = PallasVDF::new();
    for _ in 0..20 {
        let x = random_pallas(&mut rng);
        let ltr = vdf.forward_step_ltr_sequential(x);
        assert_eq!(ltr, vdf.forward_step_ltr_addition_chain(x));
        assert_eq!(ltr, vdf.forward_step_rtl_sequential(x));
        assert_eq!(ltr, vdf.forward_step_sequential_rtl_addition_chain(x));
        for mode in EvalMode::all() {
            let mut by_mode = PallasVDF::new_with_mode(mode);
            assert_eq!(by_mode.eval_mode(), mode);
            assert_eq!(ltr, by_mode.forward_step(x));
        }
    }
    let mut vesta_vdf = VestaVDF::new();
    for _ in 0..20 {
        let x = random_vesta(&mut rng);
        assert_eq!(vesta_vdf.forward_step_ltr_sequential(x), vesta_vdf.forward_step(x));
    }
}

#[test]
fn forward_step_fixes_zero_and_one() {
    let mut vdf = PallasVDF::new_with_mode(EvalMode::RTLAddChainSequential);
    assert_eq!(vdf.forward_step(small(0)), small(0));
    assert_eq!(vdf.forward_step(small(1)), small(1));
    let mut vesta_vdf = VestaVDF::new();
    assert_eq!(vesta_vdf.forward_step(small(1)), small(1));
}

#[test]
fn inverse_step_is_fifth_power() {
    assert_eq!(PallasVDF::inverse_step(small(2)), small(32));
    assert_eq!(VestaVDF::inverse_step(small(3)), small(243));
    let mut vdf = PallasVDF::new();
    let root = vdf.forward_step(small(3));
    assert_ne!(root, small(3));
    assert_eq!(PallasVDF::inverse_step(root), small(3));
}

#[test]
fn round_and_inverse_round_on_small_state() {
    let mut vdf = PallasVDF::new();
    let s = State { x: small(1), y: small(2), i: small(0) };
    let r = vdf.round(s);
    assert_eq!(r.y, small(1));
    assert_eq!(r.i, small(1));
    assert_eq!(PallasVDF::inverse_step(r.x), small(3));
    assert_eq!(PallasVDF::inverse_round(r), s);
    let zero = State { x: small(0), y: small(0), i: small(0) };
    let z = vdf.eval(zero, 1);
    assert_eq!(z, State { x: small(0), y: small(0), i: small(1) });
    assert_eq!(PallasVDF::inverse_eval(z, 1), zero);
}

#[test]
fn field_operations_on_known_values() {
    let f = ScalarField::Pallas;
    assert_eq!(fe_add(f, &small(2), &small(3)), small(5));
    assert_eq!(fe_mul(f, &small(6), &small(7)), small(42));
    assert_eq!(fe_square(f, &small(9)), small(81));
    assert_eq!(fe_pow(f, &small(2), &[10, 0, 0, 0]), small(1024));
    let minus_one = fe_sub(f, &small(0), &small(1));
    let mut expected = PALLAS_MODULUS;
    expected[0] -= 1;
    assert_eq!(minus_one, Fe { limbs: expected });
    assert_eq!(fe_add(f, &minus_one, &small(1)), small(0));
    assert_eq!(fe_reduce(f, PALLAS_MODULUS), small(0));
    assert_eq!(fe_from_u64(ScalarField::Vesta, 17), small(17));
    assert_eq!(PallasVDF::element(12), small(12));
}

#[test]
fn append_refuses_disconnected_evaluations() {
    let start = State { x: small(5), y: small(0), i: small(0) };
    let (_, first) = Evaluation::<PallasVDF>::eval(start, 2);
    let (_, unrelated) = Evaluation::<PallasVDF>::eval(start, 2);
    assert!(first.append(unrelated).is_none());
    let (_, next) = Evaluation::<PallasVDF>::eval(first.result, 3);
    let joined = first.append(next.clone()).expect("connected evaluations compose");
    assert_eq!(joined.t, 5);
    assert_eq!(joined.result, next.result);
}

#[test]
fn append_is_associative_on_a_chain() {
    let start = State { x: small(11), y: small(4), i: small(0) };
    let (_, a) = Evaluation::<VestaVDF>::eval(start, 1);
    let (_, b) = Evaluation::<VestaVDF>::eval(a.result, 2);
    let (_, c) = Evaluation::<VestaVDF>::eval(b.result, 3);
    let left = a.append(b.clone()).unwrap().append(c.clone()).unwrap();
    let right = a.append(b.append(c).unwrap()).unwrap();
    assert_eq!(left.result, right.result);
    assert_eq!(left.t, right.t);
    assert!(left.verify(start));
}

fn seeded_chain() -> (State, State, u64) {
    let mut rng = XorShiftRng::from_seed(TEST_SEED);
    let x = random_pallas(&mut rng);
    let y = random_pallas(&mut rng);
    let start = State { x, y, i: small(0) };
    let (_, mut acc) = Evaluation::<PallasVDF>::eval(start, 4);
    for _ in 1..3 {
        let (_, next) = Evaluation::<PallasVDF>::eval(acc.result, 4);
        acc = acc.append(next).unwrap();
    }
    (start, acc.result, acc.t)
}

#[test]
fn seeded_chain_is_reproducible() {
    let (start, result, t) = seeded_chain();
    let (start_again, result_again, t_again) = seeded_chain();
    assert_eq!(t, 12);
    assert_eq!(result.i, small(12));
    assert_eq!(start, start_again);
    assert_eq!(result, result_again);
    assert_eq!(t, t_again);
    assert!(PallasVDF::check(result, t, start));
}
