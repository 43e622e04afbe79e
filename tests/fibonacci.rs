use minroot_vdf::fibonacci::{FibonacciCircuit, FibonacciObject};
use minroot_vdf::field::{Fe, ScalarField};

fn small(n: u64) -> Fe {
    Fe { limbs: [n, 0, 0, 0] }
}

#[test]
fn fibonacci_steps_from_zero_and_one() {
    let (z0, steps) = FibonacciObject::new(ScalarField::Pallas, 10, &small(0), &small(1));
    assert_eq!(z0, vec![small(0), small(1)]);
    assert_eq!(steps.len(), 10);
    let expected = [0u64, 1, 1, 2, 3, 5, 8, 13, 21, 34, 55, 89];
    for (k, step) in steps.iter().enumerate() {
        assert_eq!(step.x, small(expected[k]));
        assert_eq!(step.y, small(expected[k + 1]));
        assert_eq!(step.x_next, small(expected[k + 1]));
        assert_eq!(step.y_next, small(expected[k + 2]));
    }
    let circuit = FibonacciCircuit { values: steps };
    assert_eq!(circuit.arity(), 2);
    assert_eq!(circuit.output(&z0), vec![small(55), small(89)]);
}

#[test]
fn fibonacci_wraps_around_the_modulus() {
    let minus_one = Fe { limbs: [0x992d30ed00000000, 0x224698fc094cf91b, 0, 0x4000000000000000] };
    let (_, steps) = FibonacciObject::new(ScalarField::Vesta, 1, &minus_one, &small(1));
    assert_eq!(steps[0].y_next, small(0));
    let (z0, none) = FibonacciObject::new(ScalarField::Vesta, 0, &small(2), &small(3));
    assert!(none.is_empty());
    assert_eq!(z0, vec![small(2), small(3)]);
}
