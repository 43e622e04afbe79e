//! The witness of a Fibonacci step circuit: each step maps `(x, y)` to `(y, x + y)`.
use vstd::prelude::*;
use crate::field::{add_mod, fe_add, Fe, ScalarField};

verus! {

/// The pair after `k` Fibonacci steps from `(x0, y0)`.
pub open spec fn fib_pair(f: ScalarField, x0: nat, y0: nat, k: nat) -> (nat, nat)
    decreases k,
{
    if k == 0 {
        (x0, y0)
    } else {
        let prev = fib_pair(f, x0, y0, (k - 1) as nat);
        (prev.1, add_mod(f, prev.0, prev.1))
    }
}

/// One step: the pair it starts from and the pair it ends at.
#[derive(Clone, Copy, Debug, PartialEq, Eq)]
pub struct FibonacciObject {
    pub x: Fe,
    pub y: Fe,
    pub x_next: Fe,
    pub y_next: Fe,
}

/// Step `k` of the run from `(x0, y0)`.
pub open spec fn is_fib_step(f: ScalarField, o: FibonacciObject, x0: nat, y0: nat, k: nat) -> bool {
    &&& (o.x.val(), o.y.val()) == fib_pair(f, x0, y0, k)
    &&& (o.x_next.val(), o.y_next.val()) == fib_pair(f, x0, y0, k + 1)
    &&& o.x_next == o.y
    &&& o.y_next.wf(f)
}

impl FibonacciObject {
    /// The first `num_iters` steps from `(x_0, y_0)`, with the public inputs `[x_0, y_0]`.
    pub fn new(f: ScalarField, num_iters: usize, x_0: &Fe, y_0: &Fe) -> (r: (Vec<Fe>, Vec<Self>))
        ensures
            r.0@ == seq![*x_0, *y_0],
            r.1@.len() == num_iters,
            forall|k: int|
                0 <= k < num_iters ==> is_fib_step(f, #[trigger] r.1@[k], x_0.val(), y_0.val(), k as nat),
    {
        let mut res: Vec<FibonacciObject> = Vec::new();
        let mut x = *x_0;
        let mut y = *y_0;
        let mut k: usize = 0;
        while k < num_iters
            invariant
                k <= num_iters,
                res@.len() == k,
                (x.val(), y.val()) == fib_pair(f, x_0.val(), y_0.val(), k as nat),
                forall|q: int|
                    0 <= q < k ==> is_fib_step(f, #[trigger] res@[q], x_0.val(), y_0.val(), q as nat),
            decreases num_iters - k,
        {
            let x_next = y;
            let y_next = fe_add(f, &x, &y);
            res.push(FibonacciObject { x, y, x_next, y_next });
            x = x_next;
            y = y_next;
            k += 1;
        }
        (vec![*x_0, *y_0], res)
    }
}

/// A Fibonacci step circuit: a run of steps proved together.
#[derive(Clone, Debug)]
pub struct FibonacciCircuit {
    pub values: Vec<FibonacciObject>,
}

impl FibonacciCircuit {
    /// The number of field elements passed from one step to the next.
    pub fn arity(&self) -> (r: usize)
        ensures
            r == 2,
    {
        2
    }

    /// The outputs of the run computed natively: the pair after its last step.
    pub fn output(&self, z: &[Fe]) -> (r: Vec<Fe>)
        requires
            self.values@.len() > 0,
        ensures
            r@ == seq![self.values@.last().x_next, self.values@.last().y_next],
    {
        let last = self.values[self.values.len() - 1];
        vec![last.x_next, last.y_next]
    }
}

} // verus!
