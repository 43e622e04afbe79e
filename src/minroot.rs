//! The MinRoot delay function: a slow forward round built on a large root
//! exponent, and a cheap inverse round built on the fifth power.
use vstd::prelude::*;
use vstd::arithmetic::div_mod::*;
use vstd::arithmetic::power::*;
use vstd::arithmetic::power2::*;
use std::marker::PhantomData;
use crate::field::{
    add_mod, fe_add, fe_eq, fe_from_u64, fe_mul, fe_one, fe_pow, fe_square, fe_sub, limb_base, limbs_value,
    modulus, mul_mod, pow_mod, sub_mod, Fe, ScalarField,
};

verus! {

/// The algorithm used for the forward step. Every mode computes the same function.
#[derive(Clone, Copy, Debug, PartialEq, Eq, Structural)]
pub enum EvalMode {
    LTRSequential,
    LTRAddChainSequential,
    RTLSequential,
    RTLAddChainSequential,
}

impl EvalMode {
    /// Every mode, in a fixed order.
    pub fn all() -> (r: Vec<EvalMode>)
        ensures
            r@ == seq![
                EvalMode::LTRSequential,
                EvalMode::LTRAddChainSequential,
                EvalMode::RTLSequential,
                EvalMode::RTLAddChainSequential,
            ],
    {
        vec![
            EvalMode::LTRSequential,
            EvalMode::LTRAddChainSequential,
            EvalMode::RTLSequential,
            EvalMode::RTLAddChainSequential,
        ]
    }
}

/// The values `(x, y, i)` of a state.
pub type StateVal = (nat, nat, nat);

/// A state of the delay function: two field elements and a round counter.
#[derive(Clone, Copy, Debug, PartialEq, Eq)]
pub struct State {
    pub x: Fe,
    pub y: Fe,
    pub i: Fe,
}

impl View for State {
    type V = StateVal;

    open spec fn view(&self) -> StateVal {
        (self.x.val(), self.y.val(), self.i.val())
    }
}

impl State {
    pub open spec fn wf(self, f: ScalarField) -> bool {
        self.x.wf(f) && self.y.wf(f) && self.i.wf(f)
    }
}

/// Whether two states hold the same values.
pub fn state_eq(a: &State, b: &State) -> (r: bool)
    ensures
        r == (a@ == b@),
{
    fe_eq(&a.x, &b.x) && fe_eq(&a.y, &b.y) && fe_eq(&a.i, &b.i)
}

/// The exponent of the forward step: the inverse of 5 modulo `modulus(f) - 1`.
pub open spec fn forward_exponent(f: ScalarField) -> nat {
    match f {
        ScalarField::Pallas => 0x333333333333333333333333333333334e9ee0c9a143ba4ad69f2280cccccccdnat,
        ScalarField::Vesta => 0x333333333333333333333333333333334e9ee0c9a10a60e2e0f0f3f0cccccccdnat,
    }
}

/// The exponent of the inverse step.
pub open spec fn inverse_exponent_spec() -> nat {
    5
}

pub open spec fn forward_step_spec(f: ScalarField, v: nat) -> nat {
    pow_mod(f, v, forward_exponent(f))
}

pub open spec fn inverse_step_spec(f: ScalarField, v: nat) -> nat {
    pow_mod(f, v, inverse_exponent_spec())
}

/// One forward round: `x' = root(x + y)`, `y' = x + i`, `i' = i + 1`.
pub open spec fn round_spec(f: ScalarField, s: StateVal) -> StateVal {
    (forward_step_spec(f, add_mod(f, s.0, s.1)), add_mod(f, s.0, s.2), add_mod(f, s.2, 1))
}

/// One inverse round: `i' = i - 1`, `x' = y - i'`, `y' = x^5 - x'`.
pub open spec fn inverse_round_spec(f: ScalarField, s: StateVal) -> StateVal {
    let i = sub_mod(f, s.2, 1);
    let x = sub_mod(f, s.1, i);
    (x, sub_mod(f, inverse_step_spec(f, s.0), x), i)
}

/// `t` forward rounds from `s`.
pub open spec fn eval_spec(f: ScalarField, s: StateVal, t: nat) -> StateVal
    decreases t,
{
    if t == 0 {
        s
    } else {
        round_spec(f, eval_spec(f, s, (t - 1) as nat))
    }
}

/// `t` inverse rounds from `s`.
pub open spec fn inverse_eval_spec(f: ScalarField, s: StateVal, t: nat) -> StateVal
    decreases t,
{
    if t == 0 {
        s
    } else {
        inverse_round_spec(f, inverse_eval_spec(f, s, (t - 1) as nat))
    }
}

/// The fifth power undoes the forward step on every element of the field.
pub open spec fn fifth_power_undoes_root(f: ScalarField) -> bool {
    forall|v: nat| v < modulus(f) ==> #[trigger] inverse_step_spec(f, forward_step_spec(f, v)) == v
}

/// Five times the forward exponent is 1 modulo `modulus(f) - 1`; with Fermat's
/// little theorem this makes the fifth power undo the forward step.
pub proof fn lemma_exponents_are_inverse(f: ScalarField)
    ensures
        (inverse_exponent_spec() * forward_exponent(f)) % ((modulus(f) - 1) as nat) == 1,
{
    let n = (inverse_exponent_spec() * forward_exponent(f)) as int;
    let d = modulus(f) - 1;
    assert(n == 4 * d + 1);
    lemma_fundamental_div_mod_converse(n, d, 4, 1);
}

pub open spec fn state_val_wf(f: ScalarField, s: StateVal) -> bool {
    s.0 < modulus(f) && s.1 < modulus(f) && s.2 < modulus(f)
}

proof fn lemma_modulus_facts(f: ScalarField)
    ensures
        modulus(f) > 1,
{
}

/// `pow_mod` of `v` by 1 is `v` itself for an element of the field.
proof fn lemma_pow_mod_one(f: ScalarField, v: nat)
    requires
        v < modulus(f),
    ensures
        pow_mod(f, v, 1) == v,
{
    lemma_pow1(v as int);
    lemma_small_mod(v, modulus(f));
}

/// Multiplying two powers of one base adds their exponents.
proof fn lemma_mul_exp(f: ScalarField, x0: nat, c: nat, d: nat)
    ensures
        mul_mod(f, pow_mod(f, x0, c), pow_mod(f, x0, d)) == pow_mod(f, x0, c + d),
{
    let m = modulus(f) as int;
    lemma_pow_positive_or_zero(x0, c);
    lemma_pow_positive_or_zero(x0, d);
    lemma_mul_mod_noop(pow(x0 as int, c), pow(x0 as int, d), m);
    lemma_pow_adds(x0 as int, c, d);
}

proof fn lemma_pow_positive_or_zero(x0: nat, e: nat)
    ensures
        pow(x0 as int, e) >= 0,
{
    if x0 > 0 {
        lemma_pow_positive(x0 as int, e);
    } else if e == 0 {
        lemma_pow0(x0 as int);
    } else {
        lemma0_pow(e);
    }
}

/// Raising a power of a base multiplies the exponents.
proof fn lemma_pow_exp(f: ScalarField, x0: nat, a: nat, k: nat)
    ensures
        pow_mod(f, pow_mod(f, x0, a), k) == pow_mod(f, x0, a * k),
{
    let m = modulus(f) as int;
    let xa = pow(x0 as int, a);
    lemma_pow_positive_or_zero(x0, a);
    lemma_pow_mod_noop(xa, k, m);
    lemma_pow_multiplies(x0 as int, a, k);
}

/// The fifth power computed as `x * (x^2)^2`.
proof fn lemma_fifth_power(f: ScalarField, v: nat)
    requires
        v < modulus(f),
    ensures
        mul_mod(f, v, mul_mod(f, mul_mod(f, v, v), mul_mod(f, v, v))) == pow_mod(f, v, 5),
{
    lemma_pow_mod_one(f, v);
    lemma_mul_exp(f, v, 1, 1);
    lemma_mul_exp(f, v, 2, 2);
    lemma_mul_exp(f, v, 1, 4);
}

/// `x^(a * 2^n)` from `x^a`, by `n` squarings.
fn sqr_exp(f: ScalarField, x: &Fe, n: u32, Ghost(x0): Ghost<nat>, Ghost(a): Ghost<nat>) -> (r: Fe)
    requires
        x.wf(f),
        x.val() == pow_mod(f, x0, a),
    ensures
        r.wf(f),
        r.val() == pow_mod(f, x0, a * pow2(n as nat)),
{
    let mut acc = *x;
    let mut k: u32 = 0;
    proof {
        lemma_pow2(0);
        lemma_pow0(2);
    }
    while k < n
        invariant
            k <= n,
            acc.wf(f),
            acc.val() == pow_mod(f, x0, a * pow2(k as nat)),
        decreases n - k,
    {
        let next = fe_square(f, &acc);
        proof {
            let e = a * pow2(k as nat);
            lemma_mul_exp(f, x0, e, e);
            lemma_pow2_unfold((k + 1) as nat);
            assert(e + e == a * pow2((k + 1) as nat)) by (nonlinear_arith)
                requires
                    e == a * pow2(k as nat),
                    pow2((k + 1) as nat) == 2 * pow2(k as nat),
            ;
        }
        acc = next;
        k = k + 1;
    }
    acc
}

/// `x^a * y^b` as `x0^(a + b)`.
fn mul_exp(
    f: ScalarField,
    x: &Fe,
    y: &Fe,
    Ghost(x0): Ghost<nat>,
    Ghost(a): Ghost<nat>,
    Ghost(b): Ghost<nat>,
) -> (r: Fe)
    requires
        x.val() == pow_mod(f, x0, a),
        y.val() == pow_mod(f, x0, b),
    ensures
        r.wf(f),
        r.val() == pow_mod(f, x0, a + b),
{
    let r = fe_mul(f, x, y);
    proof {
        lemma_mul_exp(f, x0, a, b);
    }
    r
}

/// `y * x^(2^n)`: with `x = x0^a` and `y = x0^b`, the power `x0^(b + a * 2^n)`.
fn sqr_mul(
    f: ScalarField,
    x: &Fe,
    n: u32,
    y: &Fe,
    Ghost(x0): Ghost<nat>,
    Ghost(a): Ghost<nat>,
    Ghost(b): Ghost<nat>,
) -> (r: Fe)
    requires
        x.wf(f),
        x.val() == pow_mod(f, x0, a),
        y.val() == pow_mod(f, x0, b),
    ensures
        r.wf(f),
        r.val() == pow_mod(f, x0, b + a * pow2(n as nat)),
{
    let s = sqr_exp(f, x, n, Ghost(x0), Ghost(a));
    mul_exp(f, y, &s, Ghost(x0), Ghost(b), Ghost(a * pow2(n as nat)))
}

/// A MinRoot delay function over one of the scalar fields.
pub trait MinRootVDF: Sized {
    /// The field the function works in.
    spec fn spec_field() -> ScalarField;

    fn field() -> (r: ScalarField)
        ensures
            r == Self::spec_field(),
    ;

    fn new_with_mode(eval_mode: EvalMode) -> Self;

    fn new() -> Self {
        Self::new_with_mode(Self::default_mode())
    }

    fn default_mode() -> (r: EvalMode)
        ensures
            r == EvalMode::LTRSequential,
    {
        EvalMode::LTRSequential
    }

    /// Exponent used to take a root in the slow direction.
    fn exponent() -> (r: [u64; 4])
        ensures
            limbs_value(r) == forward_exponent(Self::spec_field()),
    ;

    /// Exponent used in the fast direction.
    fn inverse_exponent() -> (r: u64)
        ensures
            r == inverse_exponent_spec(),
    ;

    /// The forward step by left-to-right square-and-multiply over the exponent.
    fn forward_step_ltr_sequential(&mut self, x: Fe) -> (r: Fe)
        requires
            x.wf(Self::spec_field()),
        ensures
            r.wf(Self::spec_field()),
            r.val() == forward_step_spec(Self::spec_field(), x.val()),
    {
        let e = Self::exponent();
        fe_pow(Self::field(), &x, &e)
    }

    /// The building block of a round in the slow, forward direction.
    fn forward_step(&mut self, x: Fe) -> (r: Fe)
        requires
            x.wf(Self::spec_field()),
        ensures
            r.wf(Self::spec_field()),
            r.val() == forward_step_spec(Self::spec_field(), x.val()),
    {
        self.forward_step_ltr_sequential(x)
    }

    /// The building block of a round in the fast, inverse direction.
    fn inverse_step(x: Fe) -> (r: Fe)
        requires
            x.wf(Self::spec_field()),
        ensures
            r.wf(Self::spec_field()),
            r.val() == inverse_step_spec(Self::spec_field(), x.val()),
    {
        let e = [Self::inverse_exponent(), 0, 0, 0];
        fe_pow(Self::field(), &x, &e)
    }

    /// One round in the slow, forward direction.
    fn round(&mut self, s: State) -> (r: State)
        requires
            s.wf(Self::spec_field()),
        ensures
            r.wf(Self::spec_field()),
            r@ == round_spec(Self::spec_field(), s@),
    {
        let f = Self::field();
        let sum = fe_add(f, &s.x, &s.y);
        let x = self.forward_step(sum);
        let y = fe_add(f, &s.x, &s.i);
        let i = fe_add(f, &s.i, &fe_one());
        State { x, y, i }
    }

    /// One round in the fast, inverse direction.
    fn inverse_round(s: State) -> (r: State)
        requires
            s.wf(Self::spec_field()),
        ensures
            r.wf(Self::spec_field()),
            r@ == inverse_round_spec(Self::spec_field(), s@),
    {
        let f = Self::field();
        let i = fe_sub(f, &s.i, &fe_one());
        let x = fe_sub(f, &s.y, &i);
        let p = Self::inverse_step(s.x);
        let y = fe_sub(f, &p, &x);
        State { x, y, i }
    }

    /// Evaluates `x` for `t` rounds in the slow, forward direction.
    fn eval(&mut self, x: State, t: u64) -> (r: State)
        requires
            x.wf(Self::spec_field()),
        ensures
            r.wf(Self::spec_field()),
            r@ == eval_spec(Self::spec_field(), x@, t as nat),
    {
        self.simple_eval(x, t)
    }

    fn simple_eval(&mut self, x: State, t: u64) -> (r: State)
        requires
            x.wf(Self::spec_field()),
        ensures
            r.wf(Self::spec_field()),
            r@ == eval_spec(Self::spec_field(), x@, t as nat),
    {
        let mut acc = x;
        let mut k: u64 = 0;
        while k < t
            invariant
                k <= t,
                acc.wf(Self::spec_field()),
                acc@ == eval_spec(Self::spec_field(), x@, k as nat),
            decreases t - k,
        {
            acc = self.round(acc);
            k = k + 1;
        }
        acc
    }

    /// Inverts `t` rounds of evaluation, in the fast direction.
    fn inverse_eval(x: State, t: u64) -> (r: State)
        requires
            x.wf(Self::spec_field()),
        ensures
            r.wf(Self::spec_field()),
            r@ == inverse_eval_spec(Self::spec_field(), x@, t as nat),
    {
        let mut acc = x;
        let mut k: u64 = 0;
        while k < t
            invariant
                k <= t,
                acc.wf(Self::spec_field()),
                acc@ == inverse_eval_spec(Self::spec_field(), x@, k as nat),
            decreases t - k,
        {
            acc = Self::inverse_round(acc);
            k = k + 1;
        }
        acc
    }

    /// Whether `result` is what `t` forward rounds make of `original`, checked in the fast direction.
    fn check(result: State, t: u64, original: State) -> (r: bool)
        requires
            result.wf(Self::spec_field()),
        ensures
            r == (original@ == inverse_eval_spec(Self::spec_field(), result@, t as nat)),
    {
        let back = Self::inverse_eval(result, t);
        state_eq(&original, &back)
    }

    /// The field element `n`.
    fn element(n: u64) -> (r: Fe)
        ensures
            r.wf(Self::spec_field()),
            r.val() == (n as nat) % modulus(Self::spec_field()),
    ;
}

/// The delay function over the scalar field of Pallas.
#[derive(Debug, PartialEq, Eq, Structural)]
pub struct PallasVDF {
    eval_mode: EvalMode,
}

impl MinRootVDF for PallasVDF {
    open spec fn spec_field() -> ScalarField {
        ScalarField::Pallas
    }

    fn field() -> (r: ScalarField) {
        ScalarField::Pallas
    }

    fn new_with_mode(eval_mode: EvalMode) -> Self {
        PallasVDF { eval_mode }
    }

    fn eval(&mut self, x: State, t: u64) -> (r: State) {
        match self.eval_mode {
            EvalMode::LTRSequential
            | EvalMode::LTRAddChainSequential
            | EvalMode::RTLAddChainSequential
            | EvalMode::RTLSequential => self.simple_eval(x, t),
        }
    }

    fn element(n: u64) -> (r: Fe) {
        fe_from_u64(ScalarField::Pallas, n)
    }

    fn exponent() -> (r: [u64; 4]) {
        [0xd69f2280cccccccd, 0x4e9ee0c9a143ba4a, 0x3333333333333333, 0x3333333333333333]
    }

    fn inverse_exponent() -> (r: u64) {
        5
    }

    /// The inverse exponent is 5, computed as `x * (x^2)^2`.
    fn inverse_step(x: Fe) -> (r: Fe) {
        let f = ScalarField::Pallas;
        let sq = fe_square(f, &x);
        let quad = fe_square(f, &sq);
        let r = fe_mul(f, &x, &quad);
        proof {
            lemma_fifth_power(f, x.val());
        }
        r
    }

    fn forward_step(&mut self, x: Fe) -> (r: Fe) {
        match self.eval_mode {
            EvalMode::LTRSequential => self.forward_step_ltr_sequential(x),
            EvalMode::RTLSequential => self.forward_step_rtl_sequential(x),
            EvalMode::RTLAddChainSequential => self.forward_step_sequential_rtl_addition_chain(x),
            EvalMode::LTRAddChainSequential => self.forward_step_ltr_addition_chain(x),
        }
    }
}

impl PallasVDF {
    pub closed spec fn spec_eval_mode(&self) -> EvalMode {
        self.eval_mode
    }

    /// The mode this instance evaluates with.
    pub fn eval_mode(&self) -> (r: EvalMode)
        ensures
            r == self.spec_eval_mode(),
    {
        self.eval_mode
    }

    /// The forward step by a fixed addition chain for the exponent.
    pub fn forward_step_ltr_addition_chain(&mut self, x: Fe) -> (r: Fe)
        requires
            x.wf(ScalarField::Pallas),
        ensures
            r.wf(ScalarField::Pallas),
            r.val() == forward_step_spec(ScalarField::Pallas, x.val()),
    {
        let f = ScalarField::Pallas;
        let ghost x0 = x.val();
        proof {
            lemma_pow_mod_one(f, x0);
            lemma2_to64();
            lemma2_to64_rest();
        }
        // Each value is a power of `x`; the ghost arguments are the exponents of
        // the operands, and the last value's exponent is the forward exponent.
        let q1 = x;
        let q10 = sqr_exp(f, &q1, 1, Ghost(x0), Ghost(1nat));
        let q11 = mul_exp(f, &q10, &q1, Ghost(x0), Ghost(2nat), Ghost(1nat));
        let q101 = mul_exp(f, &q10, &q11, Ghost(x0), Ghost(2nat), Ghost(3nat));
        let q110 = sqr_exp(f, &q11, 1, Ghost(x0), Ghost(3nat));
        let q111 = mul_exp(f, &q110, &q1, Ghost(x0), Ghost(6nat), Ghost(1nat));
        let q1001 = mul_exp(f, &q111, &q10, Ghost(x0), Ghost(7nat), Ghost(2nat));
        let q1111 = mul_exp(f, &q1001, &q110, Ghost(x0), Ghost(9nat), Ghost(6nat));
        let qr2 = sqr_mul(f, &q110, 3, &q11, Ghost(x0), Ghost(0x6nat), Ghost(0x3nat));
        let qr4 = sqr_mul(f, &qr2, 8, &qr2, Ghost(x0), Ghost(0x33nat), Ghost(0x33nat));
        let qr8 = sqr_mul(f, &qr4, 16, &qr4, Ghost(x0), Ghost(0x3333nat), Ghost(0x3333nat));
        let qr16 = sqr_mul(f, &qr8, 32, &qr8, Ghost(x0), Ghost(0x33333333nat), Ghost(0x33333333nat));
        let qr32 = sqr_mul(f, &qr16, 64, &qr16, Ghost(x0), Ghost(0x3333333333333333nat), Ghost(0x3333333333333333nat));
        let qr32a = sqr_mul(f, &qr32, 5, &q1001, Ghost(x0), Ghost(0x33333333333333333333333333333333nat), Ghost(0x9nat));
        let qr32b = sqr_mul(f, &qr32a, 8, &q111, Ghost(x0), Ghost(0x666666666666666666666666666666669nat), Ghost(0x7nat));
        let qr32c = sqr_mul(f, &qr32b, 4, &q1, Ghost(x0), Ghost(0x66666666666666666666666666666666907nat), Ghost(0x1nat));
        let qr32d = sqr_mul(f, &qr32c, 2, &qr4, Ghost(x0), Ghost(0x666666666666666666666666666666669071nat), Ghost(0x3333nat));
        let qr32e = sqr_mul(f, &qr32d, 7, &q11, Ghost(x0), Ghost(0x19999999999999999999999999999999a74f7nat), Ghost(0x3nat));
        let qr32f = sqr_mul(f, &qr32e, 6, &q1001, Ghost(x0), Ghost(0xcccccccccccccccccccccccccccccccd3a7b83nat), Ghost(0x9nat));
        let qr32g = sqr_mul(f, &qr32f, 3, &q101, Ghost(x0), Ghost(0x333333333333333333333333333333334e9ee0c9nat), Ghost(0x5nat));
        let qr32h = sqr_mul(f, &qr32g, 7, &q101, Ghost(x0), Ghost(0x19999999999999999999999999999999a74f7064dnat), Ghost(0x5nat));
        let qr32i = sqr_mul(f, &qr32h, 7, &q111, Ghost(x0), Ghost(0xcccccccccccccccccccccccccccccccd3a7b832685nat), Ghost(0x7nat));
        let qr32j = sqr_mul(f, &qr32i, 4, &q111, Ghost(x0), Ghost(0x666666666666666666666666666666669d3dc1934287nat), Ghost(0x7nat));
        let qr32k = sqr_mul(f, &qr32j, 5, &q1001, Ghost(x0), Ghost(0x666666666666666666666666666666669d3dc19342877nat), Ghost(0x9nat));
        let qr32l = sqr_mul(f, &qr32k, 5, &q101, Ghost(x0), Ghost(0xcccccccccccccccccccccccccccccccd3a7b8326850ee9nat), Ghost(0x5nat));
        let qr32m = sqr_mul(f, &qr32l, 3, &q11, Ghost(x0), Ghost(0x19999999999999999999999999999999a74f7064d0a1dd25nat), Ghost(0x3nat));
        let qr32n = sqr_mul(f, &qr32m, 4, &q101, Ghost(x0), Ghost(0xcccccccccccccccccccccccccccccccd3a7b8326850ee92bnat), Ghost(0x5nat));
        let qr32o = sqr_mul(f, &qr32n, 3, &q101, Ghost(x0), Ghost(0xcccccccccccccccccccccccccccccccd3a7b8326850ee92b5nat), Ghost(0x5nat));
        let qr32p = sqr_mul(f, &qr32o, 6, &q1111, Ghost(x0), Ghost(0x666666666666666666666666666666669d3dc19342877495adnat), Ghost(0xfnat));
        let qr32q = sqr_mul(f, &qr32p, 4, &q1001, Ghost(x0), Ghost(0x19999999999999999999999999999999a74f7064d0a1dd256b4fnat), Ghost(0x9nat));
        let qr32r = sqr_mul(f, &qr32q, 6, &q101, Ghost(x0), Ghost(0x19999999999999999999999999999999a74f7064d0a1dd256b4f9nat), Ghost(0x5nat));
        let qr32s = sqr_mul(f, &qr32r, 37, &qr8, Ghost(x0), Ghost(0x666666666666666666666666666666669d3dc19342877495ad3e45nat), Ghost(0x33333333nat));
        let qfin = sqr_mul(f, &qr32s, 2, &q1, Ghost(x0), Ghost(0xcccccccccccccccccccccccccccccccd3a7b8326850ee92b5a7c8a033333333nat), Ghost(0x1nat));
        qfin
    }

    /// The forward step by right-to-left square-and-multiply over the bits of the exponent.
    pub fn forward_step_rtl_sequential(&mut self, x: Fe) -> (r: Fe)
        requires
            x.wf(ScalarField::Pallas),
        ensures
            r.wf(ScalarField::Pallas),
            r.val() == forward_step_spec(ScalarField::Pallas, x.val()),
    {
        let f = ScalarField::Pallas;
        let (acc, _last) = rtl_square_and_multiply(f, &x, &Self::exponent(), 254);
        proof {
            lemma_exponent_limbs(f);
            lemma_small_mod(forward_exponent(f), pow2(254));
        }
        acc
    }

    /// The forward step: the low 128 bits of the exponent right to left, and the
    /// high bits, whose pattern repeats every 8 bits, by a chain of squarings.
    pub fn forward_step_sequential_rtl_addition_chain(&mut self, x: Fe) -> (r: Fe)
        requires
            x.wf(ScalarField::Pallas),
        ensures
            r.wf(ScalarField::Pallas),
            r.val() == forward_step_spec(ScalarField::Pallas, x.val()),
    {
        let f = ScalarField::Pallas;
        let ghost x0 = x.val();
        let ghost e = forward_exponent(f);
        let (acc, square_acc) = rtl_square_and_multiply(f, &x, &Self::exponent(), 128);
        proof {
            lemma_exponent_limbs(f);
            lemma2_to64();
        }
        let ghost k: nat = pow2(127);
        // x^(3 * 2^127), then x^(51 * 2^127)
        let sq = fe_square(f, &square_acc);
        let square_acc = fe_mul(f, &square_acc, &sq);
        proof {
            lemma_mul_exp(f, x0, k, k);
            lemma_mul_exp(f, x0, k, k + k);
        }
        let s1 = fe_square(f, &square_acc);
        let s2 = fe_square(f, &s1);
        let s3 = fe_square(f, &s2);
        let s4 = fe_square(f, &s3);
        let square_acc = fe_mul(f, &square_acc, &s4);
        proof {
            let t = 3 * k;
            lemma_mul_exp(f, x0, t, t);
            lemma_mul_exp(f, x0, 2 * t, 2 * t);
            lemma_mul_exp(f, x0, 4 * t, 4 * t);
            lemma_mul_exp(f, x0, 8 * t, 8 * t);
            lemma_mul_exp(f, x0, t, 16 * t);
        }
        let ghost base: nat = 51 * k;
        let ghost low: nat = e % pow2(128);
        let mut state = square_acc;
        let mut acc = acc;
        let mut count: u32 = 1;
        let ghost mut sum: nat = 0;
        proof {
            lemma_pow2(0);
            lemma_pow0(2);
            assert(pow2(8 * ((0 + 7) / 8) as nat) == 1);
        }
        while count <= 122
            invariant
                1 <= count <= 123,
                state.wf(f),
                acc.wf(f),
                state.val() == pow_mod(f, x0, base * pow2((count - 1) as nat)),
                acc.val() == pow_mod(f, x0, low + base * sum),
                255 * sum == 2 * (pow2(8 * (((count - 1) as nat + 7) / 8) as nat) - 1),
            decreases 123 - count,
        {
            let next = fe_square(f, &state);
            proof {
                let c = (count - 1) as nat;
                let ec = base * pow2(c);
                lemma_mul_exp(f, x0, ec, ec);
                lemma_pow2_unfold(c + 1);
                assert(ec + ec == base * pow2(c + 1)) by (nonlinear_arith)
                    requires
                        ec == base * pow2(c),
                        pow2(c + 1) == 2 * pow2(c),
                ;
            }
            state = next;
            if count % 8 == 1 {
                acc = fe_mul(f, &acc, &state);
                proof {
                    let c = count as nat;
                    let j = ((c - 1) as nat + 7) / 8;
                    lemma_mul_exp(f, x0, low + base * sum, base * pow2(c));
                    assert(low + base * sum + base * pow2(c) == low + base * (sum + pow2(c)))
                        by (nonlinear_arith);
                    assert(c == 8 * j + 1);
                    assert((c + 7) / 8 == j + 1);
                    lemma2_to64();
                    lemma_pow2_adds(8 * j, 1);
                    lemma_pow2_adds(8 * j, 8);
                    sum = sum + pow2(c);
                }
            }
            count = count + 1;
        }
        proof {
            assert((122nat + 7) / 8 == 16);
            lemma_pow2_adds(64, 64);
            lemma_pow2_adds(64, 63);
            assert(pow2(8 * 16) == pow2(128));
            assert(low + base * sum == e);
        }
        acc
    }
}

/// The delay function over the scalar field of Vesta.
#[derive(Debug, PartialEq, Eq, Structural)]
pub struct VestaVDF {}

impl MinRootVDF for VestaVDF {
    open spec fn spec_field() -> ScalarField {
        ScalarField::Vesta
    }

    fn field() -> (r: ScalarField) {
        ScalarField::Vesta
    }

    fn new_with_mode(_eval_mode: EvalMode) -> Self {
        VestaVDF {  }
    }

    fn element(n: u64) -> (r: Fe) {
        fe_from_u64(ScalarField::Vesta, n)
    }

    fn exponent() -> (r: [u64; 4]) {
        [0xe0f0f3f0cccccccd, 0x4e9ee0c9a10a60e2, 0x3333333333333333, 0x3333333333333333]
    }

    fn inverse_exponent() -> (r: u64) {
        5
    }

    /// The inverse exponent is 5, computed as `x * (x^2)^2`.
    fn inverse_step(x: Fe) -> (r: Fe) {
        let f = ScalarField::Vesta;
        let sq = fe_square(f, &x);
        let quad = fe_square(f, &sq);
        let r = fe_mul(f, &x, &quad);
        proof {
            lemma_fifth_power(f, x.val());
        }
        r
    }

    /// The forward step by a fixed addition chain for the exponent.
    fn forward_step(&mut self, x: Fe) -> (r: Fe) {
        let f = ScalarField::Vesta;
        let ghost x0 = x.val();
        proof {
            lemma_pow_mod_one(f, x0);
            lemma2_to64();
            lemma2_to64_rest();
        }
        // Each value is a power of `x`; the ghost arguments are the exponents of
        // the operands, and the last value's exponent is the forward exponent.
        let p1 = x;
        let p10 = sqr_exp(f, &p1, 1, Ghost(x0), Ghost(1nat));
        let p11 = mul_exp(f, &p10, &p1, Ghost(x0), Ghost(2nat), Ghost(1nat));
        let p101 = mul_exp(f, &p10, &p11, Ghost(x0), Ghost(2nat), Ghost(3nat));
        let p110 = sqr_exp(f, &p11, 1, Ghost(x0), Ghost(3nat));
        let p111 = mul_exp(f, &p110, &p1, Ghost(x0), Ghost(6nat), Ghost(1nat));
        let p1001 = mul_exp(f, &p111, &p10, Ghost(x0), Ghost(7nat), Ghost(2nat));
        let p1111 = mul_exp(f, &p1001, &p110, Ghost(x0), Ghost(9nat), Ghost(6nat));
        let pr2 = sqr_mul(f, &p110, 3, &p11, Ghost(x0), Ghost(0x6nat), Ghost(0x3nat));
        let pr4 = sqr_mul(f, &pr2, 8, &pr2, Ghost(x0), Ghost(0x33nat), Ghost(0x33nat));
        let pr8 = sqr_mul(f, &pr4, 16, &pr4, Ghost(x0), Ghost(0x3333nat), Ghost(0x3333nat));
        let pr16 = sqr_mul(f, &pr8, 32, &pr8, Ghost(x0), Ghost(0x33333333nat), Ghost(0x33333333nat));
        let pr32 = sqr_mul(f, &pr16, 64, &pr16, Ghost(x0), Ghost(0x3333333333333333nat), Ghost(0x3333333333333333nat));
        let pr32a = sqr_mul(f, &pr32, 5, &p1001, Ghost(x0), Ghost(0x33333333333333333333333333333333nat), Ghost(0x9nat));
        let pr32b = sqr_mul(f, &pr32a, 8, &p111, Ghost(x0), Ghost(0x666666666666666666666666666666669nat), Ghost(0x7nat));
        let pr32c = sqr_mul(f, &pr32b, 4, &p1, Ghost(x0), Ghost(0x66666666666666666666666666666666907nat), Ghost(0x1nat));
        let pr32d = sqr_mul(f, &pr32c, 2, &pr4, Ghost(x0), Ghost(0x666666666666666666666666666666669071nat), Ghost(0x3333nat));
        let pr32e = sqr_mul(f, &pr32d, 7, &p11, Ghost(x0), Ghost(0x19999999999999999999999999999999a74f7nat), Ghost(0x3nat));
        let pr32f = sqr_mul(f, &pr32e, 6, &p1001, Ghost(x0), Ghost(0xcccccccccccccccccccccccccccccccd3a7b83nat), Ghost(0x9nat));
        let pr32g = sqr_mul(f, &pr32f, 3, &p101, Ghost(x0), Ghost(0x333333333333333333333333333333334e9ee0c9nat), Ghost(0x5nat));
        let pr32h = sqr_mul(f, &pr32g, 5, &p1, Ghost(x0), Ghost(0x19999999999999999999999999999999a74f7064dnat), Ghost(0x1nat));
        let pr32i = sqr_mul(f, &pr32h, 7, &p101, Ghost(x0), Ghost(0x333333333333333333333333333333334e9ee0c9a1nat), Ghost(0x5nat));
        let pr32j = sqr_mul(f, &pr32i, 4, &p11, Ghost(x0), Ghost(0x19999999999999999999999999999999a74f7064d085nat), Ghost(0x3nat));
        let pr32k = sqr_mul(f, &pr32j, 8, &p111, Ghost(x0), Ghost(0x19999999999999999999999999999999a74f7064d0853nat), Ghost(0x7nat));
        let pr32l = sqr_mul(f, &pr32k, 4, &p1, Ghost(x0), Ghost(0x19999999999999999999999999999999a74f7064d085307nat), Ghost(0x1nat));
        let pr32m = sqr_mul(f, &pr32l, 4, &p111, Ghost(x0), Ghost(0x19999999999999999999999999999999a74f7064d0853071nat), Ghost(0x7nat));
        let pr32n = sqr_mul(f, &pr32m, 9, &p1111, Ghost(x0), Ghost(0x19999999999999999999999999999999a74f7064d08530717nat), Ghost(0xfnat));
        let pr32o = sqr_mul(f, &pr32n, 8, &p1111, Ghost(x0), Ghost(0x333333333333333333333333333333334e9ee0c9a10a60e2e0fnat), Ghost(0xfnat));
        let pr32p = sqr_mul(f, &pr32o, 6, &p1111, Ghost(x0), Ghost(0x333333333333333333333333333333334e9ee0c9a10a60e2e0f0fnat), Ghost(0xfnat));
        let pr32q = sqr_mul(f, &pr32p, 2, &p11, Ghost(x0), Ghost(0xcccccccccccccccccccccccccccccccd3a7b83268429838b83c3cfnat), Ghost(0x3nat));
        let pr32r = sqr_mul(f, &pr32q, 34, &pr8, Ghost(x0), Ghost(0x333333333333333333333333333333334e9ee0c9a10a60e2e0f0f3fnat), Ghost(0x33333333nat));
        let pfin = sqr_mul(f, &pr32r, 2, &p1, Ghost(x0), Ghost(0xcccccccccccccccccccccccccccccccd3a7b83268429838b83c3cfc33333333nat), Ghost(0x1nat));
        pfin
    }
}

/// The limbs of each exponent, and the powers of two around its top.
proof fn lemma_exponent_limbs(f: ScalarField)
    ensures
        pow2(64) == 0x1_0000_0000_0000_0000nat,
        pow2(128) == 0x1_0000_0000_0000_0000_0000_0000_0000_0000nat,
        pow2(127) == 0x8000_0000_0000_0000_0000_0000_0000_0000nat,
        pow2(192) == 0x1_0000_0000_0000_0000_0000_0000_0000_0000_0000_0000_0000_0000nat,
        pow2(254) == 0x4000000000000000000000000000000000000000000000000000000000000000nat,
        forward_exponent(f) < pow2(254),
{
    lemma2_to64();
    lemma2_to64_rest();
    lemma_pow2_adds(64, 64);
    lemma_pow2_adds(64, 63);
    lemma_pow2_adds(128, 64);
    lemma_pow2_adds(192, 62);
}

/// Right-to-left square-and-multiply over the low `bits` bits of `exp`, reading
/// each limb by shifting it. Returns `x^(e mod 2^bits)` and the last square used,
/// `x^(2^(bits - 1))`.
fn rtl_square_and_multiply(f: ScalarField, x: &Fe, exp: &[u64; 4], bits: usize) -> (r: (Fe, Fe))
    requires
        x.wf(f),
        1 <= bits <= 256,
    ensures
        r.0.wf(f),
        r.1.wf(f),
        r.0.val() == pow_mod(f, x.val(), limbs_value(*exp) % pow2(bits as nat)),
        r.1.val() == pow_mod(f, x.val(), pow2((bits - 1) as nat)),
{
    let ghost e = limbs_value(*exp);
    let ghost x0 = x.val();
    let mut remaining = *exp;
    let mut acc = fe_one();
    let mut elt = *x;
    let mut last = *x;
    let mut count: usize = 0;
    proof {
        lemma_pow_mod_one(f, x0);
        lemma_pow2(0);
        lemma_pow0(2);
        lemma_pow0(x0 as int);
        lemma_small_mod(1, modulus(f));
        lemma_limb_slices(*exp);
    }
    while count < bits
        invariant
            count <= bits <= 256,
            x0 == x.val(),
            x.wf(f),
            e == limbs_value(*exp),
            acc.wf(f),
            elt.wf(f),
            last.wf(f),
            acc.val() == pow_mod(f, x0, e % pow2(count as nat)),
            elt.val() == pow_mod(f, x0, pow2(count as nat)),
            count > 0 ==> last.val() == pow_mod(f, x0, pow2((count - 1) as nat)),
            count < 256 ==> remaining@[(count / 64) as int] == (e / pow2(count as nat)) % pow2(
                (64 - count % 64) as nat,
            ),
            forall|q: int|
                count / 64 < q < 4 ==> remaining@[q] == (e / pow2((64 * q) as nat)) % pow2(64),
        decreases bits - count,
    {
        let limb_index = count / 64;
        let limb = remaining[limb_index];
        let ghost c = count as nat;
        let ghost rem = e / pow2(c);
        let ghost w = (64 - count % 64) as nat;
        proof {
            lemma_shift_step(rem, w, limb);
            lemma_pow2_pos(c);
            lemma_mod_breakdown(e as int, pow2(c) as int, 2);
            lemma_pow2_unfold(c + 1);
            lemma_div_denominator(e as int, pow2(c) as int, 2);
        }
        let one = (limb & 1) == 1;
        if one {
            acc = fe_mul(f, &acc, &elt);
            proof {
                lemma_mul_exp(f, x0, e % pow2(c), pow2(c));
            }
        }
        remaining[limb_index] = limb >> 1;
        last = elt;
        let next = fe_square(f, &elt);
        proof {
            lemma_mul_exp(f, x0, pow2(c), pow2(c));
        }
        elt = next;
        count = count + 1;
        proof {
            if count < 256 && count % 64 == 0 {
                let q = (count / 64) as int;
                assert(count as nat == 64 * q);
                assert(remaining@[q] == (e / pow2((64 * q) as nat)) % pow2(64));
            }
        }
    }
    (acc, last)
}

/// One step of reading an integer's bits from the low end of a shifted limb.
proof fn lemma_shift_step(rem: nat, w: nat, limb: u64)
    requires
        1 <= w <= 64,
        limb == rem % pow2(w),
    ensures
        ((limb & 1) == 1) == (rem % 2 == 1),
        (limb >> 1) == (rem / 2) % pow2((w - 1) as nat),
{
    assert((limb & 1) == limb % 2) by (bit_vector);
    assert((limb >> 1) == limb / 2) by (bit_vector);
    lemma_pow2_unfold(w);
    lemma_pow2_pos((w - 1) as nat);
    let b = pow2((w - 1) as nat) as int;
    lemma_mod_breakdown(rem as int, 2, b);
    lemma_mod_mod(rem as int, 2, b);
    let q = (rem as int / 2) % b;
    let r = rem as int % 2;
    lemma_mod_bound(rem as int / 2, b);
    lemma_fundamental_div_mod_converse(limb as int, 2, q, r);
}

/// Each limb is the exponent's bits at its place.
proof fn lemma_limb_slices(l: [u64; 4])
    ensures
        forall|q: int|
            0 <= q < 4 ==> l@[q] == (limbs_value(l) / pow2((64 * q) as nat)) % pow2(64),
{
    lemma2_to64();
    lemma_pow2_adds(64, 64);
    lemma_pow2_adds(128, 64);
    let d = limb_base();
    let h2 = l@[2] + d * l@[3];
    let h1 = l@[1] + d * h2;
    let v = limbs_value(l) as int;
    assert(v == h1 * d + l@[0]) by (nonlinear_arith)
        requires v == l@[0] + d * h1;
    lemma_fundamental_div_mod_converse(v, d, h1, l@[0] as int);
    assert(h1 == h2 * d + l@[1]) by (nonlinear_arith)
        requires h1 == l@[1] + d * h2;
    lemma_fundamental_div_mod_converse(h1, d, h2, l@[1] as int);
    assert(h2 == (l@[3] as int) * d + l@[2]) by (nonlinear_arith)
        requires h2 == l@[2] + d * l@[3];
    lemma_fundamental_div_mod_converse(h2, d, l@[3] as int, l@[2] as int);
    lemma_div_denominator(v, d, d);
    lemma_div_denominator(v, d * d, d);
    lemma_small_mod(l@[3] as nat, d as nat);
    lemma_small_mod(l@[2] as nat, d as nat);
    lemma_small_mod(l@[1] as nat, d as nat);
    lemma_small_mod(l@[0] as nat, d as nat);
    assert(pow2(128) == d * d);
    assert(pow2(192) == d * d * d);
    assert forall|q: int| 0 <= q < 4 implies l@[q] == (limbs_value(l) / pow2((64 * q) as nat)) % pow2(
        64,
    ) by {
        if q == 0 {
            assert(pow2((64 * q) as nat) == 1);
        } else if q == 1 {
            assert(pow2((64 * q) as nat) == d);
        } else if q == 2 {
            assert(pow2((64 * q) as nat) == d * d);
        } else {
            assert(pow2((64 * q) as nat) == d * d * d);
        }
    }
}


/// What an evaluation stands for: its final state and its number of rounds.
pub type EvaluationVal = (StateVal, nat);

/// Composes two evaluations: defined exactly when the second one starts where
/// the first one ends, and then running from the first one's start to the
/// second one's end.
pub open spec fn append_spec(f: ScalarField, a: EvaluationVal, b: EvaluationVal) -> Option<
    EvaluationVal,
> {
    if inverse_eval_spec(f, b.0, b.1) == a.0 {
        Some((b.0, a.1 + b.1))
    } else {
        None
    }
}

/// `append_spec` with a left operand that may be missing.
pub open spec fn append_after(f: ScalarField, a: Option<EvaluationVal>, b: EvaluationVal) -> Option<
    EvaluationVal,
> {
    match a {
        Some(a) => append_spec(f, a, b),
        None => None,
    }
}

/// `append_spec` with a right operand that may be missing.
pub open spec fn append_before(f: ScalarField, a: EvaluationVal, b: Option<EvaluationVal>) -> Option<
    EvaluationVal,
> {
    match b {
        Some(b) => append_spec(f, a, b),
        None => None,
    }
}

/// The outcome of running the slow algorithm `t` rounds. It does not hold its
/// input, which the inverse direction recovers.
#[derive(Debug)]
pub struct Evaluation<V: MinRootVDF> {
    pub result: State,
    pub t: u64,
    pub _v: PhantomData<V>,
}

impl<V: MinRootVDF> View for Evaluation<V> {
    type V = EvaluationVal;

    open spec fn view(&self) -> EvaluationVal {
        (self.result@, self.t as nat)
    }
}

impl<V: MinRootVDF> Clone for Evaluation<V> {
    fn clone(&self) -> (r: Self)
        ensures
            r.result == self.result,
            r.t == self.t,
    {
        Evaluation { result: self.result, t: self.t, _v: PhantomData }
    }
}

impl<V: MinRootVDF> Evaluation<V> {
    /// Evaluates `x` for `t` rounds; also returns the final state as the list `[x, y, i]`.
    pub fn eval(x: State, t: u64) -> (r: (Vec<Fe>, Self))
        requires
            x.wf(V::spec_field()),
        ensures
            r.1.result.wf(V::spec_field()),
            r.1.result@ == eval_spec(V::spec_field(), x@, t as nat),
            r.1.t == t,
            r.0@ == seq![r.1.result.x, r.1.result.y, r.1.result.i],
    {
        let mut vdf = V::new();
        let result = vdf.eval(x, t);
        let z0 = vec![result.x, result.y, result.i];
        (z0, Evaluation { result, t, _v: PhantomData })
    }

    /// Evaluates `x` for `t` rounds with the forward step of `eval_mode`.
    pub fn eval_with_mode(eval_mode: EvalMode, x: State, t: u64) -> (r: Self)
        requires
            x.wf(V::spec_field()),
        ensures
            r.result.wf(V::spec_field()),
            r.result@ == eval_spec(V::spec_field(), x@, t as nat),
            r.t == t,
    {
        let mut vdf = V::new_with_mode(eval_mode);
        let result = vdf.eval(x, t);
        Evaluation { result, t, _v: PhantomData }
    }

    pub fn result(&self) -> (r: State)
        ensures
            r == self.result,
    {
        self.result
    }

    /// Whether this evaluation started from `original`.
    pub fn verify(&self, original: State) -> (r: bool)
        requires
            self.result.wf(V::spec_field()),
        ensures
            r == (original@ == inverse_eval_spec(V::spec_field(), self.result@, self.t as nat)),
    {
        V::check(self.result, self.t, original)
    }

    /// Composes this evaluation with one that starts where it ends; `None` when `other`
    /// does not start at this evaluation's result.
    pub fn append(&self, other: Self) -> (r: Option<Self>)
        requires
            other.result.wf(V::spec_field()),
            self.t + other.t <= u64::MAX,
        ensures
            r is Some <==> append_spec(V::spec_field(), self@, other@) is Some,
            r matches Some(e) ==> Some(e@) == append_spec(V::spec_field(), self@, other@)
                && e.result == other.result,
    {
        if other.verify(self.result) {
            Some(Evaluation { result: other.result, t: self.t + other.t, _v: PhantomData })
        } else {
            None
        }
    }
}

/// Running `a + b` inverse rounds is running `b` and then `a` of them.
pub proof fn lemma_inverse_eval_adds(f: ScalarField, s: StateVal, a: nat, b: nat)
    ensures
        inverse_eval_spec(f, s, a + b) == inverse_eval_spec(f, inverse_eval_spec(f, s, b), a),
    decreases a,
{
    if a > 0 {
        lemma_inverse_eval_adds(f, s, (a - 1) as nat, b);
        assert((a - 1) as nat + b == (a + b - 1) as nat);
    }
}

/// Running `a + b` forward rounds is running `a` and then `b` of them.
pub proof fn lemma_eval_adds(f: ScalarField, s: StateVal, a: nat, b: nat)
    ensures
        eval_spec(f, s, a + b) == eval_spec(f, eval_spec(f, s, a), b),
    decreases b,
{
    if b > 0 {
        lemma_eval_adds(f, s, a, (b - 1) as nat);
        assert(a + (b - 1) as nat == (a + b - 1) as nat);
    }
}

/// Composition of evaluations is associative: both groupings are defined on the
/// same operands, and agree where they are.
pub proof fn lemma_append_associative(f: ScalarField, a: EvaluationVal, b: EvaluationVal, c: EvaluationVal)
    ensures
        append_after(f, append_spec(f, a, b), c) == append_before(f, a, append_spec(f, b, c)),
{
    lemma_inverse_eval_adds(f, c.0, b.1, c.1);
    assert(b.1 + c.1 == c.1 + b.1);
    assert(a.1 + (b.1 + c.1) == (a.1 + b.1) + c.1);
}

/// The inverse round undoes the forward round, where the fifth power undoes the forward step.
pub proof fn lemma_inverse_round_undoes_round(f: ScalarField, s: StateVal)
    requires
        state_val_wf(f, s),
        fifth_power_undoes_root(f),
    ensures
        inverse_round_spec(f, round_spec(f, s)) == s,
        state_val_wf(f, round_spec(f, s)),
{
    let m = modulus(f) as int;
    let r = round_spec(f, s);
    let sum = add_mod(f, s.0, s.1);
    lemma_mod_bound((s.0 + s.1) as int, m);
    assert(inverse_step_spec(f, forward_step_spec(f, sum)) == sum);
    lemma_mod_bound(pow(sum as int, forward_exponent(f)), m);
    lemma_mod_bound((s.0 + s.2) as int, m);
    lemma_mod_bound((s.2 + 1) as int, m);
    // i: (i + 1) - 1
    lemma_sub_mod_noop((s.2 + 1) as int, 1, m);
    lemma_small_mod(s.2, m as nat);
    assert(sub_mod(f, r.2, 1) == s.2);
    // x: (x + i) - i
    lemma_sub_mod_noop((s.0 + s.2) as int, s.2 as int, m);
    lemma_small_mod(s.0, m as nat);
    assert(sub_mod(f, r.1, s.2) == s.0);
    // y: (x + y) - x
    lemma_sub_mod_noop((s.0 + s.1) as int, s.0 as int, m);
    lemma_small_mod(s.1, m as nat);
    assert(sub_mod(f, sum, s.0) == s.1);
}

/// Inverse evaluation undoes evaluation, for every number of rounds, where the
/// fifth power undoes the forward step.
pub proof fn lemma_inverse_eval_undoes_eval(f: ScalarField, s: StateVal, t: nat)
    requires
        state_val_wf(f, s),
        fifth_power_undoes_root(f),
    ensures
        inverse_eval_spec(f, eval_spec(f, s, t), t) == s,
        state_val_wf(f, eval_spec(f, s, t)),
    decreases t,
{
    if t > 0 {
        let prev = eval_spec(f, s, (t - 1) as nat);
        lemma_inverse_eval_undoes_eval(f, s, (t - 1) as nat);
        lemma_inverse_round_undoes_round(f, prev);
        // inverse_eval(round(prev), t) == inverse_eval(inverse_round(round(prev)), t - 1)
        lemma_inverse_eval_adds(f, round_spec(f, prev), (t - 1) as nat, 1);
        assert(inverse_eval_spec(f, round_spec(f, prev), 0) == round_spec(f, prev));
        assert(inverse_eval_spec(f, round_spec(f, prev), 1) == inverse_round_spec(
            f,
            round_spec(f, prev),
        ));
    }
}

} // verus!
