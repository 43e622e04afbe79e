//! Elements of the two Pasta scalar fields, held as canonical little-endian limbs.
//!
//! The arithmetic itself is done by the curve library that the folding scheme
//! is built on; the library only moves values in and out of it, and states each
//! operation over the integer that an element stands for.
use vstd::prelude::*;
use vstd::arithmetic::div_mod::*;
use vstd::arithmetic::power::*;
use ff::Field;
use ff::PrimeFieldBits;
use nova_snark::provider::pasta::pallas::Scalar as Fq;
use nova_snark::provider::pasta::vesta::Scalar as Fp;

verus! {

/// Which prime field an element lives in.
#[derive(Clone, Copy, Debug, PartialEq, Eq, Structural)]
pub enum ScalarField {
    /// The scalar field of Pallas (the base field of Vesta).
    Pallas,
    /// The scalar field of Vesta (the base field of Pallas).
    Vesta,
}

/// The radix of one limb.
pub open spec fn limb_base() -> int {
    0x1_0000_0000_0000_0000
}

/// The prime modulus of each field.
pub open spec fn modulus(f: ScalarField) -> nat {
    match f {
        ScalarField::Pallas => 0x40000000000000000000000000000000224698fc0994a8dd8c46eb2100000001nat,
        ScalarField::Vesta => 0x40000000000000000000000000000000224698fc094cf91b992d30ed00000001nat,
    }
}

/// The integer that four little-endian 64-bit limbs spell.
pub open spec fn limbs_value(l: [u64; 4]) -> nat {
    (l@[0] + limb_base() * (l@[1] + limb_base() * (l@[2] + limb_base() * l@[3]))) as nat
}

/// A field element: the integer of its limbs, below the modulus when well formed.
#[derive(Clone, Copy, Debug, PartialEq, Eq)]
pub struct Fe {
    pub limbs: [u64; 4],
}

impl Fe {
    pub open spec fn val(self) -> nat {
        limbs_value(self.limbs)
    }

    /// The element is the canonical representative of its residue class.
    pub open spec fn wf(self, f: ScalarField) -> bool {
        self.val() < modulus(f)
    }
}

pub open spec fn add_mod(f: ScalarField, a: nat, b: nat) -> nat {
    (a + b) % modulus(f)
}

pub open spec fn sub_mod(f: ScalarField, a: nat, b: nat) -> nat {
    ((a - b) % (modulus(f) as int)) as nat
}

pub open spec fn mul_mod(f: ScalarField, a: nat, b: nat) -> nat {
    (a * b) % modulus(f)
}

pub open spec fn pow_mod(f: ScalarField, a: nat, e: nat) -> nat {
    (pow(a as int, e) % (modulus(f) as int)) as nat
}

/// Relies on `Fq::from_raw` (limbs read modulo q), `Fq + Fq`, and
/// `PrimeFieldBits::to_le_bits` (the canonical limbs of the result).
#[verifier::external_body]
fn fq_add(a: &Fe, b: &Fe) -> (r: Fe)
    ensures
        r.val() == add_mod(ScalarField::Pallas, a.val(), b.val()),
{
    Fe { limbs: (Fq::from_raw(a.limbs) + Fq::from_raw(b.limbs)).to_le_bits().into_inner() }
}

/// Relies on `Fp::from_raw` (limbs read modulo p), `Fp + Fp`, and
/// `PrimeFieldBits::to_le_bits` (the canonical limbs of the result).
#[verifier::external_body]
fn fp_add(a: &Fe, b: &Fe) -> (r: Fe)
    ensures
        r.val() == add_mod(ScalarField::Vesta, a.val(), b.val()),
{
    Fe { limbs: (Fp::from_raw(a.limbs) + Fp::from_raw(b.limbs)).to_le_bits().into_inner() }
}

/// Relies on `Fq::from_raw`, `Fq - Fq` and `to_le_bits`, as `fq_add` does.
#[verifier::external_body]
fn fq_sub(a: &Fe, b: &Fe) -> (r: Fe)
    ensures
        r.val() == sub_mod(ScalarField::Pallas, a.val(), b.val()),
{
    Fe { limbs: (Fq::from_raw(a.limbs) - Fq::from_raw(b.limbs)).to_le_bits().into_inner() }
}

/// Relies on `Fp::from_raw`, `Fp - Fp` and `to_le_bits`, as `fp_add` does.
#[verifier::external_body]
fn fp_sub(a: &Fe, b: &Fe) -> (r: Fe)
    ensures
        r.val() == sub_mod(ScalarField::Vesta, a.val(), b.val()),
{
    Fe { limbs: (Fp::from_raw(a.limbs) - Fp::from_raw(b.limbs)).to_le_bits().into_inner() }
}

/// Relies on `Fq::from_raw`, `Fq * Fq` and `to_le_bits`, as `fq_add` does.
#[verifier::external_body]
fn fq_mul(a: &Fe, b: &Fe) -> (r: Fe)
    ensures
        r.val() == mul_mod(ScalarField::Pallas, a.val(), b.val()),
{
    Fe { limbs: (Fq::from_raw(a.limbs) * Fq::from_raw(b.limbs)).to_le_bits().into_inner() }
}

/// Relies on `Fp::from_raw`, `Fp * Fp` and `to_le_bits`, as `fp_add` does.
#[verifier::external_body]
fn fp_mul(a: &Fe, b: &Fe) -> (r: Fe)
    ensures
        r.val() == mul_mod(ScalarField::Vesta, a.val(), b.val()),
{
    Fe { limbs: (Fp::from_raw(a.limbs) * Fp::from_raw(b.limbs)).to_le_bits().into_inner() }
}

/// Relies on `Field::square` of `Fq`, with `from_raw` and `to_le_bits` converting.
#[verifier::external_body]
fn fq_square(a: &Fe) -> (r: Fe)
    ensures
        r.val() == mul_mod(ScalarField::Pallas, a.val(), a.val()),
{
    Fe { limbs: Fq::from_raw(a.limbs).square().to_le_bits().into_inner() }
}

/// Relies on `Field::square` of `Fp`, with `from_raw` and `to_le_bits` converting.
#[verifier::external_body]
fn fp_square(a: &Fe) -> (r: Fe)
    ensures
        r.val() == mul_mod(ScalarField::Vesta, a.val(), a.val()),
{
    Fe { limbs: Fp::from_raw(a.limbs).square().to_le_bits().into_inner() }
}

/// Relies on `Field::pow_vartime` of `Fq`: the power by a little-endian exponent.
#[verifier::external_body]
fn fq_pow(a: &Fe, exp: &[u64; 4]) -> (r: Fe)
    ensures
        r.val() == pow_mod(ScalarField::Pallas, a.val(), limbs_value(*exp)),
{
    Fe { limbs: Fq::from_raw(a.limbs).pow_vartime(exp).to_le_bits().into_inner() }
}

/// Relies on `Field::pow_vartime` of `Fp`: the power by a little-endian exponent.
#[verifier::external_body]
fn fp_pow(a: &Fe, exp: &[u64; 4]) -> (r: Fe)
    ensures
        r.val() == pow_mod(ScalarField::Vesta, a.val(), limbs_value(*exp)),
{
    Fe { limbs: Fp::from_raw(a.limbs).pow_vartime(exp).to_le_bits().into_inner() }
}

/// Relies on `Fq::from_raw`, which reads any four limbs modulo q, and `to_le_bits`.
#[verifier::external_body]
fn fq_reduce(limbs: [u64; 4]) -> (r: Fe)
    ensures
        r.val() == limbs_value(limbs) % modulus(ScalarField::Pallas),
{
    Fe { limbs: Fq::from_raw(limbs).to_le_bits().into_inner() }
}

/// Relies on `Fp::from_raw`, which reads any four limbs modulo p, and `to_le_bits`.
#[verifier::external_body]
fn fp_reduce(limbs: [u64; 4]) -> (r: Fe)
    ensures
        r.val() == limbs_value(limbs) % modulus(ScalarField::Vesta),
{
    Fe { limbs: Fp::from_raw(limbs).to_le_bits().into_inner() }
}

/// `a + b` in the field.
pub fn fe_add(f: ScalarField, a: &Fe, b: &Fe) -> (r: Fe)
    ensures
        r.val() == add_mod(f, a.val(), b.val()),
        r.wf(f),
{
    match f {
        ScalarField::Pallas => fq_add(a, b),
        ScalarField::Vesta => fp_add(a, b),
    }
}

/// `a - b` in the field.
pub fn fe_sub(f: ScalarField, a: &Fe, b: &Fe) -> (r: Fe)
    ensures
        r.val() == sub_mod(f, a.val(), b.val()),
        r.wf(f),
{
    match f {
        ScalarField::Pallas => fq_sub(a, b),
        ScalarField::Vesta => fp_sub(a, b),
    }
}

/// `a * b` in the field.
pub fn fe_mul(f: ScalarField, a: &Fe, b: &Fe) -> (r: Fe)
    ensures
        r.val() == mul_mod(f, a.val(), b.val()),
        r.wf(f),
{
    match f {
        ScalarField::Pallas => fq_mul(a, b),
        ScalarField::Vesta => fp_mul(a, b),
    }
}

/// `a * a` in the field.
pub fn fe_square(f: ScalarField, a: &Fe) -> (r: Fe)
    ensures
        r.val() == mul_mod(f, a.val(), a.val()),
        r.wf(f),
{
    match f {
        ScalarField::Pallas => fq_square(a),
        ScalarField::Vesta => fp_square(a),
    }
}

/// `a` raised to the little-endian exponent `exp`.
pub fn fe_pow(f: ScalarField, a: &Fe, exp: &[u64; 4]) -> (r: Fe)
    ensures
        r.val() == pow_mod(f, a.val(), limbs_value(*exp)),
        r.wf(f),
{
    match f {
        ScalarField::Pallas => fq_pow(a, exp),
        ScalarField::Vesta => fp_pow(a, exp),
    }
}

/// The element congruent to the integer that `limbs` spell.
pub fn fe_reduce(f: ScalarField, limbs: [u64; 4]) -> (r: Fe)
    ensures
        r.val() == limbs_value(limbs) % modulus(f),
        r.wf(f),
{
    match f {
        ScalarField::Pallas => fq_reduce(limbs),
        ScalarField::Vesta => fp_reduce(limbs),
    }
}

/// The element `n`.
pub fn fe_from_u64(f: ScalarField, n: u64) -> (r: Fe)
    ensures
        r.val() == (n as nat) % modulus(f),
        r.wf(f),
{
    fe_reduce(f, [n, 0, 0, 0])
}

/// One, which every field holds as the same limbs.
pub fn fe_one() -> (r: Fe)
    ensures
        r.val() == 1,
        forall|f: ScalarField| r.wf(f),
{
    Fe { limbs: [1, 0, 0, 0] }
}

/// Whether `a` is the canonical representative of its residue class.
pub fn fe_is_canonical(f: ScalarField, a: &Fe) -> (r: bool)
    ensures
        r == a.wf(f),
{
    let reduced = fe_reduce(f, a.limbs);
    proof {
        if a.val() < modulus(f) {
            lemma_small_mod(a.val(), modulus(f));
        } else {
            lemma_mod_bound(a.val() as int, modulus(f) as int);
        }
    }
    fe_eq(&reduced, a)
}

/// Two sets of limbs that spell the same integer are the same limbs.
pub proof fn lemma_limbs_value_injective(a: [u64; 4], b: [u64; 4])
    requires
        limbs_value(a) == limbs_value(b),
    ensures
        a@ == b@,
{
    let d = limb_base();
    let ha2 = a@[2] + d * a@[3];
    let hb2 = b@[2] + d * b@[3];
    let ha1 = a@[1] + d * ha2;
    let hb1 = b@[1] + d * hb2;
    let x = limbs_value(a) as int;
    assert(x == ha1 * d + a@[0]) by (nonlinear_arith)
        requires x == a@[0] + d * ha1;
    assert(x == hb1 * d + b@[0]) by (nonlinear_arith)
        requires x == b@[0] + d * hb1;
    lemma_fundamental_div_mod_converse(x, d, ha1, a@[0] as int);
    lemma_fundamental_div_mod_converse(x, d, hb1, b@[0] as int);
    assert(ha1 == ha2 * d + a@[1]) by (nonlinear_arith)
        requires ha1 == a@[1] + d * ha2;
    assert(hb1 == hb2 * d + b@[1]) by (nonlinear_arith)
        requires hb1 == b@[1] + d * hb2;
    lemma_fundamental_div_mod_converse(ha1, d, ha2, a@[1] as int);
    lemma_fundamental_div_mod_converse(ha1, d, hb2, b@[1] as int);
    assert(ha2 == (a@[3] as int) * d + a@[2]) by (nonlinear_arith)
        requires ha2 == a@[2] + d * a@[3];
    assert(hb2 == (b@[3] as int) * d + b@[2]) by (nonlinear_arith)
        requires hb2 == b@[2] + d * b@[3];
    lemma_fundamental_div_mod_converse(ha2, d, a@[3] as int, a@[2] as int);
    lemma_fundamental_div_mod_converse(ha2, d, b@[3] as int, b@[2] as int);
    assert(a@ =~= b@);
}

/// Whether two elements stand for the same integer.
pub fn fe_eq(a: &Fe, b: &Fe) -> (r: bool)
    ensures
        r == (a.val() == b.val()),
{
    let same = a.limbs[0] == b.limbs[0] && a.limbs[1] == b.limbs[1] && a.limbs[2] == b.limbs[2]
        && a.limbs[3] == b.limbs[3];
    proof {
        if a.val() == b.val() {
            lemma_limbs_value_injective(a.limbs, b.limbs);
        }
        if same {
            assert(a.limbs@ =~= b.limbs@);
        }
    }
    same
}

} // verus!
