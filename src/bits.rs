//! Little-endian bit decomposition of 64-bit limbs.
use vstd::prelude::*;
use vstd::arithmetic::div_mod::lemma_fundamental_div_mod_converse;
use crate::field::{limb_base, limbs_value, modulus, Fe, ScalarField};

verus! {

/// Bit `i` of `v`, counted from the least significant.
pub open spec fn bit_of(v: u64, i: int) -> bool {
    (v >> (i as u64)) & 1u64 == 1u64
}

/// The bits of each limb in turn, least significant first: 64 for each limb.
pub fn u64_to_bits_le(bytes: &[u64]) -> (r: Vec<bool>)
    requires
        bytes@.len() * 64 <= usize::MAX,
    ensures
        r@.len() == bytes@.len() * 64,
        forall|j: int| 0 <= j < r@.len() ==> #[trigger] r@[j] == bit_of(bytes@[j / 64], j % 64),
{
    let mut out: Vec<bool> = Vec::new();
    let mut k: usize = 0;
    while k < bytes.len()
        invariant
            k <= bytes@.len(),
            bytes@.len() * 64 <= usize::MAX,
            out@.len() == k * 64,
            forall|j: int| 0 <= j < out@.len() ==> #[trigger] out@[j] == bit_of(bytes@[j / 64], j % 64),
        decreases bytes@.len() - k,
    {
        let v = bytes[k];
        let mut i: u64 = 0;
        while i < 64
            invariant
                k < bytes@.len(),
                v == bytes@[k as int],
                i <= 64,
                out@.len() == k * 64 + i,
                forall|j: int| 0 <= j < out@.len() ==> #[trigger] out@[j] == bit_of(bytes@[j / 64], j % 64),
            decreases 64 - i,
        {
            proof {
                lemma_fundamental_div_mod_converse((k * 64 + i) as int, 64, k as int, i as int);
            }
            out.push((v >> i) & 1 == 1);
            i += 1;
        }
        k += 1;
    }
    out
}

/// The bits of the two elements or-ed together, cut to the 254 bits that an
/// element of the Pallas scalar field can hold whatever their values.
pub fn bitwise_or(value: &Fe, index: &Fe) -> (r: Fe)
    ensures
        r.limbs@[0] == value.limbs@[0] | index.limbs@[0],
        r.limbs@[1] == value.limbs@[1] | index.limbs@[1],
        r.limbs@[2] == value.limbs@[2] | index.limbs@[2],
        r.limbs@[3] == (value.limbs@[3] | index.limbs@[3]) & 0x3fff_ffff_ffff_ffffu64,
        r.wf(ScalarField::Pallas),
{
    let v3 = value.limbs[3];
    let i3 = index.limbs[3];
    let top = (v3 | i3) & 0x3fff_ffff_ffff_ffff;
    assert(top <= 0x3fff_ffff_ffff_ffffu64) by (bit_vector)
        requires
            top == (v3 | i3) & 0x3fff_ffff_ffff_ffffu64,
    ;
    let result = [
        value.limbs[0] | index.limbs[0],
        value.limbs[1] | index.limbs[1],
        value.limbs[2] | index.limbs[2],
        top,
    ];
    let r = Fe { limbs: result };
    proof {
        let d = limb_base();
        let l0 = r.limbs@[0] as int;
        let l1 = r.limbs@[1] as int;
        let l2 = r.limbs@[2] as int;
        let l3 = r.limbs@[3] as int;
        assert(l0 + d * (l1 + d * (l2 + d * l3)) < 0x4000000000000000000000000000000000000000000000000000000000000000)
            by (nonlinear_arith)
            requires
                d == 0x1_0000_0000_0000_0000,
                0 <= l0 < d,
                0 <= l1 < d,
                0 <= l2 < d,
                0 <= l3 <= 0x3fff_ffff_ffff_ffff,
        ;
        assert(r.val() < modulus(ScalarField::Pallas));
    }
    r
}

} // verus!
