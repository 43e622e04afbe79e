use minroot_vdf::bits::{bitwise_or, u64_to_bits_le};
use minroot_vdf::field::Fe;

#[test]
fn bits_are_little_endian_per_limb() {
    let bits = u64_to_bits_le(&[5, 1 << 63]);
    assert_eq!(bits.len(), 128);
    assert!(bits[0]);
    assert!(!bits[1]);
    assert!(bits[2]);
    assert!(bits[3..127].iter().all(|b| !b));
    assert!(bits[127]);
    assert!(u64_to_bits_le(&[]).is_empty());
    assert!(u64_to_bits_le(&[u64::MAX]).iter().all(|b| *b));
}

#[test]
fn bitwise_or_joins_bits_within_capacity() {
    let a = Fe { limbs: [0b1010, 1, 0, 1 << 61] };
    let b = Fe { limbs: [0b0101, 2, 4, 0] };
    assert_eq!(bitwise_or(&a, &b), Fe { limbs: [0b1111, 3, 4, 1 << 61] });
    let high = Fe { limbs: [0, 0, 0, u64::MAX] };
    assert_eq!(bitwise_or(&high, &b), Fe { limbs: [0b0101, 2, 4, (1 << 62) - 1] });
}
