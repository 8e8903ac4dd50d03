use dynamic_data::scalar::Scalar;

#[test]
fn from_limbs_accepts_below_the_modulus_only() {
    let r = [0xffffffff00000001u64, 0x53bda402fffe5bfe, 0x3339d80809a1d805, 0x73eda753299d7d48];
    assert!(Scalar::from_limbs(r).is_none());
    let mut below = r;
    below[0] -= 1;
    assert_eq!(Scalar::from_limbs(below).map(|s| s.limbs()), Some(below));
    assert!(Scalar::from_limbs([0, 0, 0, u64::MAX]).is_none());
    assert_eq!(Scalar::from_limbs([5, 0, 0, 0]), Some(Scalar::from_u64(5)));
}

#[test]
fn small_values_and_low_byte() {
    assert_eq!(Scalar::from_u8(200).limbs(), [200, 0, 0, 0]);
    assert_eq!(Scalar::zero().limbs(), [0, 0, 0, 0]);
    assert_eq!(Scalar::from_u64(0x1234).low_byte(), 0x34);
    let s = Scalar::from_limbs([0x1ff, 7, 0, 1]).unwrap();
    assert_eq!(s.low_byte(), 0xff);
}
