use step_circuits::errors::IvcError;
use step_circuits::field::{fe_add, fe_fifth_power, fe_mul, fifth_root, Fe};

#[test]
fn fe_add_concrete() {
    let a = Fe::from_u64(2);
    let b = Fe::from_u64(3);
    assert_eq!(fe_add(&a, &b), Fe::from_u64(5));
}

#[test]
fn fe_mul_concrete() {
    let a = Fe::from_u64(6);
    let b = Fe::from_u64(7);
    assert_eq!(fe_mul(&a, &b), Fe::from_u64(42));
}

#[test]
fn fe_add_matches_halo2curves() {
    // the wrapper and a direct use of the field crate must agree
    let a = Fe::from_limbs(0x1234567890abcdef, 0xfedcba0987654321, 0x1111, 0x2222).unwrap();
    let b = Fe::from_limbs(0xdeadbeefdeadbeef, 0x0123456789abcdef, 0x3333, 0x0444).unwrap();
    let al = a.limbs();
    let bl = b.limbs();
    let fa = halo2curves::bn256::Fr::from_raw([al.0, al.1, al.2, al.3]);
    let fb = halo2curves::bn256::Fr::from_raw([bl.0, bl.1, bl.2, bl.3]);
    let sum = fa + fb;
    let by = sum.to_bytes();
    let mut l = [0u64; 4];
    for k in 0..4 {
        l[k] = u64::from_le_bytes(by[k * 8..(k + 1) * 8].try_into().unwrap());
    }
    let expect = Fe::from_limbs(l[0], l[1], l[2], l[3]).unwrap();
    assert_eq!(fe_add(&a, &b), expect);
}

#[test]
fn fe_fifth_power_concrete() {
    assert_eq!(fe_fifth_power(&Fe::from_u64(2)), Fe::from_u64(32));
    assert_eq!(fe_fifth_power(&Fe::from_u64(3)), Fe::from_u64(243));
}

#[test]
fn fifth_root_of_one_is_one() {
    let r = fifth_root(&Fe::one()).unwrap();
    assert_eq!(r, Fe::one());
    assert_eq!(fe_fifth_power(&r), Fe::one());
}

#[test]
fn fifth_root_roundtrip_samples() {
    // fifth_root(v)^5 == v on a spread of sampled values
    let samples = [
        Fe::from_u64(2),
        Fe::from_u64(31),
        Fe::from_u64(123456789),
        Fe::from_limbs(0xdeadbeef12345678, 0xabcdef, 0x42, 0x2c00000000000000).unwrap(),
    ];
    for v in samples.iter() {
        let r = fifth_root(v).unwrap();
        assert_eq!(fe_fifth_power(&r), *v);
    }
}

#[test]
fn fifth_root_is_not_the_argument() {
    // if the exponentiation handed its argument back, the self-check would
    // reject it: 2^5 != 2
    let v = Fe::from_u64(2);
    let r = fifth_root(&v).unwrap();
    assert_ne!(r, v);
}

#[test]
fn from_limbs_accepts_exactly_canonical() {
    // the modulus itself is rejected, the modulus minus one is accepted
    let p = [
        0x43e1f593f0000001u64,
        0x2833e84879b97091u64,
        0xb85045b68181585du64,
        0x30644e72e131a029u64,
    ];
    assert!(Fe::from_limbs(p[0], p[1], p[2], p[3]).is_none());
    let pm1 = Fe::from_limbs(p[0] - 1, p[1], p[2], p[3]).unwrap();
    assert_eq!(fe_add(&pm1, &Fe::one()), Fe::zero());
    assert_eq!(Fe::minus_one(), pm1);
}

#[test]
fn limbs_roundtrip() {
    let a = Fe::from_limbs(7, 8, 9, 10).unwrap();
    assert_eq!(a.limbs(), (7, 8, 9, 10));
}

#[test]
fn witness_error_is_comparable() {
    assert_eq!(IvcError::WitnessError, IvcError::WitnessError);
    assert_ne!(IvcError::WitnessError, IvcError::FoldError);
}
