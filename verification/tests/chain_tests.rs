use step_circuits::driver::{plan_hashchain_chain, plan_scalar_mul_chain};
use step_circuits::field::Fe;
use step_circuits::hashchain::HashChainCircuit;
use step_circuits::r1cs::ConstraintSystem;
use step_circuits::scalar_mul::{fixed_commitment, mul_then_add, scalar_mul, ScalarMulChainCircuit};

#[test]
fn hashchain_new_samples_the_declared_count() {
    let c = HashChainCircuit::new(5);
    assert_eq!(c.num_elts_per_step, 5);
    assert_eq!(c.x_i.len(), 5);
}

#[test]
fn hashchain_native_constrained_equal() {
    // the digest variable of the synthesized step holds the native digest
    let c = HashChainCircuit {
        num_elts_per_step: 2,
        x_i: vec![Fe::from_u64(7), Fe::from_u64(9)],
    };
    let z = vec![Fe::from_u64(3)];
    let native = c.output(&z).unwrap();

    let mut cs = ConstraintSystem::new();
    let zv = vec![cs.alloc_var(Fe::from_u64(3))];
    let out = c.synthesize(&mut cs, &zv).unwrap();
    assert!(cs.is_satisfied());
    assert_eq!(cs.value(out[0]), native[0]);
}

#[test]
fn hashchain_digest_is_deterministic_and_moves() {
    let c = HashChainCircuit {
        num_elts_per_step: 1,
        x_i: vec![Fe::from_u64(7)],
    };
    let z = vec![Fe::zero()];
    let a = c.output(&z).unwrap();
    let b = c.output(&z).unwrap();
    assert_eq!(a, b);
    // if the sponge handed its first input back, the chain would never move
    assert_ne!(a[0], z[0]);

    let c2 = HashChainCircuit {
        num_elts_per_step: 1,
        x_i: vec![Fe::from_u64(8)],
    };
    assert_ne!(c2.output(&z).unwrap()[0], a[0]);
}

#[test]
fn commitments_are_the_fixed_point() {
    let c = ScalarMulChainCircuit::new(2);
    let base = fixed_commitment();
    assert!(!base.inf);
    for i in 0..2 {
        assert_eq!(c.comm1[i], base);
        assert_eq!(c.comm2[i], base);
    }
}

#[test]
fn scalar_mul_ladder_composes() {
    // 1*P is P; 3*P is P + 2*P, exercising bit order and the final addition
    let base = ScalarMulChainCircuit::new(1).comm1[0];
    let p1 = scalar_mul(&vec![true], &base);
    assert_eq!(p1, base);

    let p2 = scalar_mul(&vec![false, true], &base);
    assert_ne!(p2, base);
    let p3 = scalar_mul(&vec![true, true], &base);
    let p1_plus_p2 = mul_then_add(&vec![true], &base, &p2);
    assert_eq!(p3, p1_plus_p2);
}

#[test]
fn scalar_mul_of_zero_scalar_is_identity() {
    let base = ScalarMulChainCircuit::new(1).comm1[0];
    let r = scalar_mul(&vec![false, false, false], &base);
    assert!(r.inf);
}

#[test]
fn scalar_mul_native_constrained_equal() {
    let c = ScalarMulChainCircuit::new(2);
    let z = vec![Fe::zero(), Fe::zero()];
    let native = c.output(&z).unwrap();

    let mut cs = ConstraintSystem::new();
    let zv = vec![cs.alloc_var(Fe::zero()), cs.alloc_var(Fe::zero())];
    let out = c.synthesize(&mut cs, &zv).unwrap();
    assert!(cs.is_satisfied());
    assert_eq!(cs.value(out[0]), native[0]);
    assert_eq!(cs.value(out[1]), native[1]);
}

#[test]
fn scalar_mul_zero_substeps_identity() {
    let c = ScalarMulChainCircuit::new(0);
    let z = vec![Fe::from_u64(5), Fe::from_u64(6)];
    assert_eq!(c.output(&z).unwrap(), z);

    let mut cs = ConstraintSystem::new();
    let zv = vec![cs.alloc_var(Fe::from_u64(5)), cs.alloc_var(Fe::from_u64(6))];
    let before = cs.num_constraints();
    let out = c.synthesize(&mut cs, &zv).unwrap();
    assert_eq!(out, zv);
    assert_eq!(cs.num_constraints(), before);
}

#[test]
fn planners_build_full_chains() {
    let hs = plan_hashchain_chain(3, 2);
    assert_eq!(hs.len(), 3);
    assert!(hs.iter().all(|c| c.x_i.len() == 2));
    let ss = plan_scalar_mul_chain(2, 1);
    assert_eq!(ss.len(), 2);
    assert!(ss.iter().all(|c| c.rbits.len() == 1 && c.rbits[0].len() == 128));
}
