use step_circuits::driver::{plan_minroot_chain, DriverState, IvcDriver, StepCircuit};
use step_circuits::errors::IvcError;
use step_circuits::field::{fe_add, fe_fifth_power, Fe};
use step_circuits::minroot::{MinRootCircuit, MinRootIteration, MinRootVariant};
use step_circuits::r1cs::ConstraintSystem;

#[test]
fn minroot_test() {
    // a chain of 10 steps of one iteration each, threaded through the driver,
    // reaches the same state as one native run of all 10 iterations
    let num_steps = 10;
    let num_iters_per_step = 1;
    let zero = Fe::zero();
    let one = Fe::one();
    let (z0, circuits) = plan_minroot_chain(
        MinRootVariant::Counter,
        num_steps,
        num_iters_per_step,
        &zero,
        &zero,
        &one,
    )
    .unwrap();
    let mut driver = IvcDriver::new();
    driver
        .initialize(&StepCircuit::MinRoot(circuits[0].clone()), z0)
        .unwrap();
    for c in circuits.iter() {
        driver.advance(&StepCircuit::MinRoot(c.clone()), true).unwrap();
    }
    assert_eq!(driver.steps_folded, 10);

    let (_z0, recs) = MinRootIteration::new(10, &zero, &zero, &one).unwrap();
    let last = recs[recs.len() - 1];
    assert_eq!(driver.z_curr[0], last.i_plus_1);
    assert_eq!(driver.z_curr[1], last.x_i_plus_1);
    assert_eq!(driver.z_curr[2], last.y_i_plus_1);
}

#[test]
fn sequential_chaining_three_by_four() {
    // 3 steps of 4 iterations end where 12 straight iterations end
    let i0 = Fe::from_u64(5);
    let x0 = Fe::from_u64(11);
    let y0 = Fe::from_u64(13);
    let (z0, circuits) = plan_minroot_chain(MinRootVariant::Counter, 3, 4, &i0, &x0, &y0).unwrap();
    let mut z = z0;
    for c in circuits.iter() {
        z = c.output(&z).unwrap();
    }
    let (_z0, recs) = MinRootIteration::new(12, &i0, &x0, &y0).unwrap();
    let last = recs[11];
    assert_eq!(z[0], last.i_plus_1);
    assert_eq!(z[1], last.x_i_plus_1);
    assert_eq!(z[2], last.y_i_plus_1);
}

#[test]
fn vdf_two_ary_scenario() {
    // x0 = 0, y0 = 1, one iteration: x1 = fifth_root(1), y1 = x0 = 0
    let zero = Fe::zero();
    let one = Fe::one();
    let c = MinRootCircuit::new_with_variant(MinRootVariant::Vdf, vec![zero, one], 1).unwrap();
    let out = c.output(&vec![zero, one]).unwrap();
    assert_eq!(fe_fifth_power(&out[0]), one);
    assert_eq!(out[0], one);
    assert_eq!(out[1], zero);
}

#[test]
fn counter_three_ary_scenario() {
    // i0 = 0, x0 = 0, y0 = 1, two iterations: i2 == 2 and y2 == x1 + 1
    let zero = Fe::zero();
    let one = Fe::one();
    let c = MinRootCircuit::new(vec![zero, zero, one], 2).unwrap();
    let out = c.output(&vec![zero, zero, one]).unwrap();
    let x1 = c.seq[0].x_i_plus_1;
    assert_eq!(fe_fifth_power(&x1), one);
    assert_eq!(out[0], Fe::from_u64(2));
    assert_eq!(out[2], fe_add(&x1, &one));
}

#[test]
fn zero_iteration_identity() {
    // an empty step adds no constraint and hands the state through unchanged
    let zero = Fe::zero();
    let one = Fe::one();
    let c = MinRootCircuit::new(vec![zero, zero, one], 0).unwrap();
    assert_eq!(c.output(&vec![zero, zero, one]).unwrap(), vec![zero, zero, one]);

    let mut cs = ConstraintSystem::new();
    let vi = cs.alloc_var(zero);
    let vx = cs.alloc_var(zero);
    let vy = cs.alloc_var(one);
    let z = vec![vi, vx, vy];
    let before_cons = cs.num_constraints();
    let before_vars = cs.num_vars();
    let out = c.synthesize(&mut cs, &z).unwrap();
    assert_eq!(out, z);
    assert_eq!(cs.num_constraints(), before_cons);
    assert_eq!(cs.num_vars(), before_vars);
}

#[test]
fn arity_mismatch_on_initialize() {
    // each variant rejects exactly the state vectors of the wrong length
    let zero = Fe::zero();
    let one = Fe::one();
    let minroot =
        StepCircuit::MinRoot(MinRootCircuit::new(vec![zero, zero, one], 1).unwrap());
    let hashchain =
        StepCircuit::HashChain(step_circuits::hashchain::HashChainCircuit::new(2));
    let scalar =
        StepCircuit::ScalarMulChain(step_circuits::scalar_mul::ScalarMulChainCircuit::new(1));

    let mut d = IvcDriver::new();
    assert_eq!(d.initialize(&minroot, vec![zero, zero]), Err(IvcError::ArityMismatch));
    assert_eq!(d.initialize(&hashchain, vec![zero, zero]), Err(IvcError::ArityMismatch));
    assert_eq!(d.initialize(&scalar, vec![zero]), Err(IvcError::ArityMismatch));
    assert_eq!(d.initialize(&minroot, vec![zero, zero, one]), Ok(()));

    let mut d1 = IvcDriver::new();
    assert_eq!(d1.initialize(&hashchain, vec![zero]), Ok(()));
    let mut d2 = IvcDriver::new();
    assert_eq!(d2.initialize(&scalar, vec![zero, zero]), Ok(()));
}

#[test]
fn round_trip_native_constrained() {
    // the circuit's output variables carry exactly the native output values
    let i0 = Fe::from_u64(1);
    let x0 = Fe::from_u64(2);
    let y0 = Fe::from_u64(3);
    let c = MinRootCircuit::new(vec![i0, x0, y0], 3).unwrap();
    let native = c.output(&vec![i0, x0, y0]).unwrap();

    let mut cs = ConstraintSystem::new();
    let z = vec![cs.alloc_var(i0), cs.alloc_var(x0), cs.alloc_var(y0)];
    let out = c.synthesize(&mut cs, &z).unwrap();
    assert!(cs.is_satisfied());
    for j in 0..3 {
        assert_eq!(cs.value(out[j]), native[j]);
    }
}

#[test]
fn corrupt_advice_fails() {
    // corrupting one record's advised root makes the step unsatisfiable and
    // the driver refuses to carry a failed fold forward
    let zero = Fe::zero();
    let one = Fe::one();
    let mut c = MinRootCircuit::new(vec![zero, zero, one], 2).unwrap();

    let mut cs = ConstraintSystem::new();
    let z = vec![cs.alloc_var(zero), cs.alloc_var(zero), cs.alloc_var(one)];
    c.synthesize(&mut cs, &z).unwrap();
    assert!(cs.is_satisfied());

    c.seq[1].x_i_plus_1 = fe_add(&c.seq[1].x_i_plus_1, &one);
    let mut cs2 = ConstraintSystem::new();
    let z2 = vec![cs2.alloc_var(zero), cs2.alloc_var(zero), cs2.alloc_var(one)];
    c.synthesize(&mut cs2, &z2).unwrap();
    assert!(!cs2.is_satisfied());

    // the backend reports the unsatisfied step; the chain must end there
    let good = MinRootCircuit::new(vec![zero, zero, one], 2).unwrap();
    let mut d = IvcDriver::new();
    d.initialize(&StepCircuit::MinRoot(good.clone()), vec![zero, zero, one]).unwrap();
    assert_eq!(
        d.advance(&StepCircuit::MinRoot(good), false),
        Err(IvcError::FoldError)
    );
    assert_eq!(d.state, DriverState::Failed);
}

#[test]
fn advance_refuses_foreign_advice() {
    // advice generated from another state ends the chain with ConstraintError
    // even when the backend's fold verdict is positive
    let zero = Fe::zero();
    let one = Fe::one();
    let good = MinRootCircuit::new(vec![zero, zero, one], 1).unwrap();
    let foreign = MinRootCircuit::new(vec![one, one, one], 1).unwrap();
    let mut d = IvcDriver::new();
    d.initialize(&StepCircuit::MinRoot(good), vec![zero, zero, one]).unwrap();
    assert_eq!(
        d.advance(&StepCircuit::MinRoot(foreign), true),
        Err(IvcError::ConstraintError)
    );
    assert_eq!(d.state, DriverState::Failed);
}

#[test]
fn output_refuses_foreign_state() {
    // advice generated from one state is not accepted as a step from another
    let zero = Fe::zero();
    let one = Fe::one();
    let c = MinRootCircuit::new(vec![zero, zero, one], 1).unwrap();
    assert_eq!(
        c.output(&vec![one, one, one]),
        Err(IvcError::ConstraintError)
    );
}

#[test]
fn step_native_recomputes() {
    let i0 = Fe::from_u64(0);
    let x0 = Fe::from_u64(4);
    let y0 = Fe::from_u64(9);
    let mut c = MinRootCircuit::new(vec![i0, x0, y0], 2).unwrap();
    let out = c.step_native(0, vec![i0, x0, y0]).unwrap();
    let direct = c.output(&vec![i0, x0, y0]).unwrap();
    assert_eq!(out, direct);
}

#[test]
fn step_native_advances_from_its_argument() {
    // the state handed in, not the construction-time input, is what the step
    // advances from: chaining two native steps of m iterations lands exactly
    // where 2m straight iterations land
    let i0 = Fe::from_u64(0);
    let x0 = Fe::from_u64(4);
    let y0 = Fe::from_u64(9);
    let mut c = MinRootCircuit::new(vec![i0, x0, y0], 3).unwrap();
    let z1 = c.step_native(0, vec![i0, x0, y0]).unwrap();
    let z2 = c.step_native(1, z1.clone()).unwrap();
    assert_ne!(z2, z1);

    let (_z0, recs) = MinRootIteration::new(6, &i0, &x0, &y0).unwrap();
    let last = recs[5];
    assert_eq!(z2[0], last.i_plus_1);
    assert_eq!(z2[1], last.x_i_plus_1);
    assert_eq!(z2[2], last.y_i_plus_1);
}

#[test]
fn step_native_zero_iterations_is_identity() {
    let z = vec![Fe::from_u64(7), Fe::from_u64(8), Fe::from_u64(9)];
    let mut c = MinRootCircuit::new(z.clone(), 0).unwrap();
    assert_eq!(c.step_native(0, z.clone()).unwrap(), z);
}
