//! The driver of an incremental proof chain.
//!
//! A chain is strictly sequential: the driver binds the external folding
//! scheme to the first step circuit and the initial state, then advances one
//! step at a time, each advance folding one circuit and carrying the state the
//! circuit's own advice produced — one witness computation feeds both the
//! circuit and the state handed to the next one. The folding call itself is
//! the backend's; the driver consumes its verdict and refuses to go on after
//! a failure.

use vstd::prelude::*;
use crate::errors::IvcError;
use crate::field::Fe;
use crate::hashchain::HashChainCircuit;
use crate::minroot::{
    chain_ok, lemma_state_composes, mr_iter, rec_in, state_of_vec, step_root_ok, MinRootCircuit,
    MinRootVariant,
};
use crate::r1cs::{cs_extends, val_at, vals_of, ConstraintSystem};
use crate::scalar_mul::ScalarMulChainCircuit;
use vstd::arithmetic::div_mod::{lemma_fundamental_div_mod, lemma_mod_bound};
use vstd::arithmetic::mul::lemma_mul_inequality;

verus! {

/// One step circuit of any of the three kinds, under the one capability set
/// the driver needs: an arity, a native output, and constraint synthesis.
#[derive(Clone, Debug)]
pub enum StepCircuit {
    MinRoot(MinRootCircuit),
    HashChain(HashChainCircuit),
    ScalarMulChain(ScalarMulChainCircuit),
}

impl StepCircuit {
    /// The arity of the state vector the circuit threads.
    pub open spec fn arity_spec(&self) -> nat {
        match self {
            StepCircuit::MinRoot(c) => c.variant.arity_spec(),
            StepCircuit::HashChain(_) => 1,
            StepCircuit::ScalarMulChain(_) => 2,
        }
    }

    /// Structural well-formedness of the advice the circuit carries.
    pub open spec fn wf_spec(&self) -> bool {
        match self {
            StepCircuit::MinRoot(c) => c.seq_wf(),
            StepCircuit::HashChain(c) => c.wf_spec(),
            StepCircuit::ScalarMulChain(c) => c.wf_spec(),
        }
    }

    /// The arity of the state vector the circuit threads.
    pub fn arity(&self) -> (r: usize)
        ensures
            r == self.arity_spec(),
    {
        match self {
            StepCircuit::MinRoot(c) => c.arity(),
            StepCircuit::HashChain(c) => c.arity(),
            StepCircuit::ScalarMulChain(c) => c.arity(),
        }
    }

    /// Whether the circuit's advice extends the given state: a MinRoot step
    /// carries the state its advice was generated from in its first record and
    /// accepts exactly that state; the other two kinds accept any state.
    pub open spec fn accepts_state(&self, z: Seq<Fe>) -> bool {
        match self {
            StepCircuit::MinRoot(c) => c.seq@.len() == 0 || rec_in(c.seq@[0]) == (
            match c.variant {
                MinRootVariant::Vdf => (c.seq@[0].i@, z[0]@, z[1]@),
                MinRootVariant::Counter => (z[0]@, z[1]@, z[2]@),
            }),
            StepCircuit::HashChain(_) => true,
            StepCircuit::ScalarMulChain(_) => true,
        }
    }

    /// The native output of the step on the state `z`, exactly as the matching
    /// circuit's own `output` computes it: it succeeds exactly on the state
    /// the advice extends.
    pub fn output(&self, z: &Vec<Fe>) -> (r: Result<Vec<Fe>, IvcError>)
        requires
            self.wf_spec(),
            z@.len() == self.arity_spec(),
            forall|j: int| 0 <= j < z@.len() ==> (#[trigger] z@[j]).wf(),
        ensures
            r is Ok <==> self.accepts_state(z@),
            r matches Err(e) ==> e == IvcError::ConstraintError,
            r matches Ok(out) ==> out@.len() == self.arity_spec() && (forall|j: int|
                0 <= j < out@.len() ==> (#[trigger] out@[j]).wf()) && self.output_ok(z@, out@),
    {
        match self {
            StepCircuit::MinRoot(c) => c.output(z),
            StepCircuit::HashChain(c) => c.output(z),
            StepCircuit::ScalarMulChain(c) => c.output(z),
        }
    }
}

impl StepCircuit {
    /// Synthesizes the step's constraints into `cs` from the state variables
    /// `z`, dispatching to the matching circuit, with each circuit's own
    /// contract carried through: the returned variables hold the step's output
    /// values, the variable and constraint counts are fixed, and for the
    /// MinRoot kind the added constraints are satisfied exactly when the
    /// advice obeys its relations, while the two gadget-backed kinds are
    /// satisfied by construction.
    pub fn synthesize(&self, cs: &mut ConstraintSystem, z: &Vec<usize>) -> (r: Result<
        Vec<usize>,
        IvcError,
    >)
        requires
            old(cs).wf(),
            self.wf_spec(),
            z@.len() == self.arity_spec(),
            forall|j: int| 0 <= j < z@.len() ==> z@[j] < old(cs).vals@.len(),
        ensures
            final(cs).wf(),
            cs_extends(*final(cs), *old(cs)),
            r is Ok,
            r matches Ok(out) ==> out@.len() == self.arity_spec() && (forall|j: int|
                0 <= j < out@.len() ==> #[trigger] out@[j] < final(cs).vals@.len()),
            (match self {
                StepCircuit::MinRoot(c) => {
                    let s0 = crate::minroot::z_state(c.variant, vals_of(old(cs).vals@), z@);
                    let st = crate::minroot::advice_state(c.variant, c.seq@, c.seq@.len(), s0);
                    &&& final(cs).vals@.len() == old(cs).vals@.len() + c.seq@.len()
                        * c.variant.vars_per_iter()
                    &&& final(cs).constraints@.len() == old(cs).constraints@.len() + c.seq@.len()
                        * c.variant.cons_per_iter()
                    &&& (c.seq@.len() == 0 ==> *final(cs) == *old(cs))
                    &&& (r matches Ok(out) ==> (c.seq@.len() == 0 ==> out@ == z@) && (forall|
                        j: int,
                    |
                        0 <= j < out@.len() ==> val_at(
                            vals_of(final(cs).vals@),
                            #[trigger] out@[j] as nat,
                        ) == crate::minroot::state_outputs(c.variant, st)[j]))
                    &&& (final(cs).satisfied_from(old(cs).constraints@.len() as int)
                        <==> crate::minroot::relations_ok(c.variant, c.seq@, s0))
                },
                StepCircuit::HashChain(c) => {
                    let d0 = val_at(vals_of(old(cs).vals@), z@[0] as nat);
                    &&& final(cs).vals@.len() == old(cs).vals@.len() + c.x_i@.len() + 1
                    &&& final(cs).constraints@.len() == old(cs).constraints@.len() + 1
                    &&& final(cs).satisfied_from(old(cs).constraints@.len() as int)
                    &&& (r matches Ok(out) ==> val_at(
                        vals_of(final(cs).vals@),
                        out@[0] as nat,
                    ) == crate::hashchain::sponge_digest(c.absorbed(d0)))
                },
                StepCircuit::ScalarMulChain(c) => {
                    &&& final(cs).vals@.len() == old(cs).vals@.len() + c.num_sm_per_step * (
                    crate::scalar_mul::NUM_CHALLENGE_BITS + 7)
                    &&& final(cs).constraints@.len() == old(cs).constraints@.len()
                        + c.num_sm_per_step * (crate::scalar_mul::NUM_CHALLENGE_BITS + 1)
                    &&& final(cs).satisfied_from(old(cs).constraints@.len() as int)
                    &&& (c.num_sm_per_step == 0 ==> *final(cs) == *old(cs))
                    &&& (r matches Ok(out) ==> (c.num_sm_per_step == 0 ==> out@ == z@) && (
                    c.num_sm_per_step > 0 ==> val_at(vals_of(final(cs).vals@), out@[0] as nat)
                        == c.last_fold().0 && val_at(vals_of(final(cs).vals@), out@[1] as nat)
                        == c.last_fold().1))
                },
            }),
    {
        match self {
            StepCircuit::MinRoot(c) => c.synthesize(cs, z),
            StepCircuit::HashChain(c) => c.synthesize(cs, z),
            StepCircuit::ScalarMulChain(c) => c.synthesize(cs, z),
        }
    }
}

/// The two working states of a chain, and the terminal state a failure leaves
/// behind: a failed chain must not be advanced further.
#[derive(Clone, Copy, PartialEq, Eq, Structural, Debug)]
pub enum DriverState {
    Uninitialized,
    Running,
    Failed,
}

/// The driver of one proof chain: the public state vector it threads between
/// steps, and how many steps were folded so far. The folding backend's own
/// accumulator lives outside; the driver consumes one verdict per step.
#[derive(Clone, Debug)]
pub struct IvcDriver {
    pub state: DriverState,
    pub arity: usize,
    pub z0: Vec<Fe>,
    pub z_curr: Vec<Fe>,
    pub steps_folded: usize,
}

impl IvcDriver {
    /// A running driver threads well-formed state vectors of its arity.
    pub open spec fn wf_spec(&self) -> bool {
        self.state is Running ==> {
            &&& self.z0@.len() == self.arity as nat
            &&& self.z_curr@.len() == self.arity as nat
            &&& forall|j: int| 0 <= j < self.z0@.len() ==> (#[trigger] self.z0@[j]).wf()
            &&& forall|j: int| 0 <= j < self.z_curr@.len() ==> (#[trigger] self.z_curr@[j]).wf()
        }
    }

    /// A fresh, unbound driver.
    pub fn new() -> (r: IvcDriver)
        ensures
            r.state is Uninitialized,
            r.wf_spec(),
    {
        IvcDriver {
            state: DriverState::Uninitialized,
            arity: 0,
            z0: Vec::new(),
            z_curr: Vec::new(),
            steps_folded: 0,
        }
    }

    /// Binds the chain to its first circuit and initial state. Fails with
    /// `ArityMismatch` exactly when the state vector's length is not the
    /// circuit's arity; on failure the driver is left unbound.
    pub fn initialize(&mut self, c: &StepCircuit, z0: Vec<Fe>) -> (r: Result<(), IvcError>)
        requires
            old(self).state is Uninitialized,
            c.wf_spec(),
            forall|j: int| 0 <= j < z0@.len() ==> (#[trigger] z0@[j]).wf(),
        ensures
            r is Ok <==> z0@.len() == c.arity_spec(),
            r matches Err(e) ==> e == IvcError::ArityMismatch && *final(self) == *old(self),
            r is Ok ==> final(self).state is Running && final(self).wf_spec()
                && final(self).z0@ == z0@ && final(self).z_curr@ == z0@
                && final(self).steps_folded == 0 && final(self).arity as nat == c.arity_spec(),
    {
        let a = c.arity();
        if z0.len() != a {
            return Err(IvcError::ArityMismatch);
        }
        let z_curr = clone_state(&z0);
        self.state = DriverState::Running;
        self.arity = a;
        self.z0 = z0;
        self.z_curr = z_curr;
        self.steps_folded = 0;
        Ok(())
    }

    /// Advances the chain by one step: the circuit's advice must extend the
    /// running state, and the folding backend's verdict on the step is
    /// `fold_ok`. On `ArityMismatch` the driver is unchanged; a constraint or
    /// fold failure leaves the chain failed, never to be advanced again; on
    /// success the running state becomes the circuit's native output.
    pub fn advance(&mut self, c: &StepCircuit, fold_ok: bool) -> (r: Result<(), IvcError>)
        requires
            old(self).state is Running,
            old(self).wf_spec(),
            old(self).steps_folded < usize::MAX,
            c.wf_spec(),
        ensures
            final(self).wf_spec(),
            c.arity_spec() != old(self).arity as nat ==> r == Err::<(), IvcError>(
                IvcError::ArityMismatch,
            ) && *final(self) == *old(self),
            c.arity_spec() == old(self).arity as nat ==> {
                &&& (r is Ok <==> fold_ok && c.accepts_state(old(self).z_curr@))
                &&& (r == Err::<(), IvcError>(IvcError::ConstraintError) <==> !c.accepts_state(
                    old(self).z_curr@,
                ))
                &&& (r == Err::<(), IvcError>(IvcError::FoldError) <==> c.accepts_state(
                    old(self).z_curr@,
                ) && !fold_ok)
                &&& (r is Ok ==> final(self).state is Running && final(self).steps_folded == old(
                    self,
                ).steps_folded + 1 && final(self).z0@ == old(self).z0@ && final(self).arity == old(
                    self,
                ).arity && c.output_ok(old(self).z_curr@, final(self).z_curr@))
                &&& (r is Err ==> final(self).state is Failed)
            },
    {
        let a = c.arity();
        if a != self.arity {
            return Err(IvcError::ArityMismatch);
        }
        let out = match c.output(&self.z_curr) {
            Ok(out) => out,
            Err(_) => {
                self.state = DriverState::Failed;
                return Err(IvcError::ConstraintError);
            },
        };
        if !fold_ok {
            self.state = DriverState::Failed;
            return Err(IvcError::FoldError);
        }
        self.z_curr = out;
        self.steps_folded = self.steps_folded + 1;
        Ok(())
    }
}

impl StepCircuit {
    /// What `output` returns on the state values `z`, as a relation: used to
    /// describe the state an `advance` installs.
    pub open spec fn output_ok(&self, z: Seq<Fe>, out: Seq<Fe>) -> bool {
        match self {
            StepCircuit::MinRoot(c) => if c.seq@.len() == 0 {
                out == z
            } else {
                let last = c.seq@[c.seq@.len() - 1];
                rec_in(c.seq@[0]) == (match c.variant {
                    MinRootVariant::Vdf => (c.seq@[0].i@, z[0]@, z[1]@),
                    MinRootVariant::Counter => (z[0]@, z[1]@, z[2]@),
                }) && out.len() == c.variant.arity_spec() && (match c.variant {
                    MinRootVariant::Vdf => out[0] == last.x_i_plus_1 && out[1]
                        == last.y_i_plus_1,
                    MinRootVariant::Counter => out[0] == last.i_plus_1 && out[1]
                        == last.x_i_plus_1 && out[2] == last.y_i_plus_1,
                })
            },
            StepCircuit::HashChain(c) => out.len() == 1 && out[0]@
                == crate::hashchain::sponge_digest(c.absorbed(z[0]@)),
            StepCircuit::ScalarMulChain(c) => if c.num_sm_per_step == 0 {
                out == z
            } else {
                out.len() == 2 && out[0]@ == c.last_fold().0 && out[1]@ == c.last_fold().1
            },
        }
    }
}

/// Copies a state vector.
fn clone_state(z: &Vec<Fe>) -> (out: Vec<Fe>)
    ensures
        out@ == z@,
{
    let mut out: Vec<Fe> = Vec::new();
    let mut j: usize = 0;
    while j < z.len()
        invariant
            j <= z@.len(),
            out@ == z@.take(j as int),
        decreases z@.len() - j,
    {
        out.push(z[j]);
        proof {
            assert(out@ == z@.take(j + 1 as int));
        }
        j = j + 1;
    }
    proof {
        assert(z@.take(z@.len() as int) == z@);
    }
    out
}


/// When every one of `steps` segments of `m` iterations passes the root
/// check from where the previous segment left off, the whole chain of
/// `steps * m` iterations passes it.
pub proof fn lemma_chain_ok_split(v: MinRootVariant, s: (nat, nat, nat), m: nat, steps: nat)
    requires
        m > 0,
        forall|j: nat|
            j < steps ==> chain_ok(v, #[trigger] mr_iter(v, s, (j * m) as nat), m),
    ensures
        chain_ok(v, s, (steps * m) as nat),
{
    assert forall|k: nat| k < (steps * m) as nat implies step_root_ok(
        #[trigger] mr_iter(v, s, k),
    ) by {
        let q = k as int / m as int;
        let rr = k as int % m as int;
        lemma_fundamental_div_mod(k as int, m as int);
        lemma_mod_bound(k as int, m as int);
        assert(0 <= q);
        if q >= steps {
            lemma_mul_inequality(steps as int, q, m as int);
            assert(false);
        }
        assert((q * m) as nat + rr as nat == k);
        lemma_state_composes(v, s, (q * m) as nat, rr as nat);
        assert(chain_ok(v, mr_iter(v, s, (q as nat * m) as nat), m));
        assert(step_root_ok(mr_iter(v, mr_iter(v, s, (q as nat * m) as nat), rr as nat)));
    }
}

/// If one segment of `m` iterations fails the root check, the whole chain of
/// `steps * m` iterations fails it.
pub proof fn lemma_chain_ok_restrict(
    v: MinRootVariant,
    s: (nat, nat, nat),
    m: nat,
    j: nat,
    steps: nat,
)
    requires
        j < steps,
        !chain_ok(v, mr_iter(v, s, (j * m) as nat), m),
    ensures
        !chain_ok(v, s, (steps * m) as nat),
{
    let mid = mr_iter(v, s, (j * m) as nat);
    let rr = choose|rr: nat| rr < m && !step_root_ok(#[trigger] mr_iter(v, mid, rr));
    lemma_state_composes(v, s, (j * m) as nat, rr);
    let k = (j * m) as nat + rr;
    assert(!step_root_ok(mr_iter(v, s, k)));
    assert(k < (steps * m) as nat) by {
        lemma_mul_inequality(j as int + 1, steps as int, m as int);
        vstd::arithmetic::mul::lemma_mul_is_distributive_add_other_way(m as int, j as int, 1);
    }
}



/// Plans one step of a MinRoot chain: generates the circuit for `m`
/// iterations from the state `cur` and hands back the state its advice
/// produces, the single source of truth for the next step.
#[verifier::rlimit(60)]
#[verifier::spinoff_prover]
fn plan_one_step(v: MinRootVariant, cur: &Vec<Fe>, m: usize) -> (r: Result<
    (MinRootCircuit, Vec<Fe>),
    IvcError,
>)
    requires
        cur@.len() == v.arity_spec(),
        forall|t: int| 0 <= t < cur@.len() ==> (#[trigger] cur@[t]).wf(),
    ensures
        r is Ok <==> chain_ok(v, state_of_vec(v, cur@), m as nat),
        r matches Err(e) ==> e == IvcError::WitnessError,
        r matches Ok((c, next)) ==> {
            &&& c.valid()
            &&& c.variant == v
            &&& c.num_iters_per_step == m
            &&& c.input_state() == state_of_vec(v, cur@)
            &&& next@.len() == v.arity_spec()
            &&& (forall|t: int| 0 <= t < next@.len() ==> (#[trigger] next@[t]).wf())
            &&& state_of_vec(v, next@) == mr_iter(v, state_of_vec(v, cur@), m as nat)
        },
{
    let input = clone_state(cur);
    let c = match MinRootCircuit::new_with_variant(v, input, m) {
        Ok(c) => c,
        Err(e) => {
            return Err(e);
        },
    };
    let next = match c.output(cur) {
        Ok(o) => o,
        Err(_) => {
            proof {
                assert(false);
            }
            return Err(IvcError::WitnessError);
        },
    };
    proof {
        if c.seq@.len() > 0 {
            let last = c.seq@[c.seq@.len() - 1];
            match v {
                MinRootVariant::Vdf => {
                    assert(next@[0] == last.x_i_plus_1);
                    assert(next@[1] == last.y_i_plus_1);
                },
                MinRootVariant::Counter => {
                    assert(next@[0] == last.i_plus_1);
                    assert(next@[1] == last.x_i_plus_1);
                    assert(next@[2] == last.y_i_plus_1);
                },
            }
        }
        crate::minroot::lemma_output_state(c, next@);
    }
    Ok((c, next))
}

/// Plans a MinRoot proof chain: one witness run per step, each step's circuit
/// generated from the state the previous step's advice produced — the one
/// source of truth for both the circuits' advice and the threaded state.
/// Returns the initial state vector and the `num_steps` circuits; fails with
/// `WitnessError` exactly when some iteration of the whole chain fails the
/// fifth-power check.
#[verifier::rlimit(100)]
#[verifier::spinoff_prover]
pub fn plan_minroot_chain(
    v: MinRootVariant,
    num_steps: usize,
    num_iters_per_step: usize,
    i_0: &Fe,
    x_0: &Fe,
    y_0: &Fe,
) -> (r: Result<(Vec<Fe>, Vec<MinRootCircuit>), IvcError>)
    requires
        i_0.wf(),
        x_0.wf(),
        y_0.wf(),
    ensures
        ({
            let s0 = match v {
                MinRootVariant::Vdf => (0nat, x_0@, y_0@),
                MinRootVariant::Counter => (i_0@, x_0@, y_0@),
            };
            &&& (r is Ok <==> chain_ok(
                v,
                s0,
                (num_steps as nat * num_iters_per_step as nat) as nat,
            ))
            &&& (r matches Err(e) ==> e == IvcError::WitnessError)
            &&& (r matches Ok((z0, cs)) ==> {
                &&& z0@.len() == v.arity_spec()
                &&& state_of_vec(v, z0@) == s0
                &&& forall|j: int| 0 <= j < z0@.len() ==> (#[trigger] z0@[j]).wf()
                &&& cs@.len() == num_steps as nat
                &&& forall|j: int|
                    0 <= j < cs@.len() ==> (#[trigger] cs@[j]).valid() && cs@[j].variant == v
                        && cs@[j].num_iters_per_step == num_iters_per_step
                &&& forall|j: int|
                    0 <= j < cs@.len() ==> (#[trigger] cs@[j]).input_state() == mr_iter(
                        v,
                        s0,
                        (j * num_iters_per_step as int) as nat,
                    )
            })
        }),
{
    let ghost s0 = match v {
        MinRootVariant::Vdf => (0nat, x_0@, y_0@),
        MinRootVariant::Counter => (i_0@, x_0@, y_0@),
    };
    let m = num_iters_per_step;
    let mut z0: Vec<Fe> = Vec::new();
    match v {
        MinRootVariant::Vdf => {
            z0.push(*x_0);
            z0.push(*y_0);
        },
        MinRootVariant::Counter => {
            z0.push(*i_0);
            z0.push(*x_0);
            z0.push(*y_0);
        },
    }
    let mut circuits: Vec<MinRootCircuit> = Vec::new();
    let mut cur = clone_state(&z0);
    let mut j: usize = 0;
    while j < num_steps
        invariant
            s0 == (match v {
                MinRootVariant::Vdf => (0nat, x_0@, y_0@),
                MinRootVariant::Counter => (i_0@, x_0@, y_0@),
            }),
            m == num_iters_per_step,
            j <= num_steps,
            cur@.len() == v.arity_spec(),
            forall|t: int| 0 <= t < cur@.len() ==> (#[trigger] cur@[t]).wf(),
            state_of_vec(v, cur@) == mr_iter(v, s0, (j * m as int) as nat),
            circuits@.len() == j as nat,
            forall|t: int|
                0 <= t < circuits@.len() ==> (#[trigger] circuits@[t]).valid()
                    && circuits@[t].variant == v && circuits@[t].num_iters_per_step == m,
            forall|t: int|
                0 <= t < circuits@.len() ==> (#[trigger] circuits@[t]).input_state() == mr_iter(
                    v,
                    s0,
                    (t * m as int) as nat,
                ),
            forall|t: nat|
                t < j as nat ==> chain_ok(v, #[trigger] mr_iter(v, s0, (t * m as int) as nat), m as nat),
        decreases num_steps - j,
    {
        let (c, next) = match plan_one_step(v, &cur, m) {
            Ok(p) => p,
            Err(e) => {
                proof {
                    assert(!chain_ok(v, mr_iter(v, s0, (j * m as int) as nat), m as nat));
                    assert(m > 0) by {
                        if m == 0 {
                            assert(chain_ok(v, mr_iter(v, s0, (j * m as int) as nat), 0));
                        }
                    }
                    lemma_chain_ok_restrict(v, s0, m as nat, j as nat, num_steps as nat);
                }
                return Err(e);
            },
        };
        proof {
            lemma_state_composes(v, s0, (j * m as int) as nat, m as nat);
            assert((j * m as int) as nat + m as nat == ((j + 1) * m as int) as nat) by {
                vstd::arithmetic::mul::lemma_mul_is_distributive_add_other_way(
                    m as int,
                    j as int,
                    1,
                );
            }
        }
        circuits.push(c);
        cur = next;
        j = j + 1;
    }
    proof {
        if m > 0 {
            lemma_chain_ok_split(v, s0, m as nat, num_steps as nat);
        } else {
            assert((num_steps as nat * 0) as nat == 0) by {
                vstd::arithmetic::mul::lemma_mul_basics(num_steps as int);
            }
        }
    }
    Ok((z0, circuits))
}

/// Plans a hash-chain proof chain: one independently sampled circuit per step.
pub fn plan_hashchain_chain(num_steps: usize, num_elts_per_step: usize) -> (r: Vec<
    HashChainCircuit,
>)
    ensures
        r@.len() == num_steps as nat,
        forall|j: int|
            0 <= j < r@.len() ==> (#[trigger] r@[j]).wf_spec() && r@[j].num_elts_per_step
                == num_elts_per_step,
{
    let mut circuits: Vec<HashChainCircuit> = Vec::new();
    let mut j: usize = 0;
    while j < num_steps
        invariant
            j <= num_steps,
            circuits@.len() == j as nat,
            forall|t: int|
                0 <= t < circuits@.len() ==> (#[trigger] circuits@[t]).wf_spec()
                    && circuits@[t].num_elts_per_step == num_elts_per_step,
        decreases num_steps - j,
    {
        circuits.push(HashChainCircuit::new(num_elts_per_step));
        j = j + 1;
    }
    circuits
}

/// Plans a scalar-multiplication proof chain: one independently sampled
/// circuit per step.
pub fn plan_scalar_mul_chain(num_steps: usize, num_sm_per_step: usize) -> (r: Vec<
    ScalarMulChainCircuit,
>)
    ensures
        r@.len() == num_steps as nat,
        forall|j: int|
            0 <= j < r@.len() ==> (#[trigger] r@[j]).wf_spec() && r@[j].num_sm_per_step
                == num_sm_per_step,
{
    let mut circuits: Vec<ScalarMulChainCircuit> = Vec::new();
    let mut j: usize = 0;
    while j < num_steps
        invariant
            j <= num_steps,
            circuits@.len() == j as nat,
            forall|t: int|
                0 <= t < circuits@.len() ==> (#[trigger] circuits@[t]).wf_spec()
                    && circuits@[t].num_sm_per_step == num_sm_per_step,
        decreases num_steps - j,
    {
        circuits.push(ScalarMulChainCircuit::new(num_sm_per_step));
        j = j + 1;
    }
    circuits
}

} // verus!
