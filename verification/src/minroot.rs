//! The MinRoot verifiable-delay function: witness generation and the step
//! circuit enforcing its transition relation.
//!
//! One iteration maps `(x, y)` to `(fifth_root(x + y), x)`; the variant with a
//! counter maps `(i, x, y)` to `(i + 1, fifth_root(x + y), x + i)`. The fifth
//! root is non-deterministic advice: the circuit enforces it by building the
//! fifth power of the advised root out of two squarings and one product and
//! equating that with `x + y`.

use vstd::prelude::*;
use crate::errors::IvcError;
use crate::field::{
    add_m, lemma_pow5_chain, mul_m, p, pow5_m, pow_m, root_exp, Fe, fe_add, fe_mul, fifth_root,
};
use crate::r1cs::{
    con_sat, cs_extends, lemma_con_sat_extend, lemma_con_sat_vals, val_at, vals_of, Constraint,
    ConstraintSystem, Lc,
};
use vstd::arithmetic::div_mod::lemma_small_mod;

verus! {

/// Which MinRoot recurrence a circuit runs: the plain two-element state
/// `[x, y]`, or the three-element state `[i, x, y]` with an iteration counter.
#[derive(Clone, Copy, PartialEq, Eq, Structural, Debug)]
pub enum MinRootVariant {
    Vdf,
    Counter,
}

impl MinRootVariant {
    /// The arity of the state vector this variant threads between steps.
    pub open spec fn arity_spec(&self) -> nat {
        match self {
            MinRootVariant::Vdf => 2,
            MinRootVariant::Counter => 3,
        }
    }

    /// The arity of the state vector this variant threads between steps.
    pub fn arity(&self) -> (r: usize)
        ensures
            r == self.arity_spec(),
    {
        match self {
            MinRootVariant::Vdf => 2,
            MinRootVariant::Counter => 3,
        }
    }
}

/// One iteration of the recurrence on a state `(i, x, y)`; the plain variant
/// carries `i` along unchanged and never reads it.
pub open spec fn mr_next(v: MinRootVariant, s: (nat, nat, nat)) -> (nat, nat, nat) {
    let x1 = pow_m(add_m(s.1, s.2), root_exp());
    match v {
        MinRootVariant::Vdf => (s.0, x1, s.1),
        MinRootVariant::Counter => (add_m(s.0, 1), x1, add_m(s.1, s.0)),
    }
}

/// `n` iterations of the recurrence.
pub open spec fn mr_iter(v: MinRootVariant, s: (nat, nat, nat), n: nat) -> (nat, nat, nat)
    decreases n,
{
    if n == 0 {
        s
    } else {
        mr_next(v, mr_iter(v, s, (n - 1) as nat))
    }
}

/// Whether the fifth root found at state `s` passes the fifth-power check.
pub open spec fn step_root_ok(s: (nat, nat, nat)) -> bool {
    pow5_m(pow_m(add_m(s.1, s.2), root_exp())) == add_m(s.1, s.2)
}

/// Whether every one of the first `n` iterations from `s` passes the check.
pub open spec fn chain_ok(v: MinRootVariant, s: (nat, nat, nat), n: nat) -> bool {
    forall|k: nat| k < n ==> step_root_ok(#[trigger] mr_iter(v, s, k))
}

/// The advice for one invocation of MinRoot: the input pair and counter, and
/// the claimed outputs. Created by the witness generator, consumed once by
/// constraint synthesis, never mutated.
#[derive(Clone, Copy, PartialEq, Eq, Structural, Debug)]
pub struct MinRootIteration {
    pub i: Fe,
    pub x_i: Fe,
    pub y_i: Fe,
    pub i_plus_1: Fe,
    pub x_i_plus_1: Fe,
    pub y_i_plus_1: Fe,
}

/// All six advice values are canonical field elements.
pub open spec fn rec_wf(r: MinRootIteration) -> bool {
    r.i.wf() && r.x_i.wf() && r.y_i.wf() && r.i_plus_1.wf() && r.x_i_plus_1.wf()
        && r.y_i_plus_1.wf()
}

/// The state a record claims to start from.
pub open spec fn rec_in(r: MinRootIteration) -> (nat, nat, nat) {
    (r.i@, r.x_i@, r.y_i@)
}

/// The state a record claims to produce.
pub open spec fn rec_out(r: MinRootIteration) -> (nat, nat, nat) {
    (r.i_plus_1@, r.x_i_plus_1@, r.y_i_plus_1@)
}

/// The record's outputs are the recurrence applied to its inputs.
pub open spec fn rec_follows(v: MinRootVariant, r: MinRootIteration) -> bool {
    rec_out(r) == mr_next(v, rec_in(r))
}

/// The record's advised root passes the fifth-power check against its inputs.
pub open spec fn rec_checked(r: MinRootIteration) -> bool {
    pow5_m(r.x_i_plus_1@) == add_m(r.x_i@, r.y_i@)
}

/// Each record starts exactly where the previous one ended, the first at `s`.
pub open spec fn recs_chained(rs: Seq<MinRootIteration>, s: (nat, nat, nat)) -> bool {
    forall|k: int|
        0 <= k < rs.len() ==> #[trigger] rec_in(rs[k]) == if k == 0 {
            s
        } else {
            rec_out(rs[k - 1])
        }
}

/// The state the synthesized circuit threads after consuming `k` records,
/// starting from the values `s` of the input variables. The plain variant
/// reuses the running `x` variable as the next `y`, so only the advised root
/// enters the state; the counter variant threads all three advice variables.
pub open spec fn advice_state(
    v: MinRootVariant,
    rs: Seq<MinRootIteration>,
    k: nat,
    s: (nat, nat, nat),
) -> (nat, nat, nat)
    decreases k,
{
    if k == 0 {
        s
    } else {
        let prev = advice_state(v, rs, (k - 1) as nat, s);
        let r = rs[k - 1];
        match v {
            MinRootVariant::Vdf => (prev.0, r.x_i_plus_1@, prev.1),
            MinRootVariant::Counter => rec_out(r),
        }
    }
}

/// What the constraints of one iteration say, given the threaded input state:
/// the advised root's fifth power equals `x + y`, and, with a counter, the
/// advised `y` and `i` are the linear images of the inputs.
pub open spec fn rec_constraints_hold(
    v: MinRootVariant,
    r: MinRootIteration,
    s: (nat, nat, nat),
) -> bool {
    &&& pow5_m(r.x_i_plus_1@) == add_m(s.1, s.2)
    &&& match v {
        MinRootVariant::Vdf => true,
        MinRootVariant::Counter => r.y_i_plus_1@ == add_m(s.1, s.0) && r.i_plus_1@ == add_m(
            s.0,
            1,
        ),
    }
}

/// What the whole synthesized step says of its advice.
pub open spec fn relations_ok(
    v: MinRootVariant,
    rs: Seq<MinRootIteration>,
    s: (nat, nat, nat),
) -> bool {
    forall|k: int|
        0 <= k < rs.len() ==> rec_constraints_hold(
            v,
            #[trigger] rs[k],
            advice_state(v, rs, k as nat, s),
        )
}

/// Advice produced by the honest witness generator threads exactly the native
/// iteration states, and satisfies every constraint the circuit will enforce.
pub proof fn lemma_valid_advice(
    v: MinRootVariant,
    rs: Seq<MinRootIteration>,
    s: (nat, nat, nat),
    k: nat,
)
    requires
        recs_chained(rs, s),
        forall|j: int| 0 <= j < rs.len() ==> rec_follows(v, #[trigger] rs[j]),
        k <= rs.len(),
    ensures
        advice_state(v, rs, k, s) == mr_iter(v, s, k),
        k < rs.len() ==> rec_in(rs[k as int]) == advice_state(v, rs, k, s),
    decreases k,
{
    if k > 0 {
        lemma_valid_advice(v, rs, s, (k - 1) as nat);
    }
}

/// Honest advice satisfies the constraint relations of every iteration.
pub proof fn lemma_valid_advice_relations(
    v: MinRootVariant,
    rs: Seq<MinRootIteration>,
    s: (nat, nat, nat),
)
    requires
        recs_chained(rs, s),
        forall|j: int| 0 <= j < rs.len() ==> rec_follows(v, #[trigger] rs[j]),
        forall|j: int| 0 <= j < rs.len() ==> rec_checked(#[trigger] rs[j]),
    ensures
        relations_ok(v, rs, s),
{
    assert forall|k: int| 0 <= k < rs.len() implies rec_constraints_hold(
        v,
        #[trigger] rs[k],
        advice_state(v, rs, k as nat, s),
    ) by {
        lemma_valid_advice(v, rs, s, k as nat);
    }
}

/// Produces the advice for `num_iters` invocations of MinRoot from the given
/// initial state, together with the initial state vector itself.
///
/// Each iteration's fifth root is checked on the spot by raising it back to
/// the fifth power; `WitnessError` reports exactly a failed check, which would
/// mean the fifth-root exponent does not match the field.
#[verifier::rlimit(60)]
pub fn minroot_witness(
    v: MinRootVariant,
    num_iters: usize,
    i_0: &Fe,
    x_0: &Fe,
    y_0: &Fe,
) -> (r: Result<(Vec<Fe>, Vec<MinRootIteration>), IvcError>)
    requires
        i_0.wf(),
        x_0.wf(),
        y_0.wf(),
    ensures
        r is Ok <==> chain_ok(v, (i_0@, x_0@, y_0@), num_iters as nat),
        r matches Err(e) ==> e == IvcError::WitnessError,
        r matches Ok((z0, rs)) ==> {
            let s = (i_0@, x_0@, y_0@);
            &&& z0@.len() == v.arity_spec()
            &&& (v is Counter ==> z0@ == seq![*i_0, *x_0, *y_0])
            &&& (v is Vdf ==> z0@ == seq![*x_0, *y_0])
            &&& rs@.len() == num_iters as nat
            &&& forall|j: int| 0 <= j < rs@.len() ==> rec_wf(#[trigger] rs@[j])
            &&& recs_chained(rs@, s)
            &&& forall|j: int| 0 <= j < rs@.len() ==> rec_follows(v, #[trigger] rs@[j])
            &&& forall|j: int| 0 <= j < rs@.len() ==> rec_checked(#[trigger] rs@[j])
        },
{
    let ghost s = (i_0@, x_0@, y_0@);
    let mut res: Vec<MinRootIteration> = Vec::new();
    let mut i = *i_0;
    let mut x_i = *x_0;
    let mut y_i = *y_0;
    let mut ii: usize = 0;
    while ii < num_iters
        invariant
            s == (i_0@, x_0@, y_0@),
            ii <= num_iters,
            i.wf(),
            x_i.wf(),
            y_i.wf(),
            (i@, x_i@, y_i@) == mr_iter(v, s, ii as nat),
            res@.len() == ii as nat,
            forall|j: int| 0 <= j < res@.len() ==> rec_wf(#[trigger] res@[j]),
            recs_chained(res@, s),
            forall|j: int| 0 <= j < res@.len() ==> rec_follows(v, #[trigger] res@[j]),
            forall|j: int| 0 <= j < res@.len() ==> rec_checked(#[trigger] res@[j]),
            ii as nat > 0 ==> rec_out(res@[ii - 1]) == (i@, x_i@, y_i@),
            forall|k: nat| k < ii as nat ==> step_root_ok(#[trigger] mr_iter(v, s, k)),
        decreases num_iters - ii,
    {
        let sum = fe_add(&x_i, &y_i);
        let x_i_plus_1 = match fifth_root(&sum) {
            Ok(root) => root,
            Err(e) => {
                proof {
                    assert(!step_root_ok(mr_iter(v, s, ii as nat)));
                    assert(!chain_ok(v, s, num_iters as nat));
                }
                return Err(e);
            },
        };
        let (i_plus_1, y_i_plus_1) = match v {
            MinRootVariant::Vdf => (i, x_i),
            MinRootVariant::Counter => (fe_add(&i, &Fe::one()), fe_add(&x_i, &i)),
        };
        let rec = MinRootIteration { i, x_i, y_i, i_plus_1, x_i_plus_1, y_i_plus_1 };
        proof {
            assert(rec_in(rec) == mr_iter(v, s, ii as nat));
            assert(rec_follows(v, rec));
            assert(rec_checked(rec));
            assert(mr_iter(v, s, (ii + 1) as nat) == mr_next(v, mr_iter(v, s, ii as nat)));
            assert(rec_out(rec) == mr_iter(v, s, (ii + 1) as nat));
        }
        let ghost old_res = res@;
        res.push(rec);
        proof {
            assert(res@ == old_res.push(rec));
            assert forall|k: int| 0 <= k < res@.len() implies rec_in(#[trigger] res@[k]) == (if k
                == 0 {
                s
            } else {
                rec_out(res@[k - 1])
            }) by {
                if k < old_res.len() {
                    assert(res@[k] == old_res[k]);
                } else {
                    assert(res@[k] == rec);
                }
            }
        }
        i = i_plus_1;
        x_i = x_i_plus_1;
        y_i = y_i_plus_1;
        ii = ii + 1;
    }
    let mut z0: Vec<Fe> = Vec::new();
    match v {
        MinRootVariant::Vdf => {
            z0.push(*x_0);
            z0.push(*y_0);
        },
        MinRootVariant::Counter => {
            z0.push(*i_0);
            z0.push(*x_0);
            z0.push(*y_0);
        },
    }
    Ok((z0, res))
}

impl MinRootIteration {
    /// Produces the advice for `num_iters` invocations of the counter variant,
    /// plus the three-element initial state vector, as the witness side of the
    /// step circuit.
    pub fn new(num_iters: usize, i_0: &Fe, x_0: &Fe, y_0: &Fe) -> (r: Result<
        (Vec<Fe>, Vec<MinRootIteration>),
        IvcError,
    >)
        requires
            i_0.wf(),
            x_0.wf(),
            y_0.wf(),
        ensures
            r is Ok <==> chain_ok(
                MinRootVariant::Counter,
                (i_0@, x_0@, y_0@),
                num_iters as nat,
            ),
            r matches Err(e) ==> e == IvcError::WitnessError,
            r matches Ok((z0, rs)) ==> {
                let s = (i_0@, x_0@, y_0@);
                &&& z0@ == seq![*i_0, *x_0, *y_0]
                &&& rs@.len() == num_iters as nat
                &&& forall|j: int| 0 <= j < rs@.len() ==> rec_wf(#[trigger] rs@[j])
                &&& recs_chained(rs@, s)
                &&& forall|j: int|
                    0 <= j < rs@.len() ==> rec_follows(MinRootVariant::Counter, #[trigger] rs@[j])
                &&& forall|j: int| 0 <= j < rs@.len() ==> rec_checked(#[trigger] rs@[j])
            },
    {
        minroot_witness(MinRootVariant::Counter, num_iters, i_0, x_0, y_0)
    }
}


/// The values the input variables of a step give to the threaded state; the
/// plain variant has no counter variable, so its counter component is zero.
pub open spec fn z_state(v: MinRootVariant, vals: Seq<nat>, z: Seq<usize>) -> (nat, nat, nat) {
    match v {
        MinRootVariant::Vdf => (0nat, val_at(vals, z[0] as nat), val_at(vals, z[1] as nat)),
        MinRootVariant::Counter => (
            val_at(vals, z[0] as nat),
            val_at(vals, z[1] as nat),
            val_at(vals, z[2] as nat),
        ),
    }
}

/// The running variables of the synthesis loop carry the threaded state; the
/// plain variant has no counter variable.
pub open spec fn vars_match(
    v: MinRootVariant,
    vals: Seq<nat>,
    iv: usize,
    xv: usize,
    yv: usize,
    st: (nat, nat, nat),
) -> bool {
    match v {
        MinRootVariant::Vdf => val_at(vals, xv as nat) == st.1 && val_at(vals, yv as nat) == st.2,
        MinRootVariant::Counter => val_at(vals, iv as nat) == st.0 && val_at(vals, xv as nat)
            == st.1 && val_at(vals, yv as nat) == st.2,
    }
}

/// The state vector a variant exposes of a threaded state.
pub open spec fn state_outputs(v: MinRootVariant, st: (nat, nat, nat)) -> Seq<nat> {
    match v {
        MinRootVariant::Vdf => seq![st.1, st.2],
        MinRootVariant::Counter => seq![st.0, st.1, st.2],
    }
}

/// The constraint relations of the first `n` iterations.
pub open spec fn relations_ok_upto(
    v: MinRootVariant,
    rs: Seq<MinRootIteration>,
    n: int,
    s: (nat, nat, nat),
) -> bool {
    forall|k: int|
        0 <= k < n ==> rec_constraints_hold(
            v,
            #[trigger] rs[k],
            advice_state(v, rs, k as nat, s),
        )
}

impl MinRootVariant {
    /// How many variables one iteration allocates.
    pub open spec fn vars_per_iter(&self) -> nat {
        match self {
            MinRootVariant::Vdf => 3,
            MinRootVariant::Counter => 5,
        }
    }

    /// How many constraints one iteration adds: always the three products that
    /// build the fifth power, plus the two linear relations of the counter
    /// variant.
    pub open spec fn cons_per_iter(&self) -> nat {
        match self {
            MinRootVariant::Vdf => 3,
            MinRootVariant::Counter => 5,
        }
    }
}

/// A MinRoot step circuit: the advice records for the iterations of one step,
/// with the initial state the advice was generated from.
#[derive(Clone, Debug)]
pub struct MinRootCircuit {
    pub variant: MinRootVariant,
    pub num_iters_per_step: usize,
    pub input: Vec<Fe>,
    pub seq: Vec<MinRootIteration>,
}

impl MinRootCircuit {
    /// Every advice value is a canonical field element.
    pub open spec fn seq_wf(&self) -> bool {
        forall|k: int| 0 <= k < self.seq@.len() ==> rec_wf(#[trigger] self.seq@[k])
    }

    /// The stored initial state has this variant's arity and canonical values.
    pub open spec fn input_wf(&self) -> bool {
        &&& self.input@.len() == self.variant.arity_spec()
        &&& forall|j: int| 0 <= j < self.input@.len() ==> (#[trigger] self.input@[j]).wf()
    }

    /// The state the stored input vector denotes.
    pub open spec fn input_state(&self) -> (nat, nat, nat) {
        match self.variant {
            MinRootVariant::Vdf => (0nat, self.input@[0]@, self.input@[1]@),
            MinRootVariant::Counter => (self.input@[0]@, self.input@[1]@, self.input@[2]@),
        }
    }

    /// An honestly generated circuit: well-formed advice that chains from the
    /// stored input, follows the recurrence, and passed the fifth-power check.
    pub open spec fn valid(&self) -> bool {
        &&& self.seq_wf()
        &&& self.input_wf()
        &&& self.num_iters_per_step as nat == self.seq@.len()
        &&& recs_chained(self.seq@, self.input_state())
        &&& forall|j: int| 0 <= j < self.seq@.len() ==> rec_follows(self.variant, #[trigger] self.seq@[j])
        &&& forall|j: int| 0 <= j < self.seq@.len() ==> rec_checked(#[trigger] self.seq@[j])
    }

    /// Builds a counter-variant step circuit by running the witness generator
    /// for `num_iters_per_step` iterations from the three-element initial
    /// state.
    pub fn new(initial_input: Vec<Fe>, num_iters_per_step: usize) -> (r: Result<
        MinRootCircuit,
        IvcError,
    >)
        requires
            initial_input@.len() == 3,
            forall|j: int| 0 <= j < initial_input@.len() ==> (#[trigger] initial_input@[j]).wf(),
        ensures
            r is Ok <==> chain_ok(
                MinRootVariant::Counter,
                (initial_input@[0]@, initial_input@[1]@, initial_input@[2]@),
                num_iters_per_step as nat,
            ),
            r matches Ok(c) ==> c.valid() && c.variant == MinRootVariant::Counter
                && c.num_iters_per_step == num_iters_per_step && c.input@ == initial_input@,
            r matches Err(e) ==> e == IvcError::WitnessError,
    {
        MinRootCircuit::new_with_variant(MinRootVariant::Counter, initial_input, num_iters_per_step)
    }

    /// Builds a step circuit of either variant by running the witness
    /// generator from the initial state.
    pub fn new_with_variant(
        v: MinRootVariant,
        initial_input: Vec<Fe>,
        num_iters_per_step: usize,
    ) -> (r: Result<MinRootCircuit, IvcError>)
        requires
            initial_input@.len() == v.arity_spec(),
            forall|j: int| 0 <= j < initial_input@.len() ==> (#[trigger] initial_input@[j]).wf(),
        ensures
            r is Ok <==> chain_ok(
                v,
                match v {
                    MinRootVariant::Vdf => (0nat, initial_input@[0]@, initial_input@[1]@),
                    MinRootVariant::Counter => (
                        initial_input@[0]@,
                        initial_input@[1]@,
                        initial_input@[2]@,
                    ),
                },
                num_iters_per_step as nat,
            ),
            r matches Ok(c) ==> c.valid() && c.variant == v && c.num_iters_per_step
                == num_iters_per_step && c.input@ == initial_input@,
            r matches Err(e) ==> e == IvcError::WitnessError,
    {
        let zero = Fe::zero();
        let (i_0, x_0, y_0) = match v {
            MinRootVariant::Vdf => (zero, initial_input[0], initial_input[1]),
            MinRootVariant::Counter => (initial_input[0], initial_input[1], initial_input[2]),
        };
        match minroot_witness(v, num_iters_per_step, &i_0, &x_0, &y_0) {
            Ok((_z0, seq)) => Ok(
                MinRootCircuit { variant: v, num_iters_per_step, input: initial_input, seq },
            ),
            Err(e) => Err(e),
        }
    }

    /// The arity of the state vector this circuit consumes and produces.
    pub fn arity(&self) -> (r: usize)
        ensures
            r == self.variant.arity_spec(),
    {
        self.variant.arity()
    }

    /// The arity of the state vector, under the name the folding frontend of
    /// the original interface uses.
    pub fn state_len(&self) -> (r: usize)
        ensures
            r == self.variant.arity_spec(),
    {
        self.variant.arity()
    }
}

impl MinRootCircuit {
    /// Synthesizes the constraints of one step into `cs`, starting from the
    /// state variables `z`, and returns the variables of the new state.
    ///
    /// Per iteration the advised root is allocated together with its square
    /// and fourth power, and three products enforce that its fifth power is
    /// `x + y`; the counter variant also allocates the advised `y` and `i` and
    /// enforces their two linear relations. An empty iteration sequence adds
    /// nothing and returns `z` itself. The constraints added by this call are
    /// satisfied exactly when every iteration's advice obeys its relation
    /// against the threaded state.
    #[verifier::loop_isolation(false)]
    #[verifier::rlimit(100)]
    pub fn synthesize(&self, cs: &mut ConstraintSystem, z: &Vec<usize>) -> (r: Result<
        Vec<usize>,
        IvcError,
    >)
        requires
            old(cs).wf(),
            self.seq_wf(),
            z@.len() == self.variant.arity_spec(),
            forall|j: int| 0 <= j < z@.len() ==> z@[j] < old(cs).vals@.len(),
        ensures
            final(cs).wf(),
            cs_extends(*final(cs), *old(cs)),
            final(cs).vals@.len() == old(cs).vals@.len() + self.seq@.len()
                * self.variant.vars_per_iter(),
            final(cs).constraints@.len() == old(cs).constraints@.len() + self.seq@.len()
                * self.variant.cons_per_iter(),
            self.seq@.len() == 0 ==> *final(cs) == *old(cs),
            r is Ok,
            r matches Ok(out) ==> {
                let s0 = z_state(self.variant, vals_of(old(cs).vals@), z@);
                let st = advice_state(self.variant, self.seq@, self.seq@.len(), s0);
                &&& out@.len() == self.variant.arity_spec()
                &&& forall|j: int| 0 <= j < out@.len() ==> z@[j] < final(cs).vals@.len()
                    && #[trigger] out@[j] < final(cs).vals@.len()
                &&& self.seq@.len() == 0 ==> out@ == z@
                &&& forall|j: int|
                    0 <= j < out@.len() ==> val_at(
                        vals_of(final(cs).vals@),
                        #[trigger] out@[j] as nat,
                    ) == state_outputs(self.variant, st)[j]
                &&& (final(cs).satisfied_from(old(cs).constraints@.len() as int) <==> relations_ok(
                    self.variant,
                    self.seq@,
                    s0,
                ))
            },
    {
        let ghost s0 = z_state(self.variant, vals_of(old(cs).vals@), z@);
        let ghost base_c = old(cs).constraints@.len() as int;
        let n = self.seq.len();
        if n == 0 {
            let out = copy_vars(z);
            return Ok(out);
        }
        let (mut iv, mut xv, mut yv): (usize, usize, usize) = match self.variant {
            MinRootVariant::Vdf => (0usize, z[0], z[1]),
            MinRootVariant::Counter => (z[0], z[1], z[2]),
        };
        let mut ii: usize = 0;
        while ii < n
            invariant
                ii <= n,
                cs.wf(),
                cs_extends(*cs, *old(cs)),
                self.variant is Counter ==> cs.vals@.len() == old(cs).vals@.len() + ii * 5
                    && cs.constraints@.len() == old(cs).constraints@.len() + ii * 5,
                self.variant is Vdf ==> cs.vals@.len() == old(cs).vals@.len() + ii * 3
                    && cs.constraints@.len() == old(cs).constraints@.len() + ii * 3,
                iv < cs.vals@.len(),
                xv < cs.vals@.len(),
                yv < cs.vals@.len(),
                vars_match(
                    self.variant,
                    vals_of(cs.vals@),
                    iv,
                    xv,
                    yv,
                    advice_state(self.variant, self.seq@, ii as nat, s0),
                ),
                cs.satisfied_from(base_c) <==> relations_ok_upto(
                    self.variant,
                    self.seq@,
                    ii as int,
                    s0,
                ),
            decreases n - ii,
        {
            let rec = self.seq[ii];
            let ghost pre = *cs;
            let ghost st = advice_state(self.variant, self.seq@, ii as nat, s0);
            let x1 = cs.alloc_var(rec.x_i_plus_1);
            let sqv = fe_mul(&rec.x_i_plus_1, &rec.x_i_plus_1);
            let sq = cs.alloc_var(sqv);
            let quadv = fe_mul(&sqv, &sqv);
            let quad = cs.alloc_var(quadv);
            let (i1, y1): (usize, usize) = match self.variant {
                MinRootVariant::Vdf => (iv, xv),
                MinRootVariant::Counter => {
                    let i1 = cs.alloc_var(rec.i_plus_1);
                    let y1 = cs.alloc_var(rec.y_i_plus_1);
                    (i1, y1)
                },
            };
            let ghost mid = *cs;
            let ghost vnow = vals_of(mid.vals@);
            proof {
                assert(val_at(vnow, x1 as nat) == rec.x_i_plus_1@);
                assert(val_at(vnow, sq as nat) == sqv@);
                assert(val_at(vnow, quad as nat) == quadv@);
                assert(val_at(vnow, xv as nat) == st.1);
                assert(val_at(vnow, yv as nat) == st.2);
                assert(val_at(vnow, 0) == 1);
                if self.variant is Counter {
                    assert(val_at(vnow, i1 as nat) == rec.i_plus_1@);
                    assert(val_at(vnow, y1 as nat) == rec.y_i_plus_1@);
                    assert(val_at(vnow, iv as nat) == st.0);
                }
            }
            let a0 = Lc::single(x1);
            let b0 = Lc::single(x1);
            let c0 = Lc::single(sq);
            let ghost g0 = (a0, b0, c0);
            cs.enforce(a0, b0, c0);
            let a1 = Lc::single(sq);
            let b1 = Lc::single(sq);
            let c1 = Lc::single(quad);
            let ghost g1 = (a1, b1, c1);
            cs.enforce(a1, b1, c1);
            let a2 = Lc::single(quad);
            let b2 = Lc::single(x1);
            let c2 = Lc::pair(xv, yv);
            let ghost g2 = (a2, b2, c2);
            cs.enforce(a2, b2, c2);
            let ghost mut g3 = g2;
            let ghost mut g4 = g2;
            match self.variant {
                MinRootVariant::Vdf => {},
                MinRootVariant::Counter => {
                    let a3 = Lc::single(y1);
                    let b3 = Lc::single(0);
                    let c3 = Lc::pair(xv, iv);
                    proof {
                        g3 = (a3, b3, c3);
                    }
                    cs.enforce(a3, b3, c3);
                    let a4 = Lc::single(i1);
                    let b4 = Lc::single(0);
                    let c4 = Lc::pair(iv, 0);
                    proof {
                        g4 = (a4, b4, c4);
                    }
                    cs.enforce(a4, b4, c4);
                },
            }
            proof {
                let v = self.variant;
                let rs = self.seq@;
                let base2 = pre.constraints@.len() as int;
                // values are unchanged since the allocations
                assert(cs.vals@ == mid.vals@);
                assert(vals_of(cs.vals@) == vnow);
                // the old constraints keep their meaning under the new values
                assert(vnow.len() == vals_of(pre.vals@).len() + v.vars_per_iter());
                assert(forall|i: int|
                    0 <= i < pre.vals@.len() ==> vals_of(pre.vals@)[i] == vnow[i]);
                assert forall|k: int| 0 <= k < base2 implies (con_sat(
                    #[trigger] cs.constraints@[k],
                    vnow,
                ) <==> con_sat(pre.constraints@[k], vals_of(pre.vals@))) by {
                    assert(cs.constraints@[k] == pre.constraints@[k]);
                    lemma_con_sat_extend(
                        pre.constraints@[k],
                        vals_of(pre.vals@),
                        vnow,
                        pre.vals@.len(),
                    );
                }
                // the fresh constraints say exactly the iteration's relations
                let x1v = rec.x_i_plus_1@;
                lemma_con_sat_vals(g0.0, g0.1, g0.2, x1v, x1v, sqv@, vnow);
                lemma_small_mod(sqv@, p());
                assert(con_sat(cs.constraints@[base2], vnow));
                lemma_con_sat_vals(g1.0, g1.1, g1.2, sqv@, sqv@, quadv@, vnow);
                lemma_small_mod(quadv@, p());
                assert(con_sat(cs.constraints@[base2 + 1], vnow));
                lemma_con_sat_vals(g2.0, g2.1, g2.2, quadv@, x1v, st.1 + st.2, vnow);
                lemma_pow5_chain(x1v);
                assert(con_sat(cs.constraints@[base2 + 2], vnow) <==> pow5_m(x1v) == add_m(
                    st.1,
                    st.2,
                ));
                if v is Counter {
                    let y1v = rec.y_i_plus_1@;
                    let i1v = rec.i_plus_1@;
                    lemma_con_sat_vals(g3.0, g3.1, g3.2, y1v, 1nat, st.1 + st.0, vnow);
                    lemma_small_mod(y1v, p());
                    assert(mul_m(y1v, 1) == y1v);
                    assert(con_sat(cs.constraints@[base2 + 3], vnow) <==> y1v == add_m(
                        st.1,
                        st.0,
                    ));
                    lemma_con_sat_vals(g4.0, g4.1, g4.2, i1v, 1nat, st.0 + 1, vnow);
                    lemma_small_mod(i1v, p());
                    assert(mul_m(i1v, 1) == i1v);
                    assert(con_sat(cs.constraints@[base2 + 4], vnow) <==> i1v == add_m(st.0, 1));
                }
                // fold the fresh constraints into the running equivalence
                assert(rec == rs[ii as int]);
                assert(advice_state(v, rs, (ii + 1) as nat, s0) == match v {
                    MinRootVariant::Vdf => (st.0, rec.x_i_plus_1@, st.1),
                    MinRootVariant::Counter => rec_out(rec),
                });
                let fresh_ok = if v is Counter {
                    con_sat(cs.constraints@[base2], vnow) && con_sat(
                        cs.constraints@[base2 + 1],
                        vnow,
                    ) && con_sat(cs.constraints@[base2 + 2], vnow) && con_sat(
                        cs.constraints@[base2 + 3],
                        vnow,
                    ) && con_sat(cs.constraints@[base2 + 4], vnow)
                } else {
                    con_sat(cs.constraints@[base2], vnow) && con_sat(
                        cs.constraints@[base2 + 1],
                        vnow,
                    ) && con_sat(cs.constraints@[base2 + 2], vnow)
                };
                assert(fresh_ok <==> rec_constraints_hold(v, rec, st));
                assert(cs.satisfied_from(base_c) <==> (pre.satisfied_from(base_c) && fresh_ok))
                    by {
                    if cs.satisfied_from(base_c) {
                        assert forall|k: int|
                            base_c <= k < pre.constraints@.len() implies con_sat(
                            #[trigger] pre.constraints@[k],
                            vals_of(pre.vals@),
                        ) by {
                            assert(con_sat(cs.constraints@[k], vnow));
                        }
                    }
                    if pre.satisfied_from(base_c) && fresh_ok {
                        assert forall|k: int|
                            base_c <= k < cs.constraints@.len() implies con_sat(
                            #[trigger] cs.constraints@[k],
                            vnow,
                        ) by {
                            if k < base2 {
                                assert(con_sat(pre.constraints@[k], vals_of(pre.vals@)));
                            }
                        }
                    }
                }
                assert(relations_ok_upto(v, rs, ii + 1, s0) <==> (relations_ok_upto(
                    v,
                    rs,
                    ii as int,
                    s0,
                ) && rec_constraints_hold(v, rec, st))) by {
                    if relations_ok_upto(v, rs, ii as int, s0) && rec_constraints_hold(
                        v,
                        rec,
                        st,
                    ) {
                        assert forall|k: int| 0 <= k < ii + 1 implies rec_constraints_hold(
                            v,
                            #[trigger] rs[k],
                            advice_state(v, rs, k as nat, s0),
                        ) by {
                            if k == ii as int {
                                assert(rec_constraints_hold(v, rs[k], st));
                            }
                        }
                    }
                }
            }
            match self.variant {
                MinRootVariant::Vdf => {
                    yv = xv;
                    xv = x1;
                },
                MinRootVariant::Counter => {
                    iv = i1;
                    xv = x1;
                    yv = y1;
                },
            }
            ii = ii + 1;
        }
        let mut out: Vec<usize> = Vec::new();
        match self.variant {
            MinRootVariant::Vdf => {
                out.push(xv);
                out.push(yv);
            },
            MinRootVariant::Counter => {
                out.push(iv);
                out.push(xv);
                out.push(yv);
            },
        }
        Ok(out)
    }
}

/// Copies a vector of variable indices.
fn copy_vars(z: &Vec<usize>) -> (out: Vec<usize>)
    ensures
        out@ == z@,
{
    let mut out: Vec<usize> = Vec::new();
    let mut j: usize = 0;
    while j < z.len()
        invariant
            j <= z@.len(),
            out@ == z@.take(j as int),
        decreases z@.len() - j,
    {
        out.push(z[j]);
        proof {
            assert(out@ == z@.take(j + 1 as int));
        }
        j = j + 1;
    }
    proof {
        assert(z@.take(z@.len() as int) == z@);
    }
    out
}


impl MinRootCircuit {
    /// The native output of the step: the last record's claimed outputs,
    /// provided the given state is the one the advice was generated from; an
    /// empty step returns the state unchanged. A state that does not match the
    /// first record's inputs is advice from another run and is refused.
    pub fn output(&self, z: &Vec<Fe>) -> (r: Result<Vec<Fe>, IvcError>)
        requires
            self.seq_wf(),
            z@.len() == self.variant.arity_spec(),
            forall|j: int| 0 <= j < z@.len() ==> (#[trigger] z@[j]).wf(),
        ensures
            r is Ok <==> (self.seq@.len() == 0 || rec_in(self.seq@[0]) == match self.variant {
                MinRootVariant::Vdf => (self.seq@[0].i@, z@[0]@, z@[1]@),
                MinRootVariant::Counter => (z@[0]@, z@[1]@, z@[2]@),
            }),
            r matches Err(e) ==> e == IvcError::ConstraintError,
            r matches Ok(out) ==> {
                &&& out@.len() == self.variant.arity_spec()
                &&& forall|j: int| 0 <= j < out@.len() ==> (#[trigger] out@[j]).wf()
                &&& (self.seq@.len() == 0 ==> out@ == z@)
                &&& (self.seq@.len() > 0 ==> {
                    let last = self.seq@[self.seq@.len() - 1];
                    match self.variant {
                        MinRootVariant::Vdf => out@[0] == last.x_i_plus_1 && out@[1]
                            == last.y_i_plus_1,
                        MinRootVariant::Counter => out@[0] == last.i_plus_1 && out@[1]
                            == last.x_i_plus_1 && out@[2] == last.y_i_plus_1,
                    }
                })
            },
    {
        let n = self.seq.len();
        if n == 0 {
            let mut out: Vec<Fe> = Vec::new();
            let mut j: usize = 0;
            while j < z.len()
                invariant
                    j <= z@.len(),
                    out@ == z@.take(j as int),
                    forall|i: int| 0 <= i < z@.len() ==> (#[trigger] z@[i]).wf(),
                decreases z@.len() - j,
            {
                out.push(z[j]);
                proof {
                    assert(out@ == z@.take(j + 1 as int));
                }
                j = j + 1;
            }
            proof {
                assert(z@.take(z@.len() as int) == z@);
            }
            return Ok(out);
        }
        let head = self.seq[0];
        let matches_head: bool = match self.variant {
            MinRootVariant::Vdf => head.x_i == z[0] && head.y_i == z[1],
            MinRootVariant::Counter => head.i == z[0] && head.x_i == z[1] && head.y_i == z[2],
        };
        if !matches_head {
            proof {
                lemma_head_mismatch(self.variant, head, z@);
            }
            return Err(IvcError::ConstraintError);
        }
        let last = self.seq[n - 1];
        let mut out: Vec<Fe> = Vec::new();
        match self.variant {
            MinRootVariant::Vdf => {
                out.push(last.x_i_plus_1);
                out.push(last.y_i_plus_1);
            },
            MinRootVariant::Counter => {
                out.push(last.i_plus_1);
                out.push(last.x_i_plus_1);
                out.push(last.y_i_plus_1);
            },
        }
        Ok(out)
    }

    /// Advances one step natively from the given state: regenerates this
    /// step's advice from `z_i` — the single source of truth for both the
    /// stored advice and the returned state — and returns the state after the
    /// step's iterations; a step of zero iterations returns `z_i` unchanged.
    #[verifier::rlimit(60)]
    pub fn step_native(&mut self, _step_index: usize, z_i: Vec<Fe>) -> (r: Result<
        Vec<Fe>,
        IvcError,
    >)
        requires
            z_i@.len() == old(self).variant.arity_spec(),
            forall|j: int| 0 <= j < z_i@.len() ==> (#[trigger] z_i@[j]).wf(),
        ensures
            final(self).variant == old(self).variant,
            final(self).num_iters_per_step == old(self).num_iters_per_step,
            r is Ok <==> chain_ok(
                old(self).variant,
                state_of_vec(old(self).variant, z_i@),
                old(self).num_iters_per_step as nat,
            ),
            r matches Err(e) ==> e == IvcError::WitnessError,
            r matches Ok(out) ==> {
                let st = mr_iter(
                    old(self).variant,
                    state_of_vec(old(self).variant, z_i@),
                    old(self).num_iters_per_step as nat,
                );
                &&& final(self).valid()
                &&& final(self).input@ == z_i@
                &&& out@.len() == old(self).variant.arity_spec()
                &&& forall|j: int| 0 <= j < out@.len() ==> (#[trigger] out@[j]).wf()
                &&& vals_of(out@) == state_outputs(old(self).variant, st)
            },
    {
        let zero = Fe::zero();
        let (i_0, x_0, y_0) = match self.variant {
            MinRootVariant::Vdf => (zero, z_i[0], z_i[1]),
            MinRootVariant::Counter => (z_i[0], z_i[1], z_i[2]),
        };
        let seq = match minroot_witness(self.variant, self.num_iters_per_step, &i_0, &x_0, &y_0) {
            Ok((_z0, seq)) => seq,
            Err(e) => {
                return Err(e);
            },
        };
        self.seq = seq;
        self.input = z_i;
        proof {
            lemma_valid_advice(
                self.variant,
                self.seq@,
                self.input_state(),
                self.num_iters_per_step as nat,
            );
        }
        let n = self.seq.len();
        let mut out: Vec<Fe> = Vec::new();
        if n == 0 {
            match self.variant {
                MinRootVariant::Vdf => {
                    out.push(x_0);
                    out.push(y_0);
                },
                MinRootVariant::Counter => {
                    out.push(i_0);
                    out.push(x_0);
                    out.push(y_0);
                },
            }
        } else {
            let last = self.seq[n - 1];
            proof {
                let st0 = self.input_state();
                let m = self.num_iters_per_step as nat;
                lemma_valid_advice(self.variant, self.seq@, st0, (m - 1) as nat);
                assert(rec_in(last) == mr_iter(self.variant, st0, (m - 1) as nat));
                assert(rec_follows(self.variant, last));
                assert(mr_iter(self.variant, st0, m) == mr_next(
                    self.variant,
                    mr_iter(self.variant, st0, (m - 1) as nat),
                ));
                assert(rec_out(last) == mr_iter(self.variant, st0, m));
            }
            match self.variant {
                MinRootVariant::Vdf => {
                    out.push(last.x_i_plus_1);
                    out.push(last.y_i_plus_1);
                },
                MinRootVariant::Counter => {
                    out.push(last.i_plus_1);
                    out.push(last.x_i_plus_1);
                    out.push(last.y_i_plus_1);
                },
            }
        }
        proof {
            assert(vals_of(out@) =~= state_outputs(
                self.variant,
                mr_iter(self.variant, self.input_state(), self.num_iters_per_step as nat),
            ));
        }
        Ok(out)
    }
}

/// A state that differs from the first record's inputs as field elements also
/// differs as values: canonical representations are unique.
proof fn lemma_head_mismatch(v: MinRootVariant, head: MinRootIteration, z: Seq<Fe>)
    requires
        z.len() == v.arity_spec(),
        match v {
            MinRootVariant::Vdf => !(head.x_i == z[0] && head.y_i == z[1]),
            MinRootVariant::Counter => !(head.i == z[0] && head.x_i == z[1] && head.y_i == z[2]),
        },
    ensures
        rec_in(head) != match v {
            MinRootVariant::Vdf => (head.i@, z[0]@, z[1]@),
            MinRootVariant::Counter => (z[0]@, z[1]@, z[2]@),
        },
{
    match v {
        MinRootVariant::Vdf => {
            if head.x_i@ == z[0]@ {
                crate::field::lemma_fe_val_injective(head.x_i, z[0]);
            }
            if head.y_i@ == z[1]@ {
                crate::field::lemma_fe_val_injective(head.y_i, z[1]);
            }
        },
        MinRootVariant::Counter => {
            if head.i@ == z[0]@ {
                crate::field::lemma_fe_val_injective(head.i, z[0]);
            }
            if head.x_i@ == z[1]@ {
                crate::field::lemma_fe_val_injective(head.x_i, z[1]);
            }
            if head.y_i@ == z[2]@ {
                crate::field::lemma_fe_val_injective(head.y_i, z[2]);
            }
        },
    }
}


/// Round-trip equivalence of the native and the constrained step: advice that
/// the witness generator produced from state `s` satisfies every constraint
/// `synthesize` builds from it, and the state variables `synthesize` returns
/// carry exactly the state the native recurrence reaches after the same
/// number of iterations.
pub proof fn lemma_native_constrained_equivalence(
    v: MinRootVariant,
    rs: Seq<MinRootIteration>,
    s: (nat, nat, nat),
)
    requires
        recs_chained(rs, s),
        forall|j: int| 0 <= j < rs.len() ==> rec_follows(v, #[trigger] rs[j]),
        forall|j: int| 0 <= j < rs.len() ==> rec_checked(#[trigger] rs[j]),
    ensures
        relations_ok(v, rs, s),
        advice_state(v, rs, rs.len(), s) == mr_iter(v, s, rs.len()),
{
    lemma_valid_advice_relations(v, rs, s);
    lemma_valid_advice(v, rs, s, rs.len());
}

/// Sequential chaining: running the recurrence `a + b` times is running it
/// `a` times and then `b` times from where it left off — so the state after a
/// chain of steps of `m` iterations each is the state after one run of all
/// the iterations.
pub proof fn lemma_state_composes(v: MinRootVariant, s: (nat, nat, nat), a: nat, b: nat)
    ensures
        mr_iter(v, s, a + b) == mr_iter(v, mr_iter(v, s, a), b),
    decreases b,
{
    if b > 0 {
        lemma_state_composes(v, s, a, (b - 1) as nat);
        assert(mr_iter(v, s, a + b) == mr_next(v, mr_iter(v, s, (a + b - 1) as nat)));
    }
}

/// Corrupting a single record's advised root, so that its fifth power no
/// longer matches the `x + y` the circuit threads to it, leaves the
/// synthesized step with an unsatisfied constraint: by `synthesize`'s
/// contract, the step then fails rather than silently passing.
pub proof fn lemma_corrupt_advice_fails(
    v: MinRootVariant,
    rs: Seq<MinRootIteration>,
    s: (nat, nat, nat),
    k: int,
    bad: Fe,
)
    requires
        0 <= k < rs.len(),
        ({
            let rs2 = rs.update(k, MinRootIteration { x_i_plus_1: bad, ..rs[k] });
            let st = advice_state(v, rs2, k as nat, s);
            pow5_m(bad@) != add_m(st.1, st.2)
        }),
    ensures
        !relations_ok(v, rs.update(k, MinRootIteration { x_i_plus_1: bad, ..rs[k] }), s),
{
    let rs2 = rs.update(k, MinRootIteration { x_i_plus_1: bad, ..rs[k] });
    let st = advice_state(v, rs2, k as nat, s);
    assert(!rec_constraints_hold(v, rs2[k], st));
}


/// The state a vector of field elements denotes; the plain variant has no
/// counter component and reads it as zero.
pub open spec fn state_of_vec(v: MinRootVariant, z: Seq<Fe>) -> (nat, nat, nat) {
    match v {
        MinRootVariant::Vdf => (0nat, z[0]@, z[1]@),
        MinRootVariant::Counter => (z[0]@, z[1]@, z[2]@),
    }
}

/// The plain variant never touches the counter component of the state.
pub proof fn lemma_vdf_keeps_counter(s: (nat, nat, nat), n: nat)
    ensures
        mr_iter(MinRootVariant::Vdf, s, n).0 == s.0,
    decreases n,
{
    if n > 0 {
        lemma_vdf_keeps_counter(s, (n - 1) as nat);
    }
}

/// An honestly generated circuit's last record produces exactly the state the
/// native recurrence reaches after all its iterations.
pub proof fn lemma_valid_output(c: MinRootCircuit)
    requires
        c.valid(),
        c.seq@.len() > 0,
    ensures
        rec_out(c.seq@[c.seq@.len() - 1]) == mr_iter(c.variant, c.input_state(), c.seq@.len()),
{
    let n = c.seq@.len();
    lemma_valid_advice(c.variant, c.seq@, c.input_state(), n);
    lemma_valid_advice(c.variant, c.seq@, c.input_state(), (n - 1) as nat);
    assert(rec_follows(c.variant, c.seq@[n - 1]));
    assert(mr_iter(c.variant, c.input_state(), n) == mr_next(
        c.variant,
        mr_iter(c.variant, c.input_state(), (n - 1) as nat),
    ));
}


/// The state vector an honest circuit's `output` hands on denotes exactly the
/// native state after the circuit's iterations.
#[verifier::rlimit(30)]
#[verifier::spinoff_prover]
pub proof fn lemma_output_state(c: MinRootCircuit, next: Seq<Fe>)
    requires
        c.valid(),
        next.len() == c.variant.arity_spec(),
        c.seq@.len() == 0 ==> state_of_vec(c.variant, next) == c.input_state(),
        c.seq@.len() > 0 ==> state_of_vec(c.variant, next) == (match c.variant {
            MinRootVariant::Vdf => (
                0nat,
                rec_out(c.seq@[c.seq@.len() - 1]).1,
                rec_out(c.seq@[c.seq@.len() - 1]).2,
            ),
            MinRootVariant::Counter => rec_out(c.seq@[c.seq@.len() - 1]),
        }),
    ensures
        state_of_vec(c.variant, next) == mr_iter(
            c.variant,
            c.input_state(),
            c.num_iters_per_step as nat,
        ),
{
    let v = c.variant;
    let n = c.seq@.len();
    if n == 0 {
    } else {
        lemma_valid_output(c);
        let last = c.seq@[n - 1];
        assert(rec_out(last) == mr_iter(v, c.input_state(), n));
        if v is Vdf {
            lemma_vdf_keeps_counter(c.input_state(), n);
            assert(mr_iter(v, c.input_state(), n).0 == 0);
        }
    }
    assert(c.num_iters_per_step as nat == n);
}


} // verus!
