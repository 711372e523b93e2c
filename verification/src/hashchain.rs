//! The hash-chain step circuit: each step absorbs the running digest together
//! with a handful of fresh preimage elements into a Poseidon sponge and
//! squeezes the next digest.
//!
//! The sponge permutation itself is the business of the `neptune` crate, both
//! natively and — in the original backend — as a circuit gadget. What this
//! module owns is the absorb/squeeze schedule: one absorb of the digest and
//! all preimage elements, one squeeze, and the fact that the native and the
//! constrained computation see exactly the same input sequence.

use vstd::prelude::*;
use crate::errors::IvcError;
use crate::field::{fr_to_fe, p, Fe, fe_random};
use crate::r1cs::{con_sat, cs_extends, val_at, vals_of, var_vals, ConstraintSystem};
use generic_array::typenum::U4;
use halo2curves::bn256::Fr;
use neptune::sponge::api::{IOPattern, SpongeAPI, SpongeOp};
use neptune::sponge::vanilla::{Mode::Simplex, Sponge, SpongeTrait};
use neptune::Strength;

verus! {

/// What the Poseidon sponge squeezes after absorbing the given field values,
/// with the fixed schedule this module uses: width-four standard-strength
/// constants, simplex mode, one absorb of the whole sequence, one squeeze.
pub uninterp spec fn sponge_digest(inputs: Seq<nat>) -> nat;

/// Relies on `neptune`'s vanilla sponge: with fixed constants and a fixed
/// absorb/squeeze schedule the squeezed element is a function of the absorbed
/// field elements alone, and it is a canonical field element.
#[verifier::external_body]
fn sponge_ext(inputs: &Vec<Fe>) -> (r: Fe)
    ensures
        r@ == sponge_digest(vals_of(inputs@)),
        r@ < p(),
{
    let elts: Vec<Fr> = inputs.iter().map(crate::field::fe_to_fr).collect();
    let n = elts.len() as u32;
    let pc = Sponge::<Fr, U4>::api_constants(Strength::Standard);
    let mut sp = Sponge::new_with_constants(&pc, Simplex);
    let acc = &mut ();
    sp.start(IOPattern(vec![SpongeOp::Absorb(n), SpongeOp::Squeeze(1)]), None, acc);
    SpongeAPI::absorb(&mut sp, n, &elts, acc);
    let out = SpongeAPI::squeeze(&mut sp, 1, acc);
    sp.finish(acc).unwrap();
    fr_to_fe(&out[0])
}

/// The digest of a sequence of field elements under this module's fixed
/// sponge schedule; the checker of the sponge constraint recomputes it.
pub(crate) fn sponge_raw(inputs: &Vec<Fe>) -> (r: Fe)
    ensures
        r@ == sponge_digest(vals_of(inputs@)),
        r.wf(),
{
    sponge_ext(inputs)
}

/// A hash-chain step circuit: the fresh preimage elements one step absorbs.
#[derive(Clone, Debug)]
pub struct HashChainCircuit {
    pub num_elts_per_step: usize,
    pub x_i: Vec<Fe>,
}

impl HashChainCircuit {
    /// Every preimage element is a canonical field element, and there are as
    /// many as the step declares.
    pub open spec fn wf_spec(&self) -> bool {
        &&& self.x_i@.len() == self.num_elts_per_step as nat
        &&& forall|j: int| 0 <= j < self.x_i@.len() ==> (#[trigger] self.x_i@[j]).wf()
    }

    /// Samples a fresh preimage of `num_elts_per_step` field elements.
    pub fn new(num_elts_per_step: usize) -> (r: HashChainCircuit)
        ensures
            r.wf_spec(),
            r.num_elts_per_step == num_elts_per_step,
    {
        let mut x_i: Vec<Fe> = Vec::new();
        let mut j: usize = 0;
        while j < num_elts_per_step
            invariant
                j <= num_elts_per_step,
                x_i@.len() == j as nat,
                forall|i: int| 0 <= i < x_i@.len() ==> (#[trigger] x_i@[i]).wf(),
            decreases num_elts_per_step - j,
        {
            x_i.push(fe_random());
            j = j + 1;
        }
        HashChainCircuit { num_elts_per_step, x_i }
    }

    /// The state this circuit threads is the single running digest.
    pub fn arity(&self) -> (r: usize)
        ensures
            r == 1,
    {
        1
    }

    /// The input sequence one step feeds to the sponge: the running digest
    /// followed by the step's preimage elements.
    pub open spec fn absorbed(&self, digest: nat) -> Seq<nat> {
        seq![digest] + vals_of(self.x_i@)
    }

    /// Synthesizes one step: allocates the preimage elements as advice, hands
    /// the digest variable and the advice to the sponge gadget, and returns
    /// the variable carrying the squeezed digest. The cardinality obligation —
    /// one absorb of `1 + num_elts_per_step` elements, one squeeze — is met by
    /// construction, and the new digest variable holds the sponge's value of
    /// exactly that input sequence.
    #[verifier::loop_isolation(false)]
    pub fn synthesize(&self, cs: &mut ConstraintSystem, z: &Vec<usize>) -> (r: Result<
        Vec<usize>,
        IvcError,
    >)
        requires
            old(cs).wf(),
            self.wf_spec(),
            z@.len() == 1,
            z@[0] < old(cs).vals@.len(),
        ensures
            final(cs).wf(),
            cs_extends(*final(cs), *old(cs)),
            final(cs).vals@.len() == old(cs).vals@.len() + self.x_i@.len() + 1,
            final(cs).constraints@.len() == old(cs).constraints@.len() + 1,
            final(cs).satisfied_from(old(cs).constraints@.len() as int),
            r is Ok,
            r matches Ok(out) ==> {
                let d0 = val_at(vals_of(old(cs).vals@), z@[0] as nat);
                &&& out@.len() == 1
                &&& out@[0] < final(cs).vals@.len()
                &&& val_at(vals_of(final(cs).vals@), out@[0] as nat) == sponge_digest(
                    self.absorbed(d0),
                )
            },
    {
        let ghost d0 = val_at(vals_of(old(cs).vals@), z@[0] as nat);
        let digest_in = cs.value(z[0]);
        let mut inputs: Vec<Fe> = Vec::new();
        inputs.push(digest_in);
        let mut in_vars: Vec<usize> = Vec::new();
        in_vars.push(z[0]);
        let mut j: usize = 0;
        while j < self.x_i.len()
            invariant
                j <= self.x_i@.len(),
                cs.wf(),
                cs_extends(*cs, *old(cs)),
                cs.vals@.len() == old(cs).vals@.len() + j as nat,
                cs.constraints@ == old(cs).constraints@,
                inputs@.len() == j + 1,
                in_vars@.len() == j + 1,
                inputs@[0] == old(cs).vals@[z@[0] as int],
                in_vars@[0] == z@[0],
                forall|i: int| 0 <= i < inputs@.len() ==> (#[trigger] inputs@[i]).wf(),
                forall|i: int| 0 <= i < in_vars@.len() ==> #[trigger] in_vars@[i]
                    < cs.vals@.len(),
                forall|i: int|
                    1 <= i < inputs@.len() ==> #[trigger] inputs@[i] == self.x_i@[i - 1],
                forall|i: int|
                    0 <= i < in_vars@.len() ==> val_at(
                        vals_of(cs.vals@),
                        #[trigger] in_vars@[i] as nat,
                    ) == inputs@[i]@,
            decreases self.x_i@.len() - j,
        {
            let e = self.x_i[j];
            let var = cs.alloc_var(e);
            inputs.push(e);
            in_vars.push(var);
            j = j + 1;
        }
        let d = sponge_ext(&inputs);
        let ghost cs1 = *cs;
        let out_var = cs.alloc_var(d);
        let ghost gin = in_vars@;
        proof {
            assert(vals_of(inputs@) =~= self.absorbed(d0));
        }
        cs.sponge_gate(in_vars, out_var);
        let mut out: Vec<usize> = Vec::new();
        out.push(out_var);
        proof {
            let vnow = vals_of(cs.vals@);
            let base = old(cs).constraints@.len() as int;
            assert(cs.constraints@.len() == base + 1);
            assert(val_at(vnow, out_var as nat) == d@);
            assert forall|i: int| 0 <= i < gin.len() implies val_at(
                vnow,
                #[trigger] gin[i] as nat,
            ) == inputs@[i]@ by {
                assert(gin[i] < cs1.vals@.len());
                assert(cs.vals@[gin[i] as int] == cs1.vals@[gin[i] as int]);
            }
            assert(var_vals(gin, vnow) =~= vals_of(inputs@));
            assert(con_sat(cs.constraints@[base], vnow));
            assert forall|k: int| base <= k < cs.constraints@.len() implies con_sat(
                #[trigger] cs.constraints@[k],
                vnow,
            ) by {
                assert(k == base);
            }
        }
        Ok(out)
    }

    /// The native output of one step: the digest of the running digest and
    /// this step's preimage elements.
    pub fn output(&self, z: &Vec<Fe>) -> (r: Result<Vec<Fe>, IvcError>)
        requires
            self.wf_spec(),
            z@.len() == 1,
            forall|j: int| 0 <= j < z@.len() ==> (#[trigger] z@[j]).wf(),
        ensures
            r is Ok,
            r matches Ok(out) ==> {
                &&& out@.len() == 1
                &&& out@[0].wf()
                &&& out@[0]@ == sponge_digest(self.absorbed(z@[0]@))
            },
    {
        let mut inputs: Vec<Fe> = Vec::new();
        inputs.push(z[0]);
        let mut j: usize = 0;
        while j < self.x_i.len()
            invariant
                j <= self.x_i@.len(),
                inputs@.len() == j + 1,
                inputs@[0] == z@[0],
                forall|i: int|
                    1 <= i < inputs@.len() ==> #[trigger] inputs@[i] == self.x_i@[i - 1],
            decreases self.x_i@.len() - j,
        {
            inputs.push(self.x_i[j]);
            j = j + 1;
        }
        proof {
            assert(vals_of(inputs@) =~= self.absorbed(z@[0]@));
        }
        let d = sponge_ext(&inputs);
        let mut out: Vec<Fe> = Vec::new();
        out.push(d);
        Ok(out)
    }
}

} // verus!
