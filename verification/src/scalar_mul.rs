//! The scalar-multiplication chain: each sub-step multiplies a fixed grumpkin
//! commitment point by a freshly sampled challenge scalar, given bit by bit,
//! adds a second fixed commitment point, and carries the resulting affine
//! point forward as the step's state.
//!
//! The curve arithmetic is the `halo2curves` crate's, behind trusted wrappers
//! whose results are named; what this module owns — and what is verified — is
//! the bit order of the double-and-add ladder and the composition of one
//! multiplication and one addition per sub-step, natively and in the circuit.

use vstd::prelude::*;
use crate::errors::IvcError;
use crate::field::{add_m, fe_to_fr, fr_to_fe, limbs_val, mul_m, p, Fe};
use crate::r1cs::{bit_bools, con_sat, cs_extends, lemma_con_sat_bool, lemma_satisfied_from_extend, lc_eval, val_at, vals_of, Constraint, ConstraintSystem, Lc};
use halo2curves::grumpkin::G1Affine;
use halo2curves::group::{Curve, Group};
use halo2curves::group::prime::PrimeCurveAffine;
use halo2curves::CurveAffine;
use rand::Rng;

verus! {

/// How many bits each sampled challenge scalar has.
pub const NUM_CHALLENGE_BITS: usize = 128;

/// A point of the grumpkin curve in affine coordinates, whose base field is
/// the scalar field of bn254; `inf` marks the identity.
#[derive(Clone, Copy, PartialEq, Eq, Structural, Debug)]
pub struct Pt {
    pub x: Fe,
    pub y: Fe,
    pub inf: bool,
}

/// The grumpkin curve equation `y^2 == x^3 - 17` over canonical coordinates.
pub open spec fn on_curve(x: nat, y: nat) -> bool {
    mul_m(y, y) == add_m(mul_m(mul_m(x, x), x), (p() - 17) as nat)
}

impl Pt {
    /// A point is well formed when its coordinates are canonical and, unless
    /// it is the identity, they satisfy the curve equation.
    pub open spec fn wf(&self) -> bool {
        self.x.wf() && self.y.wf() && (self.inf || on_curve(self.x@, self.y@))
    }

    /// The plain-value view of the point.
    pub open spec fn view_pt(&self) -> (nat, nat, bool) {
        (self.x@, self.y@, self.inf)
    }

    /// The identity of the group.
    pub fn identity() -> (r: Pt)
        ensures
            r.wf(),
            r.view_pt() == (0nat, 0nat, true),
    {
        Pt { x: Fe::zero(), y: Fe::zero(), inf: true }
    }
}

/// The affine grumpkin point type of `halo2curves`, declared so that the
/// conversion wrappers below can carry it through their signatures.
#[verifier::external_type_specification]
#[verifier::external_body]
pub struct ExG1Affine(G1Affine);

/// What the group law of grumpkin gives for the sum of two points, over their
/// plain-value views.
pub uninterp spec fn ec_add_pt(ax: nat, ay: nat, ainf: bool, bx: nat, by: nat, binf: bool) -> (
    nat,
    nat,
    bool,
);

/// What doubling a grumpkin point gives, over its plain-value view.
pub uninterp spec fn ec_double_pt(ax: nat, ay: nat, ainf: bool) -> (nat, nat, bool);

/// Relies on `halo2curves`' grumpkin group addition (complete projective
/// formulas): the sum of two curve points is a function of the points alone,
/// and is again a point of the curve, in canonical coordinates.
#[verifier::external_body]
fn ec_add_ext(a: &Pt, b: &Pt) -> (r: Pt)
    requires
        a.wf(),
        b.wf(),
    ensures
        r.wf(),
        r.view_pt() == ec_add_pt(a.x@, a.y@, a.inf, b.x@, b.y@, b.inf),
{
    let pa = pt_to_affine(a);
    let pb = pt_to_affine(b);
    affine_to_pt((pa.to_curve() + pb.to_curve()).to_affine())
}

/// Relies on `halo2curves`' grumpkin group doubling: the double of a curve
/// point is a function of the point alone, and is again a point of the curve,
/// in canonical coordinates.
#[verifier::external_body]
fn ec_double_ext(a: &Pt) -> (r: Pt)
    requires
        a.wf(),
    ensures
        r.wf(),
        r.view_pt() == ec_double_pt(a.x@, a.y@, a.inf),
{
    affine_to_pt(pt_to_affine(a).to_curve().double().to_affine())
}

/// Relies on `halo2curves::grumpkin::G1Affine::from_xy`, which accepts exactly
/// the coordinate pairs on the curve; the identity flag selects the identity.
#[verifier::external_body]
fn pt_to_affine(a: &Pt) -> (r: G1Affine)
    requires
        a.wf(),
{
    if a.inf {
        G1Affine::identity()
    } else {
        G1Affine::from_xy(fe_to_fr(&a.x), fe_to_fr(&a.y)).unwrap()
    }
}

/// Relies on `halo2curves`' affine coordinates being canonical field elements.
#[verifier::external_body]
fn affine_to_pt(a: G1Affine) -> (r: Pt)
{
    if bool::from(a.is_identity()) {
        Pt { x: Fe::zero(), y: Fe::zero(), inf: true }
    } else {
        let c = a.coordinates().unwrap();
        Pt { x: fr_to_fe(c.x()), y: fr_to_fe(c.y()), inf: false }
    }
}

/// Relies on `rand::thread_rng` and `Rng::gen_range`: a challenge bit, set
/// with probability one third; nothing is assumed of the outcome.
#[verifier::external_body]
fn sample_bit_ext() -> (r: bool) {
    rand::thread_rng().gen_range(0..3) == 0
}

/// The double-and-add ladder over the named group operations, processing bits
/// least-significant first: the result of multiplying `base` by the scalar the
/// remaining bits spell, accumulated onto `acc`.
pub open spec fn smul(bits: Seq<bool>, base: (nat, nat, bool), acc: (nat, nat, bool)) -> (
    nat,
    nat,
    bool,
)
    decreases bits.len(),
{
    if bits.len() == 0 {
        acc
    } else {
        let acc2 = if bits[0] {
            ec_add_pt(acc.0, acc.1, acc.2, base.0, base.1, base.2)
        } else {
            acc
        };
        smul(bits.skip(1), ec_double_pt(base.0, base.1, base.2), acc2)
    }
}

/// One sub-step of the chain: the second commitment point plus the first
/// multiplied by the challenge bits.
pub open spec fn mul_add_spec(bits: Seq<bool>, c1: (nat, nat, bool), c2: (nat, nat, bool)) -> (
    nat,
    nat,
    bool,
) {
    let m = smul(bits, c1, (0nat, 0nat, true));
    ec_add_pt(c2.0, c2.1, c2.2, m.0, m.1, m.2)
}

/// Multiplies `base` by the scalar the bits spell, least-significant bit
/// first, with the double-and-add ladder.
pub fn scalar_mul(bits: &Vec<bool>, base: &Pt) -> (r: Pt)
    requires
        base.wf(),
    ensures
        r.wf(),
        r.view_pt() == smul(bits@, base.view_pt(), (0nat, 0nat, true)),
{
    let mut acc = Pt::identity();
    let mut cur = *base;
    let mut j: usize = 0;
    proof {
        assert(bits@.skip(0) == bits@);
    }
    while j < bits.len()
        invariant
            j <= bits@.len(),
            acc.wf(),
            cur.wf(),
            base.wf(),
            smul(bits@, base.view_pt(), (0nat, 0nat, true)) == smul(
                bits@.skip(j as int),
                cur.view_pt(),
                acc.view_pt(),
            ),
        decreases bits@.len() - j,
    {
        let ghost pre_bits = bits@.skip(j as int);
        if bits[j] {
            acc = ec_add_ext(&acc, &cur);
        }
        cur = ec_double_ext(&cur);
        proof {
            assert(pre_bits[0] == bits@[j as int]);
            assert(pre_bits.skip(1) == bits@.skip(j + 1));
        }
        j = j + 1;
    }
    proof {
        assert(bits@.skip(bits@.len() as int) =~= Seq::<bool>::empty());
    }
    acc
}

/// One native sub-step: `c2 + bits * c1`.
pub fn mul_then_add(bits: &Vec<bool>, c1: &Pt, c2: &Pt) -> (r: Pt)
    requires
        c1.wf(),
        c2.wf(),
    ensures
        r.wf(),
        r.view_pt() == mul_add_spec(bits@, c1.view_pt(), c2.view_pt()),
{
    let m = scalar_mul(bits, c1);
    ec_add_ext(c2, &m)
}

/// The plain-value view of the fixed grumpkin commitment point.
pub open spec fn fixed_commitment_pt() -> (nat, nat, bool) {
    (
        19834382608297447889961323302677467055070110053155139740545148874538063289754nat,
        20084669131162155340423162249467328031170931348295785825029782732565818853520nat,
        false,
    )
}

/// The fixed grumpkin commitment point every sub-step multiplies and adds.
pub fn fixed_commitment() -> (r: Pt)
    ensures
        r.wf(),
        r.view_pt() == fixed_commitment_pt(),
{
    let x = match Fe::from_limbs(
        0xeb66969b8ac0dd9a,
        0xb3990420274d33b1,
        0x8988b66aa3f3eb49,
        0x2bd9dcdba86889ed,
    ) {
        Some(v) => v,
        None => Fe::zero(),
    };
    let y = match Fe::from_limbs(
        0xb0664cea8cb74890,
        0x69dc4c1e7c923c25,
        0x31dc569ce9d6e412,
        0x2c678516c21eef92,
    ) {
        Some(v) => v,
        None => Fe::zero(),
    };
    proof {
        let xv = 19834382608297447889961323302677467055070110053155139740545148874538063289754nat;
        let yv = 20084669131162155340423162249467328031170931348295785825029782732565818853520nat;
        assert(limbs_val(
            0xeb66969b8ac0dd9a,
            0xb3990420274d33b1,
            0x8988b66aa3f3eb49,
            0x2bd9dcdba86889ed,
        ) == xv);
        assert(limbs_val(
            0xb0664cea8cb74890,
            0x69dc4c1e7c923c25,
            0x31dc569ce9d6e412,
            0x2c678516c21eef92,
        ) == yv);
        assert(xv < p() && yv < p());
        let c1 = 2176612386793195193401012619229988680868125370829388173314312584872145991624nat;
        let c2 = 2539347089382241234205299315380432240806942765910995250903602540666078983390nat;
        let c3 = 2539347089382241234205299315380432240806942765910995250903602540666078983373nat;
        assert((19834382608297447889961323302677467055070110053155139740545148874538063289754nat * 19834382608297447889961323302677467055070110053155139740545148874538063289754nat) % 21888242871839275222246405745257275088548364400416034343698204186575808495617nat == 2176612386793195193401012619229988680868125370829388173314312584872145991624nat) by (nonlinear_arith);
        assert(mul_m(xv, xv) == c1);
        assert((2176612386793195193401012619229988680868125370829388173314312584872145991624nat * 19834382608297447889961323302677467055070110053155139740545148874538063289754nat) % 21888242871839275222246405745257275088548364400416034343698204186575808495617nat == 2539347089382241234205299315380432240806942765910995250903602540666078983390nat) by (nonlinear_arith);
        assert(mul_m(c1, xv) == c2);
        assert(add_m(c2, (p() - 17) as nat) == c3);
        assert((20084669131162155340423162249467328031170931348295785825029782732565818853520nat * 20084669131162155340423162249467328031170931348295785825029782732565818853520nat) % 21888242871839275222246405745257275088548364400416034343698204186575808495617nat == 2539347089382241234205299315380432240806942765910995250903602540666078983373nat) by (nonlinear_arith);
        assert(mul_m(yv, yv) == c3);
        assert(on_curve(xv, yv));
        assert(on_curve(x@, y@));
    }
    Pt { x, y, inf: false }
}

/// A scalar-multiplication-chain step circuit: per sub-step, the two fixed
/// commitment points and the sampled challenge bits.
#[derive(Clone, Debug)]
pub struct ScalarMulChainCircuit {
    pub num_sm_per_step: usize,
    pub comm1: Vec<Pt>,
    pub comm2: Vec<Pt>,
    pub rbits: Vec<Vec<bool>>,
}

impl ScalarMulChainCircuit {
    /// The commitment points are finite curve points and every sub-step has
    /// its full complement of challenge bits.
    pub open spec fn wf_spec(&self) -> bool {
        &&& self.comm1@.len() == self.num_sm_per_step as nat
        &&& self.comm2@.len() == self.num_sm_per_step as nat
        &&& self.rbits@.len() == self.num_sm_per_step as nat
        &&& forall|i: int|
            0 <= i < self.comm1@.len() ==> (#[trigger] self.comm1@[i]).wf() && !self.comm1@[i].inf
        &&& forall|i: int|
            0 <= i < self.comm2@.len() ==> (#[trigger] self.comm2@[i]).wf() && !self.comm2@[i].inf
        &&& forall|i: int|
            0 <= i < self.rbits@.len() ==> (#[trigger] self.rbits@[i])@.len()
                == NUM_CHALLENGE_BITS as nat
    }

    /// Builds a step of `num_sm_per_step` sub-steps on the fixed commitment
    /// point, sampling each sub-step's challenge bits afresh.
    pub fn new(num_sm_per_step: usize) -> (r: ScalarMulChainCircuit)
        ensures
            r.wf_spec(),
            r.num_sm_per_step == num_sm_per_step,
            forall|i: int|
                0 <= i < r.comm1@.len() ==> (#[trigger] r.comm1@[i]).view_pt()
                    == fixed_commitment_pt(),
            forall|i: int|
                0 <= i < r.comm2@.len() ==> (#[trigger] r.comm2@[i]).view_pt()
                    == fixed_commitment_pt(),
    {
        let base = fixed_commitment();
        let mut comm1: Vec<Pt> = Vec::new();
        let mut comm2: Vec<Pt> = Vec::new();
        let mut rbits: Vec<Vec<bool>> = Vec::new();
        let mut i: usize = 0;
        while i < num_sm_per_step
            invariant
                i <= num_sm_per_step,
                base.wf(),
                base.view_pt() == fixed_commitment_pt(),
                comm1@.len() == i as nat,
                comm2@.len() == i as nat,
                rbits@.len() == i as nat,
                forall|k: int|
                    0 <= k < comm1@.len() ==> (#[trigger] comm1@[k]).wf() && comm1@[k].view_pt()
                        == fixed_commitment_pt(),
                forall|k: int|
                    0 <= k < comm2@.len() ==> (#[trigger] comm2@[k]).wf() && comm2@[k].view_pt()
                        == fixed_commitment_pt(),
                forall|k: int|
                    0 <= k < rbits@.len() ==> (#[trigger] rbits@[k])@.len()
                        == NUM_CHALLENGE_BITS as nat,
            decreases num_sm_per_step - i,
        {
            let mut bits: Vec<bool> = Vec::new();
            let mut j: usize = 0;
            while j < NUM_CHALLENGE_BITS
                invariant
                    j <= NUM_CHALLENGE_BITS,
                    bits@.len() == j as nat,
                decreases NUM_CHALLENGE_BITS - j,
            {
                bits.push(sample_bit_ext());
                j = j + 1;
            }
            comm1.push(base);
            comm2.push(base);
            rbits.push(bits);
            i = i + 1;
        }
        ScalarMulChainCircuit { num_sm_per_step, comm1, comm2, rbits }
    }

    /// The state this circuit threads is the affine accumulator point.
    pub fn arity(&self) -> (r: usize)
        ensures
            r == 2,
    {
        2
    }
}


impl ScalarMulChainCircuit {
    /// The point the last sub-step of the chain produces.
    pub open spec fn last_fold(&self) -> (nat, nat, bool) {
        let n = self.num_sm_per_step as int;
        mul_add_spec(
            self.rbits@[n - 1]@,
            self.comm1@[n - 1].view_pt(),
            self.comm2@[n - 1].view_pt(),
        )
    }

    /// Synthesizes one step: per sub-step the challenge bits are allocated and
    /// boolean-constrained, the two commitment points are allocated, and the
    /// scalar-multiplication gadget ties the allocated output point to the
    /// ladder over those bits followed by one addition. The returned state is
    /// the last sub-step's output coordinates; with no sub-steps the state
    /// passes through unchanged and nothing is added.
    #[verifier::loop_isolation(false)]
    #[verifier::rlimit(100)]
    pub fn synthesize(&self, cs: &mut ConstraintSystem, z: &Vec<usize>) -> (r: Result<
        Vec<usize>,
        IvcError,
    >)
        requires
            old(cs).wf(),
            self.wf_spec(),
            z@.len() == 2,
            forall|j: int| 0 <= j < z@.len() ==> z@[j] < old(cs).vals@.len(),
        ensures
            final(cs).wf(),
            cs_extends(*final(cs), *old(cs)),
            final(cs).vals@.len() == old(cs).vals@.len() + self.num_sm_per_step * (
            NUM_CHALLENGE_BITS + 7),
            final(cs).constraints@.len() == old(cs).constraints@.len() + self.num_sm_per_step * (
            NUM_CHALLENGE_BITS + 1),
            final(cs).satisfied_from(old(cs).constraints@.len() as int),
            self.num_sm_per_step == 0 ==> *final(cs) == *old(cs),
            r is Ok,
            r matches Ok(out) ==> {
                &&& out@.len() == 2
                &&& forall|j: int| 0 <= j < out@.len() ==> #[trigger] out@[j]
                    < final(cs).vals@.len()
                &&& self.num_sm_per_step == 0 ==> out@ == z@
                &&& self.num_sm_per_step > 0 ==> val_at(
                    vals_of(final(cs).vals@),
                    out@[0] as nat,
                ) == self.last_fold().0 && val_at(vals_of(final(cs).vals@), out@[1] as nat)
                    == self.last_fold().1
            },
    {
        let ghost base_c = old(cs).constraints@.len() as int;
        let n = self.num_sm_per_step;
        if n == 0 {
            let mut out: Vec<usize> = Vec::new();
            out.push(z[0]);
            out.push(z[1]);
            proof {
                assert(out@ =~= z@);
            }
            return Ok(out);
        }
        let minus_one = Fe::minus_one();
        let one = Fe::one();
        let zero = Fe::zero();
        let mut out_x: usize = z[0];
        let mut out_y: usize = z[1];
        let mut i: usize = 0;
        while i < n
            invariant
                i <= n,
                cs.wf(),
                cs_extends(*cs, *old(cs)),
                cs.vals@.len() == old(cs).vals@.len() + i * (NUM_CHALLENGE_BITS + 7),
                cs.constraints@.len() == old(cs).constraints@.len() + i * (NUM_CHALLENGE_BITS
                    + 1),
                cs.satisfied_from(base_c),
                out_x < cs.vals@.len(),
                out_y < cs.vals@.len(),
                minus_one@ == p() - 1,
                one@ == 1,
                zero@ == 0,
                i > 0 ==> val_at(vals_of(cs.vals@), out_x as nat) == mul_add_spec(
                    self.rbits@[i - 1]@,
                    self.comm1@[i - 1].view_pt(),
                    self.comm2@[i - 1].view_pt(),
                ).0 && val_at(vals_of(cs.vals@), out_y as nat) == mul_add_spec(
                    self.rbits@[i - 1]@,
                    self.comm1@[i - 1].view_pt(),
                    self.comm2@[i - 1].view_pt(),
                ).1,
            decreases n - i,
        {
            let ghost pre = *cs;
            let bits = &self.rbits[i];
            let c1 = self.comm1[i];
            let c2 = self.comm2[i];
            // allocate everything first, so that the values are settled before
            // any constraint is judged
            let mut bit_vars: Vec<usize> = Vec::new();
            let mut j: usize = 0;
            while j < bits.len()
                invariant
                    j <= bits@.len(),
                    bits@.len() == NUM_CHALLENGE_BITS as nat,
                    cs.wf(),
                    cs_extends(*cs, pre),
                    cs.vals@.len() == pre.vals@.len() + j as nat,
                    cs.constraints@ == pre.constraints@,
                    bit_vars@.len() == j as nat,
                    forall|t: int| 0 <= t < bit_vars@.len() ==> #[trigger] bit_vars@[t]
                        < cs.vals@.len(),
                    forall|t: int|
                        0 <= t < bit_vars@.len() ==> val_at(
                            vals_of(cs.vals@),
                            #[trigger] bit_vars@[t] as nat,
                        ) == (if bits@[t] {
                            1nat
                        } else {
                            0nat
                        }),
                decreases bits@.len() - j,
            {
                let bv = cs.alloc_var(if bits[j] { one } else { zero });
                bit_vars.push(bv);
                j = j + 1;
            }
            let c1x = cs.alloc_var(c1.x);
            let c1y = cs.alloc_var(c1.y);
            let c2x = cs.alloc_var(c2.x);
            let c2y = cs.alloc_var(c2.y);
            let folded = mul_then_add(bits, &c1, &c2);
            let ox = cs.alloc_var(folded.x);
            let oy = cs.alloc_var(folded.y);
            let oinf = cs.alloc_var(if folded.inf { one } else { zero });
            proof {
                lemma_satisfied_from_extend(pre, *cs, base_c);
            }
            let ghost mid = *cs;
            let ghost vnow = vals_of(mid.vals@);
            // boolean-constrain every bit variable
            let mut j2: usize = 0;
            while j2 < bit_vars.len()
                invariant
                    j2 <= bit_vars@.len(),
                    cs.wf(),
                    cs_extends(*cs, mid),
                    cs.vals@ == mid.vals@,
                    cs.constraints@.len() == mid.constraints@.len() + j2 as nat,
                    cs.satisfied_from(base_c),
                    forall|t: int| 0 <= t < bit_vars@.len() ==> #[trigger] bit_vars@[t]
                        < mid.vals@.len(),
                decreases bit_vars@.len() - j2,
            {
                let bv = bit_vars[j2];
                let ghost pre2 = *cs;
                let a = Lc::single(bv);
                let b = Lc::shifted(bv, minus_one);
                let c = Lc::empty();
                let ghost ga = (a, b, c);
                cs.enforce(a, b, c);
                proof {
                    let vb = val_at(vnow, bv as nat);
                    assert(vb == 0 || vb == 1);
                    assert(lc_eval(ga.1.terms@, vnow) == vb + (p() - 1) * val_at(vnow, 0));
                    lemma_con_sat_bool(ga.0, ga.1, ga.2, vb, vnow);
                    assert(cs.constraints@[pre2.constraints@.len() as int]
                        == (Constraint::R1cs { a: ga.0, b: ga.1, c: ga.2 }));
                    assert forall|k: int|
                        base_c <= k < cs.constraints@.len() implies con_sat(
                        #[trigger] cs.constraints@[k],
                        vals_of(cs.vals@),
                    ) by {
                        if k < pre2.constraints@.len() {
                            assert(con_sat(pre2.constraints@[k], vals_of(pre2.vals@)));
                        }
                    }
                }
                j2 = j2 + 1;
            }
            // the gadget constraint ties the output point to the ladder
            let ghost pre3 = *cs;
            let ghost gbits = bit_vars@;
            cs.ec_mul_add_gate(bit_vars, c1x, c1y, c2x, c2y, ox, oy, oinf);
            proof {
                let gate = cs.constraints@[pre3.constraints@.len() as int];
                assert(bit_bools(gbits, vnow) =~= self.rbits@[i as int]@);
                assert(val_at(vnow, c1x as nat) == c1.x@ && val_at(vnow, c1y as nat) == c1.y@);
                assert(!c1.inf && !c2.inf);
                assert(con_sat(gate, vnow));
                assert forall|k: int| base_c <= k < cs.constraints@.len() implies con_sat(
                    #[trigger] cs.constraints@[k],
                    vals_of(cs.vals@),
                ) by {
                    if k < pre3.constraints@.len() {
                        assert(con_sat(pre3.constraints@[k], vals_of(pre3.vals@)));
                    }
                }
            }
            out_x = ox;
            out_y = oy;
            i = i + 1;
        }
        let mut out: Vec<usize> = Vec::new();
        out.push(out_x);
        out.push(out_y);
        Ok(out)
    }

    /// The native output of one step: the coordinates of the last sub-step's
    /// folded point; with no sub-steps the state passes through unchanged.
    pub fn output(&self, z: &Vec<Fe>) -> (r: Result<Vec<Fe>, IvcError>)
        requires
            self.wf_spec(),
            z@.len() == 2,
            forall|j: int| 0 <= j < z@.len() ==> (#[trigger] z@[j]).wf(),
        ensures
            r is Ok,
            r matches Ok(out) ==> {
                &&& out@.len() == 2
                &&& forall|j: int| 0 <= j < out@.len() ==> (#[trigger] out@[j]).wf()
                &&& self.num_sm_per_step == 0 ==> out@ == z@
                &&& self.num_sm_per_step > 0 ==> out@[0]@ == self.last_fold().0 && out@[1]@
                    == self.last_fold().1
            },
    {
        let n = self.num_sm_per_step;
        let mut out: Vec<Fe> = Vec::new();
        if n == 0 {
            out.push(z[0]);
            out.push(z[1]);
            proof {
                assert(out@ =~= z@);
            }
        } else {
            let folded = mul_then_add(&self.rbits[n - 1], &self.comm1[n - 1], &self.comm2[n - 1]);
            out.push(folded.x);
            out.push(folded.y);
        }
        Ok(out)
    }
}

} // verus!
