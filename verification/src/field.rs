//! The scalar field of the bn254 curve, which is also the base field of the
//! grumpkin curve: the field every circuit value in this crate lives in.
//!
//! A field element is carried as its canonical little-endian limb
//! representation, so that the mathematical value of every element is plain to
//! the specifications. The arithmetic itself is done by the `halo2curves`
//! crate behind trusted wrappers whose contracts state the operation modulo
//! the field's order.

use vstd::prelude::*;
use vstd::arithmetic::div_mod::{
    lemma_add_mod_noop, lemma_mod_bound, lemma_mul_mod_noop_general, lemma_small_mod,
};
use vstd::arithmetic::mul::lemma_mul_is_associative;
use crate::errors::IvcError;
use halo2curves::bn256::Fr;
use ff::Field;

verus! {

/// The order of the field: the number of points on the bn254 curve, a prime.
pub open spec fn p() -> nat {
    21888242871839275222246405745257275088548364400416034343698204186575808495617nat
}

/// The fifth-root exponent: the inverse of 5 modulo `p() - 1`, so that raising
/// to this power inverts raising to the fifth power on the whole field.
pub open spec fn root_exp() -> nat {
    17510594297471420177797124596205820070838691520332827474958563349260646796493nat
}

/// Addition in the field.
pub open spec fn add_m(a: nat, b: nat) -> nat {
    (a + b) % p()
}

/// Multiplication in the field.
pub open spec fn mul_m(a: nat, b: nat) -> nat {
    (a * b) % p()
}

/// The fifth power in the field.
pub open spec fn pow5_m(a: nat) -> nat {
    (a * a * a * a * a) % p()
}

/// Exponentiation in the field.
pub open spec fn pow_m(base: nat, exp: nat) -> nat
    decreases exp,
{
    if exp == 0 {
        1nat % p()
    } else {
        (pow_m(base, (exp - 1) as nat) * base) % p()
    }
}

/// A field element, held as the canonical little-endian base-2^64 limbs of its
/// value: the value is below `p()` and determines the limbs uniquely.
#[derive(Clone, Copy, PartialEq, Eq, Structural, Debug)]
pub struct Fe {
    l0: u64,
    l1: u64,
    l2: u64,
    l3: u64,
}

impl View for Fe {
    type V = nat;

    closed spec fn view(&self) -> nat {
        self.l0 as nat + self.l1 as nat * 0x10000000000000000nat + self.l2 as nat
            * 0x100000000000000000000000000000000nat + self.l3 as nat
            * 0x1000000000000000000000000000000000000000000000000nat
    }
}

/// The value of four little-endian limbs; used to state what the
/// exponentiation wrapper does with its exponent argument.
pub open spec fn limbs_val(e0: u64, e1: u64, e2: u64, e3: u64) -> nat {
    e0 as nat + e1 as nat * 0x10000000000000000nat + e2 as nat
        * 0x100000000000000000000000000000000nat + e3 as nat
        * 0x1000000000000000000000000000000000000000000000000nat
}

impl Fe {
    /// A field element is well formed when it is the canonical representative
    /// of its residue class.
    pub open spec fn wf(&self) -> bool {
        self@ < p()
    }

    /// The zero of the field.
    pub fn zero() -> (r: Fe)
        ensures
            r@ == 0,
            r.wf(),
    {
        Fe { l0: 0, l1: 0, l2: 0, l3: 0 }
    }

    /// The one of the field.
    pub fn one() -> (r: Fe)
        ensures
            r@ == 1,
            r.wf(),
    {
        Fe { l0: 1, l1: 0, l2: 0, l3: 0 }
    }

    /// The element `p() - 1`, the additive inverse of one.
    pub fn minus_one() -> (r: Fe)
        ensures
            r@ == p() - 1,
            r.wf(),
    {
        Fe {
            l0: 0x43e1f593f0000000,
            l1: 0x2833e84879b97091,
            l2: 0xb85045b68181585d,
            l3: 0x30644e72e131a029,
        }
    }

    /// Embeds a machine integer into the field.
    pub fn from_u64(v: u64) -> (r: Fe)
        ensures
            r@ == v as nat,
            r.wf(),
    {
        Fe { l0: v, l1: 0, l2: 0, l3: 0 }
    }

    /// Builds a field element from little-endian limbs, accepting exactly the
    /// canonical representations: those whose value is below the field order.
    pub fn from_limbs(l0: u64, l1: u64, l2: u64, l3: u64) -> (r: Option<Fe>)
        ensures
            limbs_val(l0, l1, l2, l3) < p() ==> (r is Some && r->Some_0@ == limbs_val(
                l0,
                l1,
                l2,
                l3,
            )),
            limbs_val(l0, l1, l2, l3) >= p() ==> r is None,
    {
        let below: bool = l3 < 0x30644e72e131a029 || (l3 == 0x30644e72e131a029 && (l2
            < 0xb85045b68181585d || (l2 == 0xb85045b68181585d && (l1 < 0x2833e84879b97091 || (l1
            == 0x2833e84879b97091 && l0 < 0x43e1f593f0000001)))));
        proof {
            lemma_limb_order(l0, l1, l2, l3);
        }
        if below {
            Some(Fe { l0, l1, l2, l3 })
        } else {
            None
        }
    }

    /// The canonical little-endian limbs of the element.
    pub fn limbs(&self) -> (r: (u64, u64, u64, u64))
        ensures
            limbs_val(r.0, r.1, r.2, r.3) == self@,
    {
        (self.l0, self.l1, self.l2, self.l3)
    }
}

/// The lexicographic order of little-endian limbs agrees with the order of the
/// values they compose.
proof fn lemma_limb_order(l0: u64, l1: u64, l2: u64, l3: u64)
    ensures
        (limbs_val(l0, l1, l2, l3) < p()) <==> (l3 < 0x30644e72e131a029 || (l3
            == 0x30644e72e131a029 && (l2 < 0xb85045b68181585d || (l2 == 0xb85045b68181585d && (l1
            < 0x2833e84879b97091 || (l1 == 0x2833e84879b97091 && l0 < 0x43e1f593f0000001)))))),
{
}

/// Two field elements with the same value have the same limbs: the canonical
/// representation is unique, so value equality is structural equality.
pub proof fn lemma_fe_val_injective(a: Fe, b: Fe)
    requires
        a@ == b@,
    ensures
        a == b,
{
    let d0 = a.l0 as int - b.l0 as int;
    let d1 = a.l1 as int - b.l1 as int;
    let d2 = a.l2 as int - b.l2 as int;
    let d3 = a.l3 as int - b.l3 as int;
    assert(d0 + d1 * 0x10000000000000000 + d2 * 0x100000000000000000000000000000000 + d3
        * 0x1000000000000000000000000000000000000000000000000 == 0);
    assert(d3 == 0);
    assert(d2 == 0);
    assert(d1 == 0);
    assert(d0 == 0);
}

/// The field element type of `halo2curves`, declared so that the conversion
/// helpers below can carry it through their signatures.
#[verifier::external_type_specification]
#[verifier::external_body]
pub struct ExFr(Fr);

/// Relies on `halo2curves::bn256::Fr::from_raw`: it reduces little-endian
/// limbs modulo the field order.
#[verifier::external_body]
pub(crate) fn fe_to_fr(e: &Fe) -> Fr {
    Fr::from_raw([e.l0, e.l1, e.l2, e.l3])
}

/// Relies on `halo2curves::bn256::Fr::to_bytes`: the canonical little-endian
/// byte form of the element, whose value is below the field order.
#[verifier::external_body]
pub(crate) fn fr_to_fe(v: &Fr) -> Fe {
    let l: Vec<u64> = v.to_bytes().chunks(8).map(|c| u64::from_le_bytes(c.try_into().unwrap())).collect();
    Fe { l0: l[0], l1: l[1], l2: l[2], l3: l[3] }
}

/// Relies on `halo2curves::bn256::Fr`: `+` is addition in the field.
#[verifier::external_body]
fn add_ext(a: &Fe, b: &Fe) -> (r: Fe)
    ensures
        r@ == add_m(a@, b@),
{
    let s = fe_to_fr(a) + fe_to_fr(b);
    fr_to_fe(&s)
}

/// Relies on `halo2curves::bn256::Fr`: `*` is multiplication in the field.
#[verifier::external_body]
fn mul_ext(a: &Fe, b: &Fe) -> (r: Fe)
    ensures
        r@ == mul_m(a@, b@),
{
    let s = fe_to_fr(a) * fe_to_fr(b);
    fr_to_fe(&s)
}

/// Relies on `ff::Field::pow_vartime`: it raises the base to the exponent
/// given as little-endian 64-bit digits, in the field.
#[verifier::external_body]
fn pow_ext(a: &Fe, e0: u64, e1: u64, e2: u64, e3: u64) -> (r: Fe)
    ensures
        r@ == pow_m(a@, limbs_val(e0, e1, e2, e3)),
{
    let s = fe_to_fr(a).pow_vartime([e0, e1, e2, e3]);
    fr_to_fe(&s)
}

/// Relies on `ff::Field::random` over `rand::thread_rng`: a field element, so
/// its value is a canonical residue; nothing else is assumed of a sample.
#[verifier::external_body]
fn sample_ext() -> (r: Fe)
    ensures
        r@ < p(),
{
    let s = Fr::random(rand::thread_rng());
    fr_to_fe(&s)
}

/// The sum of two field elements.
pub fn fe_add(a: &Fe, b: &Fe) -> (r: Fe)
    ensures
        r@ == add_m(a@, b@),
        r.wf(),
{
    let r = add_ext(a, b);
    proof {
        lemma_mod_bound((a@ + b@) as int, p() as int);
    }
    r
}

/// The product of two field elements.
pub fn fe_mul(a: &Fe, b: &Fe) -> (r: Fe)
    ensures
        r@ == mul_m(a@, b@),
        r.wf(),
{
    let r = mul_ext(a, b);
    proof {
        lemma_mod_bound((a@ * b@) as int, p() as int);
    }
    r
}

/// A fresh uniformly random field element.
pub fn fe_random() -> (r: Fe)
    ensures
        r.wf(),
{
    sample_ext()
}

/// The fifth power of a field element, computed as the circuits compute it:
/// two squarings followed by one multiplication.
pub fn fe_fifth_power(a: &Fe) -> (r: Fe)
    ensures
        r@ == pow5_m(a@),
        r.wf(),
{
    let sq = fe_mul(a, a);
    let quad = fe_mul(&sq, &sq);
    let fifth = fe_mul(&quad, a);
    proof {
        lemma_pow5_chain(a@);
    }
    fifth
}

/// The fifth-root exponent is the inverse of five in the multiplicative group
/// of exponents: five times it is one modulo `p() - 1`. This is what makes
/// raising to `root_exp()` undo raising to the fifth power on this field; the
/// library nevertheless re-checks every root it computes.
pub proof fn lemma_root_exp_inverts_five()
    ensures
        (5 * root_exp()) % ((p() - 1) as nat) == 1,
{
    let m = (p() - 1) as int;
    assert(5 * root_exp() == 4 * m + 1);
    vstd::arithmetic::div_mod::lemma_mod_multiples_vanish(4, 1, m);
    lemma_small_mod(1nat, (p() - 1) as nat);
}

/// The result of exponentiation is a canonical residue.
pub proof fn lemma_pow_m_bound(b: nat, e: nat)
    ensures
        pow_m(b, e) < p(),
{
    if e == 0 {
        lemma_mod_bound(1int, p() as int);
    } else {
        lemma_mod_bound((pow_m(b, (e - 1) as nat) * b) as int, p() as int);
    }
}

/// The fifth root of a field element: the element raised to `root_exp()`.
///
/// The candidate root is checked on the spot by raising it back to the fifth
/// power natively — two squarings and one multiplication — and comparing with
/// the argument; this check is the only guard against a wrong exponent, so a
/// mismatch is reported as `WitnessError` rather than trusted away.
pub fn fifth_root(v: &Fe) -> (r: Result<Fe, IvcError>)
    requires
        v.wf(),
    ensures
        r is Ok <==> pow5_m(pow_m(v@, root_exp())) == v@,
        r matches Ok(root) ==> root@ == pow_m(v@, root_exp()) && root.wf() && pow5_m(root@) == v@,
        r matches Err(e) ==> e == IvcError::WitnessError,
{
    let cand = pow_ext(
        v,
        0xcfe7f7a98ccccccd,
        0x535cb9d394945a0d,
        0x93736af8679aad17,
        0x26b6a528b427b354,
    );
    proof {
        assert(limbs_val(
            0xcfe7f7a98ccccccd,
            0x535cb9d394945a0d,
            0x93736af8679aad17,
            0x26b6a528b427b354,
        ) == root_exp());
        lemma_pow_m_bound(v@, root_exp());
    }
    let fifth = fe_fifth_power(&cand);
    if fifth == *v {
        Ok(cand)
    } else {
        proof {
            assert(pow5_m(cand@) != v@) by {
                if pow5_m(cand@) == v@ {
                    lemma_fe_val_injective(fifth, *v);
                }
            }
        }
        Err(IvcError::WitnessError)
    }
}

/// Squaring twice and multiplying once computes the fifth power, modulo `p()`.
pub proof fn lemma_pow5_chain(x: nat)
    ensures
        mul_m(mul_m(mul_m(x, x), mul_m(x, x)), x) == pow5_m(x),
{
    let m = p() as int;
    let xi = x as int;
    let x2 = xi * xi;
    lemma_mul_mod_noop_general(x2, x2, m);
    assert(mul_m(mul_m(x, x), mul_m(x, x)) == (x2 * x2) % m);
    lemma_mul_mod_noop_general(x2 * x2, xi, m);
    assert((((x2 * x2) % m) * xi) % m == ((x2 * x2) * xi) % m);
    assert(x2 * x2 == (x2 * xi) * xi) by {
        lemma_mul_is_associative(x2, xi, xi);
    }
    assert((x2 * x2) * xi == xi * xi * xi * xi * xi);
}

} // verus!
