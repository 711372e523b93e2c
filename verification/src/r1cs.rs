//! A model of the rank-1 constraint systems the step circuits synthesize into.
//!
//! A system owns the values of its variables (variable 0 is the fixed one) and
//! a list of constraints. A rank-1 constraint is a product equation between
//! three linear combinations; the two gadget constraints stand for work that
//! an external circuit gadget performs on whole groups of variables. The
//! semantics of a system — which assignments satisfy it — is given by spec
//! functions, and an executable checker is proved to decide exactly that.

use vstd::prelude::*;
use vstd::arithmetic::div_mod::{lemma_add_mod_noop, lemma_small_mod};
use crate::field::{mul_m, p, Fe};
use crate::hashchain::sponge_digest;
use crate::scalar_mul::{mul_add_spec, on_curve};

verus! {

/// A linear combination of variables; the coefficient of variable 0 acts as a
/// constant term.
#[derive(Clone, Debug)]
pub struct Lc {
    pub terms: Vec<(Fe, usize)>,
}

/// One constraint over the variables of a system.
#[derive(Clone, Debug)]
pub enum Constraint {
    /// `a * b == c`, each side a linear combination evaluated in the field.
    R1cs { a: Lc, b: Lc, c: Lc },
    /// The sponge gadget: the output variable holds the digest of the input
    /// variables' values.
    Sponge { inputs: Vec<usize>, output: usize },
    /// The scalar-multiplication gadget: the output point is the `add` point
    /// plus the `base` point multiplied by the bit variables' scalar; the two
    /// input points must lie on the curve. A bit variable is read as the bit
    /// "its value equals one"; that the values are boolean is the business of
    /// the separate rank-1 constraints the circuit puts on them.
    EcMulAdd {
        bits: Vec<usize>,
        base_x: usize,
        base_y: usize,
        add_x: usize,
        add_y: usize,
        out_x: usize,
        out_y: usize,
        out_inf: usize,
    },
}

/// The values a list of variables takes under an assignment.
pub open spec fn var_vals(vars: Seq<usize>, vals: Seq<nat>) -> Seq<nat> {
    vars.map_values(|i: usize| val_at(vals, i as nat))
}

/// The booleans a list of bit variables spells under an assignment.
pub open spec fn bit_bools(vars: Seq<usize>, vals: Seq<nat>) -> Seq<bool> {
    vars.map_values(|i: usize| val_at(vals, i as nat) == 1)
}

/// A constraint system together with the witness values of its variables.
#[derive(Clone, Debug)]
pub struct ConstraintSystem {
    pub vals: Vec<Fe>,
    pub constraints: Vec<Constraint>,
}

/// The values of a variable assignment.
pub open spec fn vals_of(v: Seq<Fe>) -> Seq<nat> {
    v.map_values(|e: Fe| e@)
}

/// The value of variable `i`, zero when out of range so that evaluation is
/// total.
pub open spec fn val_at(vals: Seq<nat>, i: nat) -> nat {
    if i < vals.len() {
        vals[i as int]
    } else {
        0
    }
}

/// The (unreduced) value of a linear combination under an assignment.
pub open spec fn lc_eval(terms: Seq<(Fe, usize)>, vals: Seq<nat>) -> nat
    decreases terms.len(),
{
    if terms.len() == 0 {
        0
    } else {
        lc_eval(terms.drop_last(), vals) + terms.last().0@ * val_at(vals, terms.last().1 as nat)
    }
}

/// The field value of a linear combination under an assignment.
pub open spec fn lc_eval_m(lc: Lc, vals: Seq<nat>) -> nat {
    lc_eval(lc.terms@, vals) % p()
}

/// A linear combination is well formed for a system of `n` variables when all
/// its variables exist and all its coefficients are canonical.
pub open spec fn lc_wf(lc: Lc, n: nat) -> bool {
    forall|j: int|
        0 <= j < lc.terms@.len() ==> (#[trigger] lc.terms@[j]).1 < n && lc.terms@[j].0.wf()
}

/// Whether one constraint holds under an assignment.
pub open spec fn con_sat(c: Constraint, vals: Seq<nat>) -> bool {
    match c {
        Constraint::R1cs { a, b, c } => mul_m(lc_eval_m(a, vals), lc_eval_m(b, vals)) == lc_eval_m(
            c,
            vals,
        ),
        Constraint::Sponge { inputs, output } => val_at(vals, output as nat) == sponge_digest(
            var_vals(inputs@, vals),
        ),
        Constraint::EcMulAdd { bits, base_x, base_y, add_x, add_y, out_x, out_y, out_inf } => {
            let r = mul_add_spec(
                bit_bools(bits@, vals),
                (val_at(vals, base_x as nat), val_at(vals, base_y as nat), false),
                (val_at(vals, add_x as nat), val_at(vals, add_y as nat), false),
            );
            &&& on_curve(val_at(vals, base_x as nat), val_at(vals, base_y as nat))
            &&& on_curve(val_at(vals, add_x as nat), val_at(vals, add_y as nat))
            &&& val_at(vals, out_x as nat) == r.0
            &&& val_at(vals, out_y as nat) == r.1
            &&& val_at(vals, out_inf as nat) == if r.2 {
                1nat
            } else {
                0nat
            }
        },
    }
}

/// Whether one constraint only mentions the first `n` variables.
pub open spec fn con_wf(c: Constraint, n: nat) -> bool {
    match c {
        Constraint::R1cs { a, b, c } => lc_wf(a, n) && lc_wf(b, n) && lc_wf(c, n),
        Constraint::Sponge { inputs, output } => output < n && forall|j: int|
            0 <= j < inputs@.len() ==> #[trigger] inputs@[j] < n,
        Constraint::EcMulAdd { bits, base_x, base_y, add_x, add_y, out_x, out_y, out_inf } => {
            &&& base_x < n
            &&& base_y < n
            &&& add_x < n
            &&& add_y < n
            &&& out_x < n
            &&& out_y < n
            &&& out_inf < n
            &&& forall|j: int| 0 <= j < bits@.len() ==> #[trigger] bits@[j] < n
        },
    }
}

impl ConstraintSystem {
    /// A system is well formed when variable 0 is the constant one, every
    /// value is canonical, and every constraint mentions existing variables.
    pub open spec fn wf(&self) -> bool {
        &&& self.vals@.len() >= 1
        &&& self.vals@[0]@ == 1
        &&& forall|i: int| 0 <= i < self.vals@.len() ==> (#[trigger] self.vals@[i]).wf()
        &&& forall|k: int|
            0 <= k < self.constraints@.len() ==> con_wf(
                #[trigger] self.constraints@[k],
                self.vals@.len(),
            )
    }

    /// Whether every constraint from position `from` on holds under the
    /// system's own assignment.
    pub open spec fn satisfied_from(&self, from: int) -> bool {
        forall|k: int|
            from <= k < self.constraints@.len() ==> con_sat(
                #[trigger] self.constraints@[k],
                vals_of(self.vals@),
            )
    }

    /// Whether the system's own assignment satisfies all its constraints.
    pub open spec fn satisfied(&self) -> bool {
        self.satisfied_from(0)
    }

    /// A fresh system holding only the constant one.
    pub fn new() -> (cs: ConstraintSystem)
        ensures
            cs.wf(),
            cs.vals@.len() == 1,
            cs.vals@[0]@ == 1,
            cs.constraints@.len() == 0,
    {
        let mut vals: Vec<Fe> = Vec::new();
        vals.push(Fe::one());
        ConstraintSystem { vals, constraints: Vec::new() }
    }

    /// The number of variables, the constant one included.
    pub fn num_vars(&self) -> (r: usize)
        ensures
            r == self.vals@.len(),
    {
        self.vals.len()
    }

    /// The number of constraints.
    pub fn num_constraints(&self) -> (r: usize)
        ensures
            r == self.constraints@.len(),
    {
        self.constraints.len()
    }

    /// The value of a variable.
    pub fn value(&self, i: usize) -> (r: Fe)
        requires
            self.wf(),
            i < self.vals@.len(),
        ensures
            r == self.vals@[i as int],
            r.wf(),
    {
        self.vals[i]
    }

    /// Allocates a fresh variable holding `v` and returns its index.
    pub fn alloc_var(&mut self, v: Fe) -> (idx: usize)
        requires
            old(self).wf(),
            v.wf(),
        ensures
            final(self).wf(),
            idx == old(self).vals@.len(),
            final(self).vals@ == old(self).vals@.push(v),
            final(self).constraints@ == old(self).constraints@,
    {
        let idx = self.vals.len();
        self.vals.push(v);
        proof {
            assert forall|k: int| 0 <= k < self.constraints@.len() implies con_wf(
                #[trigger] self.constraints@[k],
                self.vals@.len(),
            ) by {
                lemma_con_wf_widen(self.constraints@[k], old(self).vals@.len(), self.vals@.len());
            }
        }
        idx
    }

    /// Adds the sponge-gadget constraint tying `output` to `inputs`.
    pub fn sponge_gate(&mut self, inputs: Vec<usize>, output: usize)
        requires
            old(self).wf(),
            output < old(self).vals@.len(),
            forall|j: int| 0 <= j < inputs@.len() ==> #[trigger] inputs@[j] < old(
                self,
            ).vals@.len(),
        ensures
            final(self).wf(),
            final(self).vals@ == old(self).vals@,
            final(self).constraints@ == old(self).constraints@.push(
                Constraint::Sponge { inputs, output },
            ),
    {
        self.constraints.push(Constraint::Sponge { inputs, output });
    }

    /// Adds the scalar-multiplication-gadget constraint.
    pub fn ec_mul_add_gate(
        &mut self,
        bits: Vec<usize>,
        base_x: usize,
        base_y: usize,
        add_x: usize,
        add_y: usize,
        out_x: usize,
        out_y: usize,
        out_inf: usize,
    )
        requires
            old(self).wf(),
            base_x < old(self).vals@.len(),
            base_y < old(self).vals@.len(),
            add_x < old(self).vals@.len(),
            add_y < old(self).vals@.len(),
            out_x < old(self).vals@.len(),
            out_y < old(self).vals@.len(),
            out_inf < old(self).vals@.len(),
            forall|j: int| 0 <= j < bits@.len() ==> #[trigger] bits@[j] < old(self).vals@.len(),
        ensures
            final(self).wf(),
            final(self).vals@ == old(self).vals@,
            final(self).constraints@ == old(self).constraints@.push(
                Constraint::EcMulAdd {
                    bits,
                    base_x,
                    base_y,
                    add_x,
                    add_y,
                    out_x,
                    out_y,
                    out_inf,
                },
            ),
    {
        self.constraints.push(
            Constraint::EcMulAdd { bits, base_x, base_y, add_x, add_y, out_x, out_y, out_inf },
        );
    }

    /// Adds the constraint `a * b == c`.
    pub fn enforce(&mut self, a: Lc, b: Lc, c: Lc)
        requires
            old(self).wf(),
            lc_wf(a, old(self).vals@.len()),
            lc_wf(b, old(self).vals@.len()),
            lc_wf(c, old(self).vals@.len()),
        ensures
            final(self).wf(),
            final(self).vals@ == old(self).vals@,
            final(self).constraints@ == old(self).constraints@.push(
                Constraint::R1cs { a, b, c },
            ),
    {
        self.constraints.push(Constraint::R1cs { a, b, c });
    }
}

/// One system extends another when it keeps all its variables' values and all
/// its constraints, in place, and only appends.
pub open spec fn cs_extends(post: ConstraintSystem, pre: ConstraintSystem) -> bool {
    &&& pre.vals@.len() <= post.vals@.len()
    &&& forall|i: int| 0 <= i < pre.vals@.len() ==> pre.vals@[i] == #[trigger] post.vals@[i]
    &&& pre.constraints@.len() <= post.constraints@.len()
    &&& forall|k: int|
        0 <= k < pre.constraints@.len() ==> pre.constraints@[k] == #[trigger] post.constraints@[k]
}

/// A constraint over the first `n` variables is also one over more variables.
pub proof fn lemma_con_wf_widen(c: Constraint, n: nat, m: nat)
    requires
        con_wf(c, n),
        n <= m,
    ensures
        con_wf(c, m),
{
}

/// A linear combination over the first `n` variables evaluates the same under
/// any extension of an assignment of length `n`.
pub proof fn lemma_lc_eval_extend(terms: Seq<(Fe, usize)>, vals: Seq<nat>, ext: Seq<nat>, n: nat)
    requires
        n <= vals.len(),
        vals.len() <= ext.len(),
        forall|i: int| 0 <= i < vals.len() ==> vals[i] == ext[i],
        forall|j: int| 0 <= j < terms.len() ==> (#[trigger] terms[j]).1 < n,
    ensures
        lc_eval(terms, vals) == lc_eval(terms, ext),
    decreases terms.len(),
{
    if terms.len() > 0 {
        lemma_lc_eval_extend(terms.drop_last(), vals, ext, n);
    }
}

/// A constraint over the first `n` variables keeps its meaning under any
/// extension of an assignment of length `n`.
pub proof fn lemma_con_sat_extend(c: Constraint, vals: Seq<nat>, ext: Seq<nat>, n: nat)
    requires
        n <= vals.len(),
        vals.len() <= ext.len(),
        forall|i: int| 0 <= i < vals.len() ==> vals[i] == ext[i],
        con_wf(c, n),
    ensures
        con_sat(c, vals) == con_sat(c, ext),
{
    match c {
        Constraint::R1cs { a, b, c } => {
            lemma_lc_eval_extend(a.terms@, vals, ext, n);
            lemma_lc_eval_extend(b.terms@, vals, ext, n);
            lemma_lc_eval_extend(c.terms@, vals, ext, n);
        },
        Constraint::Sponge { inputs, output } => {
            assert(var_vals(inputs@, vals) =~= var_vals(inputs@, ext));
        },
        Constraint::EcMulAdd { bits, base_x, base_y, add_x, add_y, out_x, out_y, out_inf } => {
            assert(bit_bools(bits@, vals) =~= bit_bools(bits@, ext));
            assert(forall|j: int|
                0 <= j < bits@.len() ==> val_at(vals, #[trigger] bits@[j] as nat) == val_at(
                    ext,
                    bits@[j] as nat,
                ));
        },
    }
}

/// Reduces a rank-1 constraint's satisfaction to an equation between the
/// known values of its sides: canonical left factors need no reduction.
pub proof fn lemma_con_sat_vals(a: Lc, b: Lc, c: Lc, va: nat, vb: nat, ec: nat, vals: Seq<nat>)
    requires
        lc_eval(a.terms@, vals) == va,
        va < p(),
        lc_eval(b.terms@, vals) == vb,
        vb < p(),
        lc_eval(c.terms@, vals) == ec,
    ensures
        con_sat(Constraint::R1cs { a, b, c }, vals) <==> mul_m(va, vb) == ec % p(),
{
    lemma_small_mod(va, p());
    lemma_small_mod(vb, p());
}

/// A boolean constraint `b * (b - 1) == 0` holds of the values zero and one.
pub proof fn lemma_con_sat_bool(a: Lc, b: Lc, c: Lc, vb: nat, vals: Seq<nat>)
    requires
        lc_eval(a.terms@, vals) == vb,
        vb == 0 || vb == 1,
        lc_eval(b.terms@, vals) == vb + (p() - 1),
        lc_eval(c.terms@, vals) == 0,
    ensures
        con_sat(Constraint::R1cs { a, b, c }, vals),
{
    lemma_small_mod(vb, p());
    lemma_small_mod(0nat, p());
    if vb == 0 {
        lemma_small_mod((p() - 1) as nat, p());
        assert(mul_m(0, (p() - 1) as nat) == 0) by {
            lemma_small_mod(0nat, p());
        }
    } else {
        assert((vb + (p() - 1)) % (p() as int) == 0) by {
            assert(vb + (p() - 1) == p());
            lemma_mod_self(p());
        }
        assert(mul_m(1, 0) == 0) by {
            lemma_small_mod(0nat, p());
        }
    }
}

/// A positive number is divisible by itself.
proof fn lemma_mod_self(m: nat)
    requires
        0 < m,
    ensures
        m % m == 0,
{
    assert(m % m == 0) by (nonlinear_arith)
        requires
            0 < m,
    ;
}

/// Appending only variables to a well-formed system leaves the meaning of its
/// constraints, and so its satisfaction, unchanged.
pub proof fn lemma_satisfied_from_extend(pre: ConstraintSystem, post: ConstraintSystem, from: int)
    requires
        0 <= from,
        pre.wf(),
        post.wf(),
        cs_extends(post, pre),
        post.constraints@ == pre.constraints@,
    ensures
        pre.satisfied_from(from) == post.satisfied_from(from),
{
    assert forall|k: int| 0 <= k < pre.constraints@.len() implies con_sat(
        #[trigger] pre.constraints@[k],
        vals_of(pre.vals@),
    ) == con_sat(pre.constraints@[k], vals_of(post.vals@)) by {
        lemma_con_sat_extend(
            pre.constraints@[k],
            vals_of(pre.vals@),
            vals_of(post.vals@),
            pre.vals@.len(),
        );
    }
    assert(pre.satisfied_from(from) == post.satisfied_from(from)) by {
        if pre.satisfied_from(from) {
            assert forall|k: int| from <= k < post.constraints@.len() implies con_sat(
                #[trigger] post.constraints@[k],
                vals_of(post.vals@),
            ) by {
                assert(post.constraints@[k] == pre.constraints@[k]);
                assert(con_sat(pre.constraints@[k], vals_of(pre.vals@)));
            }
        }
        if post.satisfied_from(from) {
            assert forall|k: int| from <= k < pre.constraints@.len() implies con_sat(
                #[trigger] pre.constraints@[k],
                vals_of(pre.vals@),
            ) by {
                assert(con_sat(post.constraints@[k], vals_of(post.vals@)));
            }
        }
    }
}

impl Lc {
    /// The empty combination, evaluating to zero.
    pub fn empty() -> (r: Lc)
        ensures
            r.terms@.len() == 0,
            forall|n: nat| lc_wf(r, n),
            forall|vals: Seq<nat>| #[trigger] lc_eval(r.terms@, vals) == 0,
    {
        Lc { terms: Vec::new() }
    }

    /// The combination `1 * x`.
    pub fn single(x: usize) -> (r: Lc)
        ensures
            forall|n: nat| x < n ==> lc_wf(r, n),
            forall|vals: Seq<nat>|
                #[trigger] lc_eval(r.terms@, vals) == val_at(vals, x as nat),
    {
        let one = Fe::one();
        let mut terms: Vec<(Fe, usize)> = Vec::new();
        terms.push((one, x));
        let r = Lc { terms };
        proof {
            assert forall|vals: Seq<nat>|
                #[trigger] lc_eval(r.terms@, vals) == val_at(vals, x as nat) by {
                reveal_with_fuel(lc_eval, 2);
                assert(r.terms@.drop_last() =~= Seq::<(Fe, usize)>::empty());
                assert(r.terms@.len() == 1);
                assert(lc_eval(r.terms@.drop_last(), vals) == 0);
                assert(r.terms@.last() == (one, x));
                assert(one@ == 1);
                assert(lc_eval(r.terms@, vals) == lc_eval(r.terms@.drop_last(), vals)
                    + r.terms@.last().0@ * val_at(vals, r.terms@.last().1 as nat));
                assert(r.terms@.last().0@ * val_at(vals, r.terms@.last().1 as nat) == 1 * val_at(
                    vals,
                    x as nat,
                ));
                assert(lc_eval(r.terms@, vals) == val_at(vals, x as nat));
            }
        }
        r
    }

    /// The combination `1 * x + 1 * y`.
    pub fn pair(x: usize, y: usize) -> (r: Lc)
        ensures
            forall|n: nat| x < n && y < n ==> lc_wf(r, n),
            forall|vals: Seq<nat>|
                #[trigger] lc_eval(r.terms@, vals) == val_at(vals, x as nat) + val_at(
                    vals,
                    y as nat,
                ),
    {
        let one = Fe::one();
        let mut terms: Vec<(Fe, usize)> = Vec::new();
        terms.push((one, x));
        terms.push((one, y));
        let r = Lc { terms };
        proof {
            assert forall|vals: Seq<nat>|
                #[trigger] lc_eval(r.terms@, vals) == val_at(vals, x as nat) + val_at(
                    vals,
                    y as nat,
                ) by {
                reveal_with_fuel(lc_eval, 3);
                assert(r.terms@.drop_last() =~= seq![r.terms@[0]]);
                assert(r.terms@.drop_last().drop_last() =~= Seq::<(Fe, usize)>::empty());
                assert(lc_eval(r.terms@.drop_last().drop_last(), vals) == 0);
                assert(r.terms@.drop_last().last() == (one, x));
                assert(r.terms@.last() == (one, y));
                assert(lc_eval(r.terms@.drop_last(), vals) == 0 + 1 * val_at(vals, x as nat));
                assert(lc_eval(r.terms@, vals) == lc_eval(r.terms@.drop_last(), vals) + 1 * val_at(
                    vals,
                    y as nat,
                ));
                assert(lc_eval(r.terms@, vals) == val_at(vals, x as nat) + val_at(vals, y as nat));
            }
        }
        r
    }

    /// The combination `1 * x + c * one`, that is, `x` shifted by a constant.
    pub fn shifted(x: usize, c: Fe) -> (r: Lc)
        ensures
            c.wf() ==> forall|n: nat| 0 < n && x < n ==> lc_wf(r, n),
            forall|vals: Seq<nat>|
                #[trigger] lc_eval(r.terms@, vals) == val_at(vals, x as nat) + c@ * val_at(
                    vals,
                    0,
                ),
    {
        let one = Fe::one();
        let mut terms: Vec<(Fe, usize)> = Vec::new();
        terms.push((one, x));
        terms.push((c, 0));
        let r = Lc { terms };
        proof {
            assert forall|vals: Seq<nat>|
                #[trigger] lc_eval(r.terms@, vals) == val_at(vals, x as nat) + c@ * val_at(
                    vals,
                    0,
                ) by {
                reveal_with_fuel(lc_eval, 3);
                assert(r.terms@.drop_last() =~= seq![r.terms@[0]]);
                assert(r.terms@.drop_last().drop_last() =~= Seq::<(Fe, usize)>::empty());
                assert(lc_eval(r.terms@.drop_last().drop_last(), vals) == 0);
                assert(r.terms@.drop_last().last() == (one, x));
                assert(r.terms@.last() == (c, 0usize));
                assert(lc_eval(r.terms@.drop_last(), vals) == 0 + 1 * val_at(vals, x as nat));
                assert(lc_eval(r.terms@, vals) == lc_eval(r.terms@.drop_last(), vals) + c@
                    * val_at(vals, 0));
            }
        }
        r
    }

    /// The combination `c * x`.
    pub fn scaled(c: Fe, x: usize) -> (r: Lc)
        ensures
            c.wf() ==> forall|n: nat| x < n ==> lc_wf(r, n),
            forall|vals: Seq<nat>|
                #[trigger] lc_eval(r.terms@, vals) == c@ * val_at(vals, x as nat),
    {
        let mut terms: Vec<(Fe, usize)> = Vec::new();
        terms.push((c, x));
        let r = Lc { terms };
        proof {
            assert forall|vals: Seq<nat>|
                #[trigger] lc_eval(r.terms@, vals) == c@ * val_at(vals, x as nat) by {
                reveal_with_fuel(lc_eval, 2);
                assert(r.terms@.drop_last() =~= Seq::<(Fe, usize)>::empty());
            }
        }
        r
    }
}


impl ConstraintSystem {
    /// Evaluates a linear combination under the system's own assignment.
    fn eval_lc(&self, lc: &Lc) -> (r: Fe)
        requires
            self.wf(),
            lc_wf(*lc, self.vals@.len()),
        ensures
            r@ == lc_eval_m(*lc, vals_of(self.vals@)),
            r.wf(),
    {
        let ghost vals = vals_of(self.vals@);
        let mut acc = Fe::zero();
        proof {
            lemma_small_mod(0nat, p());
            assert(lc.terms@.take(0) =~= Seq::<(Fe, usize)>::empty());
        }
        let mut t: usize = 0;
        while t < lc.terms.len()
            invariant
                t <= lc.terms@.len(),
                self.wf(),
                lc_wf(*lc, self.vals@.len()),
                vals == vals_of(self.vals@),
                acc.wf(),
                acc@ == lc_eval(lc.terms@.take(t as int), vals) % p(),
            decreases lc.terms@.len() - t,
        {
            let (coeff, var) = lc.terms[t];
            let term = crate::field::fe_mul(&coeff, &self.vals[var]);
            let ghost pre = acc;
            acc = crate::field::fe_add(&acc, &term);
            proof {
                assert(lc.terms@.take(t + 1).drop_last() =~= lc.terms@.take(t as int));
                assert(lc.terms@.take(t + 1).last() == lc.terms@[t as int]);
                assert(val_at(vals, var as nat) == self.vals@[var as int]@);
                let a = lc_eval(lc.terms@.take(t as int), vals);
                let cv = coeff@ * val_at(vals, var as nat);
                lemma_add_mod_noop(a as int, cv as int, p() as int);
                assert(lc_eval(lc.terms@.take(t + 1), vals) == a + cv);
                assert(acc@ == ((a % p()) + (cv % p())) % p());
            }
            t = t + 1;
        }
        proof {
            assert(lc.terms@.take(lc.terms@.len() as int) =~= lc.terms@);
        }
        acc
    }

    /// Decides whether one constraint holds under the system's assignment.
    #[verifier::rlimit(60)]
    fn check_constraint(&self, c: &Constraint) -> (r: bool)
        requires
            self.wf(),
            con_wf(*c, self.vals@.len()),
        ensures
            r == con_sat(*c, vals_of(self.vals@)),
    {
        let ghost vals = vals_of(self.vals@);
        match c {
            Constraint::R1cs { a, b, c } => {
                let ea = self.eval_lc(a);
                let eb = self.eval_lc(b);
                let ec = self.eval_lc(c);
                let prod = crate::field::fe_mul(&ea, &eb);
                let r = prod == ec;
                proof {
                    if prod@ == ec@ {
                        crate::field::lemma_fe_val_injective(prod, ec);
                    }
                }
                r
            },
            Constraint::Sponge { inputs, output } => {
                let mut in_vals: Vec<Fe> = Vec::new();
                let mut t: usize = 0;
                while t < inputs.len()
                    invariant
                        t <= inputs@.len(),
                        self.wf(),
                        forall|i: int| 0 <= i < inputs@.len() ==> #[trigger] inputs@[i]
                            < self.vals@.len(),
                        in_vals@.len() == t as nat,
                        forall|i: int|
                            0 <= i < in_vals@.len() ==> #[trigger] in_vals@[i]
                                == self.vals@[inputs@[i] as int],
                    decreases inputs@.len() - t,
                {
                    in_vals.push(self.vals[inputs[t]]);
                    t = t + 1;
                }
                let d = crate::hashchain::sponge_raw(&in_vals);
                let outv = self.vals[*output];
                let r = d == outv;
                proof {
                    assert(vals_of(in_vals@) =~= var_vals(inputs@, vals));
                    if d@ == outv@ {
                        crate::field::lemma_fe_val_injective(d, outv);
                    }
                }
                r
            },
            Constraint::EcMulAdd { bits, base_x, base_y, add_x, add_y, out_x, out_y, out_inf } => {
                let one = Fe::one();
                let zero = Fe::zero();
                let bxv = self.vals[*base_x];
                let byv = self.vals[*base_y];
                let axv = self.vals[*add_x];
                let ayv = self.vals[*add_y];
                if !(curve_check(&bxv, &byv) && curve_check(&axv, &ayv)) {
                    return false;
                }
                let mut bools: Vec<bool> = Vec::new();
                let mut t: usize = 0;
                while t < bits.len()
                    invariant
                        t <= bits@.len(),
                        self.wf(),
                        vals == vals_of(self.vals@),
                        one@ == 1,
                        forall|i: int| 0 <= i < bits@.len() ==> #[trigger] bits@[i]
                            < self.vals@.len(),
                        bools@.len() == t as nat,
                        forall|i: int|
                            0 <= i < bools@.len() ==> #[trigger] bools@[i] == (val_at(
                                vals,
                                bits@[i] as nat,
                            ) == 1),
                    decreases bits@.len() - t,
                {
                    let bv = self.vals[bits[t]];
                    let is_one = bv == one;
                    proof {
                        if bv@ == 1 {
                            crate::field::lemma_fe_val_injective(bv, one);
                        }
                        assert(val_at(vals, bits@[t as int] as nat) == bv@);
                    }
                    bools.push(is_one);
                    t = t + 1;
                }
                let base = crate::scalar_mul::Pt { x: bxv, y: byv, inf: false };
                let addp = crate::scalar_mul::Pt { x: axv, y: ayv, inf: false };
                let folded = crate::scalar_mul::mul_then_add(&bools, &base, &addp);
                let oxv = self.vals[*out_x];
                let oyv = self.vals[*out_y];
                let oiv = self.vals[*out_inf];
                let expect_inf = if folded.inf {
                    one
                } else {
                    zero
                };
                let r = folded.x == oxv && folded.y == oyv && expect_inf == oiv;
                proof {
                    assert(bit_bools(bits@, vals) =~= bools@);
                    if folded.x@ == oxv@ {
                        crate::field::lemma_fe_val_injective(folded.x, oxv);
                    }
                    if folded.y@ == oyv@ {
                        crate::field::lemma_fe_val_injective(folded.y, oyv);
                    }
                    if expect_inf@ == oiv@ {
                        crate::field::lemma_fe_val_injective(expect_inf, oiv);
                    }
                }
                r
            },
        }
    }

    /// Decides whether the system's own assignment satisfies all its
    /// constraints — the model's counterpart of evaluating a synthesized step
    /// before handing it to the folding backend.
    pub fn is_satisfied(&self) -> (r: bool)
        requires
            self.wf(),
        ensures
            r == self.satisfied(),
    {
        let mut all = true;
        let mut k: usize = 0;
        while k < self.constraints.len()
            invariant
                k <= self.constraints@.len(),
                self.wf(),
                all == (forall|t: int|
                    0 <= t < k as int ==> con_sat(
                        #[trigger] self.constraints@[t],
                        vals_of(self.vals@),
                    )),
            decreases self.constraints@.len() - k,
        {
            let ck = self.check_constraint(&self.constraints[k]);
            proof {
                if all && ck {
                    assert forall|t: int| 0 <= t < k + 1 implies con_sat(
                        #[trigger] self.constraints@[t],
                        vals_of(self.vals@),
                    ) by {}
                }
            }
            all = all && ck;
            k = k + 1;
        }
        all
    }
}

/// Decides the curve membership of a coordinate pair.
fn curve_check(x: &Fe, y: &Fe) -> (r: bool)
    requires
        x.wf(),
        y.wf(),
    ensures
        r == on_curve(x@, y@),
{
    let b_off = Fe::from_limbs(
        0x43e1f593effffff0,
        0x2833e84879b97091,
        0xb85045b68181585d,
        0x30644e72e131a029,
    );
    let off = match b_off {
        Some(v) => v,
        None => Fe::zero(),
    };
    proof {
        assert(crate::field::limbs_val(
            0x43e1f593effffff0,
            0x2833e84879b97091,
            0xb85045b68181585d,
            0x30644e72e131a029,
        ) == p() - 17);
    }
    let lhs = crate::field::fe_mul(y, y);
    let x2 = crate::field::fe_mul(x, x);
    let x3 = crate::field::fe_mul(&x2, x);
    let rhs = crate::field::fe_add(&x3, &off);
    let r = lhs == rhs;
    proof {
        if lhs@ == rhs@ {
            crate::field::lemma_fe_val_injective(lhs, rhs);
        }
    }
    r
}

} // verus!
