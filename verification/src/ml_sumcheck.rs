//! The multilinear sumcheck engine: prover and verifier state machines for
//! the claim `sum over the cube of a sum of products of dense extensions`.
//!
//! Each round the prover sends the evaluations of its round polynomial at
//! the small integers; the verifier checks that the values at 0 and 1 sum
//! to the running claim, then folds its challenge in by Lagrange
//! interpolation.

use vstd::prelude::*;
use vstd::arithmetic::div_mod::{
    lemma_add_mod_noop, lemma_mul_mod_noop, lemma_mul_mod_noop_left, lemma_mul_mod_noop_right,
    lemma_small_mod, lemma_sub_mod_noop_right,
};
use vstd::arithmetic::power2::{lemma_pow2_pos, lemma_pow2_unfold, pow2};
use crate::algebra::{
    bind_products, bind_seq, comb_line_sum, comb_sum, lemma_already_reduced,
    lemma_bind_products_index, lemma_comb_line_push, lemma_comb_split, lemma_prod_on_line_push,
    line_sum, pow2_exec, prod_on_line,
};
use crate::data_structures::ml_extension::DenseMle;
use crate::error::Error;
use crate::field::{
    all_ok, fadd, fe_add, fe_inv, fe_mul, fe_neg, fe_sub, fmul, lemma_val_injective,
    lemma_vals_of_index, prime, vals_of, Fe,
};

verus! {

/// The shape of a sumcheck instance: how many rounds, and the largest
/// number of multiplicands in any product.
#[derive(Clone, Copy, Debug, PartialEq, Eq, Structural)]
pub struct IndexInfo {
    pub num_variables: usize,
    pub max_multiplicands: usize,
}

/// One round message of the prover: the round polynomial, as its values
/// at `0, 1, ..., max_multiplicands`.
pub struct ProverMsg {
    pub evaluations: Vec<Fe>,
}

/// One round message of the verifier: the sampled challenge.
#[derive(Clone, Copy, Debug, PartialEq, Eq, Structural)]
pub struct VerifierMsg {
    pub randomness: Fe,
}

/// What is left to check after the last round: the combination, evaluated
/// at `point`, must equal `expected_evaluation`.
pub struct SubClaim {
    pub point: Vec<Fe>,
    pub expected_evaluation: Fe,
}

/// The tables of a list of extensions.
pub open spec fn mle_views(s: Seq<DenseMle>) -> Seq<Seq<int>> {
    s.map_values(|m: DenseMle| m@)
}

/// The tables of a combination: one sequence of tables per product.
pub open spec fn combo_view(p: Seq<Vec<DenseMle>>) -> Seq<Seq<Seq<int>>> {
    p.map_values(|prod: Vec<DenseMle>| mle_views(prod@))
}

/// How `combo_view` reads entrywise.
pub proof fn lemma_combo_index(p: Seq<Vec<DenseMle>>, i: int, j: int)
    requires
        0 <= i < p.len(),
        0 <= j < p[i]@.len(),
    ensures
        combo_view(p).len() == p.len(),
        combo_view(p)[i].len() == p[i]@.len(),
        combo_view(p)[i][j] == p[i]@[j]@,
{
    assert(combo_view(p)[i] == mle_views(p[i]@));
    assert(mle_views(p[i]@)[j] == p[i]@[j]@);
}

/// A well-formed combination: at least one product, every product within
/// the declared width, every factor a full table of arity `nv`.
pub open spec fn combo_wf(p: Seq<Vec<DenseMle>>, nv: nat, maxm: nat) -> bool {
    &&& p.len() >= 1
    &&& forall|i: int|
        0 <= i < p.len() ==> 1 <= (#[trigger] p[i])@.len() <= maxm
    &&& forall|i: int, j: int|
        0 <= i < p.len() && 0 <= j < p[i]@.len() ==> (#[trigger] p[i]@[j]).wf() && p[i]@[j].nvars()
            == nv
}

/// The sumcheck prover: the combination's tables, already bound by the
/// challenges received so far, and the round counter.
pub struct ProverState {
    products: Vec<Vec<DenseMle>>,
    randomness: Vec<Fe>,
    nv: usize,
    max_multiplicands: usize,
    round: usize,
}

impl ProverState {
    /// The current tables of the combination.
    pub closed spec fn tables(self) -> Seq<Seq<Seq<int>>> {
        combo_view(self.products@)
    }

    /// The challenges folded in so far.
    pub closed spec fn challenges(self) -> Seq<Fe> {
        self.randomness@
    }

    /// The number of rounds of this instance.
    pub closed spec fn nv_s(self) -> nat {
        self.nv as nat
    }

    /// The declared largest product width.
    pub closed spec fn maxm(self) -> nat {
        self.max_multiplicands as nat
    }

    /// How many round messages have been produced.
    pub closed spec fn round_s(self) -> nat {
        self.round as nat
    }

    /// The state invariant.
    pub closed spec fn wf(self) -> bool {
        &&& self.round <= self.nv
        &&& 1 <= self.nv
        &&& 1 <= self.max_multiplicands <= 32
        &&& pow2(self.nv as nat) <= usize::MAX
        &&& self.randomness@.len() == if self.round == 0 {
            0int
        } else {
            self.round - 1
        }
        &&& all_ok(self.randomness@)
        &&& combo_wf(
            self.products@,
            (self.nv - self.randomness@.len()) as nat,
            self.max_multiplicands as nat,
        )
    }
}

/// Expose that a well-formed prover still has full tables.
pub proof fn lemma_prover_wf(s: ProverState)
    requires
        s.wf(),
    ensures
        s.round_s() <= s.nv_s(),
        s.challenges().len() == if s.round_s() == 0 {
            0int
        } else {
            s.round_s() - 1
        },
        all_ok(s.challenges()),
        s.tables().len() >= 1,
{
}

/// Start the prover on a combination of `nv`-variable products.
pub fn prover_init(products: Vec<Vec<DenseMle>>, nv: usize, max_multiplicands: usize) -> (r:
    ProverState)
    requires
        combo_wf(products@, nv as nat, max_multiplicands as nat),
        1 <= nv,
        1 <= max_multiplicands <= 32,
        pow2(nv as nat) <= usize::MAX,
    ensures
        r.wf(),
        r.tables() == combo_view(products@),
        r.challenges() == Seq::<Fe>::empty(),
        r.nv_s() == nv,
        r.maxm() == max_multiplicands,
        r.round_s() == 0,
{
    let r = ProverState {
        products,
        randomness: Vec::new(),
        nv,
        max_multiplicands,
        round: 0,
    };
    proof {
        assert(r.randomness@ =~= Seq::<Fe>::empty());
    }
    r
}

/// Bind the first variable of every factor of every product to `c`.
fn bind_all(products: Vec<Vec<DenseMle>>, c: &Fe, Ghost(nv): Ghost<nat>, Ghost(maxm): Ghost<nat>)
    -> (r: Vec<Vec<DenseMle>>)
    requires
        combo_wf(products@, nv, maxm),
        nv >= 1,
        c.ok(),
    ensures
        combo_wf(r@, (nv - 1) as nat, maxm),
        r@.len() == products@.len(),
        forall|i: int| 0 <= i < r@.len() ==> (#[trigger] r@[i])@.len() == products@[i]@.len(),
        combo_view(r@) == bind_products(combo_view(products@), c.val()),
{
    let np = products.len();
    let mut out: Vec<Vec<DenseMle>> = Vec::new();
    let mut i: usize = 0;
    while i < np
        invariant
            i <= np,
            np == products@.len(),
            combo_wf(products@, nv, maxm),
            nv >= 1,
            c.ok(),
            out@.len() == i,
            forall|ii: int|
                0 <= ii < i ==> (#[trigger] out@[ii])@.len() == products@[ii]@.len(),
            forall|ii: int, j: int|
                0 <= ii < i && 0 <= j < out@[ii]@.len() ==> (#[trigger] out@[ii]@[j]).wf()
                    && out@[ii]@[j].nvars() == (nv - 1) as nat,
            forall|ii: int, j: int|
                0 <= ii < i && 0 <= j < out@[ii]@.len() ==> (#[trigger] out@[ii]@[j])@ == bind_seq(
                    products@[ii]@[j]@,
                    c.val(),
                ),
        decreases np - i,
    {
        let prod = &products[i];
        let plen = prod.len();
        let mut newprod: Vec<DenseMle> = Vec::new();
        let mut j: usize = 0;
        while j < plen
            invariant
                j <= plen,
                plen == prod@.len(),
                prod@ == products@[i as int]@,
                i < products@.len(),
                combo_wf(products@, nv, maxm),
                nv >= 1,
                c.ok(),
                newprod@.len() == j,
                forall|jj: int|
                    0 <= jj < j ==> (#[trigger] newprod@[jj]).wf() && newprod@[jj].nvars() == (nv
                        - 1) as nat,
                forall|jj: int|
                    0 <= jj < j ==> (#[trigger] newprod@[jj])@ == bind_seq(
                        products@[i as int]@[jj]@,
                        c.val(),
                    ),
            decreases plen - j,
        {
            proof {
                assert(products@[i as int]@[j as int].wf());
                assert(products@[i as int]@[j as int].nvars() == nv);
            }
            let mut f = prod[j].duplicate();
            f.bind_first(c);
            newprod.push(f);
            j = j + 1;
        }
        out.push(newprod);
        i = i + 1;
    }
    proof {
        let ov = combo_view(out@);
        let bv = bind_products(combo_view(products@), c.val());
        assert forall|ii: int| 0 <= ii < ov.len() implies ov[ii] =~= bv[ii] by {
            assert(ov[ii] == mle_views(out@[ii]@));
            assert(bv[ii] == combo_view(products@)[ii].map_values(|t: Seq<int>| bind_seq(t, c.val())));
            assert(combo_view(products@)[ii] == mle_views(products@[ii]@));
            assert forall|j: int| 0 <= j < products@[ii]@.len() implies ov[ii][j] == bv[ii][j] by {
                assert(mle_views(out@[ii]@)[j] == out@[ii]@[j]@);
                assert(mle_views(products@[ii]@)[j] == products@[ii]@[j]@);
            }
        }
        assert(ov =~= bv);
        assert(combo_wf(out@, (nv - 1) as nat, maxm)) by {
            assert forall|ii: int| 0 <= ii < out@.len() implies 1 <= (#[trigger] out@[ii])@.len()
                <= maxm by {
                assert(1 <= products@[ii]@.len() <= maxm);
            }
        }
    }
    out
}

/// The value at `(c, b)` of one factor's table: the table entry pair,
/// linearly interpolated at the coordinate `c`.
fn factor_on_line(f: &DenseMle, c: &Fe, b: usize) -> (r: Fe)
    requires
        f.wf(),
        c.ok(),
        2 * b + 1 < f@.len(),
        f@.len() <= usize::MAX,
    ensures
        r.ok(),
        r.val() == ((1 - c.val()) * f@[2 * b] + c.val() * f@[2 * b + 1]) % prime(),
{
    let one = Fe::one();
    let s = fe_sub(&one, c);
    let t0 = f.entry(2 * b);
    let t1 = f.entry(2 * b + 1);
    let m0 = fe_mul(&s, &t0);
    let m1 = fe_mul(c, &t1);
    let r = fe_add(&m0, &m1);
    proof {
        let cv = c.val();
        let v0 = f@[2 * b as int];
        let v1 = f@[2 * b as int + 1];
        lemma_mul_mod_noop_left(1 - cv, v0, prime());
        lemma_add_mod_noop((1 - cv) * v0, cv * v1, prime());
    }
    r
}

/// Produce the round message: bind the pending challenge in, then send
/// the round polynomial of what remains, as evaluations at the small
/// integers.
pub fn prove_round(state: ProverState, v_msg: &Option<VerifierMsg>) -> (r: (ProverMsg, ProverState))
    requires
        state.wf(),
        state.round_s() < state.nv_s(),
        state.round_s() == 0 <==> v_msg.is_none(),
        v_msg matches Some(m) ==> m.randomness.ok(),
    ensures
        ({
            let (msg, st) = r;
            &&& st.wf()
            &&& st.nv_s() == state.nv_s()
            &&& st.maxm() == state.maxm()
            &&& st.round_s() == state.round_s() + 1
            &&& (match v_msg {
                Some(m) => {
                    &&& st.challenges() == state.challenges().push(m.randomness)
                    &&& st.tables() == bind_products(state.tables(), m.randomness.val())
                },
                None => {
                    &&& st.challenges() == state.challenges()
                    &&& st.tables() == state.tables()
                },
            })
            &&& msg.evaluations@.len() == state.maxm() + 1
            &&& all_ok(msg.evaluations@)
            &&& forall|k: int|
                0 <= k <= state.maxm() ==> (#[trigger] msg.evaluations@[k]).val() == comb_line_sum(
                    st.tables(),
                    pow2((state.nv_s() - state.round_s() - 1) as nat),
                    k,
                ) % prime()
        }),
{
    let ghost old_state = state;
    let nv = state.nv;
    let maxm = state.max_multiplicands;
    let round = state.round;
    let ghost binds = state.randomness@.len();
    let mut randomness = state.randomness;
    let products: Vec<Vec<DenseMle>> = match v_msg {
        Some(m) => {
            proof {
                assert(combo_wf(old_state.products@, (nv - binds) as nat, maxm as nat));
            }
            let bound = bind_all(
                state.products,
                &m.randomness,
                Ghost((nv - binds) as nat),
                Ghost(maxm as nat),
            );
            randomness.push(m.randomness);
            bound
        },
        None => state.products,
    };
    let ghost tv = combo_view(products@);
    let ghost arity = (nv - randomness@.len()) as nat;
    proof {
        assert(combo_wf(products@, arity, maxm as nat));
        assert(arity == nv - old_state.round_s());
        assert(arity >= 1);
        if arity < nv as nat {
            vstd::arithmetic::power2::lemma_pow2_strictly_increases(arity, nv as nat);
        }
        lemma_pow2_unfold(arity);
    }
    let m_arity = nv - randomness.len();
    let half = pow2_exec(m_arity - 1);
    proof {
        assert(half == pow2((arity - 1) as nat));
    }
    let np = products.len();
    let mut evaluations: Vec<Fe> = Vec::new();
    let mut k: usize = 0;
    while k < maxm + 1
        invariant
            k <= maxm + 1,
            maxm == old_state.maxm(),
            1 <= maxm <= 32,
            np == products@.len(),
            combo_wf(products@, arity, maxm as nat),
            tv == combo_view(products@),
            arity >= 1,
            half == pow2((arity - 1) as nat),
            evaluations@.len() == k,
            all_ok(evaluations@),
            forall|kk: int|
                0 <= kk < k ==> (#[trigger] evaluations@[kk]).val() == comb_line_sum(tv, half as nat, kk)
                    % prime(),
        decreases maxm + 1 - k,
    {
        let ck = Fe::from_u64(k as u64);
        let mut acc = Fe::zero();
        let mut i: usize = 0;
        proof {
            assert(tv.take(0) =~= Seq::<Seq<Seq<int>>>::empty());
            assert(comb_line_sum(tv.take(0), half as nat, k as int) == 0);
            assert(0int % prime() == 0);
        }
        while i < np
            invariant
                i <= np,
                np == products@.len(),
                combo_wf(products@, arity, maxm as nat),
                tv == combo_view(products@),
                arity >= 1,
                half == pow2((arity - 1) as nat),
                ck.ok(),
                ck.val() == k,
                acc.ok(),
                acc.val() == comb_line_sum(tv.take(i as int), half as nat, k as int) % prime(),
            decreases np - i,
        {
            let prod = &products[i];
            let plen = prod.len();
            let mut inner = Fe::zero();
            let mut b: usize = 0;
            let ghost pv = mle_views(prod@);
            proof {
                assert(pv == tv[i as int]) by {
                    assert(combo_view(products@)[i as int] == mle_views(products@[i as int]@));
                }
                assert(line_sum(pv, 0, k as int) == 0);
                assert(0int % prime() == 0);
            }
            while b < half
                invariant
                    b <= half,
                    i < np,
                    np == products@.len(),
                    combo_wf(products@, arity, maxm as nat),
                    tv == combo_view(products@),
                    prod@ == products@[i as int]@,
                    pv == mle_views(prod@),
                    pv == tv[i as int],
                    plen == prod@.len(),
                    arity >= 1,
                    half == pow2((arity - 1) as nat),
                    ck.ok(),
                    ck.val() == k,
                    inner.ok(),
                    inner.val() == line_sum(pv, b as nat, k as int) % prime(),
                decreases half - b,
            {
                let mut p = Fe::one();
                let mut j: usize = 0;
                proof {
                    assert(pv.take(0) =~= Seq::<Seq<int>>::empty());
                    assert(prod_on_line(pv.take(0), b as int, k as int) == 1);
                    assert(1int % prime() == 1) by {
                        lemma_small_mod(1nat, prime() as nat);
                    }
                }
                while j < plen
                    invariant
                        j <= plen,
                        i < np,
                        b < half,
                        np == products@.len(),
                        combo_wf(products@, arity, maxm as nat),
                        tv == combo_view(products@),
                        prod@ == products@[i as int]@,
                        pv == mle_views(prod@),
                        plen == prod@.len(),
                        arity >= 1,
                        half == pow2((arity - 1) as nat),
                        ck.ok(),
                        ck.val() == k,
                        p.ok(),
                        p.val() == prod_on_line(pv.take(j as int), b as int, k as int) % prime(),
                    decreases plen - j,
                {
                    proof {
                        assert(products@[i as int]@[j as int].wf());
                        assert(products@[i as int]@[j as int].nvars() == arity);
                        lemma_pow2_unfold(arity);
                        assert(2 * (b as int) + 1 < pow2(arity));
                    }
                    let tl = prod[j].table_len();
                    let lv = factor_on_line(&prod[j], &ck, b);
                    let ghost pre = prod_on_line(pv.take(j as int), b as int, k as int);
                    let ghost lf = (1 - (k as int)) * pv[j as int][2 * (b as int)] + (k as int)
                        * pv[j as int][2 * (b as int) + 1];
                    proof {
                        assert(mle_views(prod@)[j as int] == prod@[j as int]@);
                        assert(lv.val() == lf % prime());
                    }
                    let newp = fe_mul(&p, &lv);
                    proof {
                        lemma_mul_mod_noop(pre, lf, prime());
                        assert(pv.take(j as int + 1) =~= pv.take(j as int).push(pv[j as int]));
                        lemma_prod_on_line_push(pv.take(j as int), pv[j as int], b as int, k as int);
                        assert(newp.val() == prod_on_line(pv.take(j as int + 1), b as int, k as int)
                            % prime());
                    }
                    p = newp;
                    j = j + 1;
                }
                proof {
                    assert(pv.take(plen as int) =~= pv);
                }
                let ghost ls = line_sum(pv, b as nat, k as int);
                let ghost pl = prod_on_line(pv, b as int, k as int);
                let newinner = fe_add(&inner, &p);
                proof {
                    lemma_add_mod_noop(ls, pl, prime());
                    assert(line_sum(pv, (b + 1) as nat, k as int) == ls + pl);
                }
                inner = newinner;
                b = b + 1;
            }
            let ghost cs = comb_line_sum(tv.take(i as int), half as nat, k as int);
            let ghost lsf = line_sum(pv, half as nat, k as int);
            acc = fe_add(&acc, &inner);
            proof {
                lemma_add_mod_noop(cs, lsf, prime());
                assert(tv.take(i as int + 1) =~= tv.take(i as int).push(tv[i as int]));
                lemma_comb_line_push(tv.take(i as int), tv[i as int], half as nat, k as int);
            }
            i = i + 1;
        }
        proof {
            assert(tv.take(np as int) =~= tv);
        }
        evaluations.push(acc);
        k = k + 1;
    }
    let new_state = ProverState {
        products,
        randomness,
        nv,
        max_multiplicands: maxm,
        round: round + 1,
    };
    proof {
        assert(new_state.wf());
        if let Some(m) = v_msg {
            assert(new_state.challenges() =~= old_state.challenges().push(m.randomness));
        }
    }
    (ProverMsg { evaluations }, new_state)
}

/// The challenges the prover has received, for assembling the final
/// evaluation point.
pub fn prover_randomness(state: &ProverState) -> (r: &Vec<Fe>)
    ensures
        r@ == state.challenges(),
{
    &state.randomness
}

/// An honest round message passes the verifier's running check.
///
/// The message of `prove_round` carries the evaluations of the round
/// polynomial of the current tables; its values at 0 and 1 always sum,
/// in the field, to the sum of the combination over the remaining cube.
/// So a round message computed from tables whose sum is the running
/// claim is never rejected.
pub proof fn lemma_honest_round_passes(
    tables: Seq<Seq<Seq<int>>>,
    half: nat,
    e0: int,
    e1: int,
    claim: int,
)
    requires
        e0 == comb_line_sum(tables, half, 0) % prime(),
        e1 == comb_line_sum(tables, half, 1) % prime(),
        claim == comb_sum(tables, 2 * half) % prime(),
    ensures
        fadd(e0, e1) == claim,
{
    lemma_comb_split(tables, half);
    lemma_add_mod_noop(
        comb_line_sum(tables, half, 0),
        comb_line_sum(tables, half, 1),
        prime(),
    );
}

/// The sumcheck verifier: the running claim and the sampled challenges.
pub struct VerifierState {
    nv: usize,
    max_multiplicands: usize,
    round: usize,
    last_sum: Fe,
    randomness: Vec<Fe>,
}

impl VerifierState {
    /// The number of rounds of this instance.
    pub closed spec fn nv_s(self) -> nat {
        self.nv as nat
    }

    /// The declared largest product width.
    pub closed spec fn maxm(self) -> nat {
        self.max_multiplicands as nat
    }

    /// How many rounds have been checked.
    pub closed spec fn round_s(self) -> nat {
        self.round as nat
    }

    /// The running claim: what the remaining rounds must sum to.
    pub closed spec fn claim(self) -> Fe {
        self.last_sum
    }

    /// The challenges sampled so far.
    pub closed spec fn challenges(self) -> Seq<Fe> {
        self.randomness@
    }

    /// The state invariant.
    pub closed spec fn wf(self) -> bool {
        &&& self.round <= self.nv
        &&& 1 <= self.nv
        &&& 1 <= self.max_multiplicands <= 32
        &&& self.randomness@.len() == self.round
        &&& all_ok(self.randomness@)
        &&& self.last_sum.ok()
    }
}

/// Start the verifier on a claimed sum.
pub fn verifier_init(info: &IndexInfo, claimed_sum: &Fe) -> (r: VerifierState)
    requires
        1 <= info.num_variables,
        1 <= info.max_multiplicands <= 32,
        claimed_sum.ok(),
    ensures
        r.wf(),
        r.nv_s() == info.num_variables,
        r.maxm() == info.max_multiplicands,
        r.round_s() == 0,
        r.claim() == *claimed_sum,
        r.challenges() == Seq::<Fe>::empty(),
{
    let r = VerifierState {
        nv: info.num_variables,
        max_multiplicands: info.max_multiplicands,
        round: 0,
        last_sum: *claimed_sum,
        randomness: Vec::new(),
    };
    proof {
        assert(r.randomness@ =~= Seq::<Fe>::empty());
    }
    r
}

/// A residue standing in for the inverse of `a` modulo the prime.
pub open spec fn minv(a: int) -> int {
    choose|b: int| 0 <= b < prime() && #[trigger] ((a * b) % prime()) == 1
}

/// Inverses are unique, so any witness equals `minv`.
pub proof fn lemma_inverse_unique(a: int, b1: int, b2: int)
    requires
        0 <= b1 < prime(),
        0 <= b2 < prime(),
        (a * b1) % prime() == 1,
        (a * b2) % prime() == 1,
    ensures
        b1 == b2,
{
    let p = prime();
    assert((b1 * (a * b2)) % p == (b1 * ((a * b2) % p)) % p) by {
        lemma_mul_mod_noop_right(b1, a * b2, p);
    }
    assert(b1 * 1 == b1) by (nonlinear_arith);
    assert((b1 * (a * b2)) % p == b1 % p);
    assert(b1 * (a * b2) == (a * b1) * b2) by (nonlinear_arith);
    assert(((a * b1) * b2) % p == (((a * b1) % p) * b2) % p) by {
        lemma_mul_mod_noop_left(a * b1, b2, p);
    }
    assert(1 * b2 == b2) by (nonlinear_arith);
    lemma_small_mod(b1 as nat, p as nat);
    lemma_small_mod(b2 as nat, p as nat);
}

/// The product of `(c - k)` over `k` below `cnt`, skipping `k == j`.
pub open spec fn num_prod(c: int, j: int, cnt: nat) -> int
    decreases cnt,
{
    if cnt == 0 {
        1
    } else {
        num_prod(c, j, (cnt - 1) as nat) * (if cnt - 1 == j {
            1
        } else {
            c - (cnt - 1)
        })
    }
}

/// The product of the inverses of `|j - k|` over `k` below `cnt`,
/// skipping `k == j`.
pub open spec fn inv_weight(j: int, cnt: nat) -> int
    decreases cnt,
{
    if cnt == 0 {
        1
    } else {
        inv_weight(j, (cnt - 1) as nat) * (if cnt - 1 == j {
            1
        } else if j > cnt - 1 {
            minv(j - (cnt - 1))
        } else {
            minv((cnt - 1) - j)
        })
    }
}

/// The number of `k > j` below `cnt`: each contributes a sign flip.
pub open spec fn lag_sign(j: int, cnt: nat) -> int {
    if (cnt - 1 - j) % 2 == 1 {
        -1
    } else {
        1
    }
}

/// One Lagrange term: the `j`-th evaluation, scaled by the basis
/// polynomial at `c`.
pub open spec fn lag_term(evals: Seq<int>, c: int, j: int) -> int {
    evals[j] * num_prod(c, j, evals.len()) * inv_weight(j, evals.len()) * lag_sign(
        j,
        evals.len(),
    )
}

/// The Lagrange combination of the first `jcnt` terms.
pub open spec fn lag_sum(evals: Seq<int>, c: int, jcnt: nat) -> int
    decreases jcnt,
{
    if jcnt == 0 {
        0
    } else {
        lag_sum(evals, c, (jcnt - 1) as nat) + lag_term(evals, c, jcnt - 1)
    }
}

/// The value at `c` of the polynomial whose evaluations at
/// `0, 1, ..., len - 1` are given, reduced.
pub open spec fn lagrange(evals: Seq<int>, c: int) -> int {
    lag_sum(evals, c, evals.len()) % prime()
}

/// Evaluate, at the challenge `c`, the polynomial given by its values at
/// the small integers, by the Lagrange formula.
pub fn interpolate(evals: &Vec<Fe>, c: &Fe) -> (r: Fe)
    requires
        all_ok(evals@),
        1 <= evals@.len() <= 64,
        c.ok(),
    ensures
        r.ok(),
        r.val() == lagrange(vals_of(evals@), c.val()),
{
    let ghost ev = vals_of(evals@);
    let cnt = evals.len();
    let mut acc = Fe::zero();
    let mut j: usize = 0;
    proof {
        assert(lag_sum(ev, c.val(), 0) == 0);
        assert(0int % prime() == 0);
    }
    while j < cnt
        invariant
            j <= cnt,
            cnt == evals@.len(),
            1 <= cnt <= 64,
            all_ok(evals@),
            ev == vals_of(evals@),
            c.ok(),
            acc.ok(),
            acc.val() == lag_sum(ev, c.val(), j as nat) % prime(),
        decreases cnt - j,
    {
        proof {
            lemma_vals_of_index(evals@, j as int);
        }
        let mut term = evals[j];
        let mut flips: u64 = 0;
        let mut k: usize = 0;
        proof {
            assert(num_prod(c.val(), j as int, 0) == 1);
            assert(inv_weight(j as int, 0) == 1);
            assert(ev[j as int] * 1 * 1 == ev[j as int]) by (nonlinear_arith);
            lemma_already_reduced(ev[j as int]);
        }
        while k < cnt
            invariant
                k <= cnt,
                j < cnt,
                cnt == evals@.len(),
                1 <= cnt <= 64,
                all_ok(evals@),
                ev == vals_of(evals@),
                c.ok(),
                term.ok(),
                term.val() == (ev[j as int] * num_prod(c.val(), j as int, k as nat) * inv_weight(
                    j as int,
                    k as nat,
                )) % prime(),
                flips <= k,
                flips == (if k > j {
                    k - j - 1
                } else {
                    0int
                }),
            decreases cnt - k,
        {
            let ghost pre = ev[j as int] * num_prod(c.val(), j as int, k as nat) * inv_weight(
                j as int,
                k as nat,
            );
            if k != j {
                let kf = Fe::from_u64(k as u64);
                let diff = fe_sub(c, &kf);
                let t1 = fe_mul(&term, &diff);
                proof {
                    lemma_mul_mod_noop(pre, c.val() - (k as int), prime());
                    assert(t1.val() == (pre * (c.val() - (k as int))) % prime());
                }
                let mag: u64 = if j > k {
                    (j - k) as u64
                } else {
                    flips = flips + 1;
                    (k - j) as u64
                };
                let magf = Fe::from_u64(mag);
                proof {
                    assert(magf.val() != 0);
                }
                let inv = fe_inv(&magf);
                proof {
                    let m = magf.val();
                    assert(exists|b: int|
                        0 <= b < prime() && #[trigger] ((m * b) % prime()) == 1) by {
                        assert((m * inv.val()) % prime() == 1) by {
                            assert(inv.val() * m == m * inv.val()) by (nonlinear_arith);
                        }
                    }
                    let w = minv(m);
                    assert(0 <= w < prime() && (m * w) % prime() == 1);
                    assert((m * inv.val()) % prime() == 1) by {
                        assert(inv.val() * m == m * inv.val()) by (nonlinear_arith);
                    }
                    lemma_inverse_unique(m, inv.val(), w);
                    assert(inv.val() == minv(m));
                }
                let t2 = fe_mul(&t1, &inv);
                proof {
                    let m = magf.val();
                    let p1 = pre * (c.val() - (k as int));
                    lemma_mul_mod_noop_left(p1, minv(m), prime());
                    assert(t2.val() == (p1 * minv(m)) % prime());
                    assert(p1 * minv(m) == ev[j as int] * num_prod(c.val(), j as int, (k + 1) as nat)
                        * inv_weight(j as int, (k + 1) as nat)) by (nonlinear_arith)
                        requires
                            p1 == (ev[j as int] * num_prod(c.val(), j as int, k as nat) * inv_weight(
                                j as int,
                                k as nat,
                            )) * (c.val() - (k as int)),
                            num_prod(c.val(), j as int, (k + 1) as nat) == num_prod(
                                c.val(),
                                j as int,
                                k as nat,
                            ) * (c.val() - (k as int)),
                            inv_weight(j as int, (k + 1) as nat) == inv_weight(j as int, k as nat)
                                * minv(m),
                            k != j;
                }
                term = t2;
            } else {
                proof {
                    assert(num_prod(c.val(), j as int, (k + 1) as nat) == num_prod(
                        c.val(),
                        j as int,
                        k as nat,
                    ) * 1);
                    assert(inv_weight(j as int, (k + 1) as nat) == inv_weight(j as int, k as nat)
                        * 1);
                    assert(pre * 1 * 1 == pre) by (nonlinear_arith);
                }
            }
            k = k + 1;
        }
        if flips % 2 == 1 {
            let ghost pre = ev[j as int] * num_prod(c.val(), j as int, cnt as nat) * inv_weight(
                j as int,
                cnt as nat,
            );
            term = fe_neg(&term);
            proof {
                lemma_sub_mod_noop_right(0, pre, prime());
                assert(term.val() == (0 - pre) % prime());
                assert(lag_sign(j as int, cnt as nat) == -1);
                assert(pre * -1 == 0 - pre) by (nonlinear_arith);
                assert(term.val() == lag_term(ev, c.val(), j as int) % prime());
            }
        } else {
            proof {
                let pre = ev[j as int] * num_prod(c.val(), j as int, cnt as nat) * inv_weight(
                    j as int,
                    cnt as nat,
                );
                assert(lag_sign(j as int, cnt as nat) == 1);
                assert(pre * 1 == pre) by (nonlinear_arith);
                assert(term.val() == lag_term(ev, c.val(), j as int) % prime());
            }
        }
        let ghost s = lag_sum(ev, c.val(), j as nat);
        let ghost t = lag_term(ev, c.val(), j as int);
        acc = fe_add(&acc, &term);
        proof {
            lemma_add_mod_noop(s, t, prime());
        }
        j = j + 1;
    }
    acc
}

/// Check one round message against the running claim, then fold the
/// challenge `c` in.
///
/// Rejected with `InvalidArg` when the message has the wrong shape, and
/// with `SumcheckMismatch` exactly when its values at 0 and 1 do not sum
/// to the claim.
pub fn verify_round(p_msg: ProverMsg, state: VerifierState, c: &Fe) -> (r: Result<
    (VerifierMsg, VerifierState),
    Error,
>)
    requires
        state.wf(),
        state.round_s() < state.nv_s(),
        all_ok(p_msg.evaluations@),
        c.ok(),
    ensures
        match r {
            Ok((vm, st)) => {
                &&& p_msg.evaluations@.len() == state.maxm() + 1
                &&& fadd(
                    p_msg.evaluations@[0].val(),
                    p_msg.evaluations@[1].val(),
                ) == state.claim().val()
                &&& vm.randomness == *c
                &&& st.wf()
                &&& st.nv_s() == state.nv_s()
                &&& st.maxm() == state.maxm()
                &&& st.round_s() == state.round_s() + 1
                &&& st.challenges() == state.challenges().push(*c)
                &&& st.claim().val() == lagrange(vals_of(p_msg.evaluations@), c.val())
            },
            Err(e) => {
                ||| (e == Error::InvalidArg && p_msg.evaluations@.len() != state.maxm() + 1)
                ||| (e == Error::SumcheckMismatch && p_msg.evaluations@.len() == state.maxm() + 1
                    && fadd(p_msg.evaluations@[0].val(), p_msg.evaluations@[1].val())
                    != state.claim().val())
            },
        },
{
    let evals = p_msg.evaluations;
    if evals.len() == 0 || evals.len() - 1 != state.max_multiplicands {
        return Err(Error::InvalidArg);
    }
    proof {
        lemma_vals_of_index(evals@, 0);
        lemma_vals_of_index(evals@, 1);
    }
    let s = fe_add(&evals[0], &evals[1]);
    if !fe_equal(&s, &state.last_sum) {
        return Err(Error::SumcheckMismatch);
    }
    let new_sum = interpolate(&evals, c);
    let mut randomness = state.randomness;
    randomness.push(*c);
    let st = VerifierState {
        nv: state.nv,
        max_multiplicands: state.max_multiplicands,
        round: state.round + 1,
        last_sum: new_sum,
        randomness,
    };
    Ok((VerifierMsg { randomness: *c }, st))
}

/// Whether two field elements are the same residue.
pub fn fe_equal(a: &Fe, b: &Fe) -> (r: bool)
    ensures
        r <==> a.val() == b.val(),
{
    proof {
        if a.val() == b.val() {
            lemma_val_injective(*a, *b);
        }
    }
    *a == *b
}

/// After the last round, the residual claim: the combination must take
/// the value `expected_evaluation` at `point`.
pub fn subclaim(state: VerifierState) -> (r: SubClaim)
    requires
        state.wf(),
        state.round_s() == state.nv_s(),
    ensures
        r.point@ == state.challenges(),
        r.point@.len() == state.nv_s(),
        all_ok(r.point@),
        r.expected_evaluation == state.claim(),
        r.expected_evaluation.ok(),
{
    SubClaim { point: state.randomness, expected_evaluation: state.last_sum }
}

} // verus!
