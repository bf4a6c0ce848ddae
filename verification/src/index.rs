//! What the prover and the verifier know of a circuit before any proof: the
//! constraint system with the reference string on one side, the commitments to its
//! polynomials on the other.

use crate::commitment::{commit_spec, PolyComm, PolyCommModel};
use crate::constraints::{ConstraintSystem, PERMUTS};
use crate::curve::{models, msm, CommitmentCurve};
use crate::evaluations::{idft_spec, Domain, Evaluations};
use crate::field::{vals, PrimeField};
use crate::poly::{copy_range, filled, DensePolynomial};
use crate::poseidon::ArithmeticSpongeParams;
use crate::srs::SRS;
use vstd::prelude::*;

verus! {

/// The points of chunk `chunk` of those of the first `k` commitments that have such a
/// chunk, with the scalars that belong to them.
pub open spec fn chunk_terms(
    com: Seq<PolyCommModel>,
    elm: Seq<nat>,
    chunk: int,
    k: nat,
) -> (Seq<(nat, nat, bool)>, Seq<nat>)
    decreases k,
{
    if k == 0 {
        (Seq::empty(), Seq::empty())
    } else {
        let pv = chunk_terms(com, elm, chunk, (k - 1) as nat);
        if chunk < com[k - 1].unshifted.len() {
            (pv.0.push(com[k - 1].unshifted[chunk]), pv.1.push(elm[k - 1]))
        } else {
            pv
        }
    }
}

/// The shifted points of those of the first `k` commitments that have one, with the
/// scalars that belong to them.
pub open spec fn shifted_terms(com: Seq<PolyCommModel>, elm: Seq<nat>, k: nat) -> (
    Seq<(nat, nat, bool)>,
    Seq<nat>,
)
    decreases k,
{
    if k == 0 {
        (Seq::empty(), Seq::empty())
    } else {
        let pv = shifted_terms(com, elm, (k - 1) as nat);
        match com[k - 1].shifted {
            Some(c) => (pv.0.push(c), pv.1.push(elm[k - 1])),
            None => pv,
        }
    }
}

/// The greatest number of chunks among the first `k` commitments.
pub open spec fn max_chunks(com: Seq<PolyCommModel>, k: nat) -> nat
    decreases k,
{
    if k == 0 {
        0
    } else {
        let pv = max_chunks(com, (k - 1) as nat);
        if com[k - 1].unshifted.len() > pv {
            com[k - 1].unshifted.len()
        } else {
            pv
        }
    }
}

/// The commitment to the linear combination of the committed polynomials with the
/// scalars `elm`: chunk by chunk the multi-scalar multiplication of the points that
/// are there, and the same of the shifted points where there is any.
pub open spec fn combination_spec<G: CommitmentCurve>(com: Seq<PolyCommModel>, elm: Seq<nat>) -> PolyCommModel {
    let k = if com.len() <= elm.len() {
        com.len()
    } else {
        elm.len()
    };
    let sh = shifted_terms(com, elm, k);
    PolyCommModel {
        unshifted: Seq::new(
            max_chunks(com, k),
            |chunk: int|
                G::msm_spec(chunk_terms(com, elm, chunk, k).0, chunk_terms(com, elm, chunk, k).1),
        ),
        shifted: if sh.0.len() == 0 {
            None
        } else {
            Some(G::msm_spec(sh.0, sh.1))
        },
    }
}

/// The models of a list of commitments.
pub open spec fn comm_models<G: CommitmentCurve>(s: Seq<&PolyComm<G>>) -> Seq<PolyCommModel> {
    Seq::new(s.len(), |i: int| s[i]@)
}

impl<G: CommitmentCurve> PolyComm<G> {
    /// The commitment to the linear combination of committed polynomials with the
    /// scalars `elm`. Commitments or scalars beyond the shorter list do not count.
    pub fn multi_scalar_mul(com: &Vec<&PolyComm<G>>, elm: &Vec<G::ScalarField>) -> (r: Self)
        ensures
            r@ == combination_spec::<G>(comm_models(com@), vals(elm@)),
    {
        let k: usize = if com.len() <= elm.len() {
            com.len()
        } else {
            elm.len()
        };
        let ghost cm = comm_models(com@);
        let ghost el = vals(elm@);
        let mut most: usize = 0;
        let mut i: usize = 0;
        while i < k
            invariant
                i <= k,
                k <= com@.len(),
                cm == comm_models(com@),
                most == max_chunks(cm, i as nat),
            decreases k - i,
        {
            assert(cm[i as int].unshifted.len() == com@[i as int].unshifted@.len());
            if com[i].unshifted.len() > most {
                most = com[i].unshifted.len();
            }
            i = i + 1;
        }
        let mut unshifted: Vec<G> = Vec::new();
        let mut chunk: usize = 0;
        while chunk < most
            invariant
                chunk <= most,
                k <= com@.len(),
                k <= elm@.len(),
                cm == comm_models(com@),
                el == vals(elm@),
                unshifted@.len() == chunk,
                forall|c: int|
                    0 <= c < chunk ==> (#[trigger] unshifted@[c]).model() == G::msm_spec(
                        chunk_terms(cm, el, c, k as nat).0,
                        chunk_terms(cm, el, c, k as nat).1,
                    ),
            decreases most - chunk,
        {
            let mut points: Vec<G> = Vec::new();
            let mut scalars: Vec<G::ScalarField> = Vec::new();
            let mut j: usize = 0;
            assert(models(points@) =~= Seq::empty());
            assert(vals(scalars@) =~= Seq::<nat>::empty());
            while j < k
                invariant
                    j <= k,
                    k <= com@.len(),
                    k <= elm@.len(),
                    cm == comm_models(com@),
                    el == vals(elm@),
                    (models(points@), vals(scalars@)) == chunk_terms(cm, el, chunk as int, j as nat),
                decreases k - j,
            {
                let ghost pp = models(points@);
                let ghost ss = vals(scalars@);
                assert(cm[j as int].unshifted.len() == com@[j as int].unshifted@.len());
                if chunk < com[j].unshifted.len() {
                    let pt: G = com[j].unshifted[chunk];
                    assert(cm[j as int].unshifted[chunk as int] == pt.model());
                    points.push(pt);
                    scalars.push(elm[j]);
                    assert(models(points@) =~= pp.push(pt.model()));
                    assert(vals(scalars@) =~= ss.push(elm@[j as int].val()));
                }
                j = j + 1;
            }
            unshifted.push(msm(points.as_slice(), scalars.as_slice()));
            chunk = chunk + 1;
        }
        let mut points: Vec<G> = Vec::new();
        let mut scalars: Vec<G::ScalarField> = Vec::new();
        let mut j: usize = 0;
        assert(models(points@) =~= Seq::empty());
        assert(vals(scalars@) =~= Seq::<nat>::empty());
        while j < k
            invariant
                j <= k,
                k <= com@.len(),
                k <= elm@.len(),
                cm == comm_models(com@),
                el == vals(elm@),
                (models(points@), vals(scalars@)) == shifted_terms(cm, el, j as nat),
            decreases k - j,
        {
            let ghost pp = models(points@);
            let ghost ss = vals(scalars@);
            match com[j].shifted {
                Some(pt) => {
                    assert(cm[j as int].shifted == Some(pt.model()));
                    points.push(pt);
                    scalars.push(elm[j]);
                    assert(models(points@) =~= pp.push(pt.model()));
                    assert(vals(scalars@) =~= ss.push(elm@[j as int].val()));
                },
                None => {
                    assert(cm[j as int].shifted is None);
                },
            }
            j = j + 1;
        }
        let shifted: Option<G> = if points.len() == 0 {
            None
        } else {
            Some(msm(points.as_slice(), scalars.as_slice()))
        };
        let r = PolyComm { unshifted, shifted };
        assert(r@.unshifted =~= combination_spec::<G>(cm, el).unshifted);
        r
    }
}

impl<G: CommitmentCurve> SRS<G> {
    /// A copy of the reference string.
    pub fn duplicate(&self) -> (r: Self)
        ensures
            r@ == self@,
            r.g@ == self.g@,
            r.h == self.h,
            r.endo_r == self.endo_r,
            r.endo_q == self.endo_q,
    {
        let g: Vec<G> = copy_range(self.g.as_slice(), 0, self.g.len());
        assert(g@ =~= self.g@);
        SRS { g, h: self.h, endo_r: self.endo_r, endo_q: self.endo_q }
    }
}

/// What the prover knows of a circuit.
pub struct Index<G: CommitmentCurve> {
    pub cs: ConstraintSystem<G::ScalarField>,
    pub srs: SRS<G>,
    /// The number of coefficients that one chunk of a commitment holds.
    pub max_poly_size: usize,
    /// The number of coefficients of the quotient polynomial.
    pub max_quot_size: usize,
    pub fq_sponge_params: ArithmeticSpongeParams<G::BaseField>,
}

/// What the verifier knows of a circuit.
pub struct VerifierIndex<G: CommitmentCurve> {
    pub domain: Domain<G::ScalarField>,
    pub public: usize,
    pub max_poly_size: usize,
    pub max_quot_size: usize,
    pub srs: SRS<G>,
    /// The commitments to the polynomials of the wiring.
    pub sigma_comm: Vec<PolyComm<G>>,
    /// The commitments to the selectors of the generic gate, of the round of the
    /// permutation with its round constants, of the addition and of the scalar
    /// multiplication, in this order.
    pub selector_comm: Vec<PolyComm<G>>,
    /// The commitments to the polynomials that are one on a row of public input and
    /// zero on the other rows.
    pub lgr_comm: Vec<PolyComm<G>>,
    pub shift: Vec<G::ScalarField>,
    /// The polynomial that vanishes on the last three rows.
    pub zkpm: DensePolynomial<G::ScalarField>,
    /// The element of the third row from the end.
    pub w: G::ScalarField,
    pub fr_sponge_params: ArithmeticSpongeParams<G::ScalarField>,
    pub fq_sponge_params: ArithmeticSpongeParams<G::BaseField>,
}

/// The number of selectors that go into the linearization besides the last
/// polynomial of the wiring.
pub const SELECTORS: usize = 11;

/// The values that are one on row `i` and zero on the other rows.
pub open spec fn unit_rows(n: nat, i: nat) -> Seq<nat> {
    Seq::new(
        n,
        |j: int|
            if j == i {
                1nat
            } else {
                0nat
            },
    )
}

/// The polynomial that is one on row `i` and zero on the other rows.
pub open spec fn lagrange_spec(p: nat, w: nat, n: nat, i: nat) -> Seq<nat> {
    idft_spec(p, w, n, unit_rows(n, i))
}

impl<G: CommitmentCurve> Index<G> {
    /// The constraint system, the parameters and the reference string are well
    /// formed; a chunk holds a polynomial over the rows, and the quotient has five
    /// times as many coefficients as there are rows.
    pub open spec fn wf(&self) -> bool {
        &&& self.cs.wf()
        &&& self.fq_sponge_params.wf()
        &&& self.max_poly_size == self.srs.g@.len()
        &&& self.cs.domain.d1.size <= self.max_poly_size <= usize::MAX / 2
        &&& self.max_quot_size == 5 * self.cs.domain.d1.size
    }

    /// Puts a constraint system together with a reference string, which must hold a
    /// polynomial over the rows of the circuit.
    pub fn create(
        cs: ConstraintSystem<G::ScalarField>,
        fq_sponge_params: ArithmeticSpongeParams<G::BaseField>,
        srs: SRS<G>,
    ) -> (r: Option<Self>)
        requires
            cs.wf(),
            fq_sponge_params.wf(),
        ensures
            r is Some <==> cs.domain.d1.size <= srs.g@.len() <= usize::MAX / 2,
            r matches Some(ix) ==> ix.wf() && ix.cs == cs && ix.srs == srs && ix.fq_sponge_params
                == fq_sponge_params,
    {
        let n: usize = cs.domain.d1.size;
        let size: usize = srs.g.len();
        if size < n || size > usize::MAX / 2 {
            return None;
        }
        Some(Index { max_poly_size: size, max_quot_size: 5 * n, cs, srs, fq_sponge_params })
    }

    /// The commitment to a polynomial over the rows.
    pub fn commit_rows(&self, poly: &DensePolynomial<G::ScalarField>) -> (r: PolyComm<G>)
        requires
            self.wf(),
        ensures
            r@ == commit_spec::<G>(models(self.srs.g@), poly@, None),
    {
        self.srs.commit(poly, None)
    }

    /// The index of the verifier: the commitments to the polynomials of the circuit.
    pub fn verifier_index(&self) -> (r: VerifierIndex<G>)
        requires
            self.wf(),
        ensures
            r.wf(),
            r.public == self.cs.public,
            r.domain == self.cs.domain.d1,
            r.srs@ == self.srs@,
            r.max_poly_size == self.max_poly_size,
            r.max_quot_size == self.max_quot_size,
            forall|c: int|
                0 <= c < PERMUTS ==> (#[trigger] r.sigma_comm@[c])@ == commit_spec::<G>(
                    models(self.srs.g@),
                    self.cs.sigma@[c].m@,
                    None,
                ),
            forall|i: int|
                0 <= i < self.cs.public ==> (#[trigger] r.lgr_comm@[i])@ == commit_spec::<G>(
                    models(self.srs.g@),
                    lagrange_spec(
                        G::ScalarField::modulus(),
                        self.cs.domain.d1.group_gen.val(),
                        self.cs.domain.d1.size as nat,
                        i as nat,
                    ),
                    None,
                ),
            r.selector_comm@[0]@ == commit_spec::<G>(models(self.srs.g@), self.cs.ql.m@, None),
            r.selector_comm@[1]@ == commit_spec::<G>(models(self.srs.g@), self.cs.qr.m@, None),
            r.selector_comm@[2]@ == commit_spec::<G>(models(self.srs.g@), self.cs.qo.m@, None),
            r.selector_comm@[3]@ == commit_spec::<G>(models(self.srs.g@), self.cs.qm.m@, None),
            r.selector_comm@[4]@ == commit_spec::<G>(models(self.srs.g@), self.cs.qc.m@, None),
            r.selector_comm@[5]@ == commit_spec::<G>(models(self.srs.g@), self.cs.ps.m@, None),
            r.selector_comm@[6]@ == commit_spec::<G>(models(self.srs.g@), self.cs.rc@[0].m@, None),
            r.selector_comm@[7]@ == commit_spec::<G>(models(self.srs.g@), self.cs.rc@[1].m@, None),
            r.selector_comm@[8]@ == commit_spec::<G>(models(self.srs.g@), self.cs.rc@[2].m@, None),
            r.selector_comm@[9]@ == commit_spec::<G>(models(self.srs.g@), self.cs.add.m@, None),
            r.selector_comm@[10]@ == commit_spec::<G>(models(self.srs.g@), self.cs.mul.m@, None),
            r.zkpm@ == self.cs.zkp.m@,
            r.w == self.cs.sid@[self.cs.domain.d1.size - 3],
            vals(r.shift@) == vals(self.cs.shift@),
    {
        let n: usize = self.cs.domain.d1.size;
        let mut sigma_comm: Vec<PolyComm<G>> = Vec::new();
        let mut c: usize = 0;
        while c < PERMUTS
            invariant
                c <= PERMUTS,
                self.wf(),
                sigma_comm@.len() == c,
                forall|d: int|
                    0 <= d < c ==> (#[trigger] sigma_comm@[d])@ == commit_spec::<G>(
                        models(self.srs.g@),
                        self.cs.sigma@[d].m@,
                        None,
                    ),
            decreases PERMUTS - c,
        {
            sigma_comm.push(self.commit_rows(&self.cs.sigma[c].m));
            c = c + 1;
        }
        let mut selector_comm: Vec<PolyComm<G>> = Vec::new();
        selector_comm.push(self.commit_rows(&self.cs.ql.m));
        selector_comm.push(self.commit_rows(&self.cs.qr.m));
        selector_comm.push(self.commit_rows(&self.cs.qo.m));
        selector_comm.push(self.commit_rows(&self.cs.qm.m));
        selector_comm.push(self.commit_rows(&self.cs.qc.m));
        selector_comm.push(self.commit_rows(&self.cs.ps.m));
        selector_comm.push(self.commit_rows(&self.cs.rc[0].m));
        selector_comm.push(self.commit_rows(&self.cs.rc[1].m));
        selector_comm.push(self.commit_rows(&self.cs.rc[2].m));
        selector_comm.push(self.commit_rows(&self.cs.add.m));
        selector_comm.push(self.commit_rows(&self.cs.mul.m));
        let mut lgr_comm: Vec<PolyComm<G>> = Vec::new();
        let zero: G::ScalarField = G::ScalarField::zero();
        let one: G::ScalarField = G::ScalarField::one();
        let mut i: usize = 0;
        while i < self.cs.public
            invariant
                i <= self.cs.public,
                self.wf(),
                n == self.cs.domain.d1.size,
                zero.val() == 0,
                one.val() == 1,
                lgr_comm@.len() == i,
                forall|k: int|
                    0 <= k < i ==> (#[trigger] lgr_comm@[k])@ == commit_spec::<G>(
                        models(self.srs.g@),
                        lagrange_spec(
                            G::ScalarField::modulus(),
                            self.cs.domain.d1.group_gen.val(),
                            n as nat,
                            k as nat,
                        ),
                        None,
                    ),
            decreases self.cs.public - i,
        {
            let mut rows: Vec<G::ScalarField> = filled(zero, n);
            rows.set(i, one);
            let ev = Evaluations { evals: rows };
            proof {
                assert(ev@ =~= unit_rows(n as nat, i as nat));
            }
            let l: DensePolynomial<G::ScalarField> = ev.interpolate(&self.cs.domain.d1);
            lgr_comm.push(self.commit_rows(&l));
            i = i + 1;
        }
        let shift: Vec<G::ScalarField> = copy_range(self.cs.shift.as_slice(), 0, PERMUTS);
        assert(shift@ =~= self.cs.shift@);
        VerifierIndex {
            domain: Domain {
                size: self.cs.domain.d1.size,
                log_size: self.cs.domain.d1.log_size,
                group_gen: self.cs.domain.d1.group_gen,
                size_inv: self.cs.domain.d1.size_inv,
            },
            public: self.cs.public,
            max_poly_size: self.max_poly_size,
            max_quot_size: self.max_quot_size,
            srs: self.srs.duplicate(),
            sigma_comm,
            selector_comm,
            lgr_comm,
            shift,
            zkpm: self.cs.zkp.m.duplicate(),
            w: self.cs.sid[n - 3],
            fr_sponge_params: self.cs.fr_sponge_params.duplicate(),
            fq_sponge_params: self.fq_sponge_params.duplicate(),
        }
    }
}

impl<G: CommitmentCurve> VerifierIndex<G> {
    /// The sizes fit, and the parameters are well formed.
    pub open spec fn wf(&self) -> bool {
        &&& self.domain.wf()
        &&& self.domain.size >= 4
        &&& self.public <= self.domain.size
        &&& self.max_poly_size == self.srs.g@.len()
        &&& self.domain.size <= self.max_poly_size <= usize::MAX / 2
        &&& self.max_quot_size == 5 * self.domain.size
        &&& self.sigma_comm@.len() == PERMUTS
        &&& self.selector_comm@.len() == SELECTORS
        &&& self.lgr_comm@.len() == self.public
        &&& self.shift@.len() == PERMUTS
        &&& self.fr_sponge_params.wf()
        &&& self.fq_sponge_params.wf()
    }
}

} // verus!
