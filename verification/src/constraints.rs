//! The constraint system: the gates of a circuit over a domain, with the polynomials
//! that select the rows of each kind of gate and those that encode the wiring.

use crate::arith::{fmul, fneg, fpow};
use crate::error::ProofError;
use crate::evaluations::{dft_spec, idft_spec, Domain, Evaluations};
use crate::field::{vals, PrimeField};
use crate::gate::{CircuitGate, GateType};
use crate::poly::{filled, DensePolynomial};
use crate::poseidon::ArithmeticSpongeParams;
use vstd::arithmetic::power2::{lemma_pow2_unfold, pow2};
use vstd::prelude::*;

verus! {

/// The number of witness columns.
pub const WIRES: usize = 15;

/// The number of witness columns that the wiring ties together: the first ones.
pub const PERMUTS: usize = 5;

/// The domain of the rows, and the domains of four and eight times its size on which
/// products of polynomials are formed.
pub struct EvaluationDomains<F: PrimeField> {
    pub d1: Domain<F>,
    pub d4: Domain<F>,
    pub d8: Domain<F>,
}

impl<F: PrimeField> EvaluationDomains<F> {
    /// The three domains are well formed and of sizes `n`, `4n` and `8n`.
    pub open spec fn wf(&self) -> bool {
        &&& self.d1.wf()
        &&& self.d4.wf()
        &&& self.d8.wf()
        &&& self.d4.log_size == self.d1.log_size + 2
        &&& self.d8.log_size == self.d1.log_size + 3
        &&& self.d4.size == 4 * self.d1.size
        &&& self.d8.size == 8 * self.d1.size
    }

    /// The domains for circuits of `2^log_size` rows.
    pub fn create(log_size: u32) -> (r: Result<Self, ProofError>)
        ensures
            r is Ok <==> (log_size <= 29 && pow2((log_size + 3) as nat) <= usize::MAX),
            r matches Ok(d) ==> d.wf() && d.d1.log_size == log_size,
            r matches Err(e) ==> e == ProofError::DomainCreation,
    {
        if log_size > 29 {
            return Err(ProofError::DomainCreation);
        }
        proof {
            lemma_pow2_unfold((log_size + 1) as nat);
            lemma_pow2_unfold((log_size + 2) as nat);
            lemma_pow2_unfold((log_size + 3) as nat);
        }
        let d8 = match Domain::new(log_size + 3) {
            Ok(d) => d,
            Err(e) => {
                return Err(e);
            },
        };
        let d4 = match Domain::new(log_size + 2) {
            Ok(d) => d,
            Err(e) => {
                return Err(e);
            },
        };
        let d1 = match Domain::new(log_size) {
            Ok(d) => d,
            Err(e) => {
                return Err(e);
            },
        };
        Ok(EvaluationDomains { d1, d4, d8 })
    }
}

/// A polynomial that is given by its values on the rows, with its values on the two
/// larger domains.
pub struct Selector<F: PrimeField> {
    /// The coefficients.
    pub m: DensePolynomial<F>,
    /// The values on the domain of four times the size.
    pub l4: Evaluations<F>,
    /// The values on the domain of eight times the size.
    pub l8: Evaluations<F>,
}

impl<F: PrimeField> Selector<F> {
    /// Whether the polynomial is the one with the values `rows` on the rows.
    pub open spec fn interpolates(&self, domain: &EvaluationDomains<F>, rows: Seq<nat>) -> bool {
        let p = F::modulus();
        &&& self.m@ == idft_spec(p, domain.d1.group_gen.val(), domain.d1.size as nat, rows)
        &&& self.l4@ == dft_spec(p, domain.d4.group_gen.val(), domain.d4.size as nat, self.m@)
        &&& self.l8@ == dft_spec(p, domain.d8.group_gen.val(), domain.d8.size as nat, self.m@)
    }

    /// The sizes are those of the three domains.
    pub open spec fn fits(&self, domain: &EvaluationDomains<F>) -> bool {
        &&& self.m@.len() == domain.d1.size
        &&& self.l4@.len() == domain.d4.size
        &&& self.l8@.len() == domain.d8.size
    }

    /// The polynomial with the values `rows` on the rows of the domain.
    pub fn create(domain: &EvaluationDomains<F>, rows: Vec<F>) -> (r: Self)
        requires
            domain.wf(),
            rows@.len() <= domain.d1.size,
        ensures
            r.interpolates(domain, vals(rows@)),
            r.fits(domain),
    {
        let m: DensePolynomial<F> = (Evaluations { evals: rows }).interpolate(&domain.d1);
        let l4: Evaluations<F> = m.evaluate_over_domain(&domain.d4);
        let l8: Evaluations<F> = m.evaluate_over_domain(&domain.d8);
        Selector { m, l4, l8 }
    }

    /// Whether the polynomial is zero.
    pub fn is_zero(&self) -> (b: bool)
        ensures
            b == (forall|i: int| 0 <= i < self.m@.len() ==> self.m@[i] == 0),
    {
        self.m.is_zero()
    }
}

/// Constant `j` of a gate of the kind `typ`, or zero for any other gate and where the
/// gate has no such constant.
pub open spec fn gate_constant<F: PrimeField>(g: CircuitGate<F>, typ: GateType, j: int) -> nat {
    if g.typ == typ && 0 <= j < g.c@.len() {
        g.c@[j].val()
    } else {
        0
    }
}

/// For every row, constant `j` of its gate where that is of the kind `typ`.
pub open spec fn constant_rows<F: PrimeField>(gates: Seq<CircuitGate<F>>, typ: GateType, j: int) -> Seq<
    nat,
> {
    Seq::new(gates.len(), |i: int| gate_constant(gates[i], typ, j))
}

/// For every row, one where its gate is of the kind `typ`, else zero.
pub open spec fn kind_rows<F: PrimeField>(gates: Seq<CircuitGate<F>>, typ: GateType) -> Seq<nat> {
    Seq::new(
        gates.len(),
        |i: int|
            if gates[i].typ == typ {
                1nat
            } else {
                0nat
            },
    )
}

/// Whether two kinds of gate are the same.
pub fn same_kind(a: GateType, b: GateType) -> (r: bool)
    ensures
        r == (a == b),
{
    match (a, b) {
        (GateType::Zero, GateType::Zero) => true,
        (GateType::Generic, GateType::Generic) => true,
        (GateType::Poseidon, GateType::Poseidon) => true,
        (GateType::Add, GateType::Add) => true,
        (GateType::Vbmul, GateType::Vbmul) => true,
        (GateType::Endomul, GateType::Endomul) => true,
        (GateType::Pack, GateType::Pack) => true,
        _ => false,
    }
}

/// The rows of constant `j` of the gates of the kind `typ`.
pub fn read_constants<F: PrimeField>(gates: &Vec<CircuitGate<F>>, typ: GateType, j: usize) -> (r: Vec<
    F,
>)
    ensures
        r@.len() == gates@.len(),
        vals(r@) == constant_rows(gates@, typ, j as int),
{
    let mut out: Vec<F> = Vec::new();
    let mut i: usize = 0;
    while i < gates.len()
        invariant
            i <= gates@.len(),
            out@.len() == i,
            forall|k: int| 0 <= k < i ==> (#[trigger] out@[k]).val() == gate_constant(gates@[k], typ, j as int),
        decreases gates@.len() - i,
    {
        let g = &gates[i];
        let v: F = if same_kind(g.typ, typ) && j < g.c.len() {
            g.c[j]
        } else {
            F::zero()
        };
        out.push(v);
        i = i + 1;
    }
    assert(vals(out@) =~= constant_rows(gates@, typ, j as int));
    out
}

/// The rows that mark the gates of the kind `typ`.
pub fn read_kind<F: PrimeField>(gates: &Vec<CircuitGate<F>>, typ: GateType) -> (r: Vec<F>)
    ensures
        r@.len() == gates@.len(),
        vals(r@) == kind_rows(gates@, typ),
{
    let mut out: Vec<F> = Vec::new();
    let mut i: usize = 0;
    while i < gates.len()
        invariant
            i <= gates@.len(),
            out@.len() == i,
            forall|k: int|
                0 <= k < i ==> (#[trigger] out@[k]).val() == if gates@[k].typ == typ {
                    1nat
                } else {
                    0nat
                },
        decreases gates@.len() - i,
    {
        let v: F = if same_kind(gates[i].typ, typ) {
            F::one()
        } else {
            F::zero()
        };
        out.push(v);
        i = i + 1;
    }
    assert(vals(out@) =~= kind_rows(gates@, typ));
    out
}

/// The element that stands for the cell in row `row` and column `col` in the
/// permutation argument: the domain element of the row times the shift of the column.
pub open spec fn cell_id(p: nat, sid: Seq<nat>, shift: Seq<nat>, row: int, col: int) -> nat {
    fmul(p, sid[row], shift[col])
}

/// The circuit with everything that proving needs of it.
pub struct ConstraintSystem<F: PrimeField> {
    /// The number of public inputs, which sit in the first rows of the first column.
    pub public: usize,
    pub domain: EvaluationDomains<F>,
    pub gates: Vec<CircuitGate<F>>,
    /// The elements of the domain of the rows.
    pub sid: Vec<F>,
    /// The shifts that tell the wired columns apart.
    pub shift: Vec<F>,
    /// For each wired column and row, the identifier of the cell that the wiring
    /// sends it to.
    pub sigmal1: Vec<Vec<F>>,
    /// The polynomials through the identifiers, by coefficients and by values.
    pub sigma: Vec<Selector<F>>,
    /// The polynomial that vanishes on the last three rows.
    pub zkp: Selector<F>,
    /// The coefficients of the generic gates: left, right, output, product, constant.
    pub ql: Selector<F>,
    pub qr: Selector<F>,
    pub qo: Selector<F>,
    pub qm: Selector<F>,
    pub qc: Selector<F>,
    /// The rows of the Poseidon gates, and their three round constants.
    pub ps: Selector<F>,
    pub rc: Vec<Selector<F>>,
    /// The rows of the point additions.
    pub add: Selector<F>,
    /// The rows of the scalar multiplications.
    pub mul: Selector<F>,
    /// The constant one and the identity, by values.
    pub one: Selector<F>,
    pub id: Selector<F>,
    pub fr_sponge_params: ArithmeticSpongeParams<F>,
}

/// The values of the witness columns and of the permutation aggregation on a domain.
pub struct WitnessEvals<F: PrimeField> {
    pub w: Vec<Evaluations<F>>,
    pub z: Evaluations<F>,
}

/// The values for the rows themselves and for the rows that follow them.
pub struct WitnessShifts<F: PrimeField> {
    pub this: WitnessEvals<F>,
    pub next: WitnessEvals<F>,
}

/// The witness on the two larger domains.
pub struct WitnessOverDomains<F: PrimeField> {
    pub d4: WitnessShifts<F>,
    pub d8: WitnessShifts<F>,
}

/// The values of the columns at position `x` of their domain.
pub open spec fn column_values<F: PrimeField>(w: Seq<Evaluations<F>>, x: int) -> Seq<nat> {
    Seq::new(w.len(), |c: int| w[c]@[x])
}

/// The values of the columns at position `x`, copied out.
pub fn read_columns<F: PrimeField>(w: &Vec<Evaluations<F>>, x: usize) -> (r: Vec<F>)
    requires
        forall|c: int| 0 <= c < w@.len() ==> x < (#[trigger] w@[c])@.len(),
    ensures
        r@.len() == w@.len(),
        vals(r@) == column_values(w@, x as int),
{
    let mut out: Vec<F> = Vec::new();
    let mut c: usize = 0;
    while c < w.len()
        invariant
            c <= w@.len(),
            forall|d: int| 0 <= d < w@.len() ==> x < (#[trigger] w@[d])@.len(),
            out@.len() == c,
            forall|d: int| 0 <= d < c ==> (#[trigger] out@[d]).val() == w@[d]@[x as int],
        decreases w@.len() - c,
    {
        assert(x < w@[c as int]@.len());
        assert(w@[c as int]@[x as int] == w@[c as int].evals@[x as int].val());
        out.push(w[c].evals[x]);
        c = c + 1;
    }
    assert(vals(out@) =~= column_values(w@, x as int));
    out
}

/// The sum of `c[i] * a[i]` for `lo <= i < hi`.
pub open spec fn weighted_sum(p: nat, c: Seq<nat>, a: Seq<nat>, lo: nat, hi: nat) -> nat
    decreases hi,
{
    if hi <= lo {
        0
    } else {
        crate::arith::fadd(
            p,
            weighted_sum(p, c, a, lo, (hi - 1) as nat),
            fmul(p, c[hi - 1], a[hi - 1]),
        )
    }
}

/// The sum of `c[i] * a[i]` for `lo <= i < hi`.
pub fn weighted<F: PrimeField>(c: &[F], a: &[F], lo: usize, hi: usize) -> (r: F)
    requires
        lo <= hi,
        hi <= c@.len(),
        hi <= a@.len(),
    ensures
        r.val() == weighted_sum(F::modulus(), vals(c@), vals(a@), lo as nat, hi as nat),
{
    let mut acc: F = F::zero();
    let mut i: usize = lo;
    while i < hi
        invariant
            lo <= i <= hi,
            hi <= c@.len(),
            hi <= a@.len(),
            acc.val() == weighted_sum(F::modulus(), vals(c@), vals(a@), lo as nat, i as nat),
        decreases hi - i,
    {
        acc = acc.add(&c[i].mul(&a[i]));
        i = i + 1;
    }
    acc
}

impl<F: PrimeField> WitnessEvals<F> {
    /// There are `WIRES` columns, each with `size` values, as the aggregation has.
    pub open spec fn fits(&self, size: nat) -> bool {
        &&& self.w@.len() == WIRES
        &&& forall|c: int| 0 <= c < WIRES ==> (#[trigger] self.w@[c])@.len() == size
        &&& self.z@.len() == size
    }
}

impl<F: PrimeField> WitnessOverDomains<F> {
    /// The values are given on the domains of four and eight times `n` values.
    pub open spec fn fits(&self, n: nat) -> bool {
        &&& self.d4.this.fits(4 * n)
        &&& self.d4.next.fits(4 * n)
        &&& self.d8.this.fits(8 * n)
        &&& self.d8.next.fits(8 * n)
    }
}

/// `(X - a)(X - b)(X - c)`, lowest coefficient first.
pub open spec fn cubic_with_roots(p: nat, a: nat, b: nat, c: nat) -> Seq<nat> {
    let ab = fmul(p, a, b);
    let s2 = crate::arith::fadd(p, crate::arith::fadd(p, ab, fmul(p, a, c)), fmul(p, b, c));
    let s1 = crate::arith::fadd(p, crate::arith::fadd(p, a, b), c);
    seq![fneg(p, fmul(p, ab, c)), s2, fneg(p, s1), 1nat]
}

impl<F: PrimeField> ConstraintSystem<F> {
    /// The sizes of all parts fit the domain, the wiring stays inside the table, and
    /// the parameters of the permutation of the hash are well formed.
    pub open spec fn wf(&self) -> bool {
        let n = self.domain.d1.size;
        &&& self.domain.wf()
        &&& n >= 4
        &&& self.public <= n
        &&& self.gates@.len() == n
        &&& Self::gates_fit(self.gates@, n as nat)
        &&& self.sid@.len() == n
        &&& self.shift@.len() == PERMUTS
        &&& self.sigmal1@.len() == PERMUTS
        &&& forall|c: int| 0 <= c < PERMUTS ==> (#[trigger] self.sigmal1@[c])@.len() == n
        &&& self.sigma@.len() == PERMUTS
        &&& forall|c: int| 0 <= c < PERMUTS ==> (#[trigger] self.sigma@[c]).fits(&self.domain)
        &&& self.zkp.fits(&self.domain)
        &&& self.ql.fits(&self.domain)
        &&& self.qr.fits(&self.domain)
        &&& self.qo.fits(&self.domain)
        &&& self.qm.fits(&self.domain)
        &&& self.qc.fits(&self.domain)
        &&& self.ps.fits(&self.domain)
        &&& self.rc@.len() == 3
        &&& forall|c: int| 0 <= c < 3 ==> (#[trigger] self.rc@[c]).fits(&self.domain)
        &&& self.add.fits(&self.domain)
        &&& self.mul.fits(&self.domain)
        &&& self.one.fits(&self.domain)
        &&& self.id.fits(&self.domain)
        &&& self.fr_sponge_params.wf()
    }

    /// Whether the gates are of the kinds that the prover has polynomials for, and
    /// wired inside the table.
    pub open spec fn gates_fit(gates: Seq<CircuitGate<F>>, n: nat) -> bool {
        &&& forall|i: int, c: int|
            0 <= i < gates.len() && 0 <= c < PERMUTS ==> (#[trigger] gates[i].wires[c]).row < n && (
            #[trigger] gates[i].wires[c]).col < PERMUTS
        &&& forall|i: int|
            0 <= i < gates.len() ==> (#[trigger] gates[i]).typ != GateType::Endomul && gates[i].typ
                != GateType::Pack
    }

    /// Whether the gates are in their rows and wired inside the table.
    pub fn check_gates(gates: &Vec<CircuitGate<F>>, n: usize) -> (b: bool)
        ensures
            b == Self::gates_fit(gates@, n as nat),
    {
        let mut i: usize = 0;
        while i < gates.len()
            invariant
                i <= gates@.len(),
                forall|k: int, c: int|
                    0 <= k < i && 0 <= c < PERMUTS ==> (#[trigger] gates@[k].wires[c]).row < n && (
                    #[trigger] gates@[k].wires[c]).col < PERMUTS,
                forall|k: int|
                    0 <= k < i ==> (#[trigger] gates@[k]).typ != GateType::Endomul && gates@[k].typ
                        != GateType::Pack,
            decreases gates@.len() - i,
        {
            if same_kind(gates[i].typ, GateType::Endomul) || same_kind(gates[i].typ, GateType::Pack) {
                assert(!(gates@[i as int].typ != GateType::Endomul && gates@[i as int].typ
                    != GateType::Pack));
                return false;
            }
            let mut c: usize = 0;
            while c < PERMUTS
                invariant
                    c <= PERMUTS,
                    i < gates@.len(),
                    forall|d: int|
                        0 <= d < c ==> (#[trigger] gates@[i as int].wires[d]).row < n && (
                        #[trigger] gates@[i as int].wires[d]).col < PERMUTS,
                decreases PERMUTS - c,
            {
                let w = gates[i].wires[c];
                if w.row >= n || w.col >= PERMUTS {
                    assert(!(gates@[i as int].wires[c as int].row < n
                        && gates@[i as int].wires[c as int].col < PERMUTS));
                    return false;
                }
                c = c + 1;
            }
            i = i + 1;
        }
        true
    }

    /// Compiles the gates of a circuit: the domain is the one of as many rows as there
    /// are gates, which must be a power of two and at least four; the gates must be of
    /// the kinds that the prover has polynomials for, and the wiring must stay inside
    /// the table.
    pub fn create(
        gates: Vec<CircuitGate<F>>,
        fr_sponge_params: ArithmeticSpongeParams<F>,
        public: usize,
    ) -> (r: Result<Self, ProofError>)
        requires
            fr_sponge_params.wf(),
        ensures
            r matches Ok(cs) ==> cs.wf() && cs.gates@ == gates@ && cs.public == public
                && cs.created(),
            r is Ok <==> (exists|k: nat|
                2 <= k <= 29 && #[trigger] pow2(k) == gates@.len() && pow2(k + 3) <= usize::MAX)
                && public <= gates@.len() && Self::gates_fit(gates@, gates@.len()),
            r matches Err(e) ==> e == ProofError::DomainCreation || e
                == ProofError::ConstraintInconsist,
    {
        let n: usize = gates.len();
        let log: usize = crate::commitment::ceil_log2(n);
        proof {
            vstd::arithmetic::power2::lemma2_to64();
            if exists|k: nat| 2 <= k <= 29 && #[trigger] pow2(k) == n && pow2(k + 3) <= usize::MAX {
                let k = choose|k: nat|
                    2 <= k <= 29 && #[trigger] pow2(k) == n && pow2(k + 3) <= usize::MAX;
                vstd::arithmetic::power2::lemma_pow2_strictly_increases((k - 1) as nat, k);
                crate::commitment::lemma_ceil_log2_unique(n as nat, k);
            }
        }
        if log < 2 || log > 29 {
            proof {
                if log < 2 {
                    lemma_small_exponent(n as nat, log as nat);
                }
            }
            return Err(ProofError::DomainCreation);
        }
        let domain: EvaluationDomains<F> = match EvaluationDomains::create(log as u32) {
            Ok(d) => d,
            Err(e) => {
                proof {
                    lemma_not_power(n as nat, log as nat);
                }
                return Err(e);
            },
        };
        if domain.d1.size != n {
            proof {
                lemma_not_power(n as nat, log as nat);
            }
            return Err(ProofError::DomainCreation);
        }
        proof {
            lemma_small_exponent_converse(log as nat);
        }
        if public > n || !Self::check_gates(&gates, n) {
            return Err(ProofError::ConstraintInconsist);
        }
        let sid: Vec<F> = domain.d1.elements();
        let g: F = F::multiplicative_generator();
        let shift: Vec<F> = crate::commitment::pows(PERMUTS, g);
        let ghost p = F::modulus();
        let mut sigmal1: Vec<Vec<F>> = Vec::new();
        let mut sigma: Vec<Selector<F>> = Vec::new();
        let mut c: usize = 0;
        while c < PERMUTS
            invariant
                c <= PERMUTS,
                domain.wf(),
                n == domain.d1.size,
                n == gates@.len(),
                sid@.len() == n,
                shift@.len() == PERMUTS,
                Self::gates_fit(gates@, n as nat),
                p == F::modulus(),
                sigmal1@.len() == c,
                sigma@.len() == c,
                forall|d: int| 0 <= d < c ==> (#[trigger] sigmal1@[d])@.len() == n,
                forall|d: int, i: int|
                    0 <= d < c && 0 <= i < n ==> (#[trigger] sigmal1@[d]@[i]).val() == cell_id(
                        p,
                        vals(sid@),
                        vals(shift@),
                        gates@[i].wires[d].row as int,
                        gates@[i].wires[d].col as int,
                    ),
                forall|d: int| 0 <= d < c ==> (#[trigger] sigma@[d]).fits(&domain),
                forall|d: int|
                    0 <= d < c ==> (#[trigger] sigma@[d]).interpolates(&domain, vals(sigmal1@[d]@)),
            decreases PERMUTS - c,
        {
            let mut col: Vec<F> = Vec::new();
            let mut i: usize = 0;
            while i < n
                invariant
                    i <= n,
                    c < PERMUTS,
                    n == gates@.len(),
                    sid@.len() == n,
                    shift@.len() == PERMUTS,
                    Self::gates_fit(gates@, n as nat),
                    p == F::modulus(),
                    col@.len() == i,
                    forall|k: int|
                        0 <= k < i ==> (#[trigger] col@[k]).val() == cell_id(
                            p,
                            vals(sid@),
                            vals(shift@),
                            gates@[k].wires[c as int].row as int,
                            gates@[k].wires[c as int].col as int,
                        ),
                decreases n - i,
            {
                let w = gates[i].wires[c];
                assert(gates@[i as int].wires[c as int].row < n && gates@[i as int].wires[c as int].col
                    < PERMUTS);
                col.push(sid[w.row].mul(&shift[w.col]));
                i = i + 1;
            }
            let copy: Vec<F> = crate::poly::copy_range(col.as_slice(), 0, n);
            assert(copy@ =~= col@);
            sigma.push(Selector::create(&domain, copy));
            sigmal1.push(col);
            c = c + 1;
        }
        let r1: F = sid[n - 3];
        let r2: F = sid[n - 2];
        let r3: F = sid[n - 1];
        let ab: F = r1.mul(&r2);
        let mut zk: Vec<F> = Vec::new();
        zk.push(ab.mul(&r3).neg());
        zk.push(ab.add(&r1.mul(&r3)).add(&r2.mul(&r3)));
        zk.push(r1.add(&r2).add(&r3).neg());
        zk.push(F::one());
        let zkpm: DensePolynomial<F> = DensePolynomial { coeffs: zk };
        proof {
            assert(zkpm@ =~= cubic_with_roots(p, r1.val(), r2.val(), r3.val()));
            lemma_pow2_unfold((log + 1) as nat);
            lemma_pow2_unfold((log + 2) as nat);
            lemma_pow2_unfold((log + 3) as nat);
        }
        let zkp_rows: Evaluations<F> = zkpm.evaluate_over_domain(&domain.d1);
        let zkp: Selector<F> = Selector::create(&domain, zkp_rows.evals);
        let ql = Selector::create(&domain, read_constants(&gates, GateType::Generic, 0));
        let qr = Selector::create(&domain, read_constants(&gates, GateType::Generic, 1));
        let qo = Selector::create(&domain, read_constants(&gates, GateType::Generic, 2));
        let qm = Selector::create(&domain, read_constants(&gates, GateType::Generic, 3));
        let qc = Selector::create(&domain, read_constants(&gates, GateType::Generic, 4));
        let ps = Selector::create(&domain, read_kind(&gates, GateType::Poseidon));
        let mut rc: Vec<Selector<F>> = Vec::new();
        rc.push(Selector::create(&domain, read_constants(&gates, GateType::Poseidon, 0)));
        rc.push(Selector::create(&domain, read_constants(&gates, GateType::Poseidon, 1)));
        rc.push(Selector::create(&domain, read_constants(&gates, GateType::Poseidon, 2)));
        let add = Selector::create(&domain, read_kind(&gates, GateType::Add));
        let mul = Selector::create(&domain, read_kind(&gates, GateType::Vbmul));
        let ones: Vec<F> = filled(F::one(), n);
        assert(vals(ones@) =~= Seq::new(n as nat, |i: int| 1nat));
        let one = Selector::create(&domain, ones);
        let ids: Vec<F> = crate::poly::copy_range(sid.as_slice(), 0, n);
        assert(ids@ =~= sid@);
        let id = Selector::create(&domain, ids);
        let cs = ConstraintSystem {
            public,
            domain,
            gates,
            sid,
            shift,
            sigmal1,
            sigma,
            zkp,
            ql,
            qr,
            qo,
            qm,
            qc,
            ps,
            rc,
            add,
            mul,
            one,
            id,
            fr_sponge_params,
        };
        proof {
            assert forall|i: int| 0 <= i < n implies (#[trigger] cs.sid@[i]).val() == fpow(
                p,
                cs.domain.d1.group_gen.val(),
                i as nat,
            ) by {}
            assert(vals(cs.shift@) == crate::commitment::pows_spec(
                p,
                PERMUTS as nat,
                F::generator_value(),
            ));
            assert(cs.one.interpolates(&cs.domain, Seq::new(n as nat, |i: int| 1nat)));
            assert(cs.id.interpolates(&cs.domain, vals(cs.sid@)));
            assert(cs.mul.interpolates(&cs.domain, kind_rows(cs.gates@, GateType::Vbmul)));
            assert(cs.ql.interpolates(&cs.domain, constant_rows(cs.gates@, GateType::Generic, 0)));
            assert forall|j: int| 0 <= j < 3 implies (#[trigger] cs.rc@[j]).interpolates(
                &cs.domain,
                constant_rows(cs.gates@, GateType::Poseidon, j),
            ) by {}
            assert forall|d: int| 0 <= d < PERMUTS implies (#[trigger] cs.sigma@[d]).interpolates(
                &cs.domain,
                vals(cs.sigmal1@[d]@),
            ) by {}
            assert(cs.zkp.interpolates(
                &cs.domain,
                dft_spec(
                    p,
                    cs.domain.d1.group_gen.val(),
                    n as nat,
                    cubic_with_roots(
                        p,
                        cs.sid@[n - 3].val(),
                        cs.sid@[n - 2].val(),
                        cs.sid@[n - 1].val(),
                    ),
                ),
            ));
            assert(cs.created());
        }
        Ok(cs)
    }

    /// What [`ConstraintSystem::create`] makes of the gates: the identifiers of the
    /// cells, the polynomials of the wiring through the identifiers that the wires
    /// point to, and the selectors through the marks and constants of the gates.
    pub open spec fn created(&self) -> bool {
        let p = F::modulus();
        let n = self.domain.d1.size;
        &&& forall|i: int|
            0 <= i < n ==> (#[trigger] self.sid@[i]).val() == fpow(
                p,
                self.domain.d1.group_gen.val(),
                i as nat,
            )
        &&& vals(self.shift@) == crate::commitment::pows_spec(
            p,
            PERMUTS as nat,
            F::generator_value(),
        )
        &&& forall|d: int, i: int|
            0 <= d < PERMUTS && 0 <= i < n ==> (#[trigger] self.sigmal1@[d]@[i]).val() == cell_id(
                p,
                vals(self.sid@),
                vals(self.shift@),
                self.gates@[i].wires[d].row as int,
                self.gates@[i].wires[d].col as int,
            )
        &&& forall|d: int|
            0 <= d < PERMUTS ==> (#[trigger] self.sigma@[d]).interpolates(
                &self.domain,
                vals(self.sigmal1@[d]@),
            )
        &&& self.ql.interpolates(&self.domain, constant_rows(self.gates@, GateType::Generic, 0))
        &&& self.qr.interpolates(&self.domain, constant_rows(self.gates@, GateType::Generic, 1))
        &&& self.qo.interpolates(&self.domain, constant_rows(self.gates@, GateType::Generic, 2))
        &&& self.qm.interpolates(&self.domain, constant_rows(self.gates@, GateType::Generic, 3))
        &&& self.qc.interpolates(&self.domain, constant_rows(self.gates@, GateType::Generic, 4))
        &&& self.ps.interpolates(&self.domain, kind_rows(self.gates@, GateType::Poseidon))
        &&& forall|j: int|
            0 <= j < 3 ==> (#[trigger] self.rc@[j]).interpolates(
                &self.domain,
                constant_rows(self.gates@, GateType::Poseidon, j),
            )
        &&& self.add.interpolates(&self.domain, kind_rows(self.gates@, GateType::Add))
        &&& self.mul.interpolates(&self.domain, kind_rows(self.gates@, GateType::Vbmul))
        &&& self.one.interpolates(&self.domain, Seq::new(n as nat, |i: int| 1nat))
        &&& self.id.interpolates(&self.domain, vals(self.sid@))
        &&& self.zkp.interpolates(
            &self.domain,
            dft_spec(
                p,
                self.domain.d1.group_gen.val(),
                n as nat,
                cubic_with_roots(
                    p,
                    self.sid@[n - 3].val(),
                    self.sid@[n - 2].val(),
                    self.sid@[n - 1].val(),
                ),
            ),
        )
    }
}

/// A number whose least bound by a power of two has an exponent below two is below
/// four, so it is no power of two with an exponent of two or more.
pub proof fn lemma_small_exponent(n: nat, log: nat)
    requires
        log == crate::commitment::ceil_log2_spec(n),
        crate::commitment::is_ceil_log2(n, log),
        log < 2,
    ensures
        !(exists|k: nat| 2 <= k <= 29 && #[trigger] pow2(k) == n && pow2(k + 3) <= usize::MAX),
{
    vstd::arithmetic::power2::lemma2_to64();
    if exists|k: nat| 2 <= k <= 29 && #[trigger] pow2(k) == n && pow2(k + 3) <= usize::MAX {
        let k = choose|k: nat| 2 <= k <= 29 && #[trigger] pow2(k) == n && pow2(k + 3) <= usize::MAX;
        if k > 2 {
            vstd::arithmetic::power2::lemma_pow2_strictly_increases(2, k);
        }
    }
}

/// A number that is not the power of two of its least exponent is no power of two
/// that a domain could have.
pub proof fn lemma_not_power(n: nat, log: nat)
    requires
        crate::commitment::is_ceil_log2(n, log),
        log == crate::commitment::ceil_log2_spec(n),
        pow2(log) != n || pow2(log + 3) > usize::MAX || log > 29,
    ensures
        !(exists|k: nat| 2 <= k <= 29 && #[trigger] pow2(k) == n && pow2(k + 3) <= usize::MAX),
{
    if exists|k: nat| 2 <= k <= 29 && #[trigger] pow2(k) == n && pow2(k + 3) <= usize::MAX {
        let k = choose|k: nat| 2 <= k <= 29 && #[trigger] pow2(k) == n && pow2(k + 3) <= usize::MAX;
        vstd::arithmetic::power2::lemma_pow2_pos(k);
        if k > 0 {
            vstd::arithmetic::power2::lemma_pow2_strictly_increases((k - 1) as nat, k);
        }
        crate::commitment::lemma_ceil_log2_unique(n, k);
    }
}

/// A power of two with an exponent of two or more is at least four.
pub proof fn lemma_small_exponent_converse(log: nat)
    requires
        log >= 2,
    ensures
        pow2(log) >= 4,
{
    vstd::arithmetic::power2::lemma2_to64();
    if log > 2 {
        vstd::arithmetic::power2::lemma_pow2_strictly_increases(2, log);
    }
}

} // verus!
