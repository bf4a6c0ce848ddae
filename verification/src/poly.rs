//! Dense univariate polynomials over a prime field, and what the commitment scheme
//! needs of them: scaling, shifting, evaluation as a whole and chunk by chunk.

use crate::arith::{fadd, fmul, fpow, fsub, lemma_add_mod_noop_left};
use crate::field::{vals, PrimeField};
use vstd::arithmetic::div_mod::{
    lemma_add_mod_noop, lemma_add_mod_noop_right, lemma_mod_bound, lemma_mul_mod_noop_left,
    lemma_small_mod,
};
use vstd::prelude::*;

verus! {

/// The value at `x` of the polynomial with coefficients `c`, lowest degree first.
pub open spec fn poly_eval(p: nat, c: Seq<nat>, x: nat) -> nat
    decreases c.len(),
{
    if c.len() == 0 {
        0
    } else {
        fadd(p, fmul(p, poly_eval(p, c.skip(1), x), x), c[0])
    }
}

/// The coefficients `c`, each multiplied by `k`.
pub open spec fn poly_scale(p: nat, c: Seq<nat>, k: nat) -> Seq<nat> {
    Seq::new(c.len(), |i: int| fmul(p, c[i], k))
}

/// The coefficients `c` behind `size` zeros: the polynomial times `X^size`.
pub open spec fn poly_shiftr(c: Seq<nat>, size: nat) -> Seq<nat> {
    Seq::new(size, |i: int| 0nat) + c
}

/// The sum of two polynomials; the shorter one is taken as padded with zeros.
pub open spec fn poly_add(p: nat, a: Seq<nat>, b: Seq<nat>) -> Seq<nat> {
    Seq::new(
        if a.len() >= b.len() {
            a.len()
        } else {
            b.len()
        },
        |i: int|
            if i < a.len() && i < b.len() {
                fadd(p, a[i], b[i])
            } else if i < a.len() {
                a[i]
            } else {
                b[i]
            },
    )
}

/// The number of chunks of `size` coefficients that cover `len` coefficients.
pub open spec fn chunk_count(len: nat, size: nat) -> nat {
    if size == 0 {
        0
    } else {
        ((len + size - 1) / (size as int)) as nat
    }
}

/// Chunk `i` of the coefficients `c` cut into pieces of `size`; the last may be shorter.
pub open spec fn chunk(c: Seq<nat>, size: nat, i: nat) -> Seq<nat> {
    c.subrange(
        (i * size) as int,
        if (i + 1) * size <= c.len() {
            ((i + 1) * size) as int
        } else {
            c.len() as int
        },
    )
}

/// The values at `x` of the chunks of `c`, in order.
pub open spec fn chunk_evals(p: nat, c: Seq<nat>, x: nat, size: nat) -> Seq<nat> {
    Seq::new(chunk_count(c.len(), size), |i: int| poly_eval(p, chunk(c, size, i as nat), x))
}

/// A vector of `n` copies of `x`.
pub fn filled<T: Copy>(x: T, n: usize) -> (v: Vec<T>)
    ensures
        v@ == Seq::new(n as nat, |i: int| x),
{
    let mut v: Vec<T> = Vec::new();
    let mut i: usize = 0;
    while i < n
        invariant
            i <= n,
            v@ == Seq::new(i as nat, |j: int| x),
        decreases n - i,
    {
        v.push(x);
        i = i + 1;
    }
    v
}

/// A copy of the part `lo..hi` of a slice.
pub fn copy_range<T: Copy>(s: &[T], lo: usize, hi: usize) -> (v: Vec<T>)
    requires
        lo <= hi <= s@.len(),
    ensures
        v@ == s@.subrange(lo as int, hi as int),
{
    let mut v: Vec<T> = Vec::new();
    let mut i: usize = lo;
    while i < hi
        invariant
            lo <= i <= hi <= s@.len(),
            v@ == s@.subrange(lo as int, i as int),
        decreases hi - i,
    {
        v.push(s[i]);
        i = i + 1;
    }
    v
}

/// Horner evaluation of the polynomial with coefficients `coeffs` at `x`.
pub fn eval_polynomial<F: PrimeField>(coeffs: &[F], x: F) -> (r: F)
    ensures
        r.val() == poly_eval(F::modulus(), vals(coeffs@), x.val()),
{
    let n: usize = coeffs.len();
    let mut res: F = F::zero();
    let mut j: usize = n;
    assert(vals(coeffs@).subrange(n as int, n as int).len() == 0);
    while j > 0
        invariant
            j <= n,
            n == coeffs@.len(),
            res.val() == poly_eval(
                F::modulus(),
                vals(coeffs@).subrange(j as int, n as int),
                x.val(),
            ),
        decreases j,
    {
        j = j - 1;
        res = res.mul(&x).add(&coeffs[j]);
        proof {
            let cur = vals(coeffs@).subrange(j as int, n as int);
            assert(cur.skip(1) =~= vals(coeffs@).subrange(j + 1, n as int));
            assert(cur[0] == coeffs@[j as int].val());
        }
    }
    assert(vals(coeffs@).subrange(0, n as int) =~= vals(coeffs@));
    res
}

/// A polynomial by its coefficients, lowest degree first. Trailing zeros are allowed.
pub struct DensePolynomial<F: PrimeField> {
    pub coeffs: Vec<F>,
}

impl<F: PrimeField> DensePolynomial<F> {
    /// The values of the coefficients.
    pub open spec fn view(&self) -> Seq<nat> {
        vals(self.coeffs@)
    }

    /// The polynomial without coefficients.
    pub fn zero() -> (r: Self)
        ensures
            r@.len() == 0,
    {
        DensePolynomial { coeffs: Vec::new() }
    }

    pub fn from_coefficients_vec(coeffs: Vec<F>) -> (r: Self)
        ensures
            r.coeffs@ == coeffs@,
    {
        DensePolynomial { coeffs }
    }

    pub fn from_coefficients_slice(coeffs: &[F]) -> (r: Self)
        ensures
            r.coeffs@ == coeffs@,
    {
        let v = copy_range(coeffs, 0, coeffs.len());
        assert(coeffs@.subrange(0, coeffs@.len() as int) =~= coeffs@);
        DensePolynomial { coeffs: v }
    }

    /// Whether every coefficient is zero.
    pub fn is_zero(&self) -> (b: bool)
        ensures
            b == (forall|i: int| 0 <= i < self@.len() ==> self@[i] == 0),
    {
        let mut i: usize = 0;
        while i < self.coeffs.len()
            invariant
                i <= self.coeffs@.len(),
                forall|j: int| 0 <= j < i ==> self@[j] == 0,
            decreases self.coeffs@.len() - i,
        {
            if !self.coeffs[i].is_zero() {
                assert(self@[i as int] != 0);
                return false;
            }
            i = i + 1;
        }
        true
    }

    /// The value of the polynomial at `x`.
    pub fn evaluate(&self, x: F) -> (r: F)
        ensures
            r.val() == poly_eval(F::modulus(), self@, x.val()),
    {
        eval_polynomial(self.coeffs.as_slice(), x)
    }

    /// Adds `other` to the polynomial, coefficient by coefficient.
    pub fn add_assign(&mut self, other: &Self)
        ensures
            final(self)@ == poly_add(F::modulus(), old(self)@, other@),
    {
        let n: usize = other.coeffs.len();
        let ghost before = self.coeffs@;
        let mut i: usize = 0;
        while i < n
            invariant
                i <= n,
                n == other.coeffs@.len(),
                self.coeffs@.len() == if before.len() >= i {
                    before.len()
                } else {
                    i as nat
                },
                forall|j: int|
                    0 <= j < self.coeffs@.len() ==> (#[trigger] self.coeffs@[j]).val() == if j
                        < i && j < before.len() {
                        fadd(F::modulus(), before[j].val(), other.coeffs@[j].val())
                    } else if j < before.len() {
                        before[j].val()
                    } else {
                        other.coeffs@[j].val()
                    },
            decreases n - i,
        {
            if i < self.coeffs.len() {
                let s = self.coeffs[i].add(&other.coeffs[i]);
                self.coeffs.set(i, s);
            } else {
                self.coeffs.push(other.coeffs[i]);
            }
            i = i + 1;
        }
        assert(self@ =~= poly_add(F::modulus(), vals(before), other@));
    }
}

/// The coefficients of the difference of two polynomials; the shorter one is taken as
/// padded with zeros.
pub open spec fn poly_sub(p: nat, a: Seq<nat>, b: Seq<nat>) -> Seq<nat> {
    Seq::new(
        if a.len() >= b.len() {
            a.len()
        } else {
            b.len()
        },
        |i: int|
            fsub(
                p,
                if i < a.len() {
                    a[i]
                } else {
                    0
                },
                if i < b.len() {
                    b[i]
                } else {
                    0
                },
            ),
    )
}

/// The sum of the coefficients `c[j + n], c[j + 2n], ...`: coefficient `j` of the
/// quotient of the polynomial by `X^n - 1`.
pub open spec fn vanishing_quotient_coeff(p: nat, c: Seq<nat>, n: nat, j: nat) -> nat
    decreases c.len() - j,
{
    if n > 0 && j + n < c.len() {
        fadd(p, c[(j + n) as int], vanishing_quotient_coeff(p, c, n, j + n))
    } else {
        0
    }
}

/// The quotient of the polynomial by `X^n - 1`.
pub open spec fn vanishing_quotient(p: nat, c: Seq<nat>, n: nat) -> Seq<nat> {
    Seq::new(
        if c.len() >= n {
            (c.len() - n) as nat
        } else {
            0
        },
        |j: int| vanishing_quotient_coeff(p, c, n, j as nat),
    )
}

/// The remainder of the polynomial by `X^n - 1`: coefficient `j` is `c[j]` plus
/// coefficient `j` of the quotient.
pub open spec fn vanishing_remainder(p: nat, c: Seq<nat>, n: nat) -> Seq<nat> {
    Seq::new(
        if c.len() >= n {
            n
        } else {
            c.len()
        },
        |j: int| fadd(p, c[j], vanishing_quotient_coeff(p, c, n, j as nat)),
    )
}

/// The quotient of the polynomial by `X - a`: coefficient `j` is the value at `a` of
/// the polynomial with the coefficients from `j + 1` on.
pub open spec fn linear_quotient(p: nat, c: Seq<nat>, a: nat) -> Seq<nat> {
    Seq::new(
        if c.len() >= 1 {
            (c.len() - 1) as nat
        } else {
            0
        },
        |j: int| poly_eval(p, c.skip(j + 1), a),
    )
}

impl<F: PrimeField> DensePolynomial<F> {
    /// A copy of the polynomial.
    pub fn duplicate(&self) -> (r: Self)
        ensures
            r@ == self@,
            r.coeffs@ == self.coeffs@,
    {
        let v: Vec<F> = copy_range(self.coeffs.as_slice(), 0, self.coeffs.len());
        assert(v@ =~= self.coeffs@);
        DensePolynomial { coeffs: v }
    }

    /// The sum of two polynomials.
    pub fn plus(&self, other: &Self) -> (r: Self)
        ensures
            r@ == poly_add(F::modulus(), self@, other@),
    {
        let mut r = self.duplicate();
        r.add_assign(other);
        r
    }

    /// The difference of two polynomials.
    pub fn minus(&self, other: &Self) -> (r: Self)
        ensures
            r@ == poly_sub(F::modulus(), self@, other@),
    {
        let n: usize = if self.coeffs.len() >= other.coeffs.len() {
            self.coeffs.len()
        } else {
            other.coeffs.len()
        };
        let zero: F = F::zero();
        let mut out: Vec<F> = Vec::new();
        let mut i: usize = 0;
        while i < n
            invariant
                i <= n,
                zero.val() == 0,
                n == if self.coeffs@.len() >= other.coeffs@.len() {
                    self.coeffs@.len()
                } else {
                    other.coeffs@.len()
                },
                out@.len() == i,
                forall|j: int|
                    0 <= j < i ==> (#[trigger] out@[j]).val() == poly_sub(
                        F::modulus(),
                        self@,
                        other@,
                    )[j],
            decreases n - i,
        {
            let a: F = if i < self.coeffs.len() {
                self.coeffs[i]
            } else {
                zero
            };
            let b: F = if i < other.coeffs.len() {
                other.coeffs[i]
            } else {
                zero
            };
            out.push(a.sub(&b));
            i = i + 1;
        }
        assert(vals(out@) =~= poly_sub(F::modulus(), self@, other@));
        DensePolynomial { coeffs: out }
    }

    /// Quotient and remainder of the polynomial by `X^n - 1`.
    pub fn divide_by_vanishing_poly(&self, n: usize) -> (r: (Self, Self))
        requires
            n > 0,
        ensures
            r.0@ == vanishing_quotient(F::modulus(), self@, n as nat),
            r.1@ == vanishing_remainder(F::modulus(), self@, n as nat),
    {
        let len: usize = self.coeffs.len();
        let zero: F = F::zero();
        let qlen: usize = if len >= n {
            len - n
        } else {
            0
        };
        let mut q: Vec<F> = filled(zero, qlen);
        let mut j: usize = qlen;
        while j > 0
            invariant
                j <= qlen,
                n > 0,
                len == self.coeffs@.len(),
                qlen == if len >= n {
                    (len - n) as nat
                } else {
                    0
                },
                q@.len() == qlen,
                zero.val() == 0,
                forall|k: int|
                    j <= k < qlen ==> (#[trigger] q@[k]).val() == vanishing_quotient_coeff(
                        F::modulus(),
                        self@,
                        n as nat,
                        k as nat,
                    ),
            decreases j,
        {
            j = j - 1;
            let tail: F = if n < qlen - j {
                q[j + n]
            } else {
                zero
            };
            proof {
                assert(self@[(j + n) as int] == self.coeffs@[(j + n) as int].val());
                assert(tail.val() == vanishing_quotient_coeff(
                    F::modulus(),
                    self@,
                    n as nat,
                    (j + n) as nat,
                ));
            }
            let v: F = self.coeffs[j + n].add(&tail);
            q.set(j, v);
        }
        let rlen: usize = if len >= n {
            n
        } else {
            len
        };
        let mut r: Vec<F> = Vec::new();
        let mut i: usize = 0;
        while i < rlen
            invariant
                i <= rlen,
                n > 0,
                rlen <= len,
                rlen <= n,
                len == self.coeffs@.len(),
                q@.len() == qlen,
                qlen == if len >= n {
                    (len - n) as nat
                } else {
                    0
                },
                zero.val() == 0,
                forall|k: int|
                    0 <= k < qlen ==> (#[trigger] q@[k]).val() == vanishing_quotient_coeff(
                        F::modulus(),
                        self@,
                        n as nat,
                        k as nat,
                    ),
                r@.len() == i,
                forall|k: int|
                    0 <= k < i ==> (#[trigger] r@[k]).val() == fadd(
                        F::modulus(),
                        self@[k],
                        vanishing_quotient_coeff(F::modulus(), self@, n as nat, k as nat),
                    ),
            decreases rlen - i,
        {
            let tail: F = if i < qlen {
                q[i]
            } else {
                zero
            };
            r.push(self.coeffs[i].add(&tail));
            i = i + 1;
        }
        proof {
            assert(vals(q@) =~= vanishing_quotient(F::modulus(), self@, n as nat));
            assert(vals(r@) =~= vanishing_remainder(F::modulus(), self@, n as nat));
        }
        (DensePolynomial { coeffs: q }, DensePolynomial { coeffs: r })
    }

    /// Quotient and remainder of the polynomial by `X - a`. The remainder is the value
    /// of the polynomial at `a`.
    pub fn divide_by_linear(&self, a: F) -> (r: (Self, F))
        ensures
            r.0@ == linear_quotient(F::modulus(), self@, a.val()),
            r.1.val() == poly_eval(F::modulus(), self@, a.val()),
    {
        let len: usize = self.coeffs.len();
        let zero: F = F::zero();
        let qlen: usize = if len >= 1 {
            len - 1
        } else {
            0
        };
        let mut q: Vec<F> = filled(zero, qlen);
        let mut acc: F = zero;
        let mut j: usize = len;
        assert(self@.skip(len as int).len() == 0);
        while j > 0
            invariant
                j <= len,
                len == self.coeffs@.len(),
                qlen == if len >= 1 {
                    (len - 1) as nat
                } else {
                    0
                },
                q@.len() == qlen,
                acc.val() == poly_eval(F::modulus(), self@.skip(j as int), a.val()),
                forall|k: int|
                    j <= k < qlen ==> (#[trigger] q@[k]).val() == poly_eval(
                        F::modulus(),
                        self@.skip(k + 1),
                        a.val(),
                    ),
            decreases j,
        {
            j = j - 1;
            if j < qlen {
                q.set(j, acc);
            }
            acc = acc.mul(&a).add(&self.coeffs[j]);
            proof {
                let cur = self@.skip(j as int);
                assert(cur.skip(1) =~= self@.skip(j + 1));
                assert(cur[0] == self@[j as int]);
            }
        }
        proof {
            assert(self@.skip(0) =~= self@);
            assert(vals(q@) =~= linear_quotient(F::modulus(), self@, a.val()));
        }
        (DensePolynomial { coeffs: q }, acc)
    }
}

/// Scaling, shifting and chunk-wise evaluation of a polynomial.
pub trait Utils<F: PrimeField>: Sized {
    /// The values of the coefficients.
    spec fn coefficients(&self) -> Seq<nat>;

    /// The polynomial with every coefficient multiplied by `elm`.
    fn scale(&self, elm: F) -> (r: Self)
        ensures
            r.coefficients() == poly_scale(F::modulus(), self.coefficients(), elm.val()),
    ;

    /// The polynomial times `X^size`.
    fn shiftr(&self, size: usize) -> (r: Self)
        requires
            self.coefficients().len() + size <= usize::MAX,
        ensures
            r.coefficients() == poly_shiftr(self.coefficients(), size as nat),
    ;

    /// Horner evaluation of the polynomial with coefficients `coeffs` at `x`.
    fn eval_polynomial(coeffs: &[F], x: F) -> (r: F)
        ensures
            r.val() == poly_eval(F::modulus(), vals(coeffs@), x.val()),
    ;

    /// The values at `elm` of the chunks of `size` coefficients, in order.
    fn eval(&self, elm: F, size: usize) -> (r: Vec<F>)
        requires
            size > 0,
        ensures
            vals(r@) == chunk_evals(F::modulus(), self.coefficients(), elm.val(), size as nat),
    ;
}

impl<F: PrimeField> Utils<F> for DensePolynomial<F> {
    open spec fn coefficients(&self) -> Seq<nat> {
        self@
    }

    fn scale(&self, elm: F) -> (r: Self) {
        let n: usize = self.coeffs.len();
        let mut out: Vec<F> = Vec::new();
        let mut i: usize = 0;
        while i < n
            invariant
                i <= n,
                n == self.coeffs@.len(),
                out@.len() == i,
                forall|j: int|
                    0 <= j < i ==> (#[trigger] out@[j]).val() == fmul(
                        F::modulus(),
                        self.coeffs@[j].val(),
                        elm.val(),
                    ),
            decreases n - i,
        {
            out.push(self.coeffs[i].mul(&elm));
            i = i + 1;
        }
        assert(vals(out@) =~= poly_scale(F::modulus(), self@, elm.val()));
        DensePolynomial { coeffs: out }
    }

    fn shiftr(&self, size: usize) -> (r: Self) {
        let z: F = F::zero();
        let mut out: Vec<F> = filled(z, size);
        let n: usize = self.coeffs.len();
        let mut i: usize = 0;
        while i < n
            invariant
                i <= n,
                n == self.coeffs@.len(),
                n + size <= usize::MAX,
                z.val() == 0,
                out@ == Seq::new(size as nat, |j: int| z) + self.coeffs@.subrange(
                    0,
                    i as int,
                ),
            decreases n - i,
        {
            out.push(self.coeffs[i]);
            i = i + 1;
            assert(self.coeffs@.subrange(0, i as int) =~= self.coeffs@.subrange(0, i - 1).push(
                self.coeffs@[i - 1],
            ));
        }
        assert(self.coeffs@.subrange(0, n as int) =~= self.coeffs@);
        assert(vals(out@) =~= poly_shiftr(self@, size as nat));
        DensePolynomial { coeffs: out }
    }

    fn eval_polynomial(coeffs: &[F], x: F) -> (r: F) {
        eval_polynomial(coeffs, x)
    }

    fn eval(&self, elm: F, size: usize) -> (r: Vec<F>) {
        let n: usize = self.coeffs.len();
        let mut out: Vec<F> = Vec::new();
        let mut i: usize = 0;
        let mut k: usize = 0;
        while i < n
            invariant
                size > 0,
                n == self.coeffs@.len(),
                i <= n,
                i < n ==> i == k * size,
                i == n ==> k * size >= n,
                k <= chunk_count(n as nat, size as nat),
                out@.len() == k,
                forall|j: int|
                    0 <= j < k ==> (#[trigger] out@[j]).val() == poly_eval(
                        F::modulus(),
                        chunk(self@, size as nat, j as nat),
                        elm.val(),
                    ),
            decreases n - i,
        {
            let hi: usize = if size > n - i {
                n
            } else {
                i + size
            };
            proof {
                lemma_chunk_bounds(n as nat, size as nat, k as nat);
                assert(k <= k * size) by (nonlinear_arith)
                    requires
                        size > 0,
                ;
            }
            let piece = copy_range(self.coeffs.as_slice(), i, hi);
            let e = eval_polynomial(piece.as_slice(), elm);
            proof {
                assert(vals(piece@) =~= chunk(self@, size as nat, k as nat));
            }
            out.push(e);
            i = hi;
            k = k + 1;
        }
        proof {
            lemma_chunk_bounds(n as nat, size as nat, k as nat);
            assert(vals(out@) =~= chunk_evals(F::modulus(), self@, elm.val(), size as nat));
        }
        out
    }
}

/// Chunk `k` starts inside the coefficients exactly when `k` is below the chunk count.
pub proof fn lemma_chunk_bounds(len: nat, size: nat, k: nat)
    requires
        size > 0,
    ensures
        k * size < len <==> k < chunk_count(len, size),
        (k + 1) * size == k * size + size,
{
    assert((k + 1) * size == k * size + size) by (nonlinear_arith);
    let c = chunk_count(len, size);
    vstd::arithmetic::div_mod::lemma_fundamental_div_mod((len + size - 1) as int, size as int);
    vstd::arithmetic::div_mod::lemma_mod_bound((len + size - 1) as int, size as int);
    let r = (len + size - 1) as int % (size as int);
    assert(len + size - 1 == size * c + r);
    if k < c {
        assert(size * (k + 1) <= size * c) by (nonlinear_arith)
            requires
                k + 1 <= c,
                size > 0,
        ;
        assert(size * (k + 1) == k * size + size) by (nonlinear_arith);
    } else {
        assert(size * c <= size * k) by (nonlinear_arith)
            requires
                c <= k,
                size > 0,
        ;
        assert(size * k == k * size) by (nonlinear_arith);
    }
}

/// A value of a polynomial is below the modulus.
pub proof fn lemma_poly_eval_bound(p: nat, c: Seq<nat>, x: nat)
    requires
        p > 0,
    ensures
        poly_eval(p, c, x) < p,
{
    if c.len() > 0 {
        lemma_mod_bound((fmul(p, poly_eval(p, c.skip(1), x), x) + c[0]) as int, p as int);
    }
}

/// The value of a polynomial whose coefficients are those of `a` and then those of
/// `b`: the value of `a`, and the one of `b` times the power of the point that the
/// length of `a` gives.
pub proof fn lemma_poly_eval_concat(p: nat, a: Seq<nat>, b: Seq<nat>, x: nat)
    requires
        p > 1,
    ensures
        poly_eval(p, a + b, x) == fadd(
            p,
            poly_eval(p, a, x),
            fmul(p, fpow(p, x, a.len()), poly_eval(p, b, x)),
        ),
    decreases a.len(),
{
    let eb = poly_eval(p, b, x);
    lemma_poly_eval_bound(p, b, x);
    if a.len() == 0 {
        assert(a + b =~= b);
        lemma_small_mod(1, p);
        assert(1 * eb == eb) by (nonlinear_arith);
        lemma_small_mod(eb, p);
    } else {
        let rest = a.skip(1);
        assert((a + b).skip(1) =~= rest + b);
        assert((a + b)[0] == a[0]);
        lemma_poly_eval_concat(p, rest, b, x);
        let ea = poly_eval(p, rest, x);
        let xr = fpow(p, x, rest.len());
        let m = fmul(p, xr, eb);
        // the left side is ((ea + m) x + a0) mod p
        lemma_mul_mod_noop_left((ea + m) as int, x as int, p as int);
        lemma_add_mod_noop_left(((ea + m) * x) as int, a[0] as int, p as int);
        assert(poly_eval(p, a + b, x) == (((ea + m) * x + a[0]) % p) as nat);
        // in which m x is xr eb x mod p
        lemma_mul_mod_noop_left((xr * eb) as int, x as int, p as int);
        lemma_add_mod_noop_right((ea * x + a[0]) as int, (m * x) as int, p as int);
        lemma_add_mod_noop_right((ea * x + a[0]) as int, ((xr * eb) * x) as int, p as int);
        assert((ea + m) * x + a[0] == (ea * x + a[0]) + m * x) by (nonlinear_arith);
        // the right side is ((ea x + a0) + (x xr) eb) mod p
        lemma_add_mod_noop_left((ea * x) as int, a[0] as int, p as int);
        lemma_mul_mod_noop_left((x * xr) as int, eb as int, p as int);
        lemma_add_mod_noop((ea * x + a[0]) as int, ((x * xr) * eb) as int, p as int);
        assert(fpow(p, x, a.len()) == fmul(p, x, xr));
        assert((x * xr) * eb == (xr * eb) * x) by (nonlinear_arith);
    }
}

/// The value of a polynomial whose coefficients are all multiplied by `k` is `k`
/// times the value of the polynomial.
pub proof fn lemma_poly_eval_scale(p: nat, c: Seq<nat>, k: nat, x: nat)
    requires
        p > 0,
    ensures
        poly_eval(p, poly_scale(p, c, k), x) == fmul(p, poly_eval(p, c, x), k),
    decreases c.len(),
{
    if c.len() == 0 {
        assert(0 * k == 0) by (nonlinear_arith);
        lemma_small_mod(0, p);
    } else {
        let s = poly_scale(p, c, k);
        assert(s.skip(1) =~= poly_scale(p, c.skip(1), k));
        lemma_poly_eval_scale(p, c.skip(1), k, x);
        let e = poly_eval(p, c.skip(1), x);
        // the left side is ((e k) x + c0 k) mod p
        lemma_mul_mod_noop_left((e * k) as int, x as int, p as int);
        lemma_add_mod_noop(((e * k) * x) as int, (c[0] * k) as int, p as int);
        // the right side is ((e x + c0) k) mod p
        lemma_add_mod_noop_left((e * x) as int, c[0] as int, p as int);
        lemma_mul_mod_noop_left((e * x + c[0]) as int, k as int, p as int);
        assert((e * k) * x + c[0] * k == (e * x + c[0]) * k) by (nonlinear_arith);
    }
}

/// A polynomial is put together again from the values of its chunks: the values at
/// `x` of the chunks of `size` coefficients are the coefficients of a polynomial
/// whose value at `x^size` is the value of the polynomial at `x`.
pub proof fn lemma_chunks_recompose(p: nat, c: Seq<nat>, x: nat, size: nat)
    requires
        p > 1,
        size > 0,
    ensures
        poly_eval(p, chunk_evals(p, c, x, size), fpow(p, x, size)) == poly_eval(p, c, x),
    decreases c.len(),
{
    let xs = fpow(p, x, size);
    let ev = chunk_evals(p, c, x, size);
    if c.len() == 0 {
        assert(chunk_count(0, size) == 0) by {
            vstd::arithmetic::div_mod::lemma_basic_div((size - 1) as int, size as int);
        }
        assert(ev.len() == 0);
    } else if c.len() <= size {
        assert(chunk_count(c.len(), size) == 1) by {
            vstd::arithmetic::div_mod::lemma_fundamental_div_mod_converse(
                (c.len() + size - 1) as int,
                size as int,
                1,
                (c.len() - 1) as int,
            );
        }
        assert(1 * size == size) by (nonlinear_arith);
        assert(0 * size == 0) by (nonlinear_arith);
        assert(chunk(c, size, 0) =~= c);
        assert(ev.len() == 1);
        assert(ev[0] == poly_eval(p, c, x));
        assert(ev.skip(1).len() == 0);
        assert(poly_eval(p, ev.skip(1), xs) == 0);
        lemma_poly_eval_bound(p, c, x);
        assert(0 * xs == 0) by (nonlinear_arith);
        vstd::arithmetic::div_mod::lemma_small_mod(0, p);
        vstd::arithmetic::div_mod::lemma_small_mod(ev[0], p);
    } else {
        let a = c.take(size as int);
        let b = c.skip(size as int);
        assert(c =~= a + b);
        lemma_chunks_recompose(p, b, x, size);
        lemma_poly_eval_concat(p, a, b, x);
        let n = chunk_count(b.len(), size);
        assert(chunk_count(c.len(), size) == n + 1) by {
            vstd::arithmetic::div_mod::lemma_div_plus_one((b.len() + size - 1) as int, size as int);
        }
        assert(1 * size == size) by (nonlinear_arith);
        assert(0 * size == 0) by (nonlinear_arith);
        assert(chunk(c, size, 0) =~= a);
        assert forall|i: int| 0 <= i < n implies #[trigger] ev.skip(1)[i] == chunk_evals(
            p,
            b,
            x,
            size,
        )[i] by {
            assert((i + 1) * size == i * size + size) by (nonlinear_arith);
            assert((i + 2) * size == i * size + 2 * size) by (nonlinear_arith);
            assert(i * size >= 0) by (nonlinear_arith)
                requires
                    i >= 0,
            ;
            lemma_chunk_bounds(b.len(), size, i as nat);
            assert(chunk(c, size, (i + 1) as nat) =~= chunk(b, size, i as nat));
        }
        assert(ev.skip(1) =~= chunk_evals(p, b, x, size));
        assert(ev[0] == poly_eval(p, a, x));
        // both sides are the value of `a` plus `x^size` times the value of `b`
        crate::arith::lemma_fmul_comm(p, poly_eval(p, b, x), xs);
        assert(poly_eval(p, a, x) + fmul(p, xs, poly_eval(p, b, x)) == fmul(
            p,
            xs,
            poly_eval(p, b, x),
        ) + poly_eval(p, a, x));
    }
}

} // verus!
