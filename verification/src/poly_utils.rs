//! Polynomial utilities over the protocol field: Horner evaluation,
//! coefficient-side folding (what the prover sends onward), the
//! evaluation-side folding kernel (what the verifier recomputes from
//! opened cosets), reduction modulo `x^n - 1`, and an FFT that evaluates
//! a polynomial over a power-of-two subgroup. Each function is proved
//! equal to its spec-level definition.

use vstd::prelude::*;
use vstd::arithmetic::power2::pow2;
use crate::field::{
    P, INV_TWO, add64, sub64, mul64, pow64, inv64, pow_f, mul_f, f_add, f_sub, f_mul, f_pow, f_inv,
    lemma_mul_f_comm, lemma_mul_f_assoc,
};

verus! {

/// All entries are field elements.
pub open spec fn all_in_field(s: Seq<u64>) -> bool {
    forall|i: int| 0 <= i < s.len() ==> s[i] < P
}

/// Checks that every entry is a field element.
pub fn all_in_field_exec(v: &Vec<u64>) -> (r: bool)
    ensures
        r == all_in_field(v@),
{
    let mut i: usize = 0;
    while i < v.len()
        invariant
            i <= v@.len(),
            forall|j: int| 0 <= j < i ==> v@[j] < P,
        decreases v@.len() - i,
    {
        if v[i] >= P {
            return false;
        }
        i = i + 1;
    }
    true
}

/// Evaluation of a coefficient vector (lowest degree first) at `x`.
pub open spec fn eval_poly(c: Seq<u64>, x: u64) -> u64
    decreases c.len(),
{
    if c.len() == 0 {
        0
    } else {
        add64(c[0], mul64(x, eval_poly(c.drop_first(), x)))
    }
}

/// Horner evaluation of `v[from..to]` at `x`.
pub fn eval_range(v: &Vec<u64>, from: usize, to: usize, x: u64) -> (r: u64)
    requires
        from <= to <= v@.len(),
        all_in_field(v@),
        x < P,
    ensures
        r == eval_poly(v@.subrange(from as int, to as int), x),
        r < P,
{
    let mut acc: u64 = 0;
    let mut i: usize = to;
    proof {
        assert(v@.subrange(to as int, to as int) =~= Seq::<u64>::empty());
    }
    while i > from
        invariant
            from <= i <= to <= v@.len(),
            all_in_field(v@),
            x < P,
            acc < P,
            acc == eval_poly(v@.subrange(i as int, to as int), x),
        decreases i,
    {
        i = i - 1;
        proof {
            assert(v@.subrange(i as int, to as int)[0] == v@[i as int]);
            assert(v@.subrange(i as int, to as int).drop_first() =~= v@.subrange(
                i as int + 1,
                to as int,
            ));
        }
        acc = f_add(v[i], f_mul(x, acc));
    }
    acc
}

/// The sum `c[0] + c[1] r + ... + c[k-1] r^(k-1)`: what one folding
/// coset of coefficients contributes at challenge `r`.
pub open spec fn block_fold(c: Seq<u64>, r: u64) -> u64
    decreases c.len(),
{
    if c.len() == 0 {
        0
    } else {
        add64(block_fold(c.drop_last(), r), mul64(pow64(r, (c.len() - 1) as nat), c.last()))
    }
}

/// The coefficients of the fold of `c` by challenge `r` with coset size
/// `k`: block `m` of `k` consecutive coefficients collapses to one.
pub open spec fn fold_coeffs_spec(c: Seq<u64>, r: u64, k: int) -> Seq<u64> {
    Seq::new((c.len() as int / k) as nat, |m: int| block_fold(c.subrange(m * k, (m + 1) * k), r))
}

fn block_fold_naive(v: &Vec<u64>, from: usize, k: usize, r: u64) -> (out: u64)
    requires
        from + k <= v@.len(),
        all_in_field(v@),
        r < P,
    ensures
        out == block_fold(v@.subrange(from as int, (from + k) as int), r),
        out < P,
{
    let vn = v.len();
    let mut acc: u64 = 0;
    let mut j: usize = 0;
    proof {
        assert(v@.subrange(from as int, from as int) =~= Seq::<u64>::empty());
    }
    while j < k
        invariant
            j <= k,
            from + k <= v@.len(),
            vn == v@.len(),
            all_in_field(v@),
            r < P,
            acc < P,
            acc == block_fold(v@.subrange(from as int, (from + j) as int), r),
        decreases k - j,
    {
        let rj = f_pow(r, j as u64);
        proof {
            assert(v@.subrange(from as int, (from + j + 1) as int).drop_last() =~= v@.subrange(
                from as int,
                (from + j) as int,
            ));
            assert(v@.subrange(from as int, (from + j + 1) as int).last() == v@[from + j]);
        }
        acc = f_add(acc, f_mul(rj, v[from + j]));
        j = j + 1;
    }
    acc
}

fn block_fold_with_powers(v: &Vec<u64>, from: usize, k: usize, r: u64, rpow: &Vec<u64>) -> (out:
    u64)
    requires
        from + k <= v@.len(),
        k <= rpow@.len(),
        all_in_field(v@),
        r < P,
        forall|j: int| 0 <= j < rpow@.len() ==> rpow@[j] == pow64(r, j as nat),
    ensures
        out == block_fold(v@.subrange(from as int, (from + k) as int), r),
        out < P,
{
    let vn = v.len();
    let mut acc: u64 = 0;
    let mut j: usize = 0;
    proof {
        assert(v@.subrange(from as int, from as int) =~= Seq::<u64>::empty());
    }
    while j < k
        invariant
            j <= k,
            from + k <= v@.len(),
            vn == v@.len(),
            k <= rpow@.len(),
            all_in_field(v@),
            r < P,
            acc < P,
            forall|j2: int| 0 <= j2 < rpow@.len() ==> rpow@[j2] == pow64(r, j2 as nat),
            acc == block_fold(v@.subrange(from as int, (from + j) as int), r),
        decreases k - j,
    {
        proof {
            assert(v@.subrange(from as int, (from + j + 1) as int).drop_last() =~= v@.subrange(
                from as int,
                (from + j) as int,
            ));
            assert(v@.subrange(from as int, (from + j + 1) as int).last() == v@[from + j]);
            crate::field::lemma_pow_f_in_field(r as int, j as nat);
        }
        acc = f_add(acc, f_mul(rpow[j], v[from + j]));
        j = j + 1;
    }
    acc
}

/// Folds a coefficient vector by challenge `r`, coset size `k`. When
/// `precompute` is set the powers of `r` are tabulated once and reused
/// (the prover-helps strategy); otherwise each power is recomputed (the
/// naive strategy). Both strategies meet the same contract: the fold is
/// strategy-independent.
pub fn fold_coeffs(v: &Vec<u64>, r: u64, k: usize, precompute: bool) -> (out: Vec<u64>)
    requires
        k >= 1,
        v@.len() as int % (k as int) == 0,
        all_in_field(v@),
        r < P,
    ensures
        out@ == fold_coeffs_spec(v@, r, k as int),
        all_in_field(out@),
        out@.len() == v@.len() as int / (k as int),
{
    let n = v.len();
    let blocks = n / k;
    let mut rpow: Vec<u64> = Vec::new();
    if precompute {
        let mut cur: u64 = 1;
        let mut j: usize = 0;
        proof {
            vstd::arithmetic::div_mod::lemma_small_mod(1nat, P as nat);
        }
        while j < k
            invariant
                j <= k,
                r < P,
                cur < P,
                cur == pow64(r, j as nat),
                rpow@.len() == j,
                forall|j2: int| 0 <= j2 < j ==> rpow@[j2] == pow64(r, j2 as nat),
            decreases k - j,
        {
            rpow.push(cur);
            proof {
                lemma_mul_f_comm(r as int, pow_f(r as int, j as nat));
            }
            cur = f_mul(cur, r);
            j = j + 1;
        }
    }
    let mut out: Vec<u64> = Vec::new();
    let mut m: usize = 0;
    while m < blocks
        invariant
            m <= blocks,
            n == v@.len(),
            blocks == v@.len() as int / k as int,
            v@.len() as int % (k as int) == 0,
            k >= 1,
            all_in_field(v@),
            r < P,
            out@.len() == m,
            precompute ==> rpow@.len() == k,
            forall|j2: int| 0 <= j2 < rpow@.len() ==> rpow@[j2] == pow64(r, j2 as nat),
            forall|m2: int|
                0 <= m2 < m ==> out@[m2] == block_fold(
                    v@.subrange(m2 * k, (m2 + 1) * k),
                    r,
                ) && out@[m2] < P,
        decreases blocks - m,
    {
        proof {
            assert((m + 1) * k <= blocks * k == v@.len()) by (nonlinear_arith)
                requires
                    m < blocks,
                    k >= 1,
                    blocks == v@.len() as int / k as int,
                    v@.len() as int % (k as int) == 0,
            ;
            assert(m * k + k == (m + 1) * k) by (nonlinear_arith);
        }
        let b = if precompute {
            block_fold_with_powers(v, m * k, k, r, &rpow)
        } else {
            block_fold_naive(v, m * k, k, r)
        };
        out.push(b);
        m = m + 1;
    }
    proof {
        assert(out@ =~= fold_coeffs_spec(v@, r, k as int));
    }
    out
}

/// One pairing step of the evaluation-side fold: from the values of a
/// polynomial at `y` and `-y`, the value of the next (half-degree)
/// polynomial at `y^2`, combined with challenge `r`.
pub open spec fn fold_step(a: u64, b: u64, y: u64, r: u64) -> u64 {
    mul64(INV_TWO, add64(add64(a, b), mul64(r, mul64(sub64(a, b), inv64(y)))))
}

/// The evaluation-side fold of a full coset: pair opposite points, halve,
/// square the challenge, repeat down to a single value.
pub open spec fn fold_evals_spec(vals: Seq<u64>, pts: Seq<u64>, r: u64) -> u64
    decreases vals.len(),
{
    if vals.len() <= 1 {
        if vals.len() == 1 {
            vals[0]
        } else {
            0
        }
    } else {
        let h = vals.len() as int / 2;
        let nv = Seq::new(h as nat, |t: int| fold_step(vals[t], vals[t + h], pts[t], r));
        let np = Seq::new(h as nat, |t: int| mul64(pts[t], pts[t]));
        fold_evals_spec(nv, np, mul64(r, r))
    }
}

/// Folds an opened coset of evaluations by challenge `r`. `pts` are the
/// coset's domain points, in the same order as the values.
pub fn fold_evals(vals: &Vec<u64>, pts: &Vec<u64>, r: u64) -> (out: u64)
    requires
        vals@.len() == pts@.len(),
        vals@.len() >= 1,
        crate::merkle::is_pow2(vals@.len() as int),
        all_in_field(vals@),
        all_in_field(pts@),
        r < P,
    ensures
        out == fold_evals_spec(vals@, pts@, r),
        out < P,
{
    let mut cur_vals: Vec<u64> = Vec::new();
    let mut cur_pts: Vec<u64> = Vec::new();
    crate::codec::extend_u64s(&mut cur_vals, vals);
    crate::codec::extend_u64s(&mut cur_pts, pts);
    let mut c: u64 = r;
    proof {
        assert(cur_vals@ =~= vals@);
        assert(cur_pts@ =~= pts@);
    }
    while cur_vals.len() > 1
        invariant
            cur_vals@.len() == cur_pts@.len(),
            cur_vals@.len() >= 1,
            crate::merkle::is_pow2(cur_vals@.len() as int),
            all_in_field(cur_vals@),
            all_in_field(cur_pts@),
            c < P,
            fold_evals_spec(cur_vals@, cur_pts@, c) == fold_evals_spec(vals@, pts@, r),
        decreases cur_vals@.len(),
    {
        let n = cur_vals.len();
        let h = n / 2;
        proof {
            assert(n % 2 == 0 && n / 2 >= 1);
        }
        let mut nv: Vec<u64> = Vec::new();
        let mut np: Vec<u64> = Vec::new();
        let mut t: usize = 0;
        while t < h
            invariant
                t <= h,
                h == cur_vals@.len() as int / 2,
                h >= 1,
                n == cur_vals@.len(),
                2 * h == cur_vals@.len(),
                cur_vals@.len() == cur_pts@.len(),
                all_in_field(cur_vals@),
                all_in_field(cur_pts@),
                c < P,
                nv@.len() == t,
                np@.len() == t,
                forall|t2: int|
                    0 <= t2 < t ==> nv@[t2] == fold_step(
                        cur_vals@[t2],
                        cur_vals@[t2 + h],
                        cur_pts@[t2],
                        c,
                    ) && nv@[t2] < P,
                forall|t2: int|
                    0 <= t2 < t ==> np@[t2] == mul64(cur_pts@[t2], cur_pts@[t2]) && np@[t2] < P,
            decreases h - t,
        {
            let a = cur_vals[t];
            let b = cur_vals[t + h];
            let y = cur_pts[t];
            let num = f_add(f_add(a, b), f_mul(c, f_mul(f_sub(a, b), f_inv(y))));
            nv.push(f_mul(INV_TWO, num));
            np.push(f_mul(y, y));
            t = t + 1;
        }
        proof {
            let ghost gh = cur_vals@.len() as int / 2;
            assert(nv@ =~= Seq::new(gh as nat, |t2: int| fold_step(
                cur_vals@[t2],
                cur_vals@[t2 + gh],
                cur_pts@[t2],
                c,
            )));
            assert(np@ =~= Seq::new(gh as nat, |t2: int| mul64(cur_pts@[t2], cur_pts@[t2])));
        }
        cur_vals = nv;
        cur_pts = np;
        c = f_mul(c, c);
    }
    cur_vals[0]
}

/// Reduction of a coefficient vector modulo `x^n - 1`: coefficient `i`
/// of the result gathers every input coefficient whose index is `i`
/// modulo `n`. Evaluations on a domain of order `n` are unchanged.
pub open spec fn wrap_val(c: Seq<u64>, i: int, n: int) -> u64
    decreases c.len() + n - i when 0 <= i && n >= 1

{
    if i >= c.len() {
        0
    } else {
        add64(c[i], wrap_val(c, i + n, n))
    }
}

pub open spec fn wrap_coeffs_spec(c: Seq<u64>, n: int) -> Seq<u64> {
    Seq::new(n as nat, |i: int| wrap_val(c, i, n))
}

fn wrap_val_exec(c: &Vec<u64>, i: usize, n: usize) -> (r: u64)
    requires
        n >= 1,
        i <= c@.len() + n,
        c@.len() + n <= usize::MAX,
        all_in_field(c@),
    ensures
        r == wrap_val(c@, i as int, n as int),
        r < P,
    decreases c@.len() + n - i,
{
    if i >= c.len() {
        0
    } else {
        let rest = wrap_val_exec(c, i + n, n);
        f_add(c[i], rest)
    }
}


/// Reduces `c` modulo `x^n - 1`.
pub fn wrap_coeffs(c: &Vec<u64>, n: usize) -> (out: Vec<u64>)
    requires
        n >= 1,
        c@.len() + n <= usize::MAX,
        all_in_field(c@),
    ensures
        out@ == wrap_coeffs_spec(c@, n as int),
        out@.len() == n,
        all_in_field(out@),
{
    let mut out: Vec<u64> = Vec::new();
    let mut i: usize = 0;
    while i < n
        invariant
            i <= n,
            n >= 1,
            c@.len() + n <= usize::MAX,
            all_in_field(c@),
            out@.len() == i,
            forall|j: int| 0 <= j < i ==> out@[j] == wrap_val(c@, j, n as int) && out@[j] < P,
        decreases n - i,
    {
        out.push(wrap_val_exec(c, i, n));
        i = i + 1;
    }
    proof {
        assert(out@ =~= wrap_coeffs_spec(c@, n as int));
    }
    out
}

pub open spec fn evens(c: Seq<u64>) -> Seq<u64> {
    Seq::new((c.len() / 2) as nat, |i: int| c[2 * i])
}

pub open spec fn odds(c: Seq<u64>) -> Seq<u64> {
    Seq::new((c.len() / 2) as nat, |i: int| c[2 * i + 1])
}

/// The evaluations of `c` on the subgroup generated by `w`, of order
/// `c.len()`: position `p` holds the value at `w^p`, by the standard
/// even/odd radix-two recursion.
pub open spec fn fft_spec(c: Seq<u64>, w: u64) -> Seq<u64>
    decreases c.len(),
{
    if c.len() <= 1 {
        c
    } else {
        let h = c.len() as int / 2;
        let e = fft_spec(evens(c), mul64(w, w));
        let o = fft_spec(odds(c), mul64(w, w));
        Seq::new(c.len(), |p: int| add64(e[p % h], mul64(pow64(w, p as nat), o[p % h])))
    }
}

/// Evaluates the coefficient vector on the subgroup generated by `w`.
pub fn fft(c: &Vec<u64>, w: u64) -> (out: Vec<u64>)
    requires
        c@.len() >= 1,
        crate::merkle::is_pow2(c@.len() as int),
        all_in_field(c@),
        w < P,
    ensures
        out@ == fft_spec(c@, w),
        out@.len() == c@.len(),
        all_in_field(out@),
    decreases c@.len(),
{
    let n = c.len();
    if n == 1 {
        let mut out: Vec<u64> = Vec::new();
        out.push(c[0]);
        proof {
            assert(out@ =~= fft_spec(c@, w));
        }
        return out;
    }
    let h = n / 2;
    proof {
        assert(n % 2 == 0 && h >= 1);
    }
    let mut ev: Vec<u64> = Vec::new();
    let mut od: Vec<u64> = Vec::new();
    let mut i: usize = 0;
    while i < h
        invariant
            i <= h,
            n == c@.len(),
            2 * h == c@.len(),
            all_in_field(c@),
            ev@.len() == i,
            od@.len() == i,
            forall|j: int| 0 <= j < i ==> ev@[j] == c@[2 * j],
            forall|j: int| 0 <= j < i ==> od@[j] == c@[2 * j + 1],
        decreases h - i,
    {
        ev.push(c[2 * i]);
        od.push(c[2 * i + 1]);
        i = i + 1;
    }
    proof {
        assert(ev@ =~= evens(c@));
        assert(od@ =~= odds(c@));
        assert(crate::merkle::is_pow2(h as int));
    }
    let w2 = f_mul(w, w);
    let e = fft(&ev, w2);
    let o = fft(&od, w2);
    let mut out: Vec<u64> = Vec::new();
    let mut wp: u64 = 1;
    let mut p: usize = 0;
    proof {
        vstd::arithmetic::div_mod::lemma_small_mod(1nat, P as nat);
    }
    while p < n
        invariant
            p <= n,
            2 * h == n == c@.len(),
            h >= 1,
            w < P,
            wp < P,
            wp == pow64(w, p as nat),
            all_in_field(e@),
            all_in_field(o@),
            e@.len() == h,
            o@.len() == h,
            e@ == fft_spec(evens(c@), mul64(w, w)),
            o@ == fft_spec(odds(c@), mul64(w, w)),
            out@.len() == p,
            forall|q: int|
                0 <= q < p ==> out@[q] == add64(
                    e@[q % (h as int)],
                    mul64(pow64(w, q as nat), o@[q % (h as int)]),
                ) && out@[q] < P,
        decreases n - p,
    {
        let idx = if p < h {
            p
        } else {
            p - h
        };
        proof {
            if p < h {
                vstd::arithmetic::div_mod::lemma_small_mod(p as nat, h as nat);
            } else {
                vstd::arithmetic::div_mod::lemma_mod_add_multiples_vanish(
                    p as int - h as int,
                    h as int,
                );
                vstd::arithmetic::div_mod::lemma_small_mod((p - h) as nat, h as nat);
            }
            assert(idx as int == p as int % (h as int));
        }
        let val = f_add(e[idx], f_mul(wp, o[idx]));
        out.push(val);
        proof {
            lemma_mul_f_comm(w as int, pow_f(w as int, p as nat));
        }
        wp = f_mul(wp, w);
        p = p + 1;
    }
    proof {
        assert(out@ =~= fft_spec(c@, w));
    }
    out
}

/// The points of folding coset `idx` inside a domain: base point times
/// successive powers of the coset generator.
pub open spec fn coset_points_spec(x0: u64, eta: u64, k: int) -> Seq<u64> {
    Seq::new(k as nat, |t: int| mul64(x0, pow64(eta, t as nat)))
}

/// Tabulates the points of one folding coset.
pub fn coset_points(x0: u64, eta: u64, k: usize) -> (out: Vec<u64>)
    requires
        x0 < P,
        eta < P,
    ensures
        out@ == coset_points_spec(x0, eta, k as int),
        all_in_field(out@),
        out@.len() == k,
{
    let mut out: Vec<u64> = Vec::new();
    let mut cur: u64 = x0;
    let mut t: usize = 0;
    proof {
        vstd::arithmetic::div_mod::lemma_small_mod(1nat, P as nat);
        vstd::arithmetic::div_mod::lemma_small_mod(x0 as nat, P as nat);
        assert(x0 as int * 1 == x0 as int);
        assert(mul64(x0, pow64(eta, 0)) == x0);
    }
    while t < k
        invariant
            t <= k,
            x0 < P,
            eta < P,
            cur < P,
            cur == mul64(x0, pow64(eta, t as nat)),
            out@.len() == t,
            forall|t2: int|
                0 <= t2 < t ==> out@[t2] == mul64(x0, pow64(eta, t2 as nat)) && out@[t2] < P,
        decreases k - t,
    {
        out.push(cur);
        proof {
            lemma_mul_f_assoc(x0 as int, pow_f(eta as int, t as nat), eta as int);
            lemma_mul_f_comm(pow_f(eta as int, t as nat), eta as int);
            crate::field::lemma_pow_f_in_field(eta as int, t as nat);
            vstd::arithmetic::div_mod::lemma_mul_mod_noop_right(
                x0 as int,
                pow_f(eta as int, t as nat) * eta as int,
                P as int,
            );
            vstd::arithmetic::div_mod::lemma_mul_mod_noop_right(
                x0 as int,
                eta as int * pow_f(eta as int, t as nat),
                P as int,
            );
        }
        cur = f_mul(cur, eta);
        t = t + 1;
    }
    proof {
        assert(out@ =~= coset_points_spec(x0, eta, k as int));
    }
    out
}

/// `2^e` as a machine word.
pub fn pow2_u64(e: u64) -> (r: u64)
    requires
        e <= 63,
    ensures
        r as nat == pow2(e as nat),
        r >= 1,
{
    let mut r: u64 = 1;
    let mut i: u64 = 0;
    proof {
        vstd::arithmetic::power2::lemma2_to64();
    }
    while i < e
        invariant
            i <= e <= 63,
            r as nat == pow2(i as nat),
            r >= 1,
        decreases e - i,
    {
        proof {
            vstd::arithmetic::power2::lemma_pow2_unfold((i + 1) as nat);
            vstd::arithmetic::power2::lemma_pow2_strictly_increases(i as nat, 63);
            vstd::arithmetic::power2::lemma2_to64();
            vstd::arithmetic::power2::lemma2_to64_rest();
        }
        r = r * 2;
        i = i + 1;
    }
    r
}

/// Powers of two are accepted by the structural power-of-two test.
pub proof fn lemma_pow2_is_pow2(e: nat)
    ensures
        crate::merkle::is_pow2(pow2(e) as int),
    decreases e,
{
    vstd::arithmetic::power2::lemma_pow2_pos(e);
    if e == 0 {
        vstd::arithmetic::power2::lemma2_to64();
    } else {
        lemma_pow2_is_pow2((e - 1) as nat);
        vstd::arithmetic::power2::lemma_pow2_unfold(e);
    }
}

} // verus!
