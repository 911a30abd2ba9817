//! Sums of share matrices.  The law proved here is the heart of delta and
//! sigma reconciliation: when every ordered pair of distinct parties holds
//! two additive shares of the product of their secrets, the per-party
//! totals sum to the product of the two secret sums.

use vstd::arithmetic::mul::lemma_mul_is_distributive_add_other_way;
use vstd::prelude::*;

verus! {

/// The sum of a list of integers.
pub open spec fn sum_ints(s: Seq<int>) -> int
    decreases s.len(),
{
    if s.len() == 0 {
        0
    } else {
        sum_ints(s.drop_last()) + s.last()
    }
}

/// The sum of all entries of a matrix, row by row.
pub open spec fn msum(m: Seq<Seq<int>>) -> int
    decreases m.len(),
{
    if m.len() == 0 {
        0
    } else {
        msum(m.drop_last()) + sum_ints(m.last())
    }
}

/// Scaling every entry scales the sum.
pub proof fn lemma_sum_scale(c: int, s: Seq<int>)
    ensures
        sum_ints(Seq::new(s.len(), |l: int| c * s[l])) == c * sum_ints(s),
    decreases s.len(),
{
    let t = Seq::new(s.len(), |l: int| c * s[l]);
    if s.len() == 0 {
        assert(t =~= Seq::<int>::empty());
    } else {
        lemma_sum_scale(c, s.drop_last());
        assert(t.drop_last() =~= Seq::new(s.drop_last().len(), |l: int| c * s.drop_last()[l]));
        assert(t.last() == c * s.last());
        lemma_mul_is_distributive_add_other_way(c, sum_ints(s.drop_last()), s.last());
        assert(c * (sum_ints(s.drop_last()) + s.last()) == c * sum_ints(s.drop_last()) + c
            * s.last());
    }
}

/// Adding two lists entry by entry adds their sums.
pub proof fn lemma_sum_pointwise_add(u: Seq<int>, v: Seq<int>)
    requires
        u.len() == v.len(),
    ensures
        sum_ints(Seq::new(u.len(), |j: int| u[j] + v[j])) == sum_ints(u) + sum_ints(v),
    decreases u.len(),
{
    let t = Seq::new(u.len(), |j: int| u[j] + v[j]);
    if u.len() == 0 {
        assert(t =~= Seq::<int>::empty());
    } else {
        lemma_sum_pointwise_add(u.drop_last(), v.drop_last());
        assert(t.drop_last() =~= Seq::new(
            u.drop_last().len(),
            |j: int| u.drop_last()[j] + v.drop_last()[j],
        ));
        assert(t.last() == u.last() + v.last());
    }
}

/// Equal lists have equal sums; stated for convenience over constructions.
pub proof fn lemma_sum_congruence(u: Seq<int>, v: Seq<int>)
    requires
        u.len() == v.len(),
        forall|j: int| 0 <= j < u.len() ==> u[j] == v[j],
    ensures
        sum_ints(u) == sum_ints(v),
{
    assert(u =~= v);
}

/// Splitting the last column off a rectangular matrix: the total is the
/// total of the narrowed matrix plus the sum of the removed column.
pub proof fn lemma_msum_drop_col(rows: Seq<Seq<int>>, w: nat)
    requires
        forall|x: int| 0 <= x < rows.len() ==> (#[trigger] rows[x]).len() == w + 1,
    ensures
        msum(rows) == msum(Seq::new(rows.len(), |x: int| rows[x].drop_last())) + sum_ints(
            Seq::new(rows.len(), |x: int| rows[x].last()),
        ),
    decreases rows.len(),
{
    let narrowed = Seq::new(rows.len(), |x: int| rows[x].drop_last());
    let col = Seq::new(rows.len(), |x: int| rows[x].last());
    if rows.len() == 0 {
        assert(narrowed =~= Seq::<Seq<int>>::empty());
        assert(col =~= Seq::<int>::empty());
    } else {
        let head = rows.drop_last();
        lemma_msum_drop_col(head, w);
        assert(narrowed.drop_last() =~= Seq::new(head.len(), |x: int| head[x].drop_last()));
        assert(col.drop_last() =~= Seq::new(head.len(), |x: int| head[x].last()));
        assert(narrowed.last() == rows.last().drop_last());
        assert(col.last() == rows.last().last());
        assert(sum_ints(rows.last()) == sum_ints(rows.last().drop_last()) + rows.last().last());
    }
}

/// A square matrix whose symmetric entry pairs sum as those of another has
/// the same total as that other.
pub proof fn lemma_double_sum_sym(m: Seq<Seq<int>>, p: Seq<Seq<int>>, n: nat)
    requires
        m.len() == n,
        p.len() == n,
        forall|x: int| 0 <= x < n ==> (#[trigger] m[x]).len() == n,
        forall|x: int| 0 <= x < n ==> (#[trigger] p[x]).len() == n,
        forall|x: int, l: int|
            0 <= x < n && 0 <= l < n ==> #[trigger] (m[x][l] + m[l][x]) == p[x][l] + p[l][x],
    ensures
        msum(m) == msum(p),
    decreases n,
{
    if n == 0 {
    } else {
        let w = (n - 1) as nat;
        let mh = m.drop_last();
        let ph = p.drop_last();
        let ms = Seq::new(w, |x: int| mh[x].drop_last());
        let ps = Seq::new(w, |x: int| ph[x].drop_last());
        // Shrunk matrices satisfy the same symmetry requirement.
        assert(forall|x: int, l: int|
            0 <= x < w && 0 <= l < w ==> #[trigger] (ms[x][l] + ms[l][x]) == ps[x][l] + ps[l][x])
            by {
            assert(forall|x: int, l: int|
                0 <= x < w && 0 <= l < w ==> ms[x][l] == m[x][l] && ps[x][l] == p[x][l]);
        }
        lemma_double_sum_sym(ms, ps, w);
        // Peel the last column off the first n-1 rows.
        lemma_msum_drop_col(mh, w);
        lemma_msum_drop_col(ph, w);
        assert(Seq::new(mh.len(), |x: int| mh[x].drop_last()) =~= ms);
        assert(Seq::new(ph.len(), |x: int| ph[x].drop_last()) =~= ps);
        let mcol = Seq::new(w, |x: int| mh[x].last());
        let pcol = Seq::new(w, |x: int| ph[x].last());
        assert(Seq::new(mh.len(), |x: int| mh[x].last()) =~= mcol);
        assert(Seq::new(ph.len(), |x: int| ph[x].last()) =~= pcol);
        // The borders agree: pair each column entry with the matching
        // last-row entry and use the symmetry hypothesis.
        let mrow = m.last();
        let prow = p.last();
        let mrowh = Seq::new(w, |j: int| mrow[j]);
        let prowh = Seq::new(w, |j: int| prow[j]);
        assert(mrowh =~= mrow.drop_last());
        assert(prowh =~= prow.drop_last());
        lemma_sum_pointwise_add(mrowh, mcol);
        lemma_sum_pointwise_add(prowh, pcol);
        assert(Seq::new(w, |j: int| mrowh[j] + mcol[j]) =~= Seq::new(
            w,
            |j: int| m[n - 1][j] + m[j][n - 1],
        ));
        assert(Seq::new(w, |j: int| prowh[j] + pcol[j]) =~= Seq::new(
            w,
            |j: int| p[n - 1][j] + p[j][n - 1],
        ));
        lemma_sum_congruence(
            Seq::new(w, |j: int| m[n - 1][j] + m[j][n - 1]),
            Seq::new(w, |j: int| p[n - 1][j] + p[j][n - 1]),
        );
        // The corner entries agree by the diagonal case of the hypothesis.
        assert(m[n - 1][n - 1] + m[n - 1][n - 1] == p[n - 1][n - 1] + p[n - 1][n - 1]);
        assert(sum_ints(mrow) == sum_ints(mrow.drop_last()) + mrow.last());
        assert(sum_ints(prow) == sum_ints(prow.drop_last()) + prow.last());
        assert(mrow.last() == m[n - 1][n - 1]);
        assert(prow.last() == p[n - 1][n - 1]);
    }
}

/// The outer-product matrix of two lists.
pub open spec fn prod_matrix(k: Seq<int>, g: Seq<int>) -> Seq<Seq<int>> {
    Seq::new(k.len(), |x: int| Seq::new(g.len(), |l: int| k[x] * g[l]))
}

/// The total of the outer-product matrix is the product of the sums.
pub proof fn lemma_prod_matrix_sum(k: Seq<int>, g: Seq<int>)
    ensures
        msum(prod_matrix(k, g)) == sum_ints(k) * sum_ints(g),
    decreases k.len(),
{
    let p = prod_matrix(k, g);
    if k.len() == 0 {
        assert(p =~= Seq::<Seq<int>>::empty());
    } else {
        lemma_prod_matrix_sum(k.drop_last(), g);
        assert(p.drop_last() =~~= prod_matrix(k.drop_last(), g));
        assert(p.last() =~= Seq::new(g.len(), |l: int| k.last() * g[l]));
        lemma_sum_scale(k.last(), g);
        assert(sum_ints(p.last()) == k.last() * sum_ints(g));
        lemma_mul_is_distributive_add_other_way(
            sum_ints(g),
            sum_ints(k.drop_last()),
            k.last(),
        );
        assert((sum_ints(k.drop_last()) + k.last()) * sum_ints(g) == sum_ints(k.drop_last())
            * sum_ints(g) + k.last() * sum_ints(g));
        assert(sum_ints(k.drop_last()) * sum_ints(g) == sum_ints(g) * sum_ints(k.drop_last()))
            by (nonlinear_arith);
        assert(sum_ints(k) * sum_ints(g) == sum_ints(g) * sum_ints(k)) by (nonlinear_arith);
        assert(k.last() * sum_ints(g) == sum_ints(g) * k.last()) by (nonlinear_arith);
    }
}

/// Party `x`'s contributions: its two shares against every other party,
/// and its own product on the diagonal.
pub open spec fn delta_row(
    k: Seq<int>,
    g: Seq<int>,
    sa: Seq<Seq<int>>,
    sb: Seq<Seq<int>>,
    x: int,
) -> Seq<int> {
    Seq::new(
        k.len(),
        |l: int|
            if l == x {
                k[x] * g[x]
            } else {
                sa[x][l] + sb[x][l]
            },
    )
}

/// The per-party totals.
pub open spec fn deltas_of(k: Seq<int>, g: Seq<int>, sa: Seq<Seq<int>>, sb: Seq<Seq<int>>) -> Seq<
    int,
> {
    Seq::new(k.len(), |x: int| sum_ints(delta_row(k, g, sa, sb, x)))
}

/// The sum of per-row sums is the matrix total.
pub proof fn lemma_sum_of_row_sums(m: Seq<Seq<int>>)
    ensures
        sum_ints(Seq::new(m.len(), |x: int| sum_ints(m[x]))) == msum(m),
    decreases m.len(),
{
    let t = Seq::new(m.len(), |x: int| sum_ints(m[x]));
    if m.len() == 0 {
        assert(t =~= Seq::<int>::empty());
    } else {
        lemma_sum_of_row_sums(m.drop_last());
        assert(t.drop_last() =~= Seq::new(m.drop_last().len(), |x: int| sum_ints(m.drop_last()[x])));
        assert(t.last() == sum_ints(m.last()));
    }
}

/// Delta soundness.  Each party holds, for every other party, one share
/// from each of the two exchanges between them; when for every ordered
/// pair of distinct parties `x`, `l` the share `sa[x][l]` and the peer
/// share `sb[l][x]` sum to the product `k[x] * g[l]`, the per-party totals
/// sum to `(sum k) * (sum g)` exactly.  Applied to the nonce and blinding
/// scalars this is delta soundness; applied to the nonce and key shares it
/// is sigma soundness.
pub proof fn lemma_delta_soundness(k: Seq<int>, g: Seq<int>, sa: Seq<Seq<int>>, sb: Seq<Seq<int>>)
    requires
        g.len() == k.len(),
        sa.len() == k.len(),
        sb.len() == k.len(),
        forall|x: int| 0 <= x < k.len() ==> (#[trigger] sa[x]).len() == k.len(),
        forall|x: int| 0 <= x < k.len() ==> (#[trigger] sb[x]).len() == k.len(),
        forall|x: int, l: int|
            0 <= x < k.len() && 0 <= l < k.len() && x != l ==> #[trigger] (sa[x][l] + sb[l][x])
                == k[x] * g[l],
    ensures
        sum_ints(deltas_of(k, g, sa, sb)) == sum_ints(k) * sum_ints(g),
{
    let n = k.len();
    let m = Seq::new(n, |x: int| delta_row(k, g, sa, sb, x));
    let p = prod_matrix(k, g);
    assert(forall|x: int| 0 <= x < n ==> (#[trigger] m[x]).len() == n);
    assert(forall|x: int| 0 <= x < n ==> (#[trigger] p[x]).len() == n);
    assert forall|x: int, l: int|
        0 <= x < n && 0 <= l < n implies #[trigger] (m[x][l] + m[l][x]) == p[x][l] + p[l][x] by {
        if x != l {
            assert(sa[x][l] + sb[l][x] == k[x] * g[l]);
            assert(sa[l][x] + sb[x][l] == k[l] * g[x]);
            assert(m[x][l] == sa[x][l] + sb[x][l]);
            assert(m[l][x] == sa[l][x] + sb[l][x]);
            assert(p[x][l] == k[x] * g[l]);
            assert(p[l][x] == k[l] * g[x]);
        } else {
            assert(m[x][x] == k[x] * g[x]);
            assert(p[x][x] == k[x] * g[x]);
        }
    }
    lemma_double_sum_sym(m, p, n);
    lemma_sum_of_row_sums(m);
    assert(Seq::new(m.len(), |x: int| sum_ints(m[x])) =~= deltas_of(k, g, sa, sb));
    lemma_prod_matrix_sum(k, g);
}

} // verus!

use crate::scalar::{lemma_q_bounds, mod_q};

verus! {

/// Reducing each entry modulo the group order before summing does not
/// change the sum modulo the group order.
pub proof fn lemma_sum_mod_q(s: Seq<int>)
    ensures
        mod_q(sum_ints(Seq::new(s.len(), |x: int| mod_q(s[x])))) == mod_q(sum_ints(s)),
    decreases s.len(),
{
    lemma_q_bounds();
    let q = crate::scalar::q_value() as int;
    let t = Seq::new(s.len(), |x: int| mod_q(s[x]));
    if s.len() == 0 {
        assert(t =~= Seq::<int>::empty());
    } else {
        let sh = s.drop_last();
        lemma_sum_mod_q(sh);
        assert(t.drop_last() =~= Seq::new(sh.len(), |x: int| mod_q(sh[x])));
        assert(t.last() == mod_q(s.last()));
        let th = Seq::new(sh.len(), |x: int| mod_q(sh[x]));
        vstd::arithmetic::div_mod::lemma_add_mod_noop_right(sum_ints(th), s.last(), q);
        assert((sum_ints(th) + s.last() % q) % q == (sum_ints(th) + s.last()) % q);
        vstd::arithmetic::div_mod::lemma_add_mod_noop(sum_ints(th), s.last(), q);
        vstd::arithmetic::div_mod::lemma_add_mod_noop(sum_ints(sh), s.last(), q);
    }
}

} // verus!

verus! {

/// Replacing one entry changes the sum by the difference of the entries.
pub proof fn lemma_sum_update(s: Seq<int>, x: int, v: int)
    requires
        0 <= x < s.len(),
    ensures
        sum_ints(s.update(x, v)) == sum_ints(s) + v - s[x],
    decreases s.len(),
{
    let t = s.update(x, v);
    if x == s.len() - 1 {
        assert(t.drop_last() =~= s.drop_last());
        assert(t.last() == v);
    } else {
        assert(t.drop_last() =~= s.drop_last().update(x, v));
        assert(t.last() == s.last());
        lemma_sum_update(s.drop_last(), x, v);
    }
}

} // verus!
