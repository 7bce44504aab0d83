//! Linearisation of multidimensional bin indices.
//!
//! A grid with dimension lengths `(L0, .., Ln)` stores its bins in one flat
//! vector; the multi-index `(i0, .., in)` maps to
//! `sum over d of i_d * L0 * .. * L_{d-1}` (the lowest dimension varies
//! fastest). `flat_index` computes that map, `expand_index` inverts it, and
//! the lemmas below show the map is a bijection between the grid's
//! multi-indices and `[0, L0 * .. * Ln)`.

use vstd::prelude::*;

verus! {

/// Product of the first `d` dimension lengths.
pub open spec fn spec_prefix_product(lengths: Seq<usize>, d: int) -> nat
    decreases d,
{
    if d <= 0 {
        1
    } else {
        spec_prefix_product(lengths, d - 1) * (lengths[d - 1] as nat)
    }
}

/// The flat index of a multidimensional index: sum over all dimensions `d`
/// of `indeces[d] * L0 * .. * L_{d-1}`.
pub open spec fn spec_flat_index(indeces: Seq<usize>, lengths: Seq<usize>) -> nat
    decreases indeces.len(),
{
    if indeces.len() == 0 {
        0
    } else {
        spec_flat_index(indeces.drop_last(), lengths)
            + (indeces.last() as nat) * spec_prefix_product(lengths, indeces.len() - 1)
    }
}

/// The same sum taken from dimension `d` upward; used to reason about
/// `expand_index`, which fills the high dimensions first.
pub open spec fn spec_flat_suffix(indeces: Seq<usize>, lengths: Seq<usize>, d: int) -> nat
    decreases indeces.len() - d,
{
    if d < 0 || d >= indeces.len() {
        0
    } else {
        (indeces[d] as nat) * spec_prefix_product(lengths, d)
            + spec_flat_suffix(indeces, lengths, d + 1)
    }
}

/// All multi-index entries lie inside their dimension's length.
pub open spec fn index_in_bounds(indeces: Seq<usize>, lengths: Seq<usize>) -> bool {
    &&& indeces.len() == lengths.len()
    &&& forall|d: int| 0 <= d < indeces.len() ==> indeces[d] < lengths[d]
}

proof fn lemma_prefix_product_unfold(lengths: Seq<usize>, d: int)
    requires
        d >= 1,
    ensures
        spec_prefix_product(lengths, d)
            == spec_prefix_product(lengths, d - 1) * (lengths[d - 1] as nat),
{
}

/// A prefix product of positive lengths is positive.
proof fn lemma_prefix_product_pos(lengths: Seq<usize>, d: int)
    requires
        forall|k: int| 0 <= k < d ==> lengths[k] >= 1,
    ensures
        spec_prefix_product(lengths, d) >= 1,
    decreases d,
{
    if d > 0 {
        lemma_prefix_product_pos(lengths, d - 1);
        assert(spec_prefix_product(lengths, d - 1) * (lengths[d - 1] as nat) >= 1)
            by (nonlinear_arith)
            requires
                spec_prefix_product(lengths, d - 1) >= 1,
                lengths[d - 1] >= 1,
        ;
    }
}

/// A positive product forces every factor to be positive.
proof fn lemma_prefix_product_pos_factors(lengths: Seq<usize>, d: int)
    requires
        spec_prefix_product(lengths, d) >= 1,
    ensures
        forall|k: int| 0 <= k < d ==> lengths[k] >= 1,
    decreases d,
{
    if d > 0 {
        assert(spec_prefix_product(lengths, d - 1) >= 1 && lengths[d - 1] >= 1)
            by (nonlinear_arith)
            requires
                spec_prefix_product(lengths, d - 1) * (lengths[d - 1] as nat) >= 1,
        ;
        lemma_prefix_product_pos_factors(lengths, d - 1);
    }
}

/// Prefix products grow (weakly) with the number of factors.
proof fn lemma_prefix_product_monotone(lengths: Seq<usize>, d1: int, d2: int)
    requires
        0 <= d1 <= d2,
        forall|k: int| 0 <= k < d2 ==> lengths[k] >= 1,
    ensures
        spec_prefix_product(lengths, d1) <= spec_prefix_product(lengths, d2),
    decreases d2 - d1,
{
    if d1 < d2 {
        lemma_prefix_product_monotone(lengths, d1, d2 - 1);
        assert(spec_prefix_product(lengths, d2 - 1)
            <= spec_prefix_product(lengths, d2 - 1) * (lengths[d2 - 1] as nat))
            by (nonlinear_arith)
            requires
                lengths[d2 - 1] >= 1,
        ;
    }
}

/// An in-bounds multi-index has a flat index below the full product.
proof fn lemma_flat_index_bound(indeces: Seq<usize>, lengths: Seq<usize>)
    requires
        indeces.len() <= lengths.len(),
        forall|d: int| 0 <= d < indeces.len() ==> indeces[d] < lengths[d],
    ensures
        spec_flat_index(indeces, lengths) < spec_prefix_product(lengths, indeces.len() as int),
    decreases indeces.len(),
{
    let n = indeces.len() as int;
    if n == 0 {
    } else {
        lemma_flat_index_bound(indeces.drop_last(), lengths);
        let p = spec_prefix_product(lengths, n - 1);
        assert((indeces.last() as nat) * p <= (lengths[n - 1] - 1) * p) by (nonlinear_arith)
            requires
                indeces.last() < lengths[n - 1],
                p >= 0,
        ;
        assert((lengths[n - 1] - 1) * p + p == (lengths[n - 1] as nat) * p) by (nonlinear_arith)
            requires
                lengths[n - 1] >= 1,
        ;
        lemma_prefix_product_unfold(lengths, n);
    }
}

/// The top-down recursion of `spec_flat_index` and the bottom-up recursion of
/// `spec_flat_suffix` compute the same sum.
proof fn lemma_flat_suffix_drop_last(indeces: Seq<usize>, lengths: Seq<usize>, d: int)
    requires
        0 <= d <= indeces.len() - 1,
    ensures
        spec_flat_suffix(indeces, lengths, d)
            == spec_flat_suffix(indeces.drop_last(), lengths, d)
                + (indeces.last() as nat) * spec_prefix_product(lengths, indeces.len() - 1),
    decreases indeces.len() - d,
{
    if d == indeces.len() - 1 {
        assert(spec_flat_suffix(indeces.drop_last(), lengths, d) == 0);
        assert(spec_flat_suffix(indeces, lengths, d + 1) == 0);
    } else {
        lemma_flat_suffix_drop_last(indeces, lengths, d + 1);
        assert(indeces.drop_last()[d] == indeces[d]);
    }
}

proof fn lemma_flat_index_eq_suffix(indeces: Seq<usize>, lengths: Seq<usize>)
    ensures
        spec_flat_index(indeces, lengths) == spec_flat_suffix(indeces, lengths, 0),
    decreases indeces.len(),
{
    if indeces.len() > 0 {
        lemma_flat_index_eq_suffix(indeces.drop_last(), lengths);
        lemma_flat_suffix_drop_last(indeces, lengths, 0);
    }
}

/// Transforms a multidimensional index into a one-dimensional index.
/// Example for 3 dimensions with lengths (l_N, l_M, l_O) and index
/// (i_N, i_M, i_O): idx = i_N + l_N*i_M + l_N*l_M*i_O.
pub fn flat_index(indeces: &[usize], lengths: &[usize]) -> (r: usize)
    requires
        index_in_bounds(indeces@, lengths@),
        spec_prefix_product(lengths@, lengths@.len() as int) <= usize::MAX,
    ensures
        r == spec_flat_index(indeces@, lengths@),
        r < spec_prefix_product(lengths@, lengths@.len() as int),
{
    let n = indeces.len();
    let mut acc: usize = 0;
    let mut prod: usize = 1;
    let mut d: usize = 0;
    while d < n
        invariant
            n == indeces@.len() == lengths@.len(),
            index_in_bounds(indeces@, lengths@),
            spec_prefix_product(lengths@, n as int) <= usize::MAX,
            0 <= d <= n,
            prod == spec_prefix_product(lengths@, d as int),
            acc == spec_flat_index(indeces@.take(d as int), lengths@),
        decreases n - d,
    {
        proof {
            assert(forall|k: int| 0 <= k < n ==> lengths@[k] >= 1);
            assert(indeces@.take(d as int + 1).drop_last() =~= indeces@.take(d as int));
            assert(indeces@.take(d as int + 1).last() == indeces@[d as int]);
            lemma_flat_index_bound(indeces@.take(d as int + 1), lengths@);
            lemma_prefix_product_monotone(lengths@, d as int + 1, n as int);
            lemma_prefix_product_unfold(lengths@, d as int + 1);
            assert(spec_flat_index(indeces@.take(d as int + 1), lengths@)
                == acc + (indeces@[d as int] as nat) * spec_prefix_product(lengths@, d as int));
        }
        acc = acc + indeces[d] * prod;
        prod = prod * lengths[d];
        d = d + 1;
    }
    proof {
        assert(indeces@.take(n as int) =~= indeces@);
        lemma_flat_index_bound(indeces@, lengths@);
    }
    acc
}

/// Recovers the multidimensional index of a flat bin index: the inverse of
/// `flat_index`, filling the highest dimension first by division with the
/// prefix products.
pub fn expand_index(bin: usize, lengths: &[usize]) -> (r: Vec<usize>)
    requires
        lengths@.len() >= 1,
        bin < spec_prefix_product(lengths@, lengths@.len() as int),
        spec_prefix_product(lengths@, lengths@.len() as int) <= usize::MAX,
    ensures
        index_in_bounds(r@, lengths@),
        spec_flat_index(r@, lengths@) == bin,
{
    let n = lengths.len();
    proof {
        lemma_prefix_product_pos_factors(lengths@, n as int);
    }
    let mut tmp: usize = bin;
    let mut idx: Vec<usize> = Vec::new();
    let mut k: usize = 0;
    while k < n
        invariant
            idx@.len() == k <= n,
            forall|j: int| 0 <= j < k ==> idx@[j] == 0,
        decreases n - k,
    {
        idx.push(0);
        k = k + 1;
    }
    let mut dimen: usize = n - 1;
    while dimen >= 1
        invariant
            n == lengths@.len() >= 1,
            0 <= dimen <= n - 1,
            idx@.len() == n,
            forall|k: int| 0 <= k < n ==> lengths@[k] >= 1,
            spec_prefix_product(lengths@, n as int) <= usize::MAX,
            forall|j: int| dimen < j < n ==> idx@[j] < lengths@[j],
            tmp < spec_prefix_product(lengths@, dimen as int + 1),
            bin == tmp + spec_flat_suffix(idx@, lengths@, dimen as int + 1),
        decreases dimen,
    {
        let ghost pre_idx = idx@;
        let ghost tmp_old = tmp as nat;
        proof {
            lemma_prefix_product_monotone(lengths@, dimen as int, n as int);
        }
        let denom = prefix_product(lengths, dimen);
        proof {
            lemma_prefix_product_pos(lengths@, dimen as int);
            lemma_prefix_product_unfold(lengths@, dimen as int + 1);
            assert(tmp < denom * (lengths@[dimen as int] as nat));
            assert(tmp / denom < lengths@[dimen as int] && tmp % denom < denom
                && tmp == denom * (tmp / denom) + tmp % denom) by (nonlinear_arith)
                requires
                    denom >= 1,
                    tmp < denom * (lengths@[dimen as int] as nat),
            ;
        }
        let q = tmp / denom;
        idx.set(dimen, q);
        tmp = tmp % denom;
        proof {
            assert(tmp_old == denom * q + tmp);
            assert(idx@[dimen as int] == q);
            assert(spec_flat_suffix(idx@, lengths@, dimen as int + 1)
                == spec_flat_suffix(pre_idx, lengths@, dimen as int + 1)) by {
                lemma_flat_suffix_same(pre_idx, idx@, lengths@, dimen as int + 1);
            }
            assert(bin == tmp_old + spec_flat_suffix(pre_idx, lengths@, dimen as int + 1));
            assert(spec_flat_suffix(idx@, lengths@, dimen as int)
                == (idx@[dimen as int] as nat) * spec_prefix_product(lengths@, dimen as int)
                    + spec_flat_suffix(idx@, lengths@, dimen as int + 1));
            assert((q as nat) * spec_prefix_product(lengths@, dimen as int) == denom * q);
            assert(bin == tmp + spec_flat_suffix(idx@, lengths@, dimen as int));
        }
        dimen = dimen - 1;
    }
    let ghost pre_idx = idx@;
    proof {
        lemma_prefix_product_unfold(lengths@, 1);
        assert(spec_prefix_product(lengths@, 0) == 1);
        assert(tmp < lengths@[0]);
    }
    idx.set(0, tmp);
    proof {
        assert(spec_flat_suffix(idx@, lengths@, 1) == spec_flat_suffix(pre_idx, lengths@, 1)) by {
            lemma_flat_suffix_same(pre_idx, idx@, lengths@, 1);
        }
        assert(spec_flat_suffix(idx@, lengths@, 0)
            == (idx@[0] as nat) * spec_prefix_product(lengths@, 0)
                + spec_flat_suffix(idx@, lengths@, 1));
        lemma_flat_index_eq_suffix(idx@, lengths@);
    }
    idx
}

/// Two digits with the same weighted sum agree digit by digit: the uniqueness
/// of quotient and remainder, stated for one mixed-radix position.
proof fn lemma_digit_unique(a: nat, x: nat, b: nat, y: nat, p: nat)
    requires
        a < p,
        b < p,
        a + x * p == b + y * p,
    ensures
        x == y,
        a == b,
{
    assert(x == y) by (nonlinear_arith)
        requires
            a < p,
            b < p,
            a + x * p == b + y * p,
    ;
}

proof fn lemma_flat_index_injective_upto(
    i: Seq<usize>,
    j: Seq<usize>,
    lengths: Seq<usize>,
    n: int,
)
    requires
        i.len() == n,
        j.len() == n,
        0 <= n <= lengths.len(),
        forall|d: int| 0 <= d < n ==> i[d] < lengths[d],
        forall|d: int| 0 <= d < n ==> j[d] < lengths[d],
        spec_flat_index(i, lengths) == spec_flat_index(j, lengths),
    ensures
        i =~= j,
    decreases n,
{
    if n > 0 {
        lemma_flat_index_bound(i.drop_last(), lengths);
        lemma_flat_index_bound(j.drop_last(), lengths);
        lemma_digit_unique(
            spec_flat_index(i.drop_last(), lengths),
            i.last() as nat,
            spec_flat_index(j.drop_last(), lengths),
            j.last() as nat,
            spec_prefix_product(lengths, n - 1),
        );
        lemma_flat_index_injective_upto(i.drop_last(), j.drop_last(), lengths, n - 1);
        assert(i =~= i.drop_last().push(i.last()));
        assert(j =~= j.drop_last().push(j.last()));
    }
}

/// The linearisation is injective on in-bounds multi-indices: two distinct
/// grid cells never share a flat index. Together with `flat_index`'s bound
/// and `expand_index`'s postconditions this makes the map a bijection
/// between the grid and `[0, L0 * .. * Ln)`.
pub proof fn lemma_flat_index_injective(i: Seq<usize>, j: Seq<usize>, lengths: Seq<usize>)
    requires
        index_in_bounds(i, lengths),
        index_in_bounds(j, lengths),
        spec_flat_index(i, lengths) == spec_flat_index(j, lengths),
    ensures
        i =~= j,
{
    lemma_flat_index_injective_upto(i, j, lengths, i.len() as int);
}

/// The suffix sum from `d` only reads entries at `d` and above.
proof fn lemma_flat_suffix_same(s1: Seq<usize>, s2: Seq<usize>, lengths: Seq<usize>, d: int)
    requires
        s1.len() == s2.len(),
        forall|j: int| d <= j < s1.len() ==> s1[j] == s2[j],
    ensures
        spec_flat_suffix(s1, lengths, d) == spec_flat_suffix(s2, lengths, d),
    decreases s1.len() - d,
{
    if 0 <= d < s1.len() {
        lemma_flat_suffix_same(s1, s2, lengths, d + 1);
    }
}

/// Product of the first `d` dimension lengths.
fn prefix_product(lengths: &[usize], d: usize) -> (r: usize)
    requires
        d <= lengths@.len(),
        forall|k: int| 0 <= k < d ==> lengths@[k] >= 1,
        spec_prefix_product(lengths@, d as int) <= usize::MAX,
    ensures
        r == spec_prefix_product(lengths@, d as int),
{
    let mut r: usize = 1;
    let mut k: usize = 0;
    while k < d
        invariant
            0 <= k <= d <= lengths@.len(),
            forall|j: int| 0 <= j < d ==> lengths@[j] >= 1,
            spec_prefix_product(lengths@, d as int) <= usize::MAX,
            r == spec_prefix_product(lengths@, k as int),
        decreases d - k,
    {
        proof {
            lemma_prefix_product_monotone(lengths@, k as int + 1, d as int);
            lemma_prefix_product_unfold(lengths@, k as int + 1);
        }
        r = r * lengths[k];
        k = k + 1;
    }
    r
}

} // verus!
