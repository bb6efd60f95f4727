//! Theorems about the metrics, for numeric types whose operations obey the
//! algebraic laws named here.
//!
//! A metric is defined along a walk, and two computations of one metric may
//! walk the common features in different orders. Each theorem therefore
//! speaks of any two walks. The laws a theorem needs of the numeric type are
//! its hypotheses; nothing is assumed of a type beyond them.

use crate::metric::{
    centered_product_term, centered_square_term, common, cosine_along, either, euclidean_along,
    euclidean_term, is_walk, jaccard_distance_of, jaccard_index_of, lemma_empty_walk,
    manhattan_along, manhattan_term, mean_along, minkowski_along, minkowski_term, order_exponent,
    pearson_along, product_term, square_term, sum_along, value_term,
};
use crate::numeric::Real;
use vstd::prelude::*;

verus! {

/// Addition does not depend on the order of its operands.
pub open spec fn add_commutes<V: Real>() -> bool {
    forall|a: V, b: V| #[trigger] a.add_spec(b) == b.add_spec(a)
}

/// Addition does not depend on how a sum of three is grouped.
pub open spec fn add_associates<V: Real>() -> bool {
    forall|a: V, b: V, c: V| #[trigger] a.add_spec(b).add_spec(c) == a.add_spec(b.add_spec(c))
}

/// Multiplication does not depend on the order of its operands.
pub open spec fn mul_commutes<V: Real>() -> bool {
    forall|a: V, b: V| #[trigger] a.mul_spec(b) == b.mul_spec(a)
}

/// The magnitude of a difference does not depend on its direction.
pub open spec fn abs_of_difference_is_symmetric<V: Real>() -> bool {
    forall|a: V, b: V| #[trigger] a.sub_spec(b).abs_spec() == b.sub_spec(a).abs_spec()
}

/// The square of a difference does not depend on its direction.
pub open spec fn square_of_difference_is_symmetric<V: Real>() -> bool {
    forall|a: V, b: V| #[trigger] a.sub_spec(b).powi_spec(2) == b.sub_spec(a).powi_spec(2)
}

/// Taking `w[j]` out of a sum and adding its term last leaves the sum unchanged.
pub proof fn lemma_sum_move_last<V: Real>(w: Seq<u64>, j: int, term: spec_fn(u64) -> V)
    requires
        add_commutes::<V>(),
        add_associates::<V>(),
        0 <= j < w.len(),
    ensures
        sum_along(w, term) == sum_along(w.remove(j), term).add_spec(term(w[j])),
    decreases w.len(),
{
    if j == w.len() - 1 {
        assert(w.remove(j) =~= w.drop_last());
    } else {
        let front = w.drop_last();
        lemma_sum_move_last(front, j, term);
        assert(w.remove(j).drop_last() =~= front.remove(j));
        assert(w.remove(j).last() == w.last());
        let rest = sum_along(front.remove(j), term);
        let moved = term(w[j]);
        let last = term(w.last());
        assert(sum_along(w, term) == rest.add_spec(moved).add_spec(last));
        assert(sum_along(w.remove(j), term) == rest.add_spec(last));
        assert(rest.add_spec(moved).add_spec(last) == rest.add_spec(moved.add_spec(last)));
        assert(moved.add_spec(last) == last.add_spec(moved));
        assert(rest.add_spec(last).add_spec(moved) == rest.add_spec(last.add_spec(moved)));
    }
}

/// Two sequences that visit the same features, each once, give the same sum
/// of terms that agree on those features.
pub proof fn lemma_sum_any_order<V: Real>(
    w1: Seq<u64>,
    w2: Seq<u64>,
    f: spec_fn(u64) -> V,
    g: spec_fn(u64) -> V,
)
    requires
        add_commutes::<V>(),
        add_associates::<V>(),
        w1.no_duplicates(),
        w2.no_duplicates(),
        w1.to_set() == w2.to_set(),
        forall|k: u64| #[trigger] w1.contains(k) ==> f(k) == g(k),
    ensures
        sum_along(w1, f) == sum_along(w2, g),
    decreases w1.len(),
{
    w1.unique_seq_to_set();
    w2.unique_seq_to_set();
    if w1.len() > 0 {
        let k = w1.last();
        assert(w1.to_set().contains(k));
        assert(w2.to_set().contains(k));
        let j = choose|j: int| 0 <= j < w2.len() && w2[j] == k;
        let rest1 = w1.drop_last();
        let rest2 = w2.remove(j);
        assert forall|x: u64| rest1.to_set().contains(x) <==> rest2.to_set().contains(x) by {
            if rest1.to_set().contains(x) {
                let i = choose|i: int| 0 <= i < rest1.len() && rest1[i] == x;
                assert(w1[i] == x);
                assert(x != k);
                assert(w2.to_set().contains(x));
                let m = choose|m: int| 0 <= m < w2.len() && w2[m] == x;
                if m < j {
                    assert(rest2[m] == x);
                } else {
                    assert(rest2[m - 1] == x);
                }
            }
            if rest2.to_set().contains(x) {
                let m = choose|m: int| 0 <= m < rest2.len() && rest2[m] == x;
                if m < j {
                    assert(w2[m] == x);
                } else {
                    assert(w2[m + 1] == x);
                }
                assert(x != k);
                assert(w1.to_set().contains(x));
                let i = choose|i: int| 0 <= i < w1.len() && w1[i] == x;
                assert(rest1[i] == x);
            }
        }
        assert(rest1.to_set() =~= rest2.to_set());
        assert forall|x: u64| #[trigger] rest1.contains(x) implies f(x) == g(x) by {
            let i = choose|i: int| 0 <= i < rest1.len() && rest1[i] == x;
            assert(w1[i] == x);
            assert(w1.contains(x));
        }
        assert(w1.contains(k));
        lemma_sum_any_order(rest1, rest2, f, g);
        lemma_sum_move_last(w2, j, g);
    }
}

/// The order in which the common features are walked does not change the
/// Manhattan distance, and neither does exchanging the two records.
pub proof fn lemma_manhattan_symmetric<V: Real>(
    a: Map<u64, V>,
    b: Map<u64, V>,
    w1: Seq<u64>,
    w2: Seq<u64>,
)
    requires
        add_commutes::<V>(),
        add_associates::<V>(),
        abs_of_difference_is_symmetric::<V>(),
        is_walk(w1, a, b),
        is_walk(w2, b, a),
    ensures
        manhattan_along(a, b, w1) == manhattan_along(b, a, w2),
{
    lemma_walks_agree(a, b, w1, w2);
    assert forall|k: u64| #[trigger] w1.contains(k) implies manhattan_term(a, b)(k)
        == manhattan_term(b, a)(k) by {}
    lemma_sum_any_order(w1, w2, manhattan_term(a, b), manhattan_term(b, a));
}

/// The order in which the common features are walked does not change the
/// Euclidean distance, and neither does exchanging the two records.
pub proof fn lemma_euclidean_symmetric<V: Real>(
    a: Map<u64, V>,
    b: Map<u64, V>,
    w1: Seq<u64>,
    w2: Seq<u64>,
)
    requires
        add_commutes::<V>(),
        add_associates::<V>(),
        square_of_difference_is_symmetric::<V>(),
        is_walk(w1, a, b),
        is_walk(w2, b, a),
    ensures
        euclidean_along(a, b, w1) == euclidean_along(b, a, w2),
{
    lemma_walks_agree(a, b, w1, w2);
    assert forall|k: u64| #[trigger] w1.contains(k) implies euclidean_term(a, b)(k)
        == euclidean_term(b, a)(k) by {}
    lemma_sum_any_order(w1, w2, euclidean_term(a, b), euclidean_term(b, a));
}

/// The order in which the common features are walked does not change the
/// Minkowski distance of any order, and neither does exchanging the two records.
pub proof fn lemma_minkowski_symmetric<V: Real>(
    a: Map<u64, V>,
    b: Map<u64, V>,
    p: usize,
    w1: Seq<u64>,
    w2: Seq<u64>,
)
    requires
        add_commutes::<V>(),
        add_associates::<V>(),
        abs_of_difference_is_symmetric::<V>(),
        is_walk(w1, a, b),
        is_walk(w2, b, a),
    ensures
        minkowski_along(a, b, p, w1) == minkowski_along(b, a, p, w2),
{
    lemma_walks_agree(a, b, w1, w2);
    assert forall|k: u64| #[trigger] w1.contains(k) implies minkowski_term(a, b, p)(k)
        == minkowski_term(b, a, p)(k) by {}
    lemma_sum_any_order(w1, w2, minkowski_term(a, b, p), minkowski_term(b, a, p));
}

/// The order in which the common features are walked does not change the
/// cosine similarity, and neither does exchanging the two records.
pub proof fn lemma_cosine_symmetric<V: Real>(
    a: Map<u64, V>,
    b: Map<u64, V>,
    w1: Seq<u64>,
    w2: Seq<u64>,
)
    requires
        add_commutes::<V>(),
        add_associates::<V>(),
        mul_commutes::<V>(),
        is_walk(w1, a, b),
        is_walk(w2, b, a),
    ensures
        cosine_along(a, b, w1) == cosine_along(b, a, w2),
{
    lemma_walks_agree(a, b, w1, w2);
    assert forall|k: u64| #[trigger] w1.contains(k) implies product_term(a, b)(k) == product_term(
        b,
        a,
    )(k) by {}
    lemma_sum_any_order(w1, w2, product_term(a, b), product_term(b, a));
    lemma_sum_any_order(w1, w2, square_term(a), square_term(a));
    lemma_sum_any_order(w1, w2, square_term(b), square_term(b));
}

/// The order in which the common features are walked does not change the
/// Pearson correlation, and neither does exchanging the two records.
pub proof fn lemma_pearson_symmetric<V: Real>(
    a: Map<u64, V>,
    b: Map<u64, V>,
    w1: Seq<u64>,
    w2: Seq<u64>,
)
    requires
        add_commutes::<V>(),
        add_associates::<V>(),
        mul_commutes::<V>(),
        is_walk(w1, a, b),
        is_walk(w2, b, a),
    ensures
        pearson_along(a, b, w1) == pearson_along(b, a, w2),
{
    lemma_walks_agree(a, b, w1, w2);
    lemma_sum_any_order(w1, w2, value_term(a), value_term(a));
    lemma_sum_any_order(w1, w2, value_term(b), value_term(b));
    if w1.len() > 0 && w1.len() <= usize::MAX {
        if V::from_usize_spec(w1.len() as usize) is Some {
            let count = V::from_usize_spec(w1.len() as usize).unwrap();
            let ma = mean_along(a, w1, count);
            let mb = mean_along(b, w1, count);
            assert(ma == mean_along(a, w2, count));
            assert(mb == mean_along(b, w2, count));
            lemma_sum_any_order(w1, w2, centered_square_term(a, ma), centered_square_term(a, ma));
            lemma_sum_any_order(w1, w2, centered_square_term(b, mb), centered_square_term(b, mb));
            assert forall|k: u64| #[trigger] w1.contains(k) implies centered_product_term(
                a,
                b,
                ma,
                mb,
            )(k) == centered_product_term(b, a, mb, ma)(k) by {}
            lemma_sum_any_order(
                w1,
                w2,
                centered_product_term(a, b, ma, mb),
                centered_product_term(b, a, mb, ma),
            );
        }
    }
}

/// Exchanging the two records changes neither the Jaccard index nor the
/// Jaccard distance.
pub proof fn lemma_jaccard_symmetric<V: Real>(a: Map<u64, V>, b: Map<u64, V>)
    ensures
        jaccard_index_of::<V>(a, b) == jaccard_index_of::<V>(b, a),
        jaccard_distance_of::<V>(a, b) == jaccard_distance_of::<V>(b, a),
{
    assert(common(a, b) =~= common(b, a));
    assert(either(a, b) =~= either(b, a));
}

/// A value minus itself is zero.
pub open spec fn difference_of_equals_is_zero<V: Real>() -> bool {
    forall|x: V| #[trigger] x.sub_spec(x) == V::zero_spec()
}

/// Zero squared, zero plus zero and the square root of zero are zero.
pub open spec fn zero_is_preserved<V: Real>() -> bool {
    &&& V::zero_spec().powi_spec(2) == V::zero_spec()
    &&& V::zero_spec().add_spec(V::zero_spec()) == V::zero_spec()
    &&& V::zero_spec().sqrt_spec() == V::zero_spec()
}

/// The Euclidean distance from a record with an observed feature to itself is zero.
pub proof fn lemma_euclidean_self_is_zero<V: Real>(a: Map<u64, V>, w: Seq<u64>)
    requires
        difference_of_equals_is_zero::<V>(),
        zero_is_preserved::<V>(),
        is_walk(w, a, a),
        exists|k: u64| a.contains_key(k),
    ensures
        euclidean_along(a, a, w) == Some(V::zero_spec()),
{
    let k = choose|k: u64| a.contains_key(k);
    assert(common(a, a).contains(k));
    assert(w.to_set().contains(k));
    lemma_sum_of_zeros(w, euclidean_term(a, a));
}

/// A sum of terms that are all zero is zero.
pub proof fn lemma_sum_of_zeros<V: Real>(w: Seq<u64>, term: spec_fn(u64) -> V)
    requires
        V::zero_spec().add_spec(V::zero_spec()) == V::zero_spec(),
        forall|i: int| 0 <= i < w.len() ==> term(#[trigger] w[i]) == V::zero_spec(),
    ensures
        sum_along(w, term) == V::zero_spec(),
    decreases w.len(),
{
    if w.len() > 0 {
        assert(term(w[w.len() - 1]) == V::zero_spec());
        lemma_sum_of_zeros(w.drop_last(), term);
    }
}

/// The first power of a value is the value.
pub open spec fn first_power_is_identity<V: Real>() -> bool {
    forall|x: V| #[trigger] x.powi_spec(1) == x
}

/// The count one has the value one, and the root of order one of a value is the value.
pub open spec fn root_of_order_one_is_identity<V: Real>() -> bool {
    &&& V::from_usize_spec(1) == Some(V::one_spec())
    &&& forall|x: V| #[trigger] x.powf_spec(V::one_spec().div_spec(V::one_spec())) == x
}

/// The square of a magnitude is the square of the value.
pub open spec fn square_ignores_sign<V: Real>() -> bool {
    forall|x: V| #[trigger] x.abs_spec().powi_spec(2) == x.powi_spec(2)
}

/// The count two has a value, and the root of order two of a value is its square root.
pub open spec fn root_of_order_two_is_square_root<V: Real>() -> bool {
    V::from_usize_spec(2) matches Some(two) && forall|x: V| #[trigger]
        x.powf_spec(V::one_spec().div_spec(two)) == x.sqrt_spec()
}

/// The Minkowski distance of order one is the Manhattan distance.
pub proof fn lemma_minkowski_one_is_manhattan<V: Real>(
    a: Map<u64, V>,
    b: Map<u64, V>,
    w1: Seq<u64>,
    w2: Seq<u64>,
)
    requires
        add_commutes::<V>(),
        add_associates::<V>(),
        first_power_is_identity::<V>(),
        root_of_order_one_is_identity::<V>(),
        is_walk(w1, a, b),
        is_walk(w2, a, b),
    ensures
        minkowski_along(a, b, 1, w1) == manhattan_along(a, b, w2),
{
    w1.unique_seq_to_set();
    w2.unique_seq_to_set();
    assert(order_exponent(1) == 1);
    assert forall|k: u64| #[trigger] w1.contains(k) implies minkowski_term(a, b, 1)(k)
        == manhattan_term(a, b)(k) by {}
    lemma_sum_any_order(w1, w2, minkowski_term(a, b, 1), manhattan_term(a, b));
}

/// The Minkowski distance of order two is the Euclidean distance.
pub proof fn lemma_minkowski_two_is_euclidean<V: Real>(
    a: Map<u64, V>,
    b: Map<u64, V>,
    w1: Seq<u64>,
    w2: Seq<u64>,
)
    requires
        add_commutes::<V>(),
        add_associates::<V>(),
        square_ignores_sign::<V>(),
        root_of_order_two_is_square_root::<V>(),
        is_walk(w1, a, b),
        is_walk(w2, a, b),
    ensures
        minkowski_along(a, b, 2, w1) == euclidean_along(a, b, w2),
{
    w1.unique_seq_to_set();
    w2.unique_seq_to_set();
    assert(order_exponent(2) == 2);
    assert forall|k: u64| #[trigger] w1.contains(k) implies minkowski_term(a, b, 2)(k)
        == euclidean_term(a, b)(k) by {}
    lemma_sum_any_order(w1, w2, minkowski_term(a, b, 2), euclidean_term(a, b));
}

/// The values of the counts keep the order of the counts, zero has the value
/// zero, and no other count has.
pub open spec fn counts_are_ordered<V: Real>() -> bool {
    &&& V::from_usize_spec(0) == Some(V::zero_spec())
    &&& forall|n: usize| #[trigger] V::from_usize_spec(n) == Some(V::zero_spec()) ==> n == 0
    &&& forall|m: usize, n: usize|
        m <= n ==> match (#[trigger] V::from_usize_spec(m), #[trigger] V::from_usize_spec(n)) {
            (Some(x), Some(y)) => x.le_spec(y),
            _ => true,
        }
}

/// Dividing by a value above zero keeps the order; such a value divided by
/// itself is one, and zero divided by it is zero.
pub open spec fn division_keeps_order<V: Real>() -> bool {
    forall|d: V|
        V::zero_spec().le_spec(d) && d != V::zero_spec() ==> {
            &&& #[trigger] d.div_spec(d) == V::one_spec()
            &&& V::zero_spec().div_spec(d) == V::zero_spec()
            &&& forall|x: V, y: V| x.le_spec(y) ==> #[trigger] x.div_spec(d).le_spec(y.div_spec(d))
        }
}

/// Where the Jaccard index of two records is defined, it lies between zero and one.
pub proof fn lemma_jaccard_index_bounded<V: Real>(a: Map<u64, V>, b: Map<u64, V>)
    requires
        counts_are_ordered::<V>(),
        division_keeps_order::<V>(),
        a.dom().finite(),
        b.dom().finite(),
    ensures
        jaccard_index_of::<V>(a, b) matches Some(index) ==> V::zero_spec().le_spec(index)
            && index.le_spec(V::one_spec()),
{
    if jaccard_index_of::<V>(a, b) matches Some(index) {
        let part = common(a, b).len();
        let whole = either(a, b).len();
        vstd::set_lib::lemma_set_intersect_union_lens(a.dom(), b.dom());
        vstd::set_lib::lemma_len_subset(common(a, b), a.dom());
        vstd::set_lib::lemma_len_subset(a.dom(), either(a, b));
        assert(part <= whole);
        let x = V::from_usize_spec(part as usize).unwrap();
        let d = V::from_usize_spec(whole as usize).unwrap();
        let zero = V::from_usize_spec(0).unwrap();
        assert(0 <= part as usize);
        assert(zero.le_spec(x));
        assert(x.le_spec(d));
        assert(zero.le_spec(d));
        assert(d != V::zero_spec());
        assert(d.div_spec(d) == V::one_spec());
        assert(zero.div_spec(d).le_spec(x.div_spec(d)));
        assert(x.div_spec(d).le_spec(d.div_spec(d)));
    }
}

/// The Jaccard distance is defined exactly where the Jaccard index is, and
/// is one minus the index.
pub proof fn lemma_jaccard_distance_is_one_minus_index<V: Real>(a: Map<u64, V>, b: Map<u64, V>)
    ensures
        jaccard_distance_of::<V>(a, b) is Some <==> jaccard_index_of::<V>(a, b) is Some,
        jaccard_index_of::<V>(a, b) matches Some(index) ==> jaccard_distance_of::<V>(a, b) == Some(
            V::one_spec().sub_spec(index),
        ),
{
}

/// Two records without a common feature have no Manhattan, Euclidean or
/// Minkowski distance, no cosine similarity and no Pearson correlation.
pub proof fn lemma_undefined_without_common_feature<V: Real>(
    a: Map<u64, V>,
    b: Map<u64, V>,
    p: usize,
    w: Seq<u64>,
)
    requires
        is_walk(w, a, b),
        a.dom().disjoint(b.dom()),
    ensures
        manhattan_along(a, b, w) is None,
        euclidean_along(a, b, w) is None,
        minkowski_along(a, b, p, w) is None,
        cosine_along(a, b, w) is None,
        pearson_along(a, b, w) is None,
{
    lemma_empty_walk(w, a, b);
}

/// A walk of `a` and `b` and a walk of `b` and `a` visit the same features,
/// and as many.
pub proof fn lemma_walks_agree<V>(a: Map<u64, V>, b: Map<u64, V>, w1: Seq<u64>, w2: Seq<u64>)
    requires
        is_walk(w1, a, b),
        is_walk(w2, b, a),
    ensures
        w1.to_set() == w2.to_set(),
        w1.len() == w2.len(),
{
    assert(common(a, b) =~= common(b, a));
    w1.unique_seq_to_set();
    w2.unique_seq_to_set();
}

} // verus!
