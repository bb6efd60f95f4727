//! What each metric denotes, as mathematics over the views of two records.
//!
//! A record is viewed as a map from feature identifiers to values. Every
//! metric is restricted to the features both maps hold. Values are combined
//! only through the operations of [`Real`], for which no algebraic law is
//! assumed here, so a sum may depend on the order of its terms: each metric is
//! therefore defined along a *walk*, a sequence that visits every common
//! feature exactly once.

use crate::numeric::Real;
use vstd::prelude::*;

verus! {

/// The features both maps have observed.
pub open spec fn common<V>(a: Map<u64, V>, b: Map<u64, V>) -> Set<u64> {
    a.dom().intersect(b.dom())
}

/// `w` visits every common feature of `a` and `b` exactly once.
pub open spec fn is_walk<V>(w: Seq<u64>, a: Map<u64, V>, b: Map<u64, V>) -> bool {
    &&& w.no_duplicates()
    &&& w.to_set() == common(a, b)
}

/// Every feature of `w` is observed in both maps.
pub open spec fn within_common<V>(w: Seq<u64>, a: Map<u64, V>, b: Map<u64, V>) -> bool {
    forall|i: int| 0 <= i < w.len() ==> common(a, b).contains(#[trigger] w[i])
}

/// The sum of `term` over `w`, from the left, starting at zero.
pub open spec fn sum_along<V: Real>(w: Seq<u64>, term: spec_fn(u64) -> V) -> V
    decreases w.len(),
{
    if w.len() == 0 {
        V::zero_spec()
    } else {
        sum_along(w.drop_last(), term).add_spec(term(w.last()))
    }
}

/// What an accumulator holds after the terms of `w`: nothing where `w` is
/// empty, their sum elsewhere. The first term seeds the accumulator, so that
/// a sum that is zero and the absence of any term are told apart.
pub open spec fn accumulated<V: Real>(w: Seq<u64>, term: spec_fn(u64) -> V) -> Option<V> {
    if w.len() == 0 {
        None
    } else {
        Some(sum_along(w, term))
    }
}

/// The contribution of feature `k` to the Manhattan distance: `|b[k] - a[k]|`.
pub open spec fn manhattan_term<V: Real>(a: Map<u64, V>, b: Map<u64, V>) -> spec_fn(u64) -> V {
    |k: u64| b[k].sub_spec(a[k]).abs_spec()
}

/// The Manhattan distance accumulated along `w`; undefined on an empty walk.
pub open spec fn manhattan_along<V: Real>(a: Map<u64, V>, b: Map<u64, V>, w: Seq<u64>) -> Option<
    V,
> {
    accumulated(w, manhattan_term(a, b))
}

/// The contribution of feature `k` to the squared Euclidean distance: `(b[k] - a[k])^2`.
pub open spec fn euclidean_term<V: Real>(a: Map<u64, V>, b: Map<u64, V>) -> spec_fn(u64) -> V {
    |k: u64| b[k].sub_spec(a[k]).powi_spec(2)
}

/// The Euclidean distance accumulated along `w`; undefined on an empty walk.
pub open spec fn euclidean_along<V: Real>(a: Map<u64, V>, b: Map<u64, V>, w: Seq<u64>) -> Option<
    V,
> {
    match accumulated(w, euclidean_term(a, b)) {
        Some(sum) => Some(sum.sqrt_spec()),
        None => None,
    }
}

/// The exponent handed to the integer power for order `p`: the low 32 bits of `p`, signed.
pub open spec fn order_exponent(p: usize) -> i32 {
    p as i32
}

/// The contribution of feature `k` to the Minkowski distance of order `p`: `|b[k] - a[k]|^p`.
pub open spec fn minkowski_term<V: Real>(a: Map<u64, V>, b: Map<u64, V>, p: usize) -> spec_fn(
    u64,
) -> V {
    |k: u64| b[k].sub_spec(a[k]).abs_spec().powi_spec(order_exponent(p))
}

/// The Minkowski distance of order `p` accumulated along `w`: the sum raised to
/// the power `1/p`. Undefined on an empty walk, and where `p` has no value in `V`.
pub open spec fn minkowski_along<V: Real>(
    a: Map<u64, V>,
    b: Map<u64, V>,
    p: usize,
    w: Seq<u64>,
) -> Option<V> {
    match V::from_usize_spec(p) {
        Some(order) => match accumulated(w, minkowski_term(a, b, p)) {
            Some(sum) => Some(sum.powf_spec(V::one_spec().div_spec(order))),
            None => None,
        },
        None => None,
    }
}

/// The value of feature `k` in `a`.
pub open spec fn value_term<V: Real>(a: Map<u64, V>) -> spec_fn(u64) -> V {
    |k: u64| a[k]
}

/// The square of the value of feature `k` in `a`.
pub open spec fn square_term<V: Real>(a: Map<u64, V>) -> spec_fn(u64) -> V {
    |k: u64| a[k].powi_spec(2)
}

/// The product of the two values of feature `k`.
pub open spec fn product_term<V: Real>(a: Map<u64, V>, b: Map<u64, V>) -> spec_fn(u64) -> V {
    |k: u64| a[k].mul_spec(b[k])
}

/// The cosine similarity accumulated along `w`: the sum of the products over
/// the square root of the product of the two sums of squares. Undefined on an
/// empty walk.
pub open spec fn cosine_along<V: Real>(a: Map<u64, V>, b: Map<u64, V>, w: Seq<u64>) -> Option<V> {
    match (
        accumulated(w, square_term(a)),
        accumulated(w, square_term(b)),
        accumulated(w, product_term(a, b)),
    ) {
        (Some(norm_a), Some(norm_b), Some(dot)) => Some(
            dot.div_spec(norm_a.mul_spec(norm_b).sqrt_spec()),
        ),
        _ => None,
    }
}

/// The mean of `a` over `w`, where `count` stands for the length of `w`.
pub open spec fn mean_along<V: Real>(a: Map<u64, V>, w: Seq<u64>, count: V) -> V {
    sum_along(w, value_term(a)).div_spec(count)
}

/// The product of the two deviations of feature `k` from the means `ma` and `mb`.
pub open spec fn centered_product_term<V: Real>(
    a: Map<u64, V>,
    b: Map<u64, V>,
    ma: V,
    mb: V,
) -> spec_fn(u64) -> V {
    |k: u64| a[k].sub_spec(ma).mul_spec(b[k].sub_spec(mb))
}

/// The squared deviation of feature `k` of `a` from the mean `m`.
pub open spec fn centered_square_term<V: Real>(a: Map<u64, V>, m: V) -> spec_fn(u64) -> V {
    |k: u64| a[k].sub_spec(m).powi_spec(2)
}

/// The Pearson correlation accumulated along `w`: the sum of the products of
/// the deviations from the two means, over the square root of the product of
/// the two sums of squared deviations. Undefined on an empty walk, where the
/// length of the walk has no value in `V`, and where either sum of squared
/// deviations is zero.
pub open spec fn pearson_along<V: Real>(a: Map<u64, V>, b: Map<u64, V>, w: Seq<u64>) -> Option<V> {
    if w.len() == 0 || w.len() > usize::MAX {
        None
    } else {
        match V::from_usize_spec(w.len() as usize) {
            Some(count) => {
                let ma = mean_along(a, w, count);
                let mb = mean_along(b, w, count);
                let spread_a = sum_along(w, centered_square_term(a, ma));
                let spread_b = sum_along(w, centered_square_term(b, mb));
                if spread_a.is_zero_spec() || spread_b.is_zero_spec() {
                    None
                } else {
                    Some(
                        sum_along(w, centered_product_term(a, b, ma, mb)).div_spec(
                            spread_a.mul_spec(spread_b).sqrt_spec(),
                        ),
                    )
                }
            },
            None => None,
        }
    }
}

/// The features at least one of the two maps has observed.
pub open spec fn either<V>(a: Map<u64, V>, b: Map<u64, V>) -> Set<u64> {
    a.dom().union(b.dom())
}

/// The quotient of the values that stand for the counts `part` and `whole`.
pub open spec fn ratio<V: Real>(part: nat, whole: nat) -> Option<V> {
    if whole > usize::MAX {
        None
    } else {
        match (V::from_usize_spec(part as usize), V::from_usize_spec(whole as usize)) {
            (Some(p), Some(w)) => Some(p.div_spec(w)),
            _ => None,
        }
    }
}

/// The Jaccard index: the number of common features over the number of
/// features either map holds. Undefined where neither map holds a feature,
/// and where a count has no value in `V`.
pub open spec fn jaccard_index_of<V: Real>(a: Map<u64, V>, b: Map<u64, V>) -> Option<V> {
    if either(a, b).len() == 0 {
        None
    } else {
        ratio(common(a, b).len(), either(a, b).len())
    }
}

/// The Jaccard distance: one minus the Jaccard index.
pub open spec fn jaccard_distance_of<V: Real>(a: Map<u64, V>, b: Map<u64, V>) -> Option<V> {
    match jaccard_index_of(a, b) {
        Some(index) => Some(V::one_spec().sub_spec(index)),
        None => None,
    }
}

/// One more term: the sum over the first `i + 1` features of `w` is the sum
/// over the first `i` plus the term of feature `w[i]`.
pub proof fn lemma_sum_step<V: Real>(w: Seq<u64>, i: int, term: spec_fn(u64) -> V)
    requires
        0 <= i < w.len(),
    ensures
        sum_along(w.take(i + 1), term) == sum_along(w.take(i), term).add_spec(term(w[i])),
{
    assert(w.take(i + 1).drop_last() =~= w.take(i));
}

/// A walk is empty exactly when the two maps share no feature.
pub proof fn lemma_empty_walk<V>(w: Seq<u64>, a: Map<u64, V>, b: Map<u64, V>)
    requires
        is_walk(w, a, b),
    ensures
        w.len() == 0 <==> a.dom().disjoint(b.dom()),
{
    if w.len() == 0 {
        assert forall|x: u64| !(a.dom().contains(x) && b.dom().contains(x)) by {
            if a.dom().contains(x) && b.dom().contains(x) {
                assert(common(a, b).contains(x));
                assert(w.to_set().contains(x));
            }
        }
    } else {
        assert(w.to_set().contains(w[0]));
        assert(common(a, b).contains(w[0]));
    }
}

} // verus!
