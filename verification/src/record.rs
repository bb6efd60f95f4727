use crate::metric::{
    accumulated, centered_product_term, centered_square_term, common, cosine_along, either,
    euclidean_along, euclidean_term, is_walk, jaccard_distance_of, jaccard_index_of,
    lemma_empty_walk, lemma_sum_step, manhattan_along, manhattan_term, minkowski_along,
    minkowski_term, order_exponent, pearson_along, product_term, square_term, sum_along,
    value_term, within_common,
};
use crate::numeric::Real;
use std::collections::HashMap;
use vstd::prelude::*;

verus! {

broadcast use vstd::std_specs::hash::group_hash_axioms;

/// What one entity has observed: a value for each of some features. A
/// feature without a value was not observed.
#[derive(Debug)]
pub struct Record<V> {
    values: HashMap<u64, V>,
}

impl<V: Clone> Clone for Record<V> {
    fn clone(&self) -> (r: Self)
        ensures
            r@ == self@,
    {
        Record { values: self.values.clone() }
    }
}

impl<V> View for Record<V> {
    type V = Map<u64, V>;

    closed spec fn view(&self) -> Map<u64, V> {
        self.values@
    }
}

impl<V> Default for Record<V> {
    fn default() -> (r: Self)
        ensures
            r@ == Map::<u64, V>::empty(),
    {
        Record { values: HashMap::new() }
    }
}

impl<V> From<HashMap<u64, V>> for Record<V> {
    fn from(map: HashMap<u64, V>) -> (r: Self)
        ensures
            r@ == map@,
    {
        Record { values: map }
    }
}

impl<V> vstd::std_specs::convert::FromSpecImpl<HashMap<u64, V>> for Record<V> {
    open spec fn obeys_from_spec() -> bool {
        true
    }

    closed spec fn from_spec(map: HashMap<u64, V>) -> Self {
        Record { values: map }
    }
}

impl<V> Record<V> {
    /// A record without any observed feature.
    pub fn new() -> (r: Self)
        ensures
            r@ == Map::<u64, V>::empty(),
    {
        Record { values: HashMap::new() }
    }

    /// The observed values, by feature.
    pub fn values(&self) -> (m: &HashMap<u64, V>)
        ensures
            m@ == self@,
    {
        &self.values
    }

    /// The observed values, by feature, to change them: what the map holds
    /// when the borrow ends is what the record holds from then on.
    pub fn values_mut(&mut self) -> (m: &mut HashMap<u64, V>)
        ensures
            m@ == old(self)@,
            final(self)@ == final(m)@,
    {
        &mut self.values
    }

    /// A record holds finitely many features.
    pub proof fn lemma_finite(&self)
        ensures
            self@.dom().finite(),
    {
    }

    /// The common features of `self` and `rhs`, each once, in the order in
    /// which the record with fewer features holds them.
    pub fn common_keys(&self, rhs: &Self) -> (keys: Vec<u64>)
        ensures
            is_walk(keys@, self@, rhs@),
    {
        if self.values.len() <= rhs.values.len() {
            shared_keys(&self.values, &rhs.values)
        } else {
            let keys = shared_keys(&rhs.values, &self.values);
            assert(common(rhs@, self@) =~= common(self@, rhs@));
            keys
        }
    }
}

/// The keys of `walked` that `other` holds too, each once, in the order in
/// which `walked` holds them.
fn shared_keys<V>(walked: &HashMap<u64, V>, other: &HashMap<u64, V>) -> (keys: Vec<u64>)
    ensures
        is_walk(keys@, walked@, other@),
{
    let mut keys: Vec<u64> = Vec::new();
    for k in it: walked.keys()
        invariant
            it.seq().no_duplicates(),
            it.seq().unref().to_set() == walked@.dom(),
            keys@.no_duplicates(),
            forall|j: int|
                0 <= j < keys@.len() ==> other@.contains_key(#[trigger] keys@[j])
                    && walked@.contains_key(keys@[j]) && exists|i: int|
                    0 <= i < it.index() && *#[trigger] it.seq()[i] == keys@[j],
            forall|i: int|
                0 <= i < it.index() && other@.contains_key(*#[trigger] it.seq()[i])
                    ==> keys@.contains(*it.seq()[i]),
            forall|x: u64|
                walked@.contains_key(x) ==> exists|i: int|
                    0 <= i < it.seq().len() && *#[trigger] it.seq()[i] == x,
    {
        let ghost before = keys@;
        proof {
            assert(it.seq().unref()[it.index()] == *k);
            assert(it.seq().unref().to_set().contains(*k));
        }
        if other.contains_key(k) {
            keys.push(*k);
            proof {
                // `k` is new: every key so far was walked earlier, and the walk repeats none.
                assert forall|j: int| 0 <= j < before.len() implies before[j] != *k by {
                    let i = choose|i: int|
                        0 <= i < it.index() && *#[trigger] it.seq()[i] == before[j];
                    assert(it.seq()[i] != it.seq()[it.index()]);
                }
                assert(keys@[before.len() as int] == *k);
            }
        }
        proof {
            assert forall|i: int|
                0 <= i < it.index() + 1 && other@.contains_key(
                    *#[trigger] it.seq()[i],
                ) implies keys@.contains(*it.seq()[i]) by {
                if i < it.index() {
                    let j = choose|j: int| 0 <= j < before.len() && before[j] == *it.seq()[i];
                    assert(keys@[j] == *it.seq()[i]);
                }
            }
            assert forall|j: int| 0 <= j < keys@.len() implies other@.contains_key(
                #[trigger] keys@[j],
            ) && exists|i: int|
                0 <= i < it.index() + 1 && *#[trigger] it.seq()[i] == keys@[j] by {
                if j < before.len() {
                    let i = choose|i: int|
                        0 <= i < it.index() && *#[trigger] it.seq()[i] == before[j];
                    assert(*it.seq()[i] == keys@[j]);
                } else {
                    assert(*it.seq()[it.index()] == keys@[j]);
                }
            }
        }
    }
    assert(keys@.to_set() =~= common(walked@, other@));
    keys
}

impl<V: Real> Record<V> {
    /// The value observed for `key`.
    fn value(&self, key: u64) -> (v: V)
        requires
            self@.contains_key(key),
        ensures
            v == self@[key],
    {
        *self.values.get(&key).unwrap()
    }

    /// The sum of `|rhs[k] - self[k]|` over the common features `k`; undefined
    /// where there is none.
    pub fn manhattan_distance(&self, rhs: &Self) -> (r: Option<V>)
        ensures
            r is None <==> self@.dom().disjoint(rhs@.dom()),
            V::obeys_real_spec() ==> exists|w: Seq<u64>| #[trigger]
                is_walk(w, self@, rhs@) && r == manhattan_along(self@, rhs@, w),
    {
        let keys = self.common_keys(rhs);
        proof {
            lemma_walk_within_common(keys@, self@, rhs@);
        }
        self.manhattan_distance_along(rhs, keys.as_slice())
    }

    /// The Manhattan distance accumulated over the features of `walk`, in
    /// that order. Both records must have observed every feature of `walk`.
    pub fn manhattan_distance_along(&self, rhs: &Self, walk: &[u64]) -> (r: Option<V>)
        requires
            within_common(walk@, self@, rhs@),
        ensures
            r is None <==> walk@.len() == 0,
            V::obeys_real_spec() ==> r == manhattan_along(self@, rhs@, walk@),
    {
        let ghost term = manhattan_term(self@, rhs@);
        let mut dist: Option<V> = None;
        let mut i: usize = 0;
        while i < walk.len()
            invariant
                i <= walk@.len(),
                within_common(walk@, self@, rhs@),
                term == manhattan_term(self@, rhs@),
                dist is Some <==> i > 0,
                V::obeys_real_spec() ==> dist == accumulated(walk@.take(i as int), term),
            decreases walk@.len() - i,
        {
            let key = walk[i];
            proof {
                assert(common(self@, rhs@).contains(walk@[i as int]));
                lemma_sum_step(walk@, i as int, term);
            }
            let x = self.value(key);
            let y = rhs.value(key);
            dist = accumulate(dist, y.sub(x).abs());
            i += 1;
        }
        assert(walk@.take(walk@.len() as int) =~= walk@);
        dist
    }

    /// The square root of the sum of `(rhs[k] - self[k])^2` over the common
    /// features `k`; undefined where there is none.
    pub fn euclidean_distance(&self, rhs: &Self) -> (r: Option<V>)
        ensures
            r is None <==> self@.dom().disjoint(rhs@.dom()),
            V::obeys_real_spec() ==> exists|w: Seq<u64>| #[trigger]
                is_walk(w, self@, rhs@) && r == euclidean_along(self@, rhs@, w),
    {
        let keys = self.common_keys(rhs);
        proof {
            lemma_walk_within_common(keys@, self@, rhs@);
        }
        self.euclidean_distance_along(rhs, keys.as_slice())
    }

    /// The Euclidean distance accumulated over the features of `walk`, in
    /// that order. Both records must have observed every feature of `walk`.
    pub fn euclidean_distance_along(&self, rhs: &Self, walk: &[u64]) -> (r: Option<V>)
        requires
            within_common(walk@, self@, rhs@),
        ensures
            r is None <==> walk@.len() == 0,
            V::obeys_real_spec() ==> r == euclidean_along(self@, rhs@, walk@),
    {
        let ghost term = euclidean_term(self@, rhs@);
        let mut dist: Option<V> = None;
        let mut i: usize = 0;
        while i < walk.len()
            invariant
                i <= walk@.len(),
                within_common(walk@, self@, rhs@),
                term == euclidean_term(self@, rhs@),
                dist is Some <==> i > 0,
                V::obeys_real_spec() ==> dist == accumulated(walk@.take(i as int), term),
            decreases walk@.len() - i,
        {
            let key = walk[i];
            proof {
                assert(common(self@, rhs@).contains(walk@[i as int]));
                lemma_sum_step(walk@, i as int, term);
            }
            let x = self.value(key);
            let y = rhs.value(key);
            dist = accumulate(dist, y.sub(x).powi(2));
            i += 1;
        }
        assert(walk@.take(walk@.len() as int) =~= walk@);
        match dist {
            Some(sum) => Some(sum.sqrt()),
            None => None,
        }
    }

    /// The sum of `|rhs[k] - self[k]|^p` over the common features `k`, raised
    /// to the power `1/p`; undefined where there is no common feature, and
    /// where `V` has no value for `p`.
    pub fn minkowski_distance(&self, rhs: &Self, p: usize) -> (r: Option<V>)
        ensures
            self@.dom().disjoint(rhs@.dom()) ==> r is None,
            V::obeys_real_spec() ==> exists|w: Seq<u64>| #[trigger]
                is_walk(w, self@, rhs@) && r == minkowski_along(self@, rhs@, p, w),
    {
        let keys = self.common_keys(rhs);
        proof {
            lemma_walk_within_common(keys@, self@, rhs@);
        }
        self.minkowski_distance_along(rhs, p, keys.as_slice())
    }

    /// The Minkowski distance of order `p` accumulated over the features of
    /// `walk`, in that order. Both records must have observed every feature
    /// of `walk`.
    pub fn minkowski_distance_along(&self, rhs: &Self, p: usize, walk: &[u64]) -> (r: Option<V>)
        requires
            within_common(walk@, self@, rhs@),
        ensures
            walk@.len() == 0 ==> r is None,
            V::obeys_real_spec() ==> r == minkowski_along(self@, rhs@, p, walk@),
    {
        let exponent = #[verifier::truncate] (p as i32);
        let ghost term = minkowski_term(self@, rhs@, p);
        let mut dist: Option<V> = None;
        let mut i: usize = 0;
        while i < walk.len()
            invariant
                i <= walk@.len(),
                within_common(walk@, self@, rhs@),
                exponent == order_exponent(p),
                term == minkowski_term(self@, rhs@, p),
                dist is Some <==> i > 0,
                V::obeys_real_spec() ==> dist == accumulated(walk@.take(i as int), term),
            decreases walk@.len() - i,
        {
            let key = walk[i];
            proof {
                assert(common(self@, rhs@).contains(walk@[i as int]));
                lemma_sum_step(walk@, i as int, term);
            }
            let x = self.value(key);
            let y = rhs.value(key);
            dist = accumulate(dist, y.sub(x).abs().powi(exponent));
            i += 1;
        }
        assert(walk@.take(walk@.len() as int) =~= walk@);
        match V::from_usize(p) {
            Some(order) => match dist {
                Some(sum) => Some(sum.powf(V::one().div(order))),
                None => None,
            },
            None => None,
        }
    }

    /// The number of common features over the number of features either
    /// record holds; undefined where neither holds any, and where `V` has no
    /// value for one of the two counts.
    pub fn jaccard_index(&self, rhs: &Self) -> (r: Option<V>)
        ensures
            either(self@, rhs@).len() == 0 ==> r is None,
            V::obeys_real_spec() ==> r == jaccard_index_of::<V>(self@, rhs@),
    {
        let keys = self.common_keys(rhs);
        let inter = keys.len();
        proof {
            keys@.unique_seq_to_set();
            vstd::set_lib::lemma_set_intersect_union_lens(self@.dom(), rhs@.dom());
            vstd::set_lib::lemma_len_subset(common(self@, rhs@), rhs@.dom());
        }
        let rest = rhs.values.len() - inter;
        match self.values.len().checked_add(rest) {
            Some(union) => if union == 0 {
                None
            } else {
                match (V::from_usize(inter), V::from_usize(union)) {
                    (Some(part), Some(whole)) => Some(part.div(whole)),
                    _ => None,
                }
            },
            None => None,
        }
    }

    /// One minus the Jaccard index; undefined where the index is.
    pub fn jaccard_distance(&self, rhs: &Self) -> (r: Option<V>)
        ensures
            either(self@, rhs@).len() == 0 ==> r is None,
            V::obeys_real_spec() ==> r == jaccard_distance_of::<V>(self@, rhs@),
    {
        match self.jaccard_index(rhs) {
            Some(index) => Some(V::one().sub(index)),
            None => None,
        }
    }

    /// The sum of `self[k] * rhs[k]` over the common features `k`, divided by
    /// the square root of the product of the sums of `self[k]^2` and of
    /// `rhs[k]^2`; undefined where there is no common feature.
    pub fn cosine_similarity(&self, rhs: &Self) -> (r: Option<V>)
        ensures
            r is None <==> self@.dom().disjoint(rhs@.dom()),
            V::obeys_real_spec() ==> exists|w: Seq<u64>| #[trigger]
                is_walk(w, self@, rhs@) && r == cosine_along(self@, rhs@, w),
    {
        let keys = self.common_keys(rhs);
        proof {
            lemma_walk_within_common(keys@, self@, rhs@);
        }
        self.cosine_similarity_along(rhs, keys.as_slice())
    }

    /// The cosine similarity accumulated over the features of `walk`, in that
    /// order. Both records must have observed every feature of `walk`.
    pub fn cosine_similarity_along(&self, rhs: &Self, walk: &[u64]) -> (r: Option<V>)
        requires
            within_common(walk@, self@, rhs@),
        ensures
            r is None <==> walk@.len() == 0,
            V::obeys_real_spec() ==> r == cosine_along(self@, rhs@, walk@),
    {
        let mut a_norm: Option<V> = None;
        let mut b_norm: Option<V> = None;
        let mut dot_prod: Option<V> = None;
        let mut i: usize = 0;
        while i < walk.len()
            invariant
                i <= walk@.len(),
                within_common(walk@, self@, rhs@),
                a_norm is Some <==> i > 0,
                b_norm is Some <==> i > 0,
                dot_prod is Some <==> i > 0,
                V::obeys_real_spec() ==> {
                    &&& a_norm == accumulated(walk@.take(i as int), square_term(self@))
                    &&& b_norm == accumulated(walk@.take(i as int), square_term(rhs@))
                    &&& dot_prod == accumulated(walk@.take(i as int), product_term(self@, rhs@))
                },
            decreases walk@.len() - i,
        {
            let key = walk[i];
            proof {
                assert(common(self@, rhs@).contains(walk@[i as int]));
                lemma_sum_step(walk@, i as int, square_term(self@));
                lemma_sum_step(walk@, i as int, square_term(rhs@));
                lemma_sum_step(walk@, i as int, product_term(self@, rhs@));
            }
            let x = self.value(key);
            let y = rhs.value(key);
            a_norm = accumulate(a_norm, x.powi(2));
            b_norm = accumulate(b_norm, y.powi(2));
            dot_prod = accumulate(dot_prod, x.mul(y));
            i += 1;
        }
        assert(walk@.take(walk@.len() as int) =~= walk@);
        match (a_norm, b_norm, dot_prod) {
            (Some(a), Some(b), Some(dot)) => Some(dot.div(a.mul(b).sqrt())),
            _ => None,
        }
    }

    /// The sum over the common features of the products of the two deviations
    /// from the means, divided by the square root of the product of the two
    /// sums of squared deviations; undefined where there is no common feature,
    /// where `V` has no value for their number, and where one of the two sums
    /// of squared deviations is zero.
    pub fn pearson_correlation(&self, rhs: &Self) -> (r: Option<V>)
        ensures
            self@.dom().disjoint(rhs@.dom()) ==> r is None,
            V::obeys_real_spec() ==> exists|w: Seq<u64>| #[trigger]
                is_walk(w, self@, rhs@) && r == pearson_along(self@, rhs@, w),
    {
        let keys = self.common_keys(rhs);
        proof {
            lemma_walk_within_common(keys@, self@, rhs@);
        }
        self.pearson_correlation_along(rhs, keys.as_slice())
    }

    /// The Pearson correlation accumulated over the features of `walk`, in
    /// that order. Both records must have observed every feature of `walk`.
    pub fn pearson_correlation_along(&self, rhs: &Self, walk: &[u64]) -> (r: Option<V>)
        requires
            within_common(walk@, self@, rhs@),
        ensures
            walk@.len() == 0 ==> r is None,
            V::obeys_real_spec() ==> r == pearson_along(self@, rhs@, walk@),
    {
        if walk.len() == 0 {
            return None;
        }
        let count = match V::from_usize(walk.len()) {
            Some(count) => count,
            None => {
                return None;
            },
        };
        let mut sum_x = V::zero();
        let mut sum_y = V::zero();
        let mut i: usize = 0;
        while i < walk.len()
            invariant
                i <= walk@.len(),
                within_common(walk@, self@, rhs@),
                V::obeys_real_spec() ==> {
                    &&& sum_x == sum_along(walk@.take(i as int), value_term(self@))
                    &&& sum_y == sum_along(walk@.take(i as int), value_term(rhs@))
                },
            decreases walk@.len() - i,
        {
            let key = walk[i];
            proof {
                assert(common(self@, rhs@).contains(walk@[i as int]));
                lemma_sum_step(walk@, i as int, value_term(self@));
                lemma_sum_step(walk@, i as int, value_term(rhs@));
            }
            sum_x = sum_x.add(self.value(key));
            sum_y = sum_y.add(rhs.value(key));
            i += 1;
        }
        assert(walk@.take(walk@.len() as int) =~= walk@);
        let mean_x = sum_x.div(count);
        let mean_y = sum_y.div(count);
        let ghost cross = centered_product_term(self@, rhs@, mean_x, mean_y);
        let mut cov = V::zero();
        let mut spread_x = V::zero();
        let mut spread_y = V::zero();
        let mut j: usize = 0;
        while j < walk.len()
            invariant
                j <= walk@.len(),
                within_common(walk@, self@, rhs@),
                cross == centered_product_term(self@, rhs@, mean_x, mean_y),
                V::obeys_real_spec() ==> {
                    &&& cov == sum_along(walk@.take(j as int), cross)
                    &&& spread_x == sum_along(
                        walk@.take(j as int),
                        centered_square_term(self@, mean_x),
                    )
                    &&& spread_y == sum_along(
                        walk@.take(j as int),
                        centered_square_term(rhs@, mean_y),
                    )
                },
            decreases walk@.len() - j,
        {
            let key = walk[j];
            proof {
                assert(common(self@, rhs@).contains(walk@[j as int]));
                lemma_sum_step(walk@, j as int, cross);
                lemma_sum_step(walk@, j as int, centered_square_term(self@, mean_x));
                lemma_sum_step(walk@, j as int, centered_square_term(rhs@, mean_y));
            }
            let dx = self.value(key).sub(mean_x);
            let dy = rhs.value(key).sub(mean_y);
            cov = cov.add(dx.mul(dy));
            spread_x = spread_x.add(dx.powi(2));
            spread_y = spread_y.add(dy.powi(2));
            j += 1;
        }
        if spread_x.is_zero() || spread_y.is_zero() {
            None
        } else {
            Some(cov.div(spread_x.mul(spread_y).sqrt()))
        }
    }
}

/// A walk visits common features only, and is empty exactly where there is none.
proof fn lemma_walk_within_common<V>(w: Seq<u64>, a: Map<u64, V>, b: Map<u64, V>)
    requires
        is_walk(w, a, b),
    ensures
        within_common(w, a, b),
        w.len() == 0 <==> a.dom().disjoint(b.dom()),
{
    lemma_empty_walk(w, a, b);
    assert forall|i: int| 0 <= i < w.len() implies common(a, b).contains(#[trigger] w[i]) by {
        assert(w.to_set().contains(w[i]));
    }
}

/// Adds `term` to the accumulator; the first term is added to zero.
pub(crate) fn accumulate<V: Real>(acc: Option<V>, term: V) -> (r: Option<V>)
    ensures
        r is Some,
        V::obeys_real_spec() ==> r == Some(
            match acc {
                Some(sum) => sum,
                None => V::zero_spec(),
            }.add_spec(term),
        ),
{
    match acc {
        Some(sum) => Some(sum.add(term)),
        None => Some(V::zero().add(term)),
    }
}

} // verus!
