//! Ratings by position: the dense form of a record.
//!
//! A rating holds one score per position. It stands for the record that
//! holds, under each position as its key, the value observed there; its
//! metrics are those of that record, accumulated over the common positions
//! in ascending order.

use crate::metric::{
    accumulated, common, euclidean_along, euclidean_term, is_walk, lemma_empty_walk,
    manhattan_along, manhattan_term, minkowski_along, minkowski_term, order_exponent, sum_along,
};
use crate::numeric::Real;
use crate::record::accumulate;
use crate::score::Score;
use vstd::prelude::*;

verus! {

/// The record that a sequence of scores stands for: each observed value
/// under its position.
pub open spec fn sparse<T>(scores: Seq<Score<T>>) -> Map<u64, T> {
    Map::new(
        |k: u64| k < scores.len() && scores[k as int] is Observed,
        |k: u64| scores[k as int]->0,
    )
}

/// The positions below `n` at which both sequences hold an observed value,
/// in ascending order.
pub open spec fn shared_below<T>(a: Seq<Score<T>>, b: Seq<Score<T>>, n: nat) -> Seq<u64>
    decreases n,
{
    if n == 0 {
        Seq::empty()
    } else {
        let rest = shared_below(a, b, (n - 1) as nat);
        if n <= a.len() && n <= b.len() && a[n - 1] is Observed && b[n - 1] is Observed {
            rest.push((n - 1) as u64)
        } else {
            rest
        }
    }
}

/// The positions at which both sequences hold an observed value, in ascending order.
pub open spec fn shared<T>(a: Seq<Score<T>>, b: Seq<Score<T>>) -> Seq<u64> {
    shared_below(a, b, if a.len() <= b.len() { a.len() } else { b.len() })
}

/// The shared positions below `n` are those below `n` that both records
/// hold, each once.
pub proof fn lemma_shared_below<T>(a: Seq<Score<T>>, b: Seq<Score<T>>, n: nat)
    requires
        n <= a.len(),
        n <= b.len(),
        n <= u64::MAX,
    ensures
        shared_below(a, b, n).no_duplicates(),
        forall|k: u64|
            #[trigger] shared_below(a, b, n).contains(k) <==> k < n && common(
                sparse(a),
                sparse(b),
            ).contains(k),
    decreases n,
{
    let w = shared_below(a, b, n);
    if n > 0 {
        let rest = shared_below(a, b, (n - 1) as nat);
        lemma_shared_below(a, b, (n - 1) as nat);
        let last = (n - 1) as u64;
        assert(!rest.contains(last));
        if a[n - 1] is Observed && b[n - 1] is Observed {
            assert(w == rest.push(last));
            assert forall|k: u64| #[trigger] w.contains(k) <==> k < n && common(
                sparse(a),
                sparse(b),
            ).contains(k) by {
                if w.contains(k) {
                    let i = choose|i: int| 0 <= i < w.len() && w[i] == k;
                    if i < rest.len() {
                        assert(rest[i] == k);
                        assert(rest.contains(k));
                    }
                }
                if k < n && common(sparse(a), sparse(b)).contains(k) {
                    if k == last {
                        assert(w[rest.len() as int] == k);
                    } else {
                        assert(rest.contains(k));
                        let i = choose|i: int| 0 <= i < rest.len() && rest[i] == k;
                        assert(w[i] == k);
                    }
                }
            }
        } else {
            assert forall|k: u64| #[trigger] w.contains(k) <==> k < n && common(
                sparse(a),
                sparse(b),
            ).contains(k) by {
                if k < n && common(sparse(a), sparse(b)).contains(k) {
                    assert(k != last);
                    assert(rest.contains(k));
                }
                if w.contains(k) {
                    assert(rest.contains(k));
                }
            }
        }
    }
}

/// The shared positions are a walk of the two records.
pub proof fn lemma_shared_is_walk<T>(a: Seq<Score<T>>, b: Seq<Score<T>>)
    requires
        a.len() <= u64::MAX,
        b.len() <= u64::MAX,
    ensures
        is_walk(shared(a, b), sparse(a), sparse(b)),
{
    let n = if a.len() <= b.len() {
        a.len()
    } else {
        b.len()
    };
    lemma_shared_below(a, b, n);
    assert forall|k: u64| shared(a, b).to_set().contains(k) <==> common(
        sparse(a),
        sparse(b),
    ).contains(k) by {
        assert(shared(a, b).to_set().contains(k) <==> shared_below(a, b, n).contains(k));
    }
    assert(shared(a, b).to_set() =~= common(sparse(a), sparse(b)));
}

/// One score per position.
#[derive(Debug, Clone)]
pub struct Rating<T> {
    data: Vec<Score<T>>,
}

impl<T> View for Rating<T> {
    type V = Map<u64, T>;

    /// The record that the rating stands for.
    open spec fn view(&self) -> Map<u64, T> {
        sparse(self.scores())
    }
}

impl<T> Rating<T> {
    /// The scores, by position.
    pub closed spec fn scores(&self) -> Seq<Score<T>> {
        self.data@
    }

    /// The rating that holds `data`.
    pub fn new(data: Vec<Score<T>>) -> (r: Self)
        ensures
            r.scores() == data@,
    {
        Rating { data }
    }

    /// The scores, by position.
    pub fn data(&self) -> (d: &Vec<Score<T>>)
        ensures
            d@ == self.scores(),
    {
        &self.data
    }
}

impl<T: Real> Rating<T> {
    /// The sum of `|self[i] - rhs[i]|` over the positions `i` at which both
    /// ratings hold an observed value, in ascending order; missing where
    /// there is no such position.
    pub fn manhattan(&self, rhs: &Self) -> (r: Score<T>)
        ensures
            is_walk(shared(self.scores(), rhs.scores()), rhs@, self@),
            r is Missing <==> self@.dom().disjoint(rhs@.dom()),
            T::obeys_real_spec() ==> r == Score::from_option_spec(
                manhattan_along(rhs@, self@, shared(self.scores(), rhs.scores())),
            ),
    {
        let n = if self.data.len() <= rhs.data.len() {
            self.data.len()
        } else {
            rhs.data.len()
        };
        let ghost a = self.scores();
        let ghost b = rhs.scores();
        let ghost term = manhattan_term(rhs@, self@);
        let mut acc: Option<T> = None;
        let mut i: usize = 0;
        while i < n
            invariant
                i <= n,
                n <= a.len(),
                n <= b.len(),
                a == self.scores(),
                b == rhs.scores(),
                term == manhattan_term(rhs@, self@),
                acc is Some <==> shared_below(a, b, i as nat).len() > 0,
                T::obeys_real_spec() ==> acc == accumulated(shared_below(a, b, i as nat), term),
            decreases n - i,
        {
            proof {
                lemma_running_step(a, b, i as nat, term);
            }
            match self.data[i].sub(rhs.data[i]) {
                Score::Observed(d) => {
                    acc = accumulate(acc, d.abs());
                },
                Score::Missing => {},
            }
            i += 1;
        }
        proof {
            lemma_shared_is_walk(a, b);
            assert(common(sparse(a), sparse(b)) =~= common(sparse(b), sparse(a)));
            lemma_empty_walk(shared(a, b), rhs@, self@);
        }
        Score::from_option(acc)
    }

    /// The square root of the sum of `(self[i] - rhs[i])^2` over the positions
    /// `i` at which both ratings hold an observed value, in ascending order;
    /// missing where there is no such position.
    pub fn euclidean(&self, rhs: &Self) -> (r: Score<T>)
        ensures
            is_walk(shared(self.scores(), rhs.scores()), rhs@, self@),
            r is Missing <==> self@.dom().disjoint(rhs@.dom()),
            T::obeys_real_spec() ==> r == Score::from_option_spec(
                euclidean_along(rhs@, self@, shared(self.scores(), rhs.scores())),
            ),
    {
        let n = if self.data.len() <= rhs.data.len() {
            self.data.len()
        } else {
            rhs.data.len()
        };
        let ghost a = self.scores();
        let ghost b = rhs.scores();
        let ghost term = euclidean_term(rhs@, self@);
        let mut acc: Option<T> = None;
        let mut i: usize = 0;
        while i < n
            invariant
                i <= n,
                n <= a.len(),
                n <= b.len(),
                a == self.scores(),
                b == rhs.scores(),
                term == euclidean_term(rhs@, self@),
                acc is Some <==> shared_below(a, b, i as nat).len() > 0,
                T::obeys_real_spec() ==> acc == accumulated(shared_below(a, b, i as nat), term),
            decreases n - i,
        {
            proof {
                lemma_running_step(a, b, i as nat, term);
            }
            match self.data[i].sub(rhs.data[i]) {
                Score::Observed(d) => {
                    acc = accumulate(acc, d.powi(2));
                },
                Score::Missing => {},
            }
            i += 1;
        }
        proof {
            lemma_shared_is_walk(a, b);
            assert(common(sparse(a), sparse(b)) =~= common(sparse(b), sparse(a)));
            lemma_empty_walk(shared(a, b), rhs@, self@);
        }
        match acc {
            Some(sum) => Score::Observed(sum.sqrt()),
            None => Score::Missing,
        }
    }

    /// The sum of `|self[i] - rhs[i]|^p` over the positions `i` at which both
    /// ratings hold an observed value, in ascending order, raised to the power
    /// `1/p`; missing where there is no such position, and where `T` has no
    /// value for `p`.
    pub fn minkowski(&self, rhs: &Self, p: usize) -> (r: Score<T>)
        ensures
            is_walk(shared(self.scores(), rhs.scores()), rhs@, self@),
            self@.dom().disjoint(rhs@.dom()) ==> r is Missing,
            T::obeys_real_spec() ==> r == Score::from_option_spec(
                minkowski_along(rhs@, self@, p, shared(self.scores(), rhs.scores())),
            ),
    {
        let n = if self.data.len() <= rhs.data.len() {
            self.data.len()
        } else {
            rhs.data.len()
        };
        let exponent = #[verifier::truncate] (p as i32);
        let ghost a = self.scores();
        let ghost b = rhs.scores();
        let ghost term = minkowski_term(rhs@, self@, p);
        let mut acc: Option<T> = None;
        let mut i: usize = 0;
        while i < n
            invariant
                i <= n,
                n <= a.len(),
                n <= b.len(),
                a == self.scores(),
                b == rhs.scores(),
                exponent == order_exponent(p),
                term == minkowski_term(rhs@, self@, p),
                acc is Some <==> shared_below(a, b, i as nat).len() > 0,
                T::obeys_real_spec() ==> acc == accumulated(shared_below(a, b, i as nat), term),
            decreases n - i,
        {
            proof {
                lemma_running_step(a, b, i as nat, term);
            }
            match self.data[i].sub(rhs.data[i]) {
                Score::Observed(d) => {
                    acc = accumulate(acc, d.abs().powi(exponent));
                },
                Score::Missing => {},
            }
            i += 1;
        }
        proof {
            lemma_shared_is_walk(a, b);
            assert(common(sparse(a), sparse(b)) =~= common(sparse(b), sparse(a)));
            lemma_empty_walk(shared(a, b), rhs@, self@);
        }
        match T::from_usize(p) {
            Some(order) => match acc {
                Some(sum) => Score::Observed(sum.powf(T::one().div(order))),
                None => Score::Missing,
            },
            None => Score::Missing,
        }
    }
}

/// One more position: where both scores are observed there, the sum gains its term.
proof fn lemma_running_step<T: Real>(
    a: Seq<Score<T>>,
    b: Seq<Score<T>>,
    i: nat,
    term: spec_fn(u64) -> T,
)
    requires
        i < a.len(),
        i < b.len(),
    ensures
        a[i as int] is Observed && b[i as int] is Observed ==> shared_below(a, b, i + 1)
            == shared_below(a, b, i).push(i as u64) && sum_along(shared_below(a, b, i + 1), term)
            == sum_along(shared_below(a, b, i), term).add_spec(term(i as u64)),
        !(a[i as int] is Observed && b[i as int] is Observed) ==> shared_below(a, b, i + 1)
            == shared_below(a, b, i),
{
    let rest = shared_below(a, b, i);
    assert(rest.push(i as u64).drop_last() =~= rest);
}

} // verus!
