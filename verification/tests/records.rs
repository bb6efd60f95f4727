use num_traits::real::Real as Float;
use recommend::record::Record;
use recommend::Real;
use std::collections::HashMap;

/// A double, with the operations of the outside crate.
#[derive(Debug, Clone, Copy, PartialEq)]
struct Num(f64);

impl Real for Num {
    fn zero() -> Self {
        Num(num_traits::zero())
    }

    fn one() -> Self {
        Num(num_traits::one())
    }

    fn from_usize(n: usize) -> Option<Self> {
        num_traits::cast::<usize, f64>(n).map(Num)
    }

    fn add(self, rhs: Self) -> Self {
        Num(self.0 + rhs.0)
    }

    fn sub(self, rhs: Self) -> Self {
        Num(self.0 - rhs.0)
    }

    fn mul(self, rhs: Self) -> Self {
        Num(self.0 * rhs.0)
    }

    fn div(self, rhs: Self) -> Self {
        Num(self.0 / rhs.0)
    }

    fn abs(self) -> Self {
        Num(Float::abs(self.0))
    }

    fn powi(self, n: i32) -> Self {
        Num(Float::powi(self.0, n))
    }

    fn powf(self, e: Self) -> Self {
        Num(Float::powf(self.0, e.0))
    }

    fn sqrt(self) -> Self {
        Num(Float::sqrt(self.0))
    }

    fn is_zero(self) -> bool {
        num_traits::Zero::is_zero(&self.0)
    }
}

/// Whole numbers that stand for no count above three.
#[derive(Debug, Clone, Copy, PartialEq)]
struct Small(i64);

impl Real for Small {
    fn zero() -> Self {
        Small(0)
    }

    fn one() -> Self {
        Small(1)
    }

    fn from_usize(n: usize) -> Option<Self> {
        if n <= 3 {
            Some(Small(n as i64))
        } else {
            None
        }
    }

    fn add(self, rhs: Self) -> Self {
        Small(self.0 + rhs.0)
    }

    fn sub(self, rhs: Self) -> Self {
        Small(self.0 - rhs.0)
    }

    fn mul(self, rhs: Self) -> Self {
        Small(self.0 * rhs.0)
    }

    fn div(self, rhs: Self) -> Self {
        Small(self.0 / rhs.0)
    }

    fn abs(self) -> Self {
        Small(self.0.abs())
    }

    fn powi(self, n: i32) -> Self {
        Small(self.0.pow(n as u32))
    }

    fn powf(self, e: Self) -> Self {
        Small(self.0.pow(e.0 as u32))
    }

    fn sqrt(self) -> Self {
        Small((self.0 as f64).sqrt() as i64)
    }

    fn is_zero(self) -> bool {
        self.0 == 0
    }
}

fn record(pairs: &[(u64, f64)]) -> Record<Num> {
    let mut r = Record::new();
    for (k, v) in pairs {
        r.values_mut().insert(*k, Num(*v));
    }
    r
}

fn small(pairs: &[(u64, i64)]) -> Record<Small> {
    let mut r = Record::new();
    for (k, v) in pairs {
        r.values_mut().insert(*k, Small(*v));
    }
    r
}

fn close(a: f64, b: f64) -> bool {
    (a - b).abs() < 1.0e-6
}

fn value(r: Option<Num>) -> f64 {
    r.unwrap().0
}

#[test]
fn manhattan_distance() {
    let a = record(&[(0, 1.), (2, 2.)]);
    let b = record(&[(0, 1.), (1, 3.), (2, 3.)]);

    let d = b.manhattan_distance(&a);

    assert!(close(1., d.unwrap().0));
}

#[test]
fn euclidean_distance() {
    let a = record(&[(0, 0.), (2, 0.)]);
    let b = record(&[(0, 2.), (1, 1.), (2, 2.)]);

    let d = b.euclidean_distance(&a);

    assert!(close(8f64.sqrt(), d.unwrap().0));
}

#[test]
fn minkowski3_distance() {
    let a = record(&[(0, 0.), (2, 0.)]);
    let b = record(&[(0, 2.), (1, 1.), (2, 2.)]);

    let d = b.minkowski_distance(&a, 3);

    assert!(close(16f64.powf(1. / 3.), d.unwrap().0));
}

#[test]
fn new_record_is_empty() {
    let r: Record<Num> = Record::new();
    assert!(r.values().is_empty());
    let d: Record<Num> = Record::default();
    assert!(d.values().is_empty());
}

#[test]
fn values_mut_changes_the_record() {
    let mut r: Record<Num> = Record::new();
    r.values_mut().insert(7, Num(1.5));
    r.values_mut().insert(9, Num(2.5));
    r.values_mut().insert(7, Num(3.5));
    assert_eq!(r.values().len(), 2);
    assert_eq!(r.values().get(&7), Some(&Num(3.5)));
    assert_eq!(r.values().get(&9), Some(&Num(2.5)));
    assert_eq!(r.values().get(&8), None);
}

#[test]
fn record_from_map() {
    let mut m = HashMap::new();
    m.insert(4u64, Num(2.0));
    let r = Record::from(m);
    assert_eq!(r.values().len(), 1);
    assert_eq!(r.values().get(&4), Some(&Num(2.0)));
}

#[test]
fn common_keys_are_the_shared_features_once_each() {
    let a = record(&[(0, 1.), (1, 1.), (2, 1.), (5, 1.)]);
    let b = record(&[(5, 2.), (3, 2.), (1, 2.)]);
    let mut keys = a.common_keys(&b);
    keys.sort();
    assert_eq!(keys, vec![1, 5]);
    let mut back = b.common_keys(&a);
    back.sort();
    assert_eq!(back, vec![1, 5]);
    assert_eq!(a.common_keys(&record(&[(7, 1.)])), Vec::<u64>::new());
}

#[test]
fn manhattan_on_exact_values() {
    let a = small(&[(0, 1), (1, 10), (2, 2)]);
    let b = small(&[(0, 4), (2, -3), (3, 8)]);
    assert_eq!(a.manhattan_distance(&b), Some(Small(8)));
}

#[test]
fn euclidean_on_exact_values() {
    let a = small(&[(0, 1), (2, 2)]);
    let b = small(&[(0, 4), (2, 6)]);
    assert_eq!(a.euclidean_distance(&b), Some(Small(5)));
}

#[test]
fn single_shared_zero_is_zero_and_not_undefined() {
    let a = record(&[(3, 2.5)]);
    let b = record(&[(3, 2.5), (4, 1.0)]);
    assert_eq!(a.manhattan_distance(&b), Some(Num(0.0)));
    assert_eq!(a.euclidean_distance(&b), Some(Num(0.0)));
}

#[test]
fn minkowski_and_euclidean_of_the_scenario() {
    let a = record(&[(0, 0.), (2, 0.)]);
    let b = record(&[(0, 2.), (1, 1.), (2, 2.)]);
    assert!(close(value(a.euclidean_distance(&b)), 2.8284271247));
    assert!(close(value(a.minkowski_distance(&b, 3)), 2.5198420998));
}

#[test]
fn disjoint_records_have_no_distance() {
    let a = record(&[(0, 1.)]);
    let b = record(&[(1, 1.)]);
    assert_eq!(a.manhattan_distance(&b), None);
    assert_eq!(a.euclidean_distance(&b), None);
    assert_eq!(a.minkowski_distance(&b, 1), None);
    assert_eq!(a.minkowski_distance(&b, 3), None);
    assert_eq!(a.cosine_similarity(&b), None);
    assert_eq!(a.pearson_correlation(&b), None);
    assert_eq!(a.jaccard_index(&b), Some(Num(0.0)));
    assert_eq!(a.jaccard_distance(&b), Some(Num(1.0)));
}

#[test]
fn empty_records_have_no_metric_at_all() {
    let a: Record<Num> = Record::new();
    let b: Record<Num> = Record::new();
    assert_eq!(a.manhattan_distance(&b), None);
    assert_eq!(a.euclidean_distance(&b), None);
    assert_eq!(a.minkowski_distance(&b, 2), None);
    assert_eq!(a.cosine_similarity(&b), None);
    assert_eq!(a.pearson_correlation(&b), None);
    assert_eq!(a.jaccard_index(&b), None);
    assert_eq!(a.jaccard_distance(&b), None);
}

#[test]
fn metrics_are_symmetric() {
    let a = record(&[(0, 1.5), (1, 4.0), (2, 2.0), (7, 3.0)]);
    let b = record(&[(0, 2.5), (2, 0.5), (3, 9.0), (7, 1.0)]);
    assert!(close(value(a.manhattan_distance(&b)), value(b.manhattan_distance(&a))));
    assert!(close(value(a.euclidean_distance(&b)), value(b.euclidean_distance(&a))));
    assert!(close(value(a.minkowski_distance(&b, 3)), value(b.minkowski_distance(&a, 3))));
    assert!(close(value(a.cosine_similarity(&b)), value(b.cosine_similarity(&a))));
    assert!(close(value(a.pearson_correlation(&b)), value(b.pearson_correlation(&a))));
    assert_eq!(a.jaccard_index(&b), b.jaccard_index(&a));
    assert_eq!(a.jaccard_distance(&b), b.jaccard_distance(&a));
    assert!(close(value(a.manhattan_distance(&b)), 4.5));
}

#[test]
fn euclidean_distance_to_itself_is_zero() {
    let a = record(&[(0, 1.5), (1, 4.0), (2, 2.0)]);
    assert_eq!(a.euclidean_distance(&a), Some(Num(0.0)));
    let empty: Record<Num> = Record::new();
    assert_eq!(empty.euclidean_distance(&empty), None);
}

#[test]
fn minkowski_of_order_one_and_two() {
    let a = record(&[(0, 1.5), (1, 4.0), (2, 2.0), (7, 3.0)]);
    let b = record(&[(0, 2.5), (2, 0.5), (3, 9.0), (7, 1.0)]);
    assert!(close(value(a.minkowski_distance(&b, 1)), value(a.manhattan_distance(&b))));
    assert!(close(value(a.minkowski_distance(&b, 2)), value(a.euclidean_distance(&b))));
}

#[test]
fn minkowski_without_a_value_for_the_order() {
    let a = small(&[(0, 1), (2, 2)]);
    let b = small(&[(0, 3), (2, 2)]);
    assert_eq!(a.minkowski_distance(&b, 1), Some(Small(2)));
    assert_eq!(a.minkowski_distance(&b, 4), None);
    assert_eq!(a.minkowski_distance(&small(&[(9, 1)]), 1), None);
}

#[test]
fn jaccard_index_and_distance() {
    let a = record(&[(0, 1.), (1, 1.), (2, 1.)]);
    let b = record(&[(1, 5.), (2, 5.), (3, 5.), (4, 5.)]);
    assert!(close(value(a.jaccard_index(&b)), 0.4));
    assert!(close(value(a.jaccard_distance(&b)), 0.6));
    assert_eq!(a.jaccard_index(&a), Some(Num(1.0)));
    assert_eq!(a.jaccard_distance(&a), Some(Num(0.0)));
    let none: Record<Num> = Record::new();
    assert_eq!(a.jaccard_index(&none), Some(Num(0.0)));
    assert_eq!(none.jaccard_index(&a), Some(Num(0.0)));
}

#[test]
fn jaccard_index_lies_between_zero_and_one() {
    let records = [
        record(&[]),
        record(&[(0, 1.)]),
        record(&[(0, 1.), (1, 2.)]),
        record(&[(1, 1.), (2, 2.), (3, 3.)]),
        record(&[(9, 1.)]),
    ];
    for a in records.iter() {
        for b in records.iter() {
            match (a.jaccard_index(b), a.jaccard_distance(b)) {
                (Some(index), Some(distance)) => {
                    assert!(0.0 <= index.0 && index.0 <= 1.0);
                    assert!(close(distance.0, 1.0 - index.0));
                }
                (None, None) => {
                    assert!(a.values().is_empty() && b.values().is_empty());
                }
                _ => panic!("index and distance are defined together"),
            }
        }
    }
}

#[test]
fn jaccard_without_a_value_for_a_count() {
    let a = small(&[(0, 1), (1, 1)]);
    let b = small(&[(1, 1), (2, 1)]);
    assert_eq!(a.jaccard_index(&b), Some(Small(0)));
    assert_eq!(a.jaccard_distance(&b), Some(Small(1)));
    let c = small(&[(1, 1), (2, 1), (3, 1)]);
    assert_eq!(a.jaccard_index(&c), None);
    assert_eq!(a.jaccard_distance(&c), None);
}

#[test]
fn cosine_similarity_is_a_sum_of_products() {
    let a = record(&[(0, 1.), (1, 2.), (2, 3.), (8, 100.)]);
    let b = record(&[(0, 4.), (1, 5.), (2, 6.), (9, 100.)]);
    let expected = 32.0 / (14.0f64 * 77.0).sqrt();
    assert!(close(value(a.cosine_similarity(&b)), expected));
    assert!(close(value(a.cosine_similarity(&a)), 1.0));
    let c = small(&[(0, 3), (1, 4)]);
    let d = small(&[(0, 3), (1, 4)]);
    assert_eq!(c.cosine_similarity(&d), Some(Small(1)));
}

#[test]
fn pearson_correlation_of_lines() {
    let a = record(&[(0, 1.), (1, 2.), (2, 3.), (3, 4.)]);
    let up = record(&[(0, 3.), (1, 5.), (2, 7.), (3, 9.), (4, 0.)]);
    let down = record(&[(0, 8.), (1, 6.), (2, 4.), (3, 2.)]);
    assert!(close(value(a.pearson_correlation(&up)), 1.0));
    assert!(close(value(a.pearson_correlation(&down)), -1.0));
    let other = record(&[(0, 2.), (1, 1.), (2, 4.), (3, 3.)]);
    assert!(close(value(a.pearson_correlation(&other)), 0.6));
}

#[test]
fn pearson_correlation_without_spread_is_undefined() {
    let a = record(&[(0, 1.), (1, 2.), (2, 3.)]);
    let flat = record(&[(0, 5.), (1, 5.), (2, 5.)]);
    assert_eq!(a.pearson_correlation(&flat), None);
    assert_eq!(flat.pearson_correlation(&a), None);
    let one = record(&[(1, 7.)]);
    assert_eq!(a.pearson_correlation(&one), None);
}

#[test]
fn pearson_without_a_value_for_the_count() {
    let a = small(&[(0, 1), (1, 2), (2, 3), (3, 4)]);
    let b = small(&[(0, 2), (1, 4), (2, 6), (3, 9)]);
    assert_eq!(a.pearson_correlation(&b), None);
    let c = small(&[(0, 1), (1, 3)]);
    let d = small(&[(0, 5), (1, 9)]);
    assert_eq!(c.pearson_correlation(&d), Some(Small(1)));
}

#[test]
fn distances_along_a_given_walk() {
    let a = small(&[(0, 1), (1, 10), (2, 2), (3, 0)]);
    let b = small(&[(0, 4), (2, -3), (3, 7), (9, 9)]);
    assert_eq!(a.manhattan_distance_along(&b, &[0, 2, 3]), Some(Small(15)));
    assert_eq!(a.manhattan_distance_along(&b, &[3, 0, 2]), Some(Small(15)));
    assert_eq!(a.manhattan_distance_along(&b, &[2]), Some(Small(5)));
    assert_eq!(a.manhattan_distance_along(&b, &[2, 2]), Some(Small(10)));
    assert_eq!(a.manhattan_distance_along(&b, &[]), None);
    assert_eq!(a.euclidean_distance_along(&b, &[0]), Some(Small(3)));
    assert_eq!(a.euclidean_distance_along(&b, &[0, 3, 2]), Some(Small(9)));
    assert_eq!(a.euclidean_distance_along(&b, &[]), None);
    assert_eq!(a.minkowski_distance_along(&b, 1, &[0, 2]), Some(Small(8)));
    assert_eq!(a.minkowski_distance_along(&b, 1, &[]), None);
    assert_eq!(a.minkowski_distance_along(&b, 4, &[0, 2]), None);
    assert_eq!(a.cosine_similarity_along(&b, &[]), None);
    assert_eq!(a.pearson_correlation_along(&b, &[]), None);
}

#[test]
fn similarities_along_a_given_walk() {
    let a = record(&[(0, 1.), (1, 2.), (2, 3.), (3, 4.)]);
    let b = record(&[(0, 2.), (1, 1.), (2, 4.), (3, 3.)]);
    let all = [3, 1, 0, 2];
    assert!(close(value(a.pearson_correlation_along(&b, &all)), 0.6));
    assert!(close(value(a.cosine_similarity_along(&b, &all)), 28.0 / 30.0));
    let two = [0, 1];
    assert!(close(value(a.pearson_correlation_along(&b, &two)), -1.0));
    assert!(close(value(a.cosine_similarity_along(&b, &two)), 0.8));
    assert_eq!(a.pearson_correlation_along(&b, &[2]), None);
}

#[test]
fn a_cloned_record_holds_the_same_values() {
    let a = record(&[(0, 1.), (2, 2.)]);
    let mut b = a.clone();
    assert_eq!(b.values().len(), 2);
    assert_eq!(b.values().get(&2), Some(&Num(2.)));
    b.values_mut().insert(2, Num(5.));
    assert_eq!(a.values().get(&2), Some(&Num(2.)));
    assert_eq!(a.manhattan_distance(&b), Some(Num(3.)));
}
