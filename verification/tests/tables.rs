use num_traits::real::Real as Float;
use recommend::record::Record;
use recommend::table::Table;
use recommend::{Distance, Real};

/// A double, with the operations of the outside crate.
#[derive(Debug, Clone, Copy, PartialEq)]
struct Num(f64);

impl Real for Num {
    fn zero() -> Self {
        Num(num_traits::zero())
    }

    fn one() -> Self {
        Num(num_traits::one())
    }

    fn from_usize(n: usize) -> Option<Self> {
        num_traits::cast::<usize, f64>(n).map(Num)
    }

    fn add(self, rhs: Self) -> Self {
        Num(self.0 + rhs.0)
    }

    fn sub(self, rhs: Self) -> Self {
        Num(self.0 - rhs.0)
    }

    fn mul(self, rhs: Self) -> Self {
        Num(self.0 * rhs.0)
    }

    fn div(self, rhs: Self) -> Self {
        Num(self.0 / rhs.0)
    }

    fn abs(self) -> Self {
        Num(Float::abs(self.0))
    }

    fn powi(self, n: i32) -> Self {
        Num(Float::powi(self.0, n))
    }

    fn powf(self, e: Self) -> Self {
        Num(Float::powf(self.0, e.0))
    }

    fn sqrt(self) -> Self {
        Num(Float::sqrt(self.0))
    }

    fn is_zero(self) -> bool {
        num_traits::Zero::is_zero(&self.0)
    }
}

fn close(a: f64, b: f64) -> bool {
    (a - b).abs() < 1.0e-6
}

/// A table from rows of a feature's name and one cell for each user, an
/// empty cell where the user gave no rating.
fn load(users: &[&str], rows: &[(&str, &[&str])]) -> Table<Num> {
    let keys: Vec<String> = rows.iter().map(|r| r.0.to_string()).collect();
    let mut table: Table<Num> = Table::with_keys(&keys);

    for (i, user) in users.iter().enumerate() {
        let mut record = Record::new();
        for row in rows.iter() {
            let key = table.key_of(row.0).unwrap();
            let val = row.1[i];

            if !val.is_empty() {
                let val: f64 = val.parse().unwrap();
                record.values_mut().insert(key, Num(val));
            }
        }

        table.insert(user, record);
    }

    table
}

fn music_table() -> Table<Num> {
    load(
        &["Angelica", "Bill", "Chan", "Dan"],
        &[
            ("Blues Traveler", &["3.5", "2", "5", "3"]),
            ("Broken Bells", &["2", "3.5", "1", "4"]),
            ("Deadmau5", &["", "4", "1", "4.5"]),
            ("Norah Jones", &["4.5", "", "3", ""]),
            ("Phoenix", &["5", "2", "5", "3"]),
            ("Slightly Stoopid", &["1.5", "3.5", "1", "4.5"]),
            ("The Strokes", &["2.5", "", "", "4"]),
            ("Vampire Weekend", &["2", "3", "", "2"]),
        ],
    )
}

fn movies_table() -> Table<Num> {
    load(
        &["Patrick C", "Heather", "Jeff"],
        &[
            ("Alien", &["", "", "4"]),
            ("Avatar", &["4", "5", "4"]),
            ("Blade Runner", &["5", "", "5"]),
            ("Braveheart", &["4", "", "4"]),
            ("Dodgeball", &["5", "", "3"]),
            ("Forest Gump", &["4", "4", "4"]),
            ("Gladiator", &["", "", "4"]),
            ("Jaws", &["", "2", "4"]),
            ("Kazaam", &["2", "", "3"]),
        ],
    )
}

#[test]
fn music() {
    let table = music_table();

    assert!(close(
        table
            .distance_between("Angelica", "Chan", Distance::Euclidean)
            .unwrap()
            .0,
        table
            .distance_between("Angelica", "Chan", Distance::Minkowski(2))
            .unwrap()
            .0
    ));
}

#[test]
fn movies() {
    let table = movies_table();

    assert!(close(
        table
            .distance_between("Patrick C", "Jeff", Distance::Manhattan)
            .unwrap()
            .0,
        table
            .distance_between("Patrick C", "Jeff", Distance::Minkowski(1))
            .unwrap()
            .0
    ));
}

#[test]
fn distances_between_named_records() {
    let table = music_table();
    let manhattan = table.distance_between("Angelica", "Chan", Distance::Manhattan);
    assert!(close(manhattan.unwrap().0, 4.5));
    let euclidean = table.distance_between("Angelica", "Chan", Distance::Euclidean);
    assert!(close(euclidean.unwrap().0, 5.75f64.sqrt()));
    let cubic = table.distance_between("Angelica", "Chan", Distance::Minkowski(3));
    assert!(close(cubic.unwrap().0, 7.875f64.powf(1. / 3.)));
    let back = table.distance_between("Chan", "Angelica", Distance::Manhattan);
    assert!(close(back.unwrap().0, 4.5));
    let own = table.distance_between("Bill", "Bill", Distance::Euclidean);
    assert_eq!(own, Some(Num(0.)));
}

#[test]
fn distance_between_records_without_a_common_feature() {
    let mut table: Table<Num> = Table::new();
    let mut a = Record::new();
    a.values_mut().insert(0, Num(1.));
    let mut b = Record::new();
    b.values_mut().insert(1, Num(1.));
    table.insert("a", a);
    table.insert("b", b);
    assert_eq!(table.distance_between("a", "b", Distance::Manhattan), None);
    assert_eq!(table.distance_between("a", "b", Distance::Euclidean), None);
    assert_eq!(table.distance_between("a", "b", Distance::Minkowski(3)), None);
}

#[test]
fn new_table_is_empty() {
    let table: Table<Num> = Table::new();
    assert!(!table.contains("Angelica"));
    assert!(table.get("Angelica").is_none());
    assert_eq!(table.key_of("Phoenix"), None);
    let other: Table<Num> = Table::default();
    assert!(!other.contains(""));
}

#[test]
fn with_keys_fixes_the_keys_and_holds_no_record() {
    let keys = vec!["b".to_string(), "a".to_string(), "b".to_string(), "".to_string()];
    let table: Table<Num> = Table::with_keys(&keys);
    assert_eq!(table.key_of("b"), Some(0));
    assert_eq!(table.key_of("a"), Some(1));
    assert_eq!(table.key_of(""), Some(3));
    assert_eq!(table.key_of("c"), None);
    assert_eq!(table.key_of("B"), None);
    assert!(!table.contains("a"));
    let again: Table<Num> = Table::with_keys(&keys);
    assert_eq!(again.key_of("a"), table.key_of("a"));
}

#[test]
fn insert_stores_and_replaces() {
    let mut table: Table<Num> = Table::new();
    let mut first = Record::new();
    first.values_mut().insert(0, Num(1.));
    let mut second = Record::new();
    second.values_mut().insert(0, Num(4.));
    let mut third = Record::new();
    third.values_mut().insert(0, Num(9.));
    third.values_mut().insert(1, Num(9.));

    table.insert("x", first);
    assert!(table.contains("x"));
    assert!(!table.contains("y"));
    assert_eq!(table.get("x").unwrap().values().get(&0), Some(&Num(1.)));

    table.insert("y", second);
    assert!(close(table.distance_between("x", "y", Distance::Manhattan).unwrap().0, 3.));

    table.insert("x", third);
    assert!(table.contains("x"));
    assert!(table.contains("y"));
    assert_eq!(table.get("x").unwrap().values().len(), 2);
    assert_eq!(table.get("y").unwrap().values().get(&0), Some(&Num(4.)));
    assert!(close(table.distance_between("x", "y", Distance::Manhattan).unwrap().0, 5.));
    assert!(close(table.distance_between("y", "x", Distance::Manhattan).unwrap().0, 5.));
}

#[test]
fn a_cloned_table_holds_the_same_records() {
    let table = music_table();
    let copy = table.clone();
    assert_eq!(copy.key_of("Phoenix"), table.key_of("Phoenix"));
    assert!(copy.contains("Dan"));
    assert!(!copy.contains("Emil"));
    assert_eq!(
        copy.distance_between("Angelica", "Bill", Distance::Manhattan),
        table.distance_between("Angelica", "Bill", Distance::Manhattan)
    );
    assert_eq!(copy.distance_between("Angelica", "Bill", Distance::Manhattan), Some(Num(9.)));
}
