use pessoas::date::{format_date, parse_date, Date};
use pessoas::person::NewPerson;
use pessoas::store::PersonStore;

fn payload(name: &str, nick: &str, date: &[u8], stack: Option<Vec<&str>>) -> NewPerson {
    NewPerson {
        name: name.to_owned(),
        nick: nick.to_owned(),
        birth_date: parse_date(date).unwrap(),
        stack: stack.map(|v| v.into_iter().map(|s| s.to_owned()).collect()),
    }
}

#[test]
fn new_store_is_empty() {
    let s = PersonStore::new();
    assert_eq!(s.count(), 0);
    assert!(s.lookup(0).is_none());
    assert!(s.lookup(u128::MAX).is_none());
}

#[test]
fn round_trip_created_record() {
    let mut s = PersonStore::new();
    let created = s.create(payload(
        "Miguel",
        "DevMiguel",
        b"2000-07-24",
        Some(vec!["Rust", "Go"]),
    ));
    let fetched = s.lookup(created.id).expect("created record must be found");
    assert_eq!(fetched.id, created.id);
    assert_eq!(fetched.name, "Miguel");
    assert_eq!(fetched.nick, "DevMiguel");
    assert_eq!(format_date(&fetched.birth_date), b"2000-07-24".to_vec());
    assert_eq!(
        fetched.stack,
        Some(vec!["Rust".to_owned(), "Go".to_owned()])
    );
}

#[test]
fn fresh_random_id_is_not_found() {
    let mut s = PersonStore::new();
    s.create(payload("Miguel", "DevMiguel", b"2000-07-24", None));
    let never_created = uuid::Uuid::now_v7().as_u128();
    assert!(s.lookup(never_created).is_none());
}

#[test]
fn count_matches_number_of_inserts() {
    let mut s = PersonStore::new();
    for i in 0..5u128 {
        let p = s.insert(i, payload("a", "b", b"1999-12-31", None));
        assert_eq!(p.id, i);
        assert_eq!(s.count(), (i + 1) as usize);
    }
    for i in 0..5u128 {
        assert!(s.lookup(i).is_some());
    }
}

#[test]
fn distinct_creates_are_all_kept() {
    let mut s = PersonStore::new();
    let mut ids = Vec::new();
    for i in 0..10 {
        let name = format!("p{}", i);
        ids.push(s.create(payload(&name, "n", b"1990-01-01", None)).id);
    }
    assert_eq!(s.count(), 10);
    for (i, id) in ids.iter().enumerate() {
        let p = s.lookup(*id).expect("every created record must be found");
        assert_eq!(p.name, format!("p{}", i));
    }
}

#[test]
fn insert_under_same_id_replaces() {
    let mut s = PersonStore::new();
    s.insert(7, payload("first", "f", b"1980-05-05", None));
    s.insert(7, payload("second", "s", b"1981-06-06", None));
    assert_eq!(s.count(), 1);
    assert_eq!(s.lookup(7).unwrap().name, "second");
}

#[test]
fn earlier_record_survives_later_inserts() {
    let mut s = PersonStore::new();
    let first = s.create(payload("keep", "k", b"1970-01-01", Some(vec!["C"])));
    for _ in 0..3 {
        s.create(payload("other", "o", b"1999-09-09", None));
    }
    let p = s.lookup(first.id).expect("record must stay until process end");
    assert_eq!(p.name, "keep");
    assert_eq!(p.nick, "k");
    assert_eq!(p.stack, Some(vec!["C".to_owned()]));
}

#[test]
fn created_ids_are_distinct() {
    let mut s = PersonStore::new();
    let a = s.create(payload("a", "a", b"2001-01-01", None)).id;
    let b = s.create(payload("b", "b", b"2002-02-02", None)).id;
    assert_ne!(a, b);
    assert_eq!(s.count(), 2);
}

#[test]
fn search_returns_placeholder() {
    let s = PersonStore::new();
    assert_eq!(s.search(), "Buscar Pessoas");
}

#[test]
fn duplicate_is_equal_in_value() {
    let p = {
        let mut s = PersonStore::new();
        s.create(payload("x", "y", b"1995-03-15", Some(vec!["Rust"])))
    };
    let q = p.duplicate();
    assert_eq!(q.id, p.id);
    assert_eq!(q.name, p.name);
    assert_eq!(q.nick, p.nick);
    assert_eq!(q.birth_date, p.birth_date);
    assert_eq!(q.stack, p.stack);
}
