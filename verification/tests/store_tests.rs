use tomesync::store::{upsert, Record, Store};
use tomesync::timestamp::Instant;

fn record(id: &str, name: &str, secs: i64) -> Record {
    Record {
        id: String::from(id),
        owner: String::from("user-1"),
        parent: String::from("p"),
        name: String::from(name),
        detail: Some(String::from("d")),
        created_at: Instant { secs: 0, nanos: 0 },
        updated_at: Instant { secs, nanos: 0 },
    }
}

#[test]
fn upsert_inserts_a_missing_identifier() {
    let mut table: Vec<Record> = Vec::new();
    upsert(&mut table, record("r1", "alpha", 10));
    assert_eq!(table.len(), 1);
    assert_eq!(table[0].id, "r1");
    assert_eq!(table[0].name, "alpha");
}

#[test]
fn upsert_overwrites_only_on_strictly_newer() {
    let mut table: Vec<Record> = Vec::new();
    upsert(&mut table, record("r1", "alpha", 10));
    upsert(&mut table, record("r1", "older", 9));
    assert_eq!(table[0].name, "alpha");
    upsert(&mut table, record("r1", "tied", 10));
    assert_eq!(table[0].name, "alpha");
    upsert(&mut table, record("r1", "newer", 11));
    assert_eq!(table[0].name, "newer");
    assert_eq!(table[0].updated_at.secs, 11);
    assert_eq!(table.len(), 1);
}

#[test]
fn upsert_keeps_identity_and_creation_time() {
    let mut table: Vec<Record> = Vec::new();
    let mut first = record("r1", "alpha", 10);
    first.created_at = Instant { secs: 3, nanos: 0 };
    upsert(&mut table, first);
    let mut second = record("r1", "beta", 20);
    second.created_at = Instant { secs: 99, nanos: 0 };
    second.parent = String::from("other");
    upsert(&mut table, second);
    assert_eq!(table[0].name, "beta");
    assert_eq!(table[0].created_at.secs, 3);
    assert_eq!(table[0].parent, "p");
}

#[test]
fn duplicate_copies_every_field() {
    let r = record("r1", "alpha", 10);
    let d = r.duplicate();
    assert_eq!(d.id, r.id);
    assert_eq!(d.owner, r.owner);
    assert_eq!(d.parent, r.parent);
    assert_eq!(d.name, r.name);
    assert_eq!(d.detail, r.detail);
    assert_eq!(d.created_at, r.created_at);
    assert_eq!(d.updated_at, r.updated_at);
}

#[test]
fn new_store_is_empty() {
    let s = Store::new();
    assert_eq!(s.archives.len(), 0);
    assert_eq!(s.tomes.len(), 0);
    assert_eq!(s.entries.len(), 0);
}

#[test]
fn select_updated_filters_and_orders() {
    let mut table: Vec<Record> = Vec::new();
    upsert(&mut table, record("r1", "old", 10));
    upsert(&mut table, record("r2", "mid", 20));
    upsert(&mut table, record("r3", "new", 30));
    let mut other = record("r4", "foreign", 40);
    other.owner = String::from("someone-else");
    upsert(&mut table, other);
    let sel = tomesync::pull::select_updated(&table, "user-1", Instant { secs: 15, nanos: 0 });
    assert_eq!(sel.len(), 2);
    assert_eq!(sel[0].id, "r3");
    assert_eq!(sel[1].id, "r2");
}

#[test]
fn upsert_never_touches_another_owners_row() {
    let mut table: Vec<Record> = Vec::new();
    upsert(&mut table, record("r1", "mine", 10));
    let mut intruder = record("r1", "theirs", 99);
    intruder.owner = String::from("someone-else");
    upsert(&mut table, intruder);
    assert_eq!(table.len(), 1);
    assert_eq!(table[0].name, "mine");
    assert_eq!(table[0].owner, "user-1");
    assert_eq!(table[0].updated_at.secs, 10);
}
