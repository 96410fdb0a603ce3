use tomesync::merge::{post_sync, SyncError};
use tomesync::store::{Record, Store};
use tomesync::wire::{SyncArchive, SyncEntry, SyncRequest, SyncTome};

fn entry(id: &str, tome_id: &str, title: &str, content: &str, created: &str, updated: &str) -> SyncEntry {
    SyncEntry {
        id: String::from(id),
        tome_id: String::from(tome_id),
        title: String::from(title),
        content: String::from(content),
        created_at: String::from(created),
        updated_at: String::from(updated),
    }
}

fn archive(id: &str, name: &str, description: Option<&str>, created: &str, updated: &str) -> SyncArchive {
    SyncArchive {
        id: String::from(id),
        name: String::from(name),
        description: description.map(String::from),
        created_at: String::from(created),
        updated_at: String::from(updated),
    }
}

fn tome(id: &str, archive_id: &str, name: &str, created: &str, updated: &str) -> SyncTome {
    SyncTome {
        id: String::from(id),
        archive_id: String::from(archive_id),
        name: String::from(name),
        description: None,
        created_at: String::from(created),
        updated_at: String::from(updated),
    }
}

fn entries_only(entries: Vec<SyncEntry>) -> SyncRequest {
    SyncRequest { archives: Vec::new(), tomes: Vec::new(), entries }
}

fn records_equal(a: &Record, b: &Record) -> bool {
    a.id == b.id
        && a.owner == b.owner
        && a.parent == b.parent
        && a.name == b.name
        && a.detail == b.detail
        && a.created_at == b.created_at
        && a.updated_at == b.updated_at
}

#[test]
fn later_timestamp_wins_despite_later_arrival() {
    let mut store = Store::new();
    let first = entries_only(vec![entry(
        "e1", "t1", "A", "x", "2024-01-01T00:00:00Z", "2024-01-01T00:00:00Z",
    )]);
    let second = entries_only(vec![entry(
        "e1", "t1", "B", "x", "2024-01-01T00:00:00Z", "2023-12-31T00:00:00Z",
    )]);
    assert!(post_sync(&mut store, "user-1", &first).is_ok());
    assert!(post_sync(&mut store, "user-1", &second).is_ok());
    assert_eq!(store.entries.len(), 1);
    assert_eq!(store.entries[0].name, "A");
    assert_eq!(store.entries[0].updated_at.secs, 1704067200);
}

#[test]
fn newer_record_overwrites_mutable_fields_only() {
    let mut store = Store::new();
    let first = entries_only(vec![entry(
        "e1", "t1", "old", "body0", "2024-01-01T00:00:00Z", "2024-01-01T00:00:00Z",
    )]);
    let second = entries_only(vec![entry(
        "e1", "t9", "new", "body1", "2024-06-01T00:00:00Z", "2024-01-02T00:00:00Z",
    )]);
    assert!(post_sync(&mut store, "user-1", &first).is_ok());
    assert!(post_sync(&mut store, "user-1", &second).is_ok());
    assert_eq!(store.entries.len(), 1);
    let r = &store.entries[0];
    assert_eq!(r.name, "new");
    assert_eq!(r.detail.as_deref(), Some("body1"));
    assert_eq!(r.updated_at.secs, 1704153600);
    // identity, parentage and creation time stay with the stored row
    assert_eq!(r.parent, "t1");
    assert_eq!(r.created_at.secs, 1704067200);
}

#[test]
fn tie_breaks_in_favor_of_existing_row() {
    let mut store = Store::new();
    let first = entries_only(vec![entry(
        "e1", "t1", "first", "x", "2024-01-01T00:00:00Z", "2024-01-01T00:00:00Z",
    )]);
    let second = entries_only(vec![entry(
        "e1", "t1", "second", "y", "2024-01-01T00:00:00Z", "2024-01-01T00:00:00Z",
    )]);
    assert!(post_sync(&mut store, "user-1", &first).is_ok());
    assert!(post_sync(&mut store, "user-1", &second).is_ok());
    assert_eq!(store.entries.len(), 1);
    assert_eq!(store.entries[0].name, "first");
    assert_eq!(store.entries[0].detail.as_deref(), Some("x"));
}

#[test]
fn identical_push_twice_is_a_no_op() {
    let mk = || SyncRequest {
        archives: vec![archive("a1", "ark", Some("d"), "2024-01-01T00:00:00Z", "2024-01-03T00:00:00Z")],
        tomes: vec![tome("t1", "a1", "tm", "2024-01-01T00:00:00Z", "2024-01-04T00:00:00Z")],
        entries: vec![
            entry("e1", "t1", "A", "x", "2024-01-01T00:00:00Z", "2024-01-05T00:00:00Z"),
            entry("e2", "t1", "B", "y", "2024-01-01T00:00:00Z", "2024-01-02T00:00:00Z"),
        ],
    };
    let mut once = Store::new();
    assert!(post_sync(&mut once, "user-1", &mk()).is_ok());
    let mut twice = Store::new();
    assert!(post_sync(&mut twice, "user-1", &mk()).is_ok());
    assert!(post_sync(&mut twice, "user-1", &mk()).is_ok());
    assert_eq!(once.archives.len(), twice.archives.len());
    assert_eq!(once.tomes.len(), twice.tomes.len());
    assert_eq!(once.entries.len(), twice.entries.len());
    for (a, b) in once.archives.iter().zip(twice.archives.iter()) {
        assert!(records_equal(a, b));
    }
    for (a, b) in once.tomes.iter().zip(twice.tomes.iter()) {
        assert!(records_equal(a, b));
    }
    for (a, b) in once.entries.iter().zip(twice.entries.iter()) {
        assert!(records_equal(a, b));
    }
}

#[test]
fn malformed_timestamp_aborts_the_whole_batch() {
    let mut store = Store::new();
    let req = SyncRequest {
        archives: vec![archive("a1", "ark", None, "2024-01-01T00:00:00Z", "2024-01-01T00:00:00Z")],
        tomes: vec![tome("t1", "a1", "tm", "2024-01-01T00:00:00Z", "2024-01-01T00:00:00Z")],
        entries: vec![entry("e1", "t1", "A", "x", "2024-01-01T00:00:00Z", "januari")],
    };
    let r = post_sync(&mut store, "user-1", &req);
    assert_eq!(r, Err(SyncError::Validation));
    assert_eq!(store.archives.len(), 0);
    assert_eq!(store.tomes.len(), 0);
    assert_eq!(store.entries.len(), 0);
}

#[test]
fn malformed_created_at_is_also_a_validation_error() {
    let mut store = Store::new();
    let req = entries_only(vec![entry("e1", "t1", "A", "x", "yesterday", "2024-01-01T00:00:00Z")]);
    assert_eq!(post_sync(&mut store, "user-1", &req), Err(SyncError::Validation));
    assert_eq!(store.entries.len(), 0);
}

#[test]
fn empty_batch_succeeds_and_writes_nothing() {
    let mut store = Store::new();
    let req = SyncRequest { archives: Vec::new(), tomes: Vec::new(), entries: Vec::new() };
    let r = post_sync(&mut store, "user-1", &req);
    assert!(r.is_ok());
    assert_eq!(store.archives.len(), 0);
    assert_eq!(store.tomes.len(), 0);
    assert_eq!(store.entries.len(), 0);
}

#[test]
fn push_returns_a_parsable_cursor() {
    let mut store = Store::new();
    let req = SyncRequest { archives: Vec::new(), tomes: Vec::new(), entries: Vec::new() };
    let cursor = post_sync(&mut store, "user-1", &req).unwrap();
    let parsed = tomesync::timestamp::parse_cursor(&Some(cursor));
    // the server clock is far past the epoch, so the text really parsed
    assert!(parsed.secs > 0);
}

#[test]
fn pushed_records_are_attributed_to_the_caller() {
    let mut store = Store::new();
    let req = entries_only(vec![entry(
        "e1", "t1", "A", "x", "2024-01-01T00:00:00Z", "2024-01-01T00:00:00Z",
    )]);
    assert!(post_sync(&mut store, "caller-7", &req).is_ok());
    assert_eq!(store.entries[0].owner, "caller-7");
}

#[test]
fn archives_tomes_and_entries_all_land_in_their_tables() {
    let mut store = Store::new();
    let req = SyncRequest {
        archives: vec![archive("a1", "ark", Some("about"), "2024-01-01T00:00:00Z", "2024-01-01T00:00:00Z")],
        tomes: vec![tome("t1", "a1", "tm", "2024-01-01T00:00:00Z", "2024-01-01T00:00:00Z")],
        entries: vec![entry("e1", "t1", "A", "x", "2024-01-01T00:00:00Z", "2024-01-01T00:00:00Z")],
    };
    assert!(post_sync(&mut store, "user-1", &req).is_ok());
    assert_eq!(store.archives.len(), 1);
    assert_eq!(store.tomes.len(), 1);
    assert_eq!(store.entries.len(), 1);
    assert_eq!(store.archives[0].parent, "");
    assert_eq!(store.archives[0].detail.as_deref(), Some("about"));
    assert_eq!(store.tomes[0].parent, "a1");
    assert_eq!(store.tomes[0].detail, None);
    assert_eq!(store.entries[0].parent, "t1");
    assert_eq!(store.entries[0].detail.as_deref(), Some("x"));
}

#[test]
fn push_cannot_overwrite_another_subjects_record() {
    let mut store = Store::new();
    let from_alice = entries_only(vec![entry(
        "e1", "t1", "alices", "x", "2024-01-01T00:00:00Z", "2024-01-01T00:00:00Z",
    )]);
    let from_bob = entries_only(vec![entry(
        "e1", "t1", "bobs", "y", "2024-01-01T00:00:00Z", "2024-06-01T00:00:00Z",
    )]);
    assert!(post_sync(&mut store, "alice", &from_alice).is_ok());
    assert!(post_sync(&mut store, "bob", &from_bob).is_ok());
    assert_eq!(store.entries.len(), 1);
    assert_eq!(store.entries[0].owner, "alice");
    assert_eq!(store.entries[0].name, "alices");
    assert_eq!(store.entries[0].updated_at.secs, 1704067200);
}
