use tomesync::merge::post_sync;
use tomesync::pull::get_sync;
use tomesync::store::Store;
use tomesync::wire::{SyncEntry, SyncQuery, SyncRequest};

fn entry(id: &str, title: &str, updated: &str) -> SyncEntry {
    SyncEntry {
        id: String::from(id),
        tome_id: String::from("t1"),
        title: String::from(title),
        content: String::from("body"),
        created_at: String::from("2024-01-01T00:00:00Z"),
        updated_at: String::from(updated),
    }
}

fn entries_only(entries: Vec<SyncEntry>) -> SyncRequest {
    SyncRequest { archives: Vec::new(), tomes: Vec::new(), entries }
}

fn seeded_store() -> Store {
    let mut store = Store::new();
    let req = entries_only(vec![
        entry("e1", "one", "2024-01-01T00:00:00Z"),
        entry("e3", "three", "2024-01-03T00:00:00Z"),
        entry("e5", "five", "2024-01-05T00:00:00Z"),
    ]);
    assert!(post_sync(&mut store, "user-1", &req).is_ok());
    store
}

#[test]
fn pull_returns_records_after_the_cursor_newest_first() {
    let store = seeded_store();
    let q = SyncQuery { since: Some(String::from("2024-01-02T00:00:00Z")) };
    let resp = get_sync(&store, "user-1", &q);
    assert_eq!(resp.archives.len(), 0);
    assert_eq!(resp.tomes.len(), 0);
    assert_eq!(resp.entries.len(), 2);
    assert_eq!(resp.entries[0].id, "e5");
    assert_eq!(resp.entries[1].id, "e3");
    assert_eq!(resp.entries[0].title, "five");
    assert_eq!(resp.entries[0].tome_id, "t1");
    assert_eq!(resp.entries[0].content, "body");
}

#[test]
fn pull_without_cursor_returns_everything() {
    let store = seeded_store();
    let q = SyncQuery { since: None };
    let resp = get_sync(&store, "user-1", &q);
    assert_eq!(resp.entries.len(), 3);
    assert_eq!(resp.entries[0].id, "e5");
    assert_eq!(resp.entries[1].id, "e3");
    assert_eq!(resp.entries[2].id, "e1");
}

#[test]
fn pull_with_unreadable_cursor_defaults_to_epoch() {
    let store = seeded_store();
    let q = SyncQuery { since: Some(String::from("once upon a time")) };
    let resp = get_sync(&store, "user-1", &q);
    assert_eq!(resp.entries.len(), 3);
}

#[test]
fn pull_with_cursor_at_newest_returns_nothing() {
    let store = seeded_store();
    let q = SyncQuery { since: Some(String::from("2024-01-05T00:00:00Z")) };
    let resp = get_sync(&store, "user-1", &q);
    assert_eq!(resp.entries.len(), 0);
}

#[test]
fn pull_canonicalizes_timestamps() {
    let mut store = Store::new();
    let req = entries_only(vec![entry("e1", "one", "2024-01-01T07:08:09.5+02:00")]);
    assert!(post_sync(&mut store, "user-1", &req).is_ok());
    let resp = get_sync(&store, "user-1", &SyncQuery { since: None });
    assert_eq!(resp.entries.len(), 1);
    // rendered in UTC with an explicit offset, not as the client wrote it
    assert_eq!(resp.entries[0].updated_at, "2024-01-01T05:08:09.500+00:00");
    assert_eq!(resp.entries[0].created_at, "2024-01-01T00:00:00+00:00");
}

#[test]
fn pull_is_scoped_to_the_subject() {
    let mut store = Store::new();
    let req = entries_only(vec![entry("e1", "one", "2024-01-01T00:00:00Z")]);
    assert!(post_sync(&mut store, "alice", &req).is_ok());
    let resp = get_sync(&store, "bob", &SyncQuery { since: None });
    assert_eq!(resp.entries.len(), 0);
    let resp = get_sync(&store, "alice", &SyncQuery { since: None });
    assert_eq!(resp.entries.len(), 1);
}

#[test]
fn pull_returns_a_parsable_fresh_cursor() {
    let store = seeded_store();
    let resp = get_sync(&store, "user-1", &SyncQuery { since: None });
    let parsed = tomesync::timestamp::parse_cursor(&Some(resp.last_modified));
    assert!(parsed.secs > 0);
}

#[test]
fn replicas_converge_after_push_and_pull() {
    let mut store = Store::new();
    // replica A's local state for e1 is newer than replica B's
    let from_a = entries_only(vec![entry("e1", "from-a", "2024-01-03T00:00:00Z")]);
    let from_b = entries_only(vec![entry("e1", "from-b", "2024-01-01T00:00:00Z")]);
    assert!(post_sync(&mut store, "user-1", &from_a).is_ok());
    assert!(post_sync(&mut store, "user-1", &from_b).is_ok());
    let seen_by_a = get_sync(&store, "user-1", &SyncQuery { since: None });
    let seen_by_b = get_sync(&store, "user-1", &SyncQuery { since: None });
    assert_eq!(seen_by_a.entries.len(), 1);
    assert_eq!(seen_by_b.entries.len(), 1);
    let a = &seen_by_a.entries[0];
    let b = &seen_by_b.entries[0];
    assert_eq!(a.id, b.id);
    assert_eq!(a.title, b.title);
    assert_eq!(a.content, b.content);
    assert_eq!(a.created_at, b.created_at);
    assert_eq!(a.updated_at, b.updated_at);
    assert_eq!(a.title, "from-a");
}

#[test]
fn pull_after_returned_cursor_sees_no_old_record() {
    let mut store = Store::new();
    let req = entries_only(vec![entry("e1", "one", "2024-01-01T00:00:00Z")]);
    let cursor = post_sync(&mut store, "user-1", &req).unwrap();
    // no new writes: a pull from the returned cursor is empty
    let resp = get_sync(&store, "user-1", &SyncQuery { since: Some(cursor) });
    assert_eq!(resp.entries.len(), 0);
}
