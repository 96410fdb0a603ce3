//! Wire shapes of the synchronization endpoint: the records a client pushes
//! or pulls, with their timestamps as RFC 3339 strings, and the envelopes
//! around them.

use vstd::prelude::*;

verus! {

/// A top-level container as it crosses the service boundary.
#[derive(Debug)]
pub struct SyncArchive {
    pub id: String,
    pub name: String,
    pub description: Option<String>,
    pub created_at: String,
    pub updated_at: String,
}

/// A tome as it crosses the service boundary; it belongs to one archive.
#[derive(Debug)]
pub struct SyncTome {
    pub id: String,
    pub archive_id: String,
    pub name: String,
    pub description: Option<String>,
    pub created_at: String,
    pub updated_at: String,
}

/// An entry as it crosses the service boundary; it belongs to one tome.
#[derive(Debug)]
pub struct SyncEntry {
    pub id: String,
    pub tome_id: String,
    pub title: String,
    pub content: String,
    pub created_at: String,
    pub updated_at: String,
}

/// The delta a pull returns, plus the fresh cursor the client persists as
/// its next checkpoint.
#[derive(Debug)]
pub struct SyncResponse {
    pub archives: Vec<SyncArchive>,
    pub tomes: Vec<SyncTome>,
    pub entries: Vec<SyncEntry>,
    pub last_modified: String,
}

/// The batch a push submits, spanning all three entity types.
#[derive(Debug)]
pub struct SyncRequest {
    pub archives: Vec<SyncArchive>,
    pub tomes: Vec<SyncTome>,
    pub entries: Vec<SyncEntry>,
}

/// The query of a pull: an optional RFC 3339 checkpoint.
#[derive(Debug)]
pub struct SyncQuery {
    pub since: Option<String>,
}

/// Payload of the plain create-archive surface, outside the sync protocol.
#[derive(Debug)]
pub struct CreateArchivePayload {
    pub name: String,
    pub description: String,
}

} // verus!
