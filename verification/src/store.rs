//! The session store: sessions, messages and settings in SQLite. The database work runs
//! outside the library; the schema migrations, their order and which of them still have to
//! run are decided here.
use vstd::prelude::*;

verus! {

/// A conversation.
#[derive(Debug, Clone, PartialEq)]
pub struct Session {
    pub id: String,
    pub title: String,
    pub workspace: String,
    /// Creation time in milliseconds since the Unix epoch.
    pub created_at: i64,
}

/// The schema, step by step; step `i` brings the database to version `i + 1`.
pub const MIGRATION_V1: &'static str = "CREATE TABLE sessions (
        id         TEXT PRIMARY KEY,
        title      TEXT NOT NULL,
        workspace  TEXT NOT NULL,
        created_at INTEGER NOT NULL
     );
     CREATE TABLE messages (
        id           TEXT PRIMARY KEY,
        session_id   TEXT NOT NULL REFERENCES sessions(id) ON DELETE CASCADE,
        role         TEXT NOT NULL,
        content_json TEXT NOT NULL,
        created_at   INTEGER NOT NULL
     );
     CREATE INDEX messages_session ON messages(session_id, created_at);
     CREATE TABLE settings (
        key   TEXT PRIMARY KEY,
        value TEXT NOT NULL
     );";

/// Number of migration steps.
pub const MIGRATION_COUNT: usize = 1;

/// The SQL of migration step `i`.
pub fn migration(i: usize) -> (r: &'static str)
    requires
        i < MIGRATION_COUNT,
    ensures
        r@ == MIGRATION_V1@,
{
    MIGRATION_V1
}

/// The steps still to run on a database at schema version `current`: those from `current`
/// on, in order (none when `current` is negative, as its `usize` value is past the end).
pub open spec fn pending_spec(current: i64) -> Seq<usize> {
    if current < 0 || current >= MIGRATION_COUNT {
        Seq::empty()
    } else {
        Seq::new((MIGRATION_COUNT - current) as nat, |k: int| (current + k) as usize)
    }
}

/// The migration steps to run, in order; after step `i` the version becomes `i + 1`.
pub fn pending_migrations(current: i64) -> (r: Vec<usize>)
    ensures
        r@ == pending_spec(current),
{
    let mut out: Vec<usize> = Vec::new();
    if current < 0 || current >= MIGRATION_COUNT as i64 {
        assert(out@ =~= pending_spec(current));
        return out;
    }
    let mut i: usize = current as usize;
    while i < MIGRATION_COUNT
        invariant
            0 <= current < MIGRATION_COUNT,
            current <= i <= MIGRATION_COUNT,
            out@ =~= pending_spec(current).take(i - current),
        decreases MIGRATION_COUNT - i,
    {
        out.push(i);
        i = i + 1;
    }
    assert(pending_spec(current).take(MIGRATION_COUNT - current) =~= pending_spec(current));
    out
}

/// The version after running the pending steps.
pub open spec fn version_after(current: i64) -> i64 {
    if current < 0 || current >= MIGRATION_COUNT {
        current
    } else {
        MIGRATION_COUNT as i64
    }
}

/// Migrating is idempotent: a database brought up to date has nothing left to run, and the
/// steps run from any version end at the last version.
pub proof fn lemma_migrate_idempotent(current: i64)
    ensures
        pending_spec(version_after(current)).len() == 0,
        pending_spec(current).len() > 0 ==> pending_spec(current).last() + 1 == version_after(
            current,
        ),
{
}

} // verus!
