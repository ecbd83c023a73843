use venus_whisper::store::{migration, pending_migrations, MIGRATION_COUNT};

#[test]
fn migrate_is_idempotent() {
    let steps = pending_migrations(0);
    assert_eq!(steps, (0..MIGRATION_COUNT).collect::<Vec<_>>());
    let after = (*steps.last().unwrap() + 1) as i64;
    assert_eq!(after, MIGRATION_COUNT as i64);
    assert!(pending_migrations(after).is_empty());
    assert!(pending_migrations(-1).is_empty());
    assert!(migration(0).contains("CREATE TABLE sessions"));
}
