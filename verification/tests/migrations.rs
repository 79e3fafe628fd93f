//! Tests of the migration runner: incremental application, the dm-id
//! backfill, and idempotency.

use xmtp_mls::db_connection::DbConnection;
use xmtp_mls::group::{GroupMembershipState, Purpose, StoredGroup};
use xmtp_mls::migrations::MIGRATION_COUNT;
use xmtp_mls::Fetch;

fn dm_row_in_old_shape() -> StoredGroup {
    StoredGroup {
        id: vec![1u8, 2u8, 3u8, 4u8, 5u8],
        created_at_ns: 123,
        membership_state: GroupMembershipState::Allowed,
        installations_last_checked: 0,
        purpose: Purpose::Conversation,
        added_by_inbox_id: "121212".to_string(),
        welcome_id: None,
        dm_inbox_id: Some("98765".to_string()),
        dm_id: None,
    }
}

#[test]
fn test_dm_id_migration() {
    let mut conn = DbConnection::new_unmigrated();

    // Apply only the schema migrations, stopping before the backfill.
    for _ in 0..(MIGRATION_COUNT - 1) {
        conn.run_next_migration().unwrap();
    }

    // Write a direct-message row in the old shape (no derived dm id) and
    // store the local identity the backfill joins against.
    let row = dm_row_in_old_shape();
    conn.insert_or_replace_group(row.clone()).unwrap();
    conn.set_identity("inbox_id".to_string());

    // Resume: apply the rest of the migration set.
    conn.run_pending_migrations().unwrap();

    let migrated: StoredGroup = conn.fetch(&row.id).ok().flatten().unwrap();
    assert_eq!(migrated.dm_id.as_deref(), Some("dm:98765:inbox_id"));
    assert_eq!(migrated.dm_inbox_id.as_deref(), Some("98765"));
}

#[test]
fn migrations_are_idempotent_across_repeated_runs() {
    let mut conn = DbConnection::new_unmigrated();
    for _ in 0..(MIGRATION_COUNT - 1) {
        conn.run_next_migration().unwrap();
    }
    let row = dm_row_in_old_shape();
    conn.insert_or_replace_group(row.clone()).unwrap();
    conn.set_identity("inbox_id".to_string());
    conn.run_pending_migrations().unwrap();
    let once: StoredGroup = conn.fetch(&row.id).ok().flatten().unwrap();

    // Running the set again changes nothing: each migration is applied at
    // most once.
    conn.run_pending_migrations().unwrap();
    conn.run_next_migration().unwrap();
    let twice: StoredGroup = conn.fetch(&row.id).ok().flatten().unwrap();
    assert_eq!(once, twice);
}

#[test]
fn backfill_without_identity_derives_nothing() {
    let mut conn = DbConnection::new_unmigrated();
    for _ in 0..(MIGRATION_COUNT - 1) {
        conn.run_next_migration().unwrap();
    }
    let row = dm_row_in_old_shape();
    conn.insert_or_replace_group(row.clone()).unwrap();

    // With no identity stored, the backfill's join is empty: no dm id is
    // derived.
    conn.run_pending_migrations().unwrap();
    let migrated: StoredGroup = conn.fetch(&row.id).ok().flatten().unwrap();
    assert_eq!(migrated.dm_id, None);
}

#[test]
fn resumed_migration_matches_single_pass_on_same_data() {
    // The same old-shape contents, migrated in one pass...
    let mut one_pass = DbConnection::new_unmigrated();
    let row = dm_row_in_old_shape();
    one_pass.insert_or_replace_group(row.clone()).unwrap();
    one_pass.set_identity("inbox_id".to_string());
    one_pass.run_pending_migrations().unwrap();

    // ... and migrated one step at a time with a pause in between.
    let mut resumed = DbConnection::new_unmigrated();
    resumed.insert_or_replace_group(row.clone()).unwrap();
    resumed.set_identity("inbox_id".to_string());
    resumed.run_next_migration().unwrap();
    resumed.run_next_migration().unwrap();
    resumed.run_pending_migrations().unwrap();

    let a: StoredGroup = one_pass.fetch(&row.id).ok().flatten().unwrap();
    let b: StoredGroup = resumed.fetch(&row.id).ok().flatten().unwrap();
    assert_eq!(a, b);
    assert_eq!(a.dm_id.as_deref(), Some("dm:98765:inbox_id"));
}
