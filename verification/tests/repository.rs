//! Tests of the generic repository contract on the group entity.

use xmtp_mls::db_connection::DbConnection;
use xmtp_mls::group::{GroupMembershipState, Purpose, StoredGroup};
use xmtp_mls::store::{EncryptedMessageStore, StorageOption};
use xmtp_mls::{Fetch, FetchList, FetchListWithKey, StorageError, Store, StoreOrIgnore};

fn open_connection() -> DbConnection {
    let mut store =
        EncryptedMessageStore::new(StorageOption::Ephemeral, [6u8; 32], None).unwrap();
    store.conn().unwrap()
}

fn sample_group(seq: u8) -> StoredGroup {
    StoredGroup::new(
        vec![seq, seq],
        seq as i64 * 100,
        GroupMembershipState::Allowed,
        "addr".to_string(),
        None,
    )
}

#[test]
fn fetch_returns_none_for_a_missing_key() {
    let conn = open_connection();
    let fetched: Option<StoredGroup> = conn.fetch(&vec![0u8]).unwrap();
    assert_eq!(fetched, None);
}

#[test]
fn store_fails_on_a_duplicate_primary_key() {
    let mut conn = open_connection();
    let g = sample_group(1);
    g.store(&mut conn).unwrap();

    // The strict variant reports the engine's constraint violation.
    let again = g.store(&mut conn);
    assert_eq!(
        again,
        Err(StorageError::EngineError(
            "UNIQUE constraint failed: groups.id".to_string()
        ))
    );

    // The table is unchanged.
    let all: Vec<StoredGroup> = conn.fetch_list().unwrap();
    assert_eq!(all, vec![g]);
}

#[test]
fn store_or_ignore_absorbs_the_benign_duplicate() {
    let mut conn = open_connection();
    let g = sample_group(2);
    g.store_or_ignore(&mut conn).unwrap();

    // Duplicate delivery is an expected, benign condition here.
    let changed = StoredGroup {
        membership_state: GroupMembershipState::Pending,
        ..g.clone()
    };
    changed.store_or_ignore(&mut conn).unwrap();

    // The first row stands; the conflicting insert was skipped silently.
    let all: Vec<StoredGroup> = conn.fetch_list().unwrap();
    assert_eq!(all, vec![g]);
}

#[test]
fn vec_store_stops_at_the_first_conflict() {
    let mut conn = open_connection();
    let g1 = sample_group(1);
    let g2 = sample_group(2);
    let g3 = sample_group(3);

    g2.store(&mut conn).unwrap();

    // Storing a batch walks it in order and stops where the engine
    // refuses; the earlier items stay stored.
    let batch = vec![g1.clone(), g2.clone(), g3.clone()];
    let r = batch.store(&mut conn);
    assert_eq!(
        r,
        Err(StorageError::EngineError(
            "UNIQUE constraint failed: groups.id".to_string()
        ))
    );

    let all: Vec<StoredGroup> = conn.fetch_list().unwrap();
    assert_eq!(all, vec![g1, g2]);
    let missing: Option<StoredGroup> = conn.fetch(&g3.id).unwrap();
    assert_eq!(missing, None);
}

#[test]
fn vec_store_stores_every_item_in_order() {
    let mut conn = open_connection();
    let batch = vec![sample_group(3), sample_group(1), sample_group(2)];
    batch.store(&mut conn).unwrap();

    let all: Vec<StoredGroup> = conn.fetch_list().unwrap();
    // Rows come back in creation-time order.
    assert_eq!(all.len(), 3);
    assert_eq!(all[0].id, vec![1u8, 1u8]);
    assert_eq!(all[1].id, vec![2u8, 2u8]);
    assert_eq!(all[2].id, vec![3u8, 3u8]);
}

#[test]
fn busy_is_the_only_retryable_error() {
    assert!(StorageError::Busy.is_retryable());
    assert!(!StorageError::NotFound("x".to_string()).is_retryable());
    assert!(!StorageError::BrokenTransactionManager.is_retryable());
    assert!(!StorageError::SqlCipherKeyIncorrect.is_retryable());
    assert!(!StorageError::EngineError("x".to_string()).is_retryable());
}

#[test]
fn fetch_list_with_key_matches_on_welcome_ids() {
    let mut conn = open_connection();
    let from_welcome = |id: u8, w: i64| {
        StoredGroup::new_from_welcome(
            vec![id],
            id as i64 * 10,
            GroupMembershipState::Allowed,
            "addr".to_string(),
            w,
            Purpose::Conversation,
            None,
        )
    };
    let a = from_welcome(1, 100);
    let b = from_welcome(2, 200);
    let c = from_welcome(3, 300);
    let plain = sample_group(4);
    a.store(&mut conn).unwrap();
    b.store(&mut conn).unwrap();
    c.store(&mut conn).unwrap();
    plain.store(&mut conn).unwrap();

    let hits: Vec<StoredGroup> = conn.fetch_list_with_key(&[300, 100]).unwrap();
    assert_eq!(hits, vec![a, c]);

    let none: Vec<StoredGroup> = conn.fetch_list_with_key(&[999]).unwrap();
    assert!(none.is_empty());
}
