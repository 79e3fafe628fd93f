//! Tests of store construction, key validation, and the
//! release/reconnect lifecycle.

use xmtp_mls::group::{GroupMembershipState, StoredGroup};
use xmtp_mls::store::{EncryptedFile, EncryptedMessageStore, StorageOption};
use xmtp_mls::migrations::MIGRATION_COUNT;
use xmtp_mls::{Fetch, FetchList, StorageError, Store};

fn sample_group(seq: u8) -> StoredGroup {
    StoredGroup::new(
        vec![seq],
        seq as i64 * 10,
        GroupMembershipState::Allowed,
        "dummy_address".to_string(),
        None,
    )
}

#[test]
fn mismatched_encryption_key() {
    let mut enc_key = [1u8; 32];

    let db_path = "test_db".to_string();
    // Setup a persistent store
    let mut store = EncryptedMessageStore::new(
        StorageOption::Persistent(db_path.clone()),
        enc_key,
        None,
    )
    .unwrap();
    let mut conn = store.conn().unwrap();
    sample_group(1).store(&mut conn).unwrap();
    store.release_connection(conn).unwrap();
    let file = store.close().unwrap();

    enc_key[3] = 145; // Alter the enc_key
    let res = EncryptedMessageStore::new(
        StorageOption::Persistent(db_path.clone()),
        enc_key,
        Some(&file),
    );

    // Ensure it fails
    assert!(
        matches!(res.err(), Some(StorageError::SqlCipherKeyIncorrect)),
        "Expected SqlCipherKeyIncorrect error"
    );
}

#[test]
fn matching_key_reopens_persisted_data() {
    let enc_key = [9u8; 32];
    let path = "persistent_db".to_string();

    let mut store =
        EncryptedMessageStore::new(StorageOption::Persistent(path.clone()), enc_key, None)
            .unwrap();
    let mut conn = store.conn().unwrap();
    let group = sample_group(7);
    group.store(&mut conn).unwrap();
    store.release_connection(conn).unwrap();
    let file = store.close().unwrap();

    // Reopen under the same key: previously committed data is observed.
    let mut reopened =
        EncryptedMessageStore::new(StorageOption::Persistent(path), enc_key, Some(&file))
            .unwrap();
    let conn2 = reopened.conn().unwrap();
    let fetched: Option<StoredGroup> = conn2.fetch(&group.id).unwrap();
    assert_eq!(fetched, Some(group));
}

#[test]
fn release_then_reconnect_observes_committed_data() {
    let enc_key = [2u8; 32];
    let mut store = EncryptedMessageStore::new(
        StorageOption::Persistent("reconnect_db".to_string()),
        enc_key,
        None,
    )
    .unwrap();

    let mut conn = store.conn().unwrap();
    let group = sample_group(3);
    group.store(&mut conn).unwrap();
    store.release_connection(conn).unwrap();

    // While released, no connection can be pulled.
    assert!(matches!(store.conn(), Err(StorageError::EngineError(_))));

    store.reconnect().unwrap();
    let conn2 = store.conn().unwrap();
    let fetched: Option<StoredGroup> = conn2.fetch(&group.id).unwrap();
    assert_eq!(fetched, Some(group));
}

#[test]
fn ephemeral_store_drops_data_on_reconnect() {
    let enc_key = [3u8; 32];
    let mut store =
        EncryptedMessageStore::new(StorageOption::Ephemeral, enc_key, None).unwrap();

    let mut conn = store.conn().unwrap();
    let group = sample_group(4);
    group.store(&mut conn).unwrap();
    store.release_connection(conn).unwrap();

    store.reconnect().unwrap();
    let conn2 = store.conn().unwrap();
    let fetched: Option<StoredGroup> = conn2.fetch(&group.id).unwrap();
    assert_eq!(fetched, None);

    // An ephemeral store leaves nothing behind on close.
    assert!(store.close().is_none());
}

#[test]
fn unencrypted_store_rejects_encrypted_image() {
    // A store written under a key cannot be opened by the explicitly
    // unencrypted entry point.
    let enc_key = [4u8; 32];
    let store = EncryptedMessageStore::new(
        StorageOption::Persistent("plain_db".to_string()),
        enc_key,
        None,
    )
    .unwrap();
    let file = store.close().unwrap();

    let res = EncryptedMessageStore::new_unencrypted(
        StorageOption::Persistent("plain_db".to_string()),
        Some(&file),
    );
    assert!(matches!(
        res.err(),
        Some(StorageError::SqlCipherKeyIncorrect)
    ));
}

#[test]
fn unencrypted_store_round_trips() {
    let mut store = EncryptedMessageStore::new_unencrypted(
        StorageOption::Persistent("plain_rt_db".to_string()),
        None,
    )
    .unwrap();
    let mut conn = store.conn().unwrap();
    let group = sample_group(5);
    group.store(&mut conn).unwrap();
    store.release_connection(conn).unwrap();
    let file = store.close().unwrap();

    let mut reopened = EncryptedMessageStore::new_unencrypted(
        StorageOption::Persistent("plain_rt_db".to_string()),
        Some(&file),
    )
    .unwrap();
    let conn2 = reopened.conn().unwrap();
    let fetched: Option<StoredGroup> = conn2.fetch(&group.id).unwrap();
    assert_eq!(fetched, Some(group));
}

#[test]
fn default_storage_option_is_ephemeral() {
    assert!(matches!(StorageOption::default(), StorageOption::Ephemeral));
}

#[test]
fn a_constructed_store_validates() {
    let opts = StorageOption::Persistent("validated_db".to_string());
    let store = EncryptedMessageStore::new(opts.clone(), [8u8; 32], None).unwrap();
    assert_eq!(store.validate(&opts), Ok(()));
}

#[test]
fn an_image_assembled_from_engine_rows_reopens() {
    // Rows as an engine read-back would hand them, in arbitrary order.
    let rows = vec![sample_group(3), sample_group(1), sample_group(2)];
    let file = EncryptedFile::from_rows(None, rows, None, MIGRATION_COUNT).unwrap();

    let mut store = EncryptedMessageStore::new_unencrypted(
        StorageOption::Persistent("assembled_db".to_string()),
        Some(&file),
    )
    .unwrap();
    let conn = store.conn().unwrap();
    let all: Vec<StoredGroup> = conn.fetch_list().unwrap();
    // The image holds the rows in creation-time order.
    assert_eq!(all.len(), 3);
    assert_eq!(all[0].id, vec![1u8]);
    assert_eq!(all[1].id, vec![2u8]);
    assert_eq!(all[2].id, vec![3u8]);
}

#[test]
fn an_image_with_duplicate_ids_is_refused() {
    let rows = vec![sample_group(1), sample_group(1)];
    let res = EncryptedFile::from_rows(None, rows, None, MIGRATION_COUNT);
    assert_eq!(
        res.err(),
        Some(StorageError::EngineError(
            "UNIQUE constraint failed: groups.id".to_string()
        ))
    );
}
