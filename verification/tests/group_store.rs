//! Tests of the group entity, its queries and the welcome-application
//! protocol.

use xmtp_mls::db_connection::DbConnection;
use xmtp_mls::group::{GroupMembershipState, Purpose, StoredGroup};
use xmtp_mls::store::{EncryptedMessageStore, StorageOption};
use xmtp_mls::{DuplicateItem, Fetch, FetchList, StorageError, Store};

fn with_connection<F: FnOnce(&mut DbConnection)>(f: F) {
    let mut store =
        EncryptedMessageStore::new(StorageOption::Ephemeral, [7u8; 32], None).unwrap();
    let mut conn = store.conn().expect("acquiring a Connection failed");
    f(&mut conn);
}

fn now_ns() -> i64 {
    std::time::SystemTime::now()
        .duration_since(std::time::UNIX_EPOCH)
        .unwrap()
        .as_nanos() as i64
}

/// Generate a test group with a distinct id and creation time.
fn generate_group(seq: u8, state: Option<GroupMembershipState>) -> StoredGroup {
    let membership_state = state.unwrap_or(GroupMembershipState::Allowed);
    StoredGroup::new(
        test_id(seq),
        // Anchor the creation time in the real clock, staggered by the
        // sequence number so creation times are strictly increasing.
        base_ns() + seq as i64,
        membership_state,
        "placeholder_address".to_string(),
        None,
    )
}

/// Generate a test dm group with a distinct id and creation time.
fn generate_dm(seq: u8, state: Option<GroupMembershipState>) -> StoredGroup {
    let membership_state = state.unwrap_or(GroupMembershipState::Allowed);
    let dm_inbox_id = Some("placeholder_inbox_id".to_string());
    StoredGroup::new(
        test_id(seq),
        base_ns() + seq as i64,
        membership_state,
        "placeholder_address".to_string(),
        dm_inbox_id,
    )
}

fn test_id(seq: u8) -> Vec<u8> {
    vec![0xaau8, 0x10u8, seq]
}

/// A creation time slightly in the past, so that a later clock reading is
/// strictly greater.
fn base_ns() -> i64 {
    now_ns() - 1_000_000
}

#[test]
fn test_it_stores_group() {
    with_connection(|conn| {
        let test_group = generate_group(1, None);

        test_group.store(conn).unwrap();
        let all: Vec<StoredGroup> = conn.fetch_list().unwrap();
        assert_eq!(all.first(), Some(&test_group));
    })
}

#[test]
fn test_it_fetches_group() {
    with_connection(|conn| {
        let test_group = generate_group(1, None);

        test_group.store(conn).unwrap();

        let fetched_group: Option<StoredGroup> = conn.fetch(&test_group.id).unwrap();
        assert_eq!(fetched_group, Some(test_group));
    })
}

#[test]
fn test_it_updates_group_membership_state() {
    with_connection(|conn| {
        let test_group = generate_group(1, Some(GroupMembershipState::Pending));

        test_group.store(conn).unwrap();
        conn.update_group_membership(&test_group.id, GroupMembershipState::Rejected)
            .unwrap();

        let updated_group: StoredGroup = conn.fetch(&test_group.id).ok().flatten().unwrap();
        assert_eq!(
            updated_group,
            StoredGroup {
                membership_state: GroupMembershipState::Rejected,
                ..test_group
            }
        );
    })
}

#[test]
fn test_find_groups() {
    with_connection(|conn| {
        let test_group_1 = generate_group(1, Some(GroupMembershipState::Pending));
        test_group_1.store(conn).unwrap();
        let test_group_2 = generate_group(2, Some(GroupMembershipState::Allowed));
        test_group_2.store(conn).unwrap();
        let test_group_3 = generate_dm(3, Some(GroupMembershipState::Allowed));
        test_group_3.store(conn).unwrap();

        let all_results = conn.find_groups(None, None, None, None, false).unwrap();
        assert_eq!(all_results.len(), 2);

        let pending_results = conn
            .find_groups(
                Some(vec![GroupMembershipState::Pending]),
                None,
                None,
                None,
                false,
            )
            .unwrap();
        assert_eq!(pending_results[0].id, test_group_1.id);
        assert_eq!(pending_results.len(), 1);

        // Limit
        let results_with_limit = conn.find_groups(None, None, None, Some(1), false).unwrap();
        assert_eq!(results_with_limit.len(), 1);
        assert_eq!(results_with_limit[0].id, test_group_1.id);

        let results_with_created_at_ns_after = conn
            .find_groups(None, Some(test_group_1.created_at_ns), None, Some(1), false)
            .unwrap();
        assert_eq!(results_with_created_at_ns_after.len(), 1);
        assert_eq!(results_with_created_at_ns_after[0].id, test_group_2.id);

        // Sync groups SHOULD NOT be returned
        let synced_groups = conn.find_sync_groups().unwrap();
        assert_eq!(synced_groups.len(), 0);

        // test that dm groups are included
        let dm_results = conn.find_groups(None, None, None, None, true).unwrap();
        assert_eq!(dm_results.len(), 3);
        assert_eq!(dm_results[2].id, test_group_3.id);
    })
}

#[test]
fn test_installations_last_checked_is_updated() {
    with_connection(|conn| {
        let test_group = generate_group(1, None);
        test_group.store(conn).unwrap();

        // Check that the installations update has not been performed, yet
        assert_eq!(test_group.installations_last_checked, 0);

        // Check that some event occurred which triggers an installation list update.
        // Here we invoke that event directly
        let result = conn.update_installations_time_checked(test_group.id.clone());
        assert!(result.is_ok());

        // Check that the latest installation list timestamp has been updated
        let fetched_group: StoredGroup = conn.fetch(&test_group.id).ok().flatten().unwrap();
        assert_ne!(fetched_group.installations_last_checked, 0);
        assert!(fetched_group.created_at_ns < fetched_group.installations_last_checked);
    })
}

#[test]
fn test_new_group_has_correct_purpose() {
    with_connection(|conn| {
        let test_group = generate_group(1, None);

        test_group.store(conn).unwrap();

        let fetched_group: Option<StoredGroup> = conn.fetch(&test_group.id).unwrap();
        assert_eq!(fetched_group, Some(test_group));
        let purpose = fetched_group.unwrap().purpose;
        assert_eq!(purpose, Purpose::Conversation);
    })
}

#[test]
fn test_new_sync_group() {
    with_connection(|conn| {
        let id = test_id(9);
        let created_at_ns = now_ns();
        let membership_state = GroupMembershipState::Allowed;

        let sync_group = StoredGroup::new_sync_group(id, created_at_ns, membership_state);
        let purpose = sync_group.purpose;
        assert_eq!(purpose, Purpose::Sync);

        sync_group.store(conn).unwrap();

        let found = conn.find_sync_groups().unwrap();
        assert_eq!(found.len(), 1);
        assert_eq!(found[0].purpose, Purpose::Sync)
    })
}

#[test]
fn duplicate_welcome_application_fails_and_changes_nothing() {
    with_connection(|conn| {
        let first = StoredGroup::new_from_welcome(
            vec![9u8, 9u8, 9u8],
            1_000,
            GroupMembershipState::Allowed,
            "adder".to_string(),
            77,
            Purpose::Conversation,
            None,
        );
        let stored = conn.insert_or_replace_group(first.clone()).unwrap();
        assert_eq!(stored, first);

        // The same (id, welcome_id) pair again: a duplicate delivery.
        let second = conn.insert_or_replace_group(first.clone());
        assert_eq!(
            second,
            Err(StorageError::Duplicate(DuplicateItem::WelcomeId(Some(77))))
        );

        // The stored row is unchanged from the first call's result.
        let fetched: Option<StoredGroup> = conn.fetch(&first.id).unwrap();
        assert_eq!(fetched, Some(first));
    })
}

#[test]
fn id_collision_with_differing_welcome_returns_existing_row() {
    with_connection(|conn| {
        let existing = StoredGroup::new_from_welcome(
            vec![5u8, 5u8],
            2_000,
            GroupMembershipState::Allowed,
            "adder".to_string(),
            101,
            Purpose::Conversation,
            None,
        );
        conn.insert_or_replace_group(existing.clone()).unwrap();

        let candidate = StoredGroup::new_from_welcome(
            vec![5u8, 5u8],
            3_000,
            GroupMembershipState::Pending,
            "other".to_string(),
            202,
            Purpose::Conversation,
            None,
        );
        let returned = conn.insert_or_replace_group(candidate).unwrap();
        assert_eq!(returned, existing);

        // No second row was created: the table still holds exactly one
        // row with this id.
        let all: Vec<StoredGroup> = conn.fetch_list().unwrap();
        let matching: Vec<&StoredGroup> = all.iter().filter(|g| g.id == existing.id).collect();
        assert_eq!(matching.len(), 1);
        assert_eq!(matching[0], &existing);
    })
}

#[test]
fn membership_overwrite_is_unconditional() {
    with_connection(|conn| {
        // Every prior state accepts every overwrite.
        for prior in [
            GroupMembershipState::Allowed,
            GroupMembershipState::Rejected,
            GroupMembershipState::Pending,
        ] {
            let g = generate_group(prior.to_code() as u8, Some(prior));
            g.store(conn).unwrap();
            conn.update_group_membership(&g.id, GroupMembershipState::Rejected)
                .unwrap();
            let fetched: StoredGroup = conn.fetch(&g.id).ok().flatten().unwrap();
            assert_eq!(fetched.membership_state, GroupMembershipState::Rejected);
        }
    })
}

#[test]
fn default_listing_excludes_sync_and_dm_groups() {
    with_connection(|conn| {
        let conversation = generate_group(1, None);
        conversation.store(conn).unwrap();
        let sync = StoredGroup::new_sync_group(test_id(2), base_ns() + 2, GroupMembershipState::Allowed);
        sync.store(conn).unwrap();
        let dm = generate_dm(3, None);
        dm.store(conn).unwrap();

        // The default listing holds only the conversation.
        let listed = conn.find_groups(None, None, None, None, false).unwrap();
        assert_eq!(listed.len(), 1);
        assert_eq!(listed[0].id, conversation.id);

        // The sync listing holds only the sync group.
        let synced = conn.find_sync_groups().unwrap();
        assert_eq!(synced.len(), 1);
        assert_eq!(synced[0].id, sync.id);

        // Asking for dm groups adds the dm conversation; sync groups stay
        // out of this call whatever the filters say.
        let with_dm = conn.find_groups(None, None, None, None, true).unwrap();
        assert_eq!(with_dm.len(), 2);
        assert_eq!(with_dm[0].id, conversation.id);
        assert_eq!(with_dm[1].id, dm.id);
    })
}

#[test]
fn filter_composition_on_creation_time_and_limit() {
    with_connection(|conn| {
        let g1 = StoredGroup::new(
            vec![1u8],
            100,
            GroupMembershipState::Allowed,
            "a".to_string(),
            None,
        );
        let g2 = StoredGroup::new(
            vec![2u8],
            200,
            GroupMembershipState::Allowed,
            "a".to_string(),
            None,
        );
        let g3 = StoredGroup::new(
            vec![3u8],
            300,
            GroupMembershipState::Allowed,
            "a".to_string(),
            None,
        );
        g2.store(conn).unwrap();
        g1.store(conn).unwrap();
        g3.store(conn).unwrap();

        // created_after excludes the group created exactly at the bound.
        let after = conn.find_groups(None, Some(100), None, None, false).unwrap();
        assert_eq!(after.len(), 2);
        assert_eq!(after[0].id, g2.id);
        assert_eq!(after[1].id, g3.id);

        // created_before is exclusive as well.
        let before = conn.find_groups(None, None, Some(300), None, false).unwrap();
        assert_eq!(before.len(), 2);
        assert_eq!(before[0].id, g1.id);

        // A limit keeps the earliest-created rows.
        let limited = conn.find_groups(None, None, None, Some(1), false).unwrap();
        assert_eq!(limited.len(), 1);
        assert_eq!(limited[0].id, g1.id);

        // Composition: both bounds at once.
        let both = conn
            .find_groups(None, Some(100), Some(300), None, false)
            .unwrap();
        assert_eq!(both.len(), 1);
        assert_eq!(both[0].id, g2.id);
    })
}

#[test]
fn missing_group_installation_lookup_is_not_found() {
    with_connection(|conn| {
        let r = conn.get_installations_time_checked(vec![1u8, 2u8, 0xabu8]);
        assert_eq!(
            r,
            Err(StorageError::NotFound(
                "installation time for group 0102ab".to_string()
            ))
        );
    })
}

#[test]
fn find_group_by_welcome_id_returns_earliest_match() {
    with_connection(|conn| {
        let none_yet = conn.find_group_by_welcome_id(42).unwrap();
        assert_eq!(none_yet, None);

        let early = StoredGroup::new_from_welcome(
            vec![1u8, 1u8],
            1_000,
            GroupMembershipState::Allowed,
            "a".to_string(),
            42,
            Purpose::Conversation,
            None,
        );
        let late = StoredGroup::new_from_welcome(
            vec![2u8, 2u8],
            2_000,
            GroupMembershipState::Allowed,
            "a".to_string(),
            42,
            Purpose::Conversation,
            None,
        );
        // Two rows matching one welcome id: the data-integrity anomaly the
        // call degrades defensively on, returning the earliest-created row.
        late.store(conn).unwrap();
        early.store(conn).unwrap();

        let found = conn.find_group_by_welcome_id(42).unwrap();
        assert_eq!(found, Some(early));
    })
}

#[test]
fn membership_and_purpose_codes_round_trip() {
    assert_eq!(GroupMembershipState::Allowed.to_code(), 1);
    assert_eq!(GroupMembershipState::Rejected.to_code(), 2);
    assert_eq!(GroupMembershipState::Pending.to_code(), 3);
    for s in [
        GroupMembershipState::Allowed,
        GroupMembershipState::Rejected,
        GroupMembershipState::Pending,
    ] {
        assert_eq!(GroupMembershipState::from_code(s.to_code()), Ok(s));
    }
    // The decode error names the offending value.
    assert_eq!(
        GroupMembershipState::from_code(9),
        Err(StorageError::EngineError("Unrecognized variant 9".to_string()))
    );
    assert_eq!(
        GroupMembershipState::from_code(-7),
        Err(StorageError::EngineError("Unrecognized variant -7".to_string()))
    );
    assert_eq!(
        GroupMembershipState::from_code(214),
        Err(StorageError::EngineError("Unrecognized variant 214".to_string()))
    );

    assert_eq!(Purpose::Conversation.to_code(), 1);
    assert_eq!(Purpose::Sync.to_code(), 2);
    for p in [Purpose::Conversation, Purpose::Sync] {
        assert_eq!(Purpose::from_code(p.to_code()), Ok(p));
    }
    assert_eq!(
        Purpose::from_code(0),
        Err(StorageError::EngineError("Unrecognized variant 0".to_string()))
    );
}
