//! The migration runner: an ordered, embedded set of schema changes and
//! data backfills, applied at most once each and tracked by a persisted
//! version marker.
//!
//! The set holds, in order: the creation of the base schema; the addition
//! of the direct-message columns; and the one-time backfill that derives
//! the normalized `dm_id` field from the legacy `dm_inbox_id` column and
//! the stored local identity.  The two schema steps change no modelled
//! contents; the backfill is a data transformation and is specified
//! exactly.

use vstd::prelude::*;

use crate::db_connection::{groups_model, DataView, DbConnection};
use crate::group::GroupView;
use crate::StorageError;

verus! {

use vstd::string::StringExecFns;
use vstd::pervasive::VecAdditionalExecFns;

/// How many migrations the embedded, ordered migration set holds.
pub const MIGRATION_COUNT: usize = 3;

/// The index of the one-time dm-id backfill in the migration set.
pub const DM_ID_BACKFILL_INDEX: usize = 2;

/// The normalized direct-message identifier: `"dm:"`, the welcome-target
/// inbox id, `":"`, then the local inbox id.
pub open spec fn dm_id_of(target: Seq<char>, local: Seq<char>) -> Seq<char> {
    "dm:"@ + target + ":"@ + local
}

/// One row after the dm-id backfill: a direct-message row without a
/// derived id gains one; every other row stands.
pub open spec fn backfill_row(g: GroupView, local: Seq<char>) -> GroupView {
    match g.dm_inbox_id {
        Some(target) => if g.dm_id is None {
            GroupView { dm_id: Some(dm_id_of(target, local)), ..g }
        } else {
            g
        },
        None => g,
    }
}

/// The whole table after the dm-id backfill.  The backfill reads the
/// stored local identity; with no identity stored it updates nothing, as
/// a join against an empty identity table would.
pub open spec fn backfill_groups(
    gs: Seq<GroupView>,
    identity: Option<Seq<char>>,
) -> Seq<GroupView> {
    match identity {
        Some(local) => gs.map_values(|g: GroupView| backfill_row(g, local)),
        None => gs,
    }
}

/// The contents after applying migration `k`: its data effect, and the
/// version marker moved past it.
pub open spec fn apply_migration(d: DataView, k: int) -> DataView {
    let migrated = if k == DM_ID_BACKFILL_INDEX as int {
        DataView { groups: backfill_groups(d.groups, d.identity_inbox_id), ..d }
    } else {
        d
    };
    DataView { schema_version: k + 1, ..migrated }
}

/// The contents after applying migrations `from..to` in order.
pub open spec fn migrate_range(d: DataView, from: int, to: int) -> DataView
    decreases to - from,
{
    if from >= to {
        d
    } else {
        migrate_range(apply_migration(d, from), from + 1, to)
    }
}

/// Extending a run of migrations by one more applies that one to the end
/// state of the run.
pub proof fn lemma_migrate_range_extend(d: DataView, from: int, to: int)
    requires
        from <= to,
    ensures
        migrate_range(d, from, to + 1) == apply_migration(migrate_range(d, from, to), to),
    decreases to - from,
{
    reveal_with_fuel(migrate_range, 3);
    if from < to {
        lemma_migrate_range_extend(apply_migration(d, from), from + 1, to);
    }
}

/// Law: migration is resumable.  Running the set up to any intermediate
/// version and later running the rest reaches exactly the state of one
/// uninterrupted run.
pub proof fn lemma_migration_resumable(d: DataView, from: int, mid: int, to: int)
    requires
        from <= mid <= to,
    ensures
        migrate_range(migrate_range(d, from, mid), mid, to) == migrate_range(d, from, to),
    decreases mid - from,
{
    if from < mid {
        lemma_migration_resumable(apply_migration(d, from), from + 1, mid, to);
    }
}

/// Build the normalized direct-message identifier.
fn dm_id_string(target: &String, local: &String) -> (r: String)
    ensures
        r@ == dm_id_of(target@, local@),
{
    let mut s = String::from_str("dm:");
    s.append(target.as_str());
    s.append(":");
    s.append(local.as_str());
    proof {
        assert(s@ =~= dm_id_of(target@, local@));
    }
    s
}

impl DbConnection {
    /// Run the dm-id backfill over every row.
    fn run_dm_id_backfill(&mut self)
        requires
            old(self).wf(),
        ensures
            final(self).wf(),
            final(self)@ == (crate::db_connection::ConnView {
                data: DataView {
                    groups: backfill_groups(
                        old(self)@.data.groups,
                        old(self)@.data.identity_inbox_id,
                    ),
                    ..old(self)@.data
                },
                tx: old(self)@.tx,
            }),
    {
        let ghost gs = old(self)@.data.groups;
        let local = match &self.db.identity_inbox_id {
            Some(s) => crate::group::clone_string(s),
            None => {
                return ;
            }
        };
        let mut i: usize = 0;
        let n = self.db.groups.len();
        while i < n
            invariant
                0 <= i <= n,
                n == self.db.groups.len(),
                self@.data.groups.len() == gs.len(),
                n == gs.len(),
                old(self)@.data.identity_inbox_id == Some(local@),
                self@.data.identity_inbox_id == old(self)@.data.identity_inbox_id,
                self@.data.schema_version == old(self)@.data.schema_version,
                self@.tx == old(self)@.tx,
                self.wf(),
                forall|j: int| i <= j < gs.len() ==> self@.data.groups[j] == gs[j],
                forall|j: int| 0 <= j < i ==> self@.data.groups[j] == backfill_row(
                    gs[j],
                    local@,
                ),
            decreases n - i,
        {
            let needs_backfill = {
                let has_target = match &self.db.groups[i].dm_inbox_id {
                    Some(_) => true,
                    None => false,
                };
                let has_dm_id = match &self.db.groups[i].dm_id {
                    Some(_) => true,
                    None => false,
                };
                has_target && !has_dm_id
            };
            if needs_backfill {
                let mut row = self.db.groups[i].clone();
                let derived = match &row.dm_inbox_id {
                    Some(target) => dm_id_string(target, &local),
                    // A row only needs the backfill when it has a target.
                    None => String::new(),
                };
                row.dm_id = Some(derived);
                proof {
                    crate::group::lemma_wf_update_same_key(
                        self@.data.groups,
                        i as int,
                        row@,
                    );
                }
                let ghost prev = self.db.groups@;
                self.db.groups.set(i, row);
                proof {
                    assert(groups_model(self.db.groups@) =~= groups_model(prev).update(
                        i as int,
                        backfill_row(gs[i as int], local@),
                    ));
                }
            }
            i = i + 1;
        }
        proof {
            assert(self@.data.groups =~= backfill_groups(gs, old(self)@.data.identity_inbox_id));
        }
    }

    /// Apply the next pending migration, if any.  A run with nothing
    /// pending is a no-op: each migration is applied at most once.
    pub fn run_next_migration(&mut self) -> (r: Result<(), StorageError>)
        requires
            old(self).wf(),
        ensures
            final(self).wf(),
            r == Ok::<(), StorageError>(()),
            final(self)@.tx == old(self)@.tx,
            old(self)@.data.schema_version < MIGRATION_COUNT as int ==> final(self)@.data
                == apply_migration(old(self)@.data, old(self)@.data.schema_version),
            old(self)@.data.schema_version >= MIGRATION_COUNT as int ==> final(self)@.data
                == old(self)@.data,
    {
        let k = self.db.schema_version;
        if k >= MIGRATION_COUNT {
            return Ok(());
        }
        if k == DM_ID_BACKFILL_INDEX {
            self.run_dm_id_backfill();
        }
        self.db.schema_version = k + 1;
        Ok(())
    }

    /// Apply every migration not yet applied, in order.  Invoked on every
    /// store construction; idempotent across repeated runs, and safe to
    /// interleave with single steps of `run_next_migration`.
    pub fn run_pending_migrations(&mut self) -> (r: Result<(), StorageError>)
        requires
            old(self).wf(),
        ensures
            final(self).wf(),
            r == Ok::<(), StorageError>(()),
            final(self)@.tx == old(self)@.tx,
            final(self)@.data == migrate_range(
                old(self)@.data,
                old(self)@.data.schema_version,
                MIGRATION_COUNT as int,
            ),
    {
        let ghost d0 = old(self)@.data;
        let ghost v0 = old(self)@.data.schema_version;
        while self.db.schema_version < MIGRATION_COUNT
            invariant
                self.wf(),
                self@.tx == old(self)@.tx,
                v0 == d0.schema_version,
                d0 == old(self)@.data,
                self@.data.schema_version >= v0,
                self@.data.schema_version <= MIGRATION_COUNT as int || self@.data.schema_version
                    == v0,
                self@.data == migrate_range(d0, v0, self@.data.schema_version),
            decreases MIGRATION_COUNT as int - self@.data.schema_version,
        {
            let ghost before = self@.data;
            let ghost vcur = self@.data.schema_version;
            let _ = self.run_next_migration();
            proof {
                lemma_migrate_range_extend(d0, v0, vcur);
            }
        }
        proof {
            reveal_with_fuel(migrate_range, 2);
            assert(self@.data == migrate_range(d0, v0, MIGRATION_COUNT as int));
        }
        Ok(())
    }
}

} // verus!
