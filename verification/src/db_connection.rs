//! The connection handle over the store's contents.
//!
//! A `DbConnection` owns the table contents outright, so Rust's ownership
//! discipline is exactly the single-writer discipline the engine demands:
//! while a transaction's unit of work holds the connection, nothing else
//! can reach it, and commit/rollback are issued only once the work has
//! given the connection back.

use vstd::prelude::*;

use crate::group::{GroupView, StoredGroup};
use crate::StorageError;

verus! {

/// The store's contents: the groups table plus the one global identity
/// record and the persisted schema-version marker of the migration runner.
pub(crate) struct Database {
    pub(crate) groups: Vec<StoredGroup>,
    pub(crate) identity_inbox_id: Option<String>,
    pub(crate) schema_version: usize,
}

/// The mathematical model of the store's contents.
pub ghost struct DataView {
    /// The group rows, kept ordered by `created_at_ns` ascending.
    pub groups: Seq<GroupView>,
    /// The inbox id of the local identity, once one has been stored.
    pub identity_inbox_id: Option<Seq<char>>,
    /// How many migrations of the ordered migration set have been applied.
    pub schema_version: int,
}

/// The model of a connection: the live contents, and the contents saved at
/// the start of the active transaction, if one is active.
pub ghost struct ConnView {
    pub data: DataView,
    pub tx: Option<DataView>,
}

/// The rows are kept sorted by creation time, ascending.
pub open spec fn groups_sorted(gs: Seq<GroupView>) -> bool {
    forall|i: int, j: int|
        0 <= i < j < gs.len() ==> gs[i].created_at_ns <= gs[j].created_at_ns
}

/// Group ids are unique: `id` is the primary key of the groups table.
pub open spec fn group_ids_unique(gs: Seq<GroupView>) -> bool {
    forall|i: int, j: int| 0 <= i < j < gs.len() ==> gs[i].id != gs[j].id
}

/// The models of a vector of rows.
pub open spec fn groups_model(rows: Seq<StoredGroup>) -> Seq<GroupView> {
    rows.map_values(|g: StoredGroup| g@)
}

/// Appending a row appends its model.
pub proof fn lemma_groups_model_push(s: Seq<StoredGroup>, g: StoredGroup)
    ensures
        groups_model(s.push(g)) == groups_model(s).push(g@),
{
    assert(groups_model(s.push(g)) =~= groups_model(s).push(g@));
}

/// Whether some row carries the given id.
pub open spec fn contains_id(gs: Seq<GroupView>, id: Seq<u8>) -> bool {
    exists|i: int| 0 <= i < gs.len() && gs[i].id == id
}

/// Everything but the group rows is unchanged between two connection
/// states: the transaction snapshot, the identity record and the schema
/// version all stand.
pub open spec fn groups_only_changed(pre: ConnView, post: ConnView) -> bool {
    post.tx == pre.tx && post.data.identity_inbox_id == pre.data.identity_inbox_id
        && post.data.schema_version == pre.data.schema_version
}

/// Well-formedness of the store's contents.
pub open spec fn data_wf(d: DataView) -> bool {
    groups_sorted(d.groups) && group_ids_unique(d.groups)
}

impl Database {
    pub(crate) open spec fn view(&self) -> DataView {
        DataView {
            groups: groups_model(self.groups@),
            identity_inbox_id: crate::group::opt_string_view(self.identity_inbox_id),
            schema_version: self.schema_version as int,
        }
    }
}

/// A handle to the store's contents, as handed out by the connection
/// provider.  All entity operations and the transaction state machine live
/// here.
pub struct DbConnection {
    pub(crate) db: Database,
    pub(crate) tx_snapshot: Option<Database>,
}

impl DbConnection {
    /// The model of this connection.
    pub open(crate) spec fn model(&self) -> ConnView {
        ConnView {
            data: self.db.view(),
            tx: match self.tx_snapshot {
                Some(d) => Some(d.view()),
                None => None,
            },
        }
    }

    /// A connection is well formed when its contents (and the transaction
    /// snapshot, if any) are.
    pub open spec fn wf(&self) -> bool {
        data_wf(self@.data) && match self@.tx {
            Some(d) => data_wf(d),
            None => true,
        }
    }

    /// Whether a transaction is active on this connection.
    pub open spec fn in_transaction(&self) -> bool {
        self@.tx is Some
    }
}

impl View for DbConnection {
    type V = ConnView;

    open spec fn view(&self) -> ConnView {
        self.model()
    }
}

/// Byte-wise equality of two byte strings.
pub(crate) fn bytes_eq(a: &[u8], b: &[u8]) -> (r: bool)
    ensures
        r == (a@ == b@),
{
    if a.len() != b.len() {
        proof {
            assert(a@.len() != b@.len());
        }
        return false;
    }
    let mut i: usize = 0;
    while i < a.len()
        invariant
            0 <= i <= a.len(),
            a@.len() == b@.len(),
            forall|k: int| 0 <= k < i ==> a@[k] == b@[k],
        decreases a.len() - i,
    {
        if a[i] != b[i] {
            return false;
        }
        i = i + 1;
    }
    proof {
        assert(a@ =~= b@);
    }
    true
}

pub(crate) fn clone_group_rows(v: &Vec<StoredGroup>) -> (res: Vec<StoredGroup>)
    ensures
        groups_model(res@) == groups_model(v@),
{
    let mut out: Vec<StoredGroup> = Vec::new();
    let mut i: usize = 0;
    while i < v.len()
        invariant
            0 <= i <= v.len(),
            groups_model(out@) == groups_model(v@).take(i as int),
        decreases v.len() - i,
    {
        let ghost prev: Seq<StoredGroup> = out@;
        out.push(v[i].clone());
        proof {
            lemma_groups_model_push(prev, out@.last());
            assert(groups_model(v@).take(i + 1)
                =~= groups_model(v@).take(i as int).push(groups_model(v@)[i as int]));
        }
        i = i + 1;
    }
    proof {
        assert(groups_model(v@).take(v.len() as int) =~= groups_model(v@));
    }
    out
}

impl Database {
    pub(crate) fn clone_data(&self) -> (res: Database)
        ensures
            res.view() == self.view(),
    {
        let identity_inbox_id = match &self.identity_inbox_id {
            Some(s) => Some(crate::group::clone_string(s)),
            None => None,
        };
        Database {
            groups: clone_group_rows(&self.groups),
            identity_inbox_id,
            schema_version: self.schema_version,
        }
    }
}

impl DbConnection {
    /// A connection onto empty, entirely unmigrated contents, as a fresh
    /// backing file would present them before the migration runner has run.
    pub fn new_unmigrated() -> (c: DbConnection)
        ensures
            c.wf(),
            c@ == (ConnView {
                data: DataView {
                    groups: Seq::<GroupView>::empty(),
                    identity_inbox_id: None,
                    schema_version: 0,
                },
                tx: None::<DataView>,
            }),
    {
        let c = DbConnection {
            db: Database { groups: Vec::new(), identity_inbox_id: None, schema_version: 0 },
            tx_snapshot: None,
        };
        proof {
            assert(c@.data.groups =~= Seq::<GroupView>::empty());
        }
        c
    }

    /// Store the global identity record's inbox id.  This models the
    /// identity table, which the dm-id backfill migration reads.
    pub fn set_identity(&mut self, inbox_id: String)
        requires
            old(self).wf(),
        ensures
            final(self).wf(),
            final(self)@ == (ConnView {
                data: DataView {
                    identity_inbox_id: Some(inbox_id@),
                    ..old(self)@.data
                },
                tx: old(self)@.tx,
            }),
    {
        self.db.identity_inbox_id = Some(inbox_id);
    }

    /// Begin a transaction: save the current contents so that a rollback
    /// can restore them.  The engine is single-writer, so a begin while a
    /// transaction is already active reports the lock as busy instead of
    /// blocking.
    pub(crate) fn begin_transaction(&mut self) -> (r: Result<(), StorageError>)
        requires
            old(self).wf(),
        ensures
            final(self).wf(),
            old(self).in_transaction() ==> r == Err::<(), StorageError>(StorageError::Busy)
                && final(self)@ == old(self)@,
            !old(self).in_transaction() ==> r == Ok::<(), StorageError>(())
                && final(self)@ == (ConnView {
                    data: old(self)@.data,
                    tx: Some(old(self)@.data),
                }),
    {
        match &self.tx_snapshot {
            Some(_) => Err(StorageError::Busy),
            None => {
                let snapshot = self.db.clone_data();
                self.tx_snapshot = Some(snapshot);
                Ok(())
            }
        }
    }

    /// Commit the active transaction: the live contents stand, the saved
    /// snapshot is discarded.  Committing with no transaction active means
    /// the transaction manager is already unusable.
    pub(crate) fn commit_transaction(&mut self) -> (r: Result<(), StorageError>)
        requires
            old(self).wf(),
        ensures
            final(self).wf(),
            old(self).in_transaction() ==> r == Ok::<(), StorageError>(())
                && final(self)@ == (ConnView { data: old(self)@.data, tx: None::<DataView> }),
            !old(self).in_transaction() ==> r
                == Err::<(), StorageError>(StorageError::BrokenTransactionManager)
                && final(self)@ == old(self)@,
    {
        match self.tx_snapshot.take() {
            Some(_) => Ok(()),
            None => Err(StorageError::BrokenTransactionManager),
        }
    }

    /// Roll back the active transaction: the contents saved at `begin` are
    /// restored.  Rolling back with no transaction active means the
    /// transaction manager is already unusable.
    pub(crate) fn rollback_transaction(&mut self) -> (r: Result<(), StorageError>)
        requires
            old(self).wf(),
        ensures
            final(self).wf(),
            old(self).in_transaction() ==> r == Ok::<(), StorageError>(())
                && old(self)@.tx == Some(final(self)@.data)
                && final(self)@.tx is None,
            !old(self).in_transaction() ==> r
                == Err::<(), StorageError>(StorageError::BrokenTransactionManager)
                && final(self)@ == old(self)@,
    {
        match self.tx_snapshot.take() {
            Some(saved) => {
                self.db = saved;
                Ok(())
            }
            None => Err(StorageError::BrokenTransactionManager),
        }
    }
}

} // verus!
