//! The connection provider: constructing a validated, optionally
//! encrypted store, and the open/release/reconnect lifecycle of its one
//! writer connection.
//!
//! The platform's encrypted-file technology is out of scope; what it
//! leaves on disk is modelled by `EncryptedFile`, whose key tag stands
//! for the ciphertext's dependence on the key that wrote it (no key is
//! persisted).  Construction validates the supplied key against that tag
//! and then runs every pending migration before any other operation is
//! permitted.

use vstd::prelude::*;

use crate::db_connection::{bytes_eq, data_wf, ConnView, DataView, Database, DbConnection};
use crate::group::StoredGroup;
use crate::migrations::{migrate_range, MIGRATION_COUNT};
use crate::StorageError;

verus! {

use vstd::string::StringExecFns;

/// A fixed-size 32-byte encryption secret.
pub type EncryptionKey = [u8; 32];

/// How the store is backed: a closed choice.
#[derive(Clone, Debug)]
pub enum StorageOption {
    /// No persistence; the store exists for the process lifetime only.
    Ephemeral,
    /// A durable, file-backed store at the given path.
    Persistent(String),
}

impl Default for StorageOption {
    /// The default backing is ephemeral.
    fn default() -> (r: Self)
        ensures
            r is Ephemeral,
    {
        StorageOption::Ephemeral
    }
}

/// What the engine leaves on disk for a persistent store: contents that
/// only the key they were written under can open.
pub struct EncryptedFile {
    /// Which key the ciphertext requires: the model of the encrypted
    /// file's key dependence, not a stored copy of the key.  `None`
    /// models an explicitly unencrypted store.
    pub(crate) key_tag: Option<Vec<u8>>,
    pub(crate) data: Database,
}

/// The mathematical model of the on-disk image.
pub ghost struct FileView {
    pub key_tag: Option<Seq<u8>>,
    pub data: DataView,
}

impl EncryptedFile {
    /// The model of this image.
    pub open(crate) spec fn model(&self) -> FileView {
        FileView {
            key_tag: match self.key_tag {
                Some(k) => Some(k@),
                None => None,
            },
            data: self.data.view(),
        }
    }

    /// An image is well formed when its contents are.
    pub open spec fn wf(&self) -> bool {
        data_wf(self@.data)
    }
}

impl View for EncryptedFile {
    type V = FileView;

    open spec fn view(&self) -> FileView {
        self.model()
    }
}

/// Manages the store: construction-time validation, the migration run,
/// and the pool (of one writer) handing out the connection.
pub struct EncryptedMessageStore {
    pub(crate) opts: StorageOption,
    pub(crate) enc_key: Option<Vec<u8>>,
    pub(crate) conn: Option<DbConnection>,
    pub(crate) file: Option<EncryptedFile>,
}

/// The mathematical model of the store.
pub ghost struct StoreView {
    /// Whether the store is file backed.
    pub persistent: bool,
    /// The encryption key the store was opened with, if any.
    pub enc_key: Option<Seq<u8>>,
    /// The connection at rest in the pool, if it has not been handed out.
    pub conn: Option<ConnView>,
    /// The last durably written image, for a persistent store.
    pub file: Option<FileView>,
}

impl EncryptedMessageStore {
    /// The model of this store.
    pub open(crate) spec fn model(&self) -> StoreView {
        StoreView {
            persistent: self.opts is Persistent,
            enc_key: match self.enc_key {
                Some(k) => Some(k@),
                None => None,
            },
            conn: match self.conn {
                Some(c) => Some(c@),
                None => None,
            },
            file: match self.file {
                Some(f) => Some(f@),
                None => None,
            },
        }
    }

    /// The pooled connection is well formed and idle, the image is well
    /// formed and opens under the store's own key, and only a persistent
    /// store has one.
    pub open spec fn wf(&self) -> bool {
        &&& match self@.conn {
            Some(c) => data_wf(c.data) && c.tx is None,
            None => true,
        }
        &&& match self@.file {
            Some(f) => data_wf(f.data) && f.key_tag == self@.enc_key && self@.persistent,
            None => !self@.persistent,
        }
    }
}

impl View for EncryptedMessageStore {
    type V = StoreView;

    open spec fn view(&self) -> StoreView {
        self.model()
    }
}

/// The table an engine read-back assembles to: each row enters at its
/// creation-time position; a second row with an id already placed
/// violates the table's primary key, and nothing assembles.
pub open spec fn assembled_groups(rows: Seq<crate::group::GroupView>) -> Option<
    Seq<crate::group::GroupView>,
>
    decreases rows.len(),
{
    if rows.len() == 0 {
        Some(Seq::<crate::group::GroupView>::empty())
    } else {
        match assembled_groups(rows.drop_last()) {
            Some(gs) => if crate::db_connection::contains_id(gs, rows.last().id) {
                None
            } else {
                Some(crate::group::sorted_insert(gs, rows.last()))
            },
            None => None,
        }
    }
}

/// Once some prefix of the rows fails to assemble, the whole read-back
/// fails to assemble.
proof fn lemma_assembled_prefix_failure(rows: Seq<crate::group::GroupView>, k: int)
    requires
        0 <= k <= rows.len(),
        assembled_groups(rows.take(k)) is None,
    ensures
        assembled_groups(rows) is None,
    decreases rows.len() - k,
{
    if k < rows.len() {
        assert(rows.take(k + 1).drop_last() =~= rows.take(k));
        lemma_assembled_prefix_failure(rows, k + 1);
    } else {
        assert(rows.take(k) =~= rows);
    }
}

impl EncryptedFile {
    /// Assemble an on-disk image from what the engine read back: the key
    /// tag the file was written under, the group rows (in any order), the
    /// identity record and the persisted schema-version marker.  Rows are
    /// placed in creation-time order; two rows sharing an id violate the
    /// table's primary key, and the assembly is refused.
    pub fn from_rows(
        key_tag: Option<Vec<u8>>,
        rows: Vec<StoredGroup>,
        identity_inbox_id: Option<String>,
        schema_version: usize,
    ) -> (r: Result<EncryptedFile, StorageError>)
        ensures
            match assembled_groups(crate::db_connection::groups_model(rows@)) {
                Some(gs) => (r matches Ok(f) && f.wf() && f@ == (FileView {
                    key_tag: (match key_tag {
                        Some(k) => Some(k@),
                        None => None,
                    }),
                    data: DataView {
                        groups: gs,
                        identity_inbox_id: crate::group::opt_string_view(identity_inbox_id),
                        schema_version: schema_version as int,
                    },
                })),
                None => (r matches Err(e) && e matches StorageError::EngineError(m) && m@
                    == crate::group::unique_id_violation_message()),
            },
    {
        let ghost rv = crate::db_connection::groups_model(rows@);
        let mut conn = DbConnection::new_unmigrated();
        let mut i: usize = 0;
        while i < rows.len()
            invariant
                0 <= i <= rows.len(),
                rv == crate::db_connection::groups_model(rows@),
                conn.wf(),
                assembled_groups(rv.take(i as int)) == Some(conn@.data.groups),
            decreases rows.len() - i,
        {
            let row = rows[i].clone();
            proof {
                assert(rv[i as int] == rows@[i as int]@);
                assert(rv.take(i + 1).drop_last() =~= rv.take(i as int));
                assert(rv.take(i + 1).last() == rv[i as int]);
            }
            match conn.index_of_id(row.id.as_slice()) {
                Some(_) => {
                    proof {
                        assert(crate::db_connection::contains_id(conn@.data.groups, row@.id));
                        assert(assembled_groups(rv.take(i + 1)) is None);
                        lemma_assembled_prefix_failure(rv, i + 1);
                    }
                    return Err(StorageError::EngineError(
                        crate::group::unique_id_violation_string(),
                    ));
                }
                None => {
                    conn.insert_group_row(row);
                }
            }
            i = i + 1;
        }
        proof {
            assert(rv.take(rows@.len() as int) =~= rv);
        }
        let mut db = conn.db;
        db.identity_inbox_id = identity_inbox_id;
        db.schema_version = schema_version;
        Ok(EncryptedFile { key_tag, data: db })
    }
}

/// The model of an optional image reference.
pub open spec fn opt_file_view(o: Option<&EncryptedFile>) -> Option<FileView> {
    match o {
        Some(f) => Some(f@),
        None => None,
    }
}

/// The contents a store opens onto before migration: the image's, or
/// empty where there is none.
pub open spec fn initial_data(existing: Option<FileView>) -> DataView {
    match existing {
        Some(f) => f.data,
        None => DataView { groups: Seq::<crate::group::GroupView>::empty(), identity_inbox_id: None, schema_version: 0 },
    }
}

/// The contents after construction: the initial contents with every
/// pending migration applied.
pub open spec fn opened_data(existing: Option<FileView>) -> DataView {
    migrate_range(
        initial_data(existing),
        initial_data(existing).schema_version,
        MIGRATION_COUNT as int,
    )
}

/// Law: reopening is faithful.  An image whose contents have every
/// migration applied — as every image a store writes does — opens onto
/// exactly those contents: release followed by reconnect observes every
/// previously committed write.
pub proof fn lemma_reopen_preserves_released_data(f: FileView)
    requires
        f.data.schema_version == MIGRATION_COUNT as int,
    ensures
        opened_data(Some(f)) == f.data,
{
}

/// Whether the supplied key (or its absence) opens the image.
pub open spec fn key_opens(supplied: Option<Seq<u8>>, file: FileView) -> bool {
    file.key_tag == supplied
}

/// The message of the error for a connection requested while none is in
/// the pool.
pub open spec fn no_connection_message() -> Seq<char> {
    "no connection available"@
}

fn clone_key(k: &Option<Vec<u8>>) -> (r: Option<Vec<u8>>)
    ensures
        (match r {
            Some(v) => Some(v@),
            None => None,
        }) == (match *k {
            Some(v) => Some(v@),
            None => None,
        }),
{
    match k {
        Some(v) => Some(crate::group::clone_bytes(v)),
        None => None,
    }
}

fn key_to_vec(k: &EncryptionKey) -> (r: Vec<u8>)
    ensures
        r@ == k@,
{
    let mut out: Vec<u8> = Vec::new();
    let mut i: usize = 0;
    while i < 32
        invariant
            0 <= i <= 32,
            k@.len() == 32,
            out@ == k@.take(i as int),
        decreases 32 - i,
    {
        out.push(k[i]);
        proof {
            assert(out@ =~= k@.take(i + 1));
        }
        i = i + 1;
    }
    proof {
        assert(k@.take(32) =~= k@);
    }
    out
}

impl EncryptedMessageStore {
    /// Whether the supplied key (or its absence) can open the existing
    /// image.  A wrong key for an encrypted image, a key for a plaintext
    /// image, and a missing key for an encrypted image all fail: none of
    /// them may silently produce garbage or an empty database.
    fn key_fits(supplied: &Option<Vec<u8>>, existing: &EncryptedFile) -> (r: bool)
        ensures
            r == key_opens(
                (match *supplied {
                    Some(k) => Some(k@),
                    None => None,
                }),
                existing@,
            ),
    {
        match (supplied, &existing.key_tag) {
            (Some(k), Some(tag)) => bytes_eq(k.as_slice(), tag.as_slice()),
            (None, None) => true,
            _ => false,
        }
    }

    /// Construct the store: validate the key against the image, then run
    /// every pending migration.  This is the single private entry shared
    /// by the encrypted and the unencrypted construction.
    fn new_database(
        opts: StorageOption,
        enc_key: Option<Vec<u8>>,
        existing: Option<&EncryptedFile>,
    ) -> (r: Result<EncryptedMessageStore, StorageError>)
        requires
            match existing {
                Some(f) => f.wf(),
                None => true,
            },
        ensures
            (opts is Ephemeral) ==> (r matches Ok(s) && s.wf() && s@ == (StoreView {
                persistent: false,
                enc_key: (match enc_key {
                    Some(k) => Some(k@),
                    None => None,
                }),
                conn: Some(ConnView { data: opened_data(None), tx: None }),
                file: None,
            })),
            (opts is Persistent && (match opt_file_view(existing) {
                Some(f) => key_opens(
                    (match enc_key {
                        Some(k) => Some(k@),
                        None => None,
                    }),
                    f,
                ),
                None => true,
            })) ==> (r matches Ok(s) && s.wf() && s@ == (StoreView {
                persistent: true,
                enc_key: (match enc_key {
                    Some(k) => Some(k@),
                    None => None,
                }),
                conn: Some(ConnView { data: opened_data(opt_file_view(existing)), tx: None }),
                file: Some(FileView {
                    key_tag: (match enc_key {
                        Some(k) => Some(k@),
                        None => None,
                    }),
                    data: opened_data(opt_file_view(existing)),
                }),
            })),
            (opts is Persistent && (match opt_file_view(existing) {
                Some(f) => !key_opens(
                    (match enc_key {
                        Some(k) => Some(k@),
                        None => None,
                    }),
                    f,
                ),
                None => false,
            })) ==> r == Err::<EncryptedMessageStore, StorageError>(
                StorageError::SqlCipherKeyIncorrect,
            ),
    {
        let persistent = match &opts {
            StorageOption::Persistent(_) => true,
            StorageOption::Ephemeral => false,
        };
        let mut conn = if persistent {
            match existing {
                Some(f) => {
                    if !Self::key_fits(&enc_key, f) {
                        return Err(StorageError::SqlCipherKeyIncorrect);
                    }
                    DbConnection { db: f.data.clone_data(), tx_snapshot: None }
                }
                None => DbConnection::new_unmigrated(),
            }
        } else {
            DbConnection::new_unmigrated()
        };
        conn.run_pending_migrations().unwrap();
        let file = if persistent {
            Some(EncryptedFile { key_tag: clone_key(&enc_key), data: conn.db.clone_data() })
        } else {
            None
        };
        Ok(EncryptedMessageStore { opts, enc_key, conn: Some(conn), file })
    }

    /// Construct an encrypted store.  For a persistent configuration the
    /// key must open the existing image: a mismatch fails with the
    /// distinguished key error, and no data is returned.
    pub fn new(opts: StorageOption, enc_key: EncryptionKey, existing: Option<&EncryptedFile>) -> (r:
        Result<EncryptedMessageStore, StorageError>)
        requires
            match existing {
                Some(f) => f.wf(),
                None => true,
            },
        ensures
            (opts is Ephemeral) ==> (r matches Ok(s) && s.wf() && s@ == (StoreView {
                persistent: false,
                enc_key: Some(enc_key@),
                conn: Some(ConnView { data: opened_data(None), tx: None }),
                file: None,
            })),
            (opts is Persistent && (match opt_file_view(existing) {
                Some(f) => key_opens(Some(enc_key@), f),
                None => true,
            })) ==> (r matches Ok(s) && s.wf() && s@ == (StoreView {
                persistent: true,
                enc_key: Some(enc_key@),
                conn: Some(ConnView { data: opened_data(opt_file_view(existing)), tx: None }),
                file: Some(FileView {
                    key_tag: Some(enc_key@),
                    data: opened_data(opt_file_view(existing)),
                }),
            })),
            (opts is Persistent && (match opt_file_view(existing) {
                Some(f) => !key_opens(Some(enc_key@), f),
                None => false,
            })) ==> r == Err::<EncryptedMessageStore, StorageError>(
                StorageError::SqlCipherKeyIncorrect,
            ),
    {
        Self::new_database(opts, Some(key_to_vec(&enc_key)), existing)
    }

    /// Construct an explicitly unencrypted store.  This distinct entry
    /// point exists so that plaintext persistence can never be selected
    /// by accident.
    pub fn new_unencrypted(opts: StorageOption, existing: Option<&EncryptedFile>) -> (r: Result<
        EncryptedMessageStore,
        StorageError,
    >)
        requires
            match existing {
                Some(f) => f.wf(),
                None => true,
            },
        ensures
            (opts is Ephemeral) ==> (r matches Ok(s) && s.wf() && s@ == (StoreView {
                persistent: false,
                enc_key: None,
                conn: Some(ConnView { data: opened_data(None), tx: None }),
                file: None,
            })),
            (opts is Persistent && (match opt_file_view(existing) {
                Some(f) => key_opens(None, f),
                None => true,
            })) ==> (r matches Ok(s) && s.wf() && s@ == (StoreView {
                persistent: true,
                enc_key: None,
                conn: Some(ConnView { data: opened_data(opt_file_view(existing)), tx: None }),
                file: Some(FileView {
                    key_tag: None,
                    data: opened_data(opt_file_view(existing)),
                }),
            })),
            (opts is Persistent && (match opt_file_view(existing) {
                Some(f) => !key_opens(None, f),
                None => false,
            })) ==> r == Err::<EncryptedMessageStore, StorageError>(
                StorageError::SqlCipherKeyIncorrect,
            ),
    {
        Self::new_database(opts, None, existing)
    }

    /// Check that the store's backing is as the options expect: a
    /// persistent store's image must open under the store's own key.
    /// Construction establishes this, and every operation preserves it,
    /// so a well formed store always validates.
    pub fn validate(&self, _opts: &StorageOption) -> (r: Result<(), StorageError>)
        ensures
            r == (if (match self@.file {
                Some(f) => key_opens(self@.enc_key, f),
                None => true,
            }) {
                Ok::<(), StorageError>(())
            } else {
                Err::<(), StorageError>(StorageError::SqlCipherKeyIncorrect)
            }),
            self.wf() ==> r is Ok,
    {
        match &self.file {
            Some(f) => {
                if Self::key_fits(&self.enc_key, f) {
                    Ok(())
                } else {
                    Err(StorageError::SqlCipherKeyIncorrect)
                }
            }
            None => Ok(()),
        }
    }

    /// Pull the connection from the pool.  The engine is single writer,
    /// so the pool holds one connection: while it is out (or after the
    /// store released it), asking again is an engine error.
    pub fn conn(&mut self) -> (r: Result<DbConnection, StorageError>)
        requires
            old(self).wf(),
        ensures
            final(self).wf(),
            match old(self)@.conn {
                Some(c) => (r matches Ok(conn) && conn@ == c && conn.wf() && final(self)@
                    == (StoreView { conn: None, ..old(self)@ })),
                None => (r matches Err(e) && e matches StorageError::EngineError(m) && m@
                    == no_connection_message() && final(self)@ == old(self)@),
            },
    {
        match self.conn.take() {
            Some(c) => Ok(c),
            None => Err(StorageError::EngineError(String::from_str("no connection available"))),
        }
    }

    /// Close the connection: put it back and, for a persistent store,
    /// durably write its contents as the new on-disk image.  After this,
    /// `reconnect` reopens the same backing image from a clean state.
    pub fn release_connection(&mut self, conn: DbConnection) -> (r: Result<(), StorageError>)
        requires
            old(self).wf(),
            data_wf(conn@.data),
            !conn.in_transaction(),
        ensures
            final(self).wf(),
            r == Ok::<(), StorageError>(()),
            final(self)@ == (StoreView {
                conn: None,
                file: if old(self)@.persistent {
                    Some(FileView { key_tag: old(self)@.enc_key, data: conn@.data })
                } else {
                    None
                },
                ..old(self)@
            }),
    {
        let persistent = match &self.opts {
            StorageOption::Persistent(_) => true,
            StorageOption::Ephemeral => false,
        };
        self.conn = None;
        if persistent {
            self.file = Some(EncryptedFile {
                key_tag: clone_key(&self.enc_key),
                data: conn.db,
            });
        } else {
            self.file = None;
        }
        Ok(())
    }

    /// Reopen the store's backing after a release: a persistent store
    /// observes every previously released write; an ephemeral store
    /// starts empty again.  With the connection still in the pool this is
    /// a no-op.
    pub fn reconnect(&mut self) -> (r: Result<(), StorageError>)
        requires
            old(self).wf(),
        ensures
            final(self).wf(),
            r == Ok::<(), StorageError>(()),
            old(self)@.conn is Some ==> final(self)@ == old(self)@,
            old(self)@.conn is None ==> final(self)@ == (StoreView {
                conn: Some(ConnView { data: opened_data(old(self)@.file), tx: None }),
                ..old(self)@
            }),
    {
        if let Some(_) = &self.conn {
            return Ok(());
        }
        let mut conn = match &self.file {
            Some(f) => DbConnection { db: f.data.clone_data(), tx_snapshot: None },
            None => DbConnection::new_unmigrated(),
        };
        conn.run_pending_migrations().unwrap();
        self.conn = Some(conn);
        Ok(())
    }

    /// Tear the store down, final-flushing the held connection if it was
    /// never released, and hand back the on-disk image (for a persistent
    /// store) as the engine would leave it.
    pub fn close(self) -> (r: Option<EncryptedFile>)
        requires
            self.wf(),
        ensures
            (match r {
                Some(f) => Some(f@),
                None => None,
            }) == (if self@.persistent {
                Some(FileView {
                    key_tag: self@.enc_key,
                    data: match self@.conn {
                        Some(c) => c.data,
                        None => match self@.file {
                            Some(f) => f.data,
                            None => initial_data(None),
                        },
                    },
                })
            } else {
                None::<FileView>
            }),
            (match r {
                Some(f) => f.wf(),
                None => true,
            }),
    {
        let persistent = match &self.opts {
            StorageOption::Persistent(_) => true,
            StorageOption::Ephemeral => false,
        };
        if !persistent {
            return None;
        }
        match self.conn {
            Some(c) => Some(EncryptedFile { key_tag: clone_key(&self.enc_key), data: c.db }),
            None => match self.file {
                Some(f) => Some(EncryptedFile { key_tag: clone_key(&self.enc_key), data: f.data }),
                None => None,
            },
        }
    }
}

} // verus!
