//! The transaction coordinator.
//!
//! A provider owns the connection for the lifetime of a unit of work, so
//! exclusive access during a transaction is Rust ownership itself: the
//! work closure receives the connection by value and must hand it back
//! before commit or rollback is issued — there is no way to retain a
//! second live handle past the closure's completion.

use vstd::prelude::*;

use crate::db_connection::{data_wf, ConnView, DataView, DbConnection};
use crate::store::{EncryptedMessageStore, StoreView};
use crate::StorageError;

verus! {

/// A caller-supplied retry policy: how many attempts in all a transient,
/// retryable failure is given.  Only the attempt count is modelled here:
/// backoff is a matter of sleeping between attempts, which the library
/// performs no I/O for — pacing the attempts is the caller's concern.
#[derive(Clone, Copy, Debug, PartialEq, Eq, Structural)]
pub struct Retry {
    pub max_attempts: usize,
}

impl Default for Retry {
    /// Five attempts in all, matching the customary default.
    fn default() -> (r: Self)
        ensures
            r.max_attempts == 5,
    {
        Retry { max_attempts: 5 }
    }
}

/// The provider handed to cryptographic operations: it carries the one
/// connection their entity writes go through.
pub struct XmtpOpenMlsProvider {
    pub(crate) conn: DbConnection,
}

impl XmtpOpenMlsProvider {
    /// The model of this provider: that of its connection.
    pub open(crate) spec fn model(&self) -> ConnView {
        self.conn@
    }

    /// The provider is well formed when its connection is.
    pub open spec fn wf(&self) -> bool {
        data_wf(self@.data) && match self@.tx {
            Some(d) => data_wf(d),
            None => true,
        }
    }

    /// Whether a transaction is active on the held connection.
    pub open spec fn in_transaction(&self) -> bool {
        self@.tx is Some
    }

    /// Wrap a connection.
    pub fn new(conn: DbConnection) -> (r: XmtpOpenMlsProvider)
        ensures
            r@ == conn@,
    {
        XmtpOpenMlsProvider { conn }
    }

    /// Read access to the held connection.
    pub fn conn_ref(&self) -> (r: &DbConnection)
        ensures
            r@ == self@,
    {
        &self.conn
    }

    /// Give the connection up.
    pub fn into_conn(self) -> (r: DbConnection)
        ensures
            r@ == self@,
    {
        self.conn
    }
}

impl View for XmtpOpenMlsProvider {
    type V = ConnView;

    open spec fn view(&self) -> ConnView {
        self.model()
    }
}

/// The connection as a freshly begun transaction presents it: the same
/// contents, saved once over for rollback.
pub open spec fn begun_view(d: DataView) -> ConnView {
    ConnView { data: d, tx: Some(d) }
}

/// Resolve the outcome of a failed unit of work against the outcome of
/// the rollback that followed it.  The original failure is what the
/// caller must see; a rollback error supersedes it only when the
/// rollback failed for a reason other than the transaction manager being
/// already broken — that condition is a consequence of the failure, not
/// its cause.
pub fn resolve_rollback_outcome(original: StorageError, rollback: Result<(), StorageError>) -> (r:
    StorageError)
    ensures
        r == (match rollback {
            Ok(u) => original,
            Err(e) => if e is BrokenTransactionManager {
                original
            } else {
                e
            },
        }),
{
    match rollback {
        Ok(()) => original,
        Err(e) => match e {
            StorageError::BrokenTransactionManager => original,
            _ => e,
        },
    }
}

impl XmtpOpenMlsProvider {
    /// Run a unit of work inside a transaction: begin, hand the
    /// connection to the work, and on `Ok` commit — on `Err` roll back,
    /// re-returning the work's own error (see
    /// [`resolve_rollback_outcome`] for what a rollback failure may
    /// change).  Whatever the work did, an `Err` result leaves the
    /// contents exactly as they were.  A begin while a transaction is
    /// already active reports the engine's lock as busy.
    pub fn transaction<T, F>(&mut self, f: F) -> (r: Result<T, StorageError>) where
        F: FnOnce(DbConnection) -> (DbConnection, Result<T, StorageError>),

        requires
            old(self).wf(),
            forall|c: DbConnection|
                c@ == begun_view(old(self)@.data) ==> #[trigger] call_requires(f, (c,)),
            forall|c1: DbConnection, c2: DbConnection, out: Result<T, StorageError>|
                c1.wf() && #[trigger] call_ensures(f, (c1,), (c2, out)) ==> c2.wf(),
        ensures
            final(self).wf(),
            old(self).in_transaction() ==> r == Err::<T, StorageError>(StorageError::Busy)
                && final(self)@ == old(self)@,
            !old(self).in_transaction() ==> !final(self).in_transaction() && (match r {
                Ok(v) => exists|c1: DbConnection, c2: DbConnection|
                    c1@ == begun_view(old(self)@.data) && #[trigger] call_ensures(
                        f,
                        (c1,),
                        (c2, Ok::<T, StorageError>(v)),
                    ) && c2.in_transaction() && final(self)@.data == c2@.data,
                Err(e) => final(self)@.data == old(self)@.data && ((exists|
                    c1: DbConnection,
                    c2: DbConnection,
                |
                    c1@ == begun_view(old(self)@.data) && #[trigger] call_ensures(
                        f,
                        (c1,),
                        (c2, Err::<T, StorageError>(e)),
                    )) || (e is BrokenTransactionManager && exists|
                    c1: DbConnection,
                    c2: DbConnection,
                    v: T,
                |
                    c1@ == begun_view(old(self)@.data) && #[trigger] call_ensures(
                        f,
                        (c1,),
                        (c2, Ok::<T, StorageError>(v)),
                    ) && !c2.in_transaction())),
            }),
    {
        let mut work = DbConnection::new_unmigrated();
        core::mem::swap(&mut self.conn, &mut work);
        let snapshot = work.db.clone_data();
        match work.begin_transaction() {
            Err(e) => {
                self.conn = work;
                return Err(e);
            }
            Ok(()) => {}
        }
        let (c2, res) = f(work);
        match res {
            Ok(v) => {
                let mut committed = c2;
                match committed.commit_transaction() {
                    Ok(()) => {
                        self.conn = committed;
                        Ok(v)
                    }
                    Err(_) => {
                        // The work gave the transaction up on its own: treat
                        // the attempt as failed and restore the saved
                        // contents.
                        self.conn = DbConnection { db: snapshot, tx_snapshot: None };
                        Err(StorageError::BrokenTransactionManager)
                    }
                }
            }
            Err(e) => {
                let mut rolled = c2;
                let rollback_result = rolled.rollback_transaction();
                self.conn = DbConnection { db: snapshot, tx_snapshot: None };
                Err(resolve_rollback_outcome(e, rollback_result))
            }
        }
    }

    /// The retrying variant: run the transaction, and give a retryable
    /// failure (the engine's busy lock) up to the policy's number of
    /// attempts in all.  A non-retryable error propagates after a single
    /// attempt.
    pub fn retryable_transaction<T, F>(&mut self, retry: Option<Retry>, f: F) -> (r: Result<
        T,
        StorageError,
    >) where F: FnOnce(DbConnection) -> (DbConnection, Result<T, StorageError>) + Copy,
        requires
            old(self).wf(),
            forall|c: DbConnection|
                c@ == begun_view(old(self)@.data) ==> #[trigger] call_requires(f, (c,)),
            forall|c1: DbConnection, c2: DbConnection, out: Result<T, StorageError>|
                c1.wf() && #[trigger] call_ensures(f, (c1,), (c2, out)) ==> c2.wf(),
        ensures
            final(self).wf(),
            old(self).in_transaction() ==> r == Err::<T, StorageError>(StorageError::Busy)
                && final(self)@ == old(self)@,
            !old(self).in_transaction() ==> !final(self).in_transaction() && (match r {
                Ok(v) => exists|c1: DbConnection, c2: DbConnection|
                    c1@ == begun_view(old(self)@.data) && #[trigger] call_ensures(
                        f,
                        (c1,),
                        (c2, Ok::<T, StorageError>(v)),
                    ) && c2.in_transaction() && final(self)@.data == c2@.data,
                Err(e) => final(self)@.data == old(self)@.data && ((exists|
                    c1: DbConnection,
                    c2: DbConnection,
                |
                    c1@ == begun_view(old(self)@.data) && #[trigger] call_ensures(
                        f,
                        (c1,),
                        (c2, Err::<T, StorageError>(e)),
                    )) || (e is BrokenTransactionManager && exists|
                    c1: DbConnection,
                    c2: DbConnection,
                    v: T,
                |
                    c1@ == begun_view(old(self)@.data) && #[trigger] call_ensures(
                        f,
                        (c1,),
                        (c2, Ok::<T, StorageError>(v)),
                    ) && !c2.in_transaction())),
            }),
    {
        let policy = match retry {
            Some(p) => p,
            None => Retry::default(),
        };
        let mut attempts: usize = if policy.max_attempts == 0 {
            1
        } else {
            policy.max_attempts
        };
        while attempts > 1
            invariant
                self.wf(),
                self@ == old(self)@,
                forall|c: DbConnection|
                    c@ == begun_view(old(self)@.data) ==> #[trigger] call_requires(f, (c,)),
                forall|c1: DbConnection, c2: DbConnection, out: Result<T, StorageError>|
                    c1.wf() && #[trigger] call_ensures(f, (c1,), (c2, out)) ==> c2.wf(),
            decreases attempts,
        {
            let result = self.transaction(f);
            match result {
                Ok(v) => {
                    return Ok(v);
                }
                Err(e) => {
                    if !e.is_retryable() {
                        return Err(e);
                    }
                }
            }
            proof {
                assert(self@ =~= old(self)@);
            }
            attempts = attempts - 1;
        }
        self.transaction(f)
    }
}

impl EncryptedMessageStore {
    /// Wrap the pooled connection in a provider for cryptographic
    /// operations.
    pub fn mls_provider(&mut self) -> (r: Result<XmtpOpenMlsProvider, StorageError>)
        requires
            old(self).wf(),
        ensures
            final(self).wf(),
            match old(self)@.conn {
                Some(c) => (r matches Ok(p) && p@ == c && p.wf() && final(self)@ == (StoreView {
                    conn: None,
                    ..old(self)@
                })),
                None => (r matches Err(e) && e matches StorageError::EngineError(m) && m@
                    == crate::store::no_connection_message() && final(self)@ == old(self)@),
            },
    {
        match self.conn() {
            Ok(c) => Ok(XmtpOpenMlsProvider::new(c)),
            Err(e) => Err(e),
        }
    }
}

} // verus!
