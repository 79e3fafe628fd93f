//! Durable, encrypted local storage layer for a secure group-messaging
//! protocol.
//!
//! The crate models the relational engine underneath the store as a value
//! (`DbConnection` owns the table contents), which lets every query, the
//! idempotent welcome-application protocol, the transaction state machine
//! and the migration runner be verified against exact contracts.  The
//! platform-specific encrypted-file technology is out of scope and is
//! represented at its interface boundary only.

use vstd::prelude::*;

pub mod db_connection;
pub mod group;
pub mod migrations;
pub mod provider;
pub mod store;

verus! {

/// Identifies which unique value a protocol-level duplicate insert collided
/// on.
#[derive(Debug, Clone, PartialEq, Eq)]
pub enum DuplicateItem {
    /// A welcome message with this sequence id was already applied.
    WelcomeId(Option<i64>),
}

/// The error taxonomy of the storage layer.
#[derive(Debug, Clone, PartialEq, Eq)]
pub enum StorageError {
    /// A point lookup found no row where one was required.
    NotFound(String),
    /// A unique-constraint conflict that indicates a protocol-level problem,
    /// distinct from benign duplicates absorbed by `store_or_ignore`.
    Duplicate(DuplicateItem),
    /// The encryption key supplied does not match the key that created the
    /// persistent store.
    SqlCipherKeyIncorrect,
    /// The engine could not acquire the write lock because another
    /// transaction is active.  This is the one retryable error.
    Busy,
    /// The underlying transaction state machine is unusable.  It never
    /// surfaces over a preceding business error.
    BrokenTransactionManager,
    /// Any other backing-engine failure, propagated unchanged.
    EngineError(String),
}

impl StorageError {
    /// Only lock contention is transient; every other failure is final and
    /// must propagate after a single attempt.
    pub fn is_retryable(&self) -> (r: bool)
        ensures
            r == (self is Busy),
    {
        match self {
            StorageError::Busy => true,
            _ => false,
        }
    }
}

/// The views of an optional value.
pub open spec fn opt_view<T: View>(o: Option<T>) -> Option<T::V> {
    match o {
        Some(x) => Some(x@),
        None => None,
    }
}

/// The views of a sequence of values.
pub open spec fn seq_view<T: View>(s: Seq<T>) -> Seq<T::V> {
    s.map_values(|x: T| x@)
}

/// Fetch an entity by its key.
///
/// Part of the generic repository contract shared by every persisted
/// entity type; `Model` is the entity and `Self` the connection it is
/// read from.
pub trait Fetch<Model: View> {
    /// The key type of the entity.
    type Key;

    /// When the connection is fit to be queried.
    spec fn valid(&self) -> bool;

    /// The model of the entity stored under the key, if any.
    spec fn fetched(&self, key: &Self::Key) -> Option<Model::V>;

    /// Return the entity whose primary key equals `key`, or `None` if
    /// absent.
    fn fetch(&self, key: &Self::Key) -> (r: Result<Option<Model>, StorageError>)
        requires
            self.valid(),
        ensures
            (r matches Ok(o) && opt_view(o) == self.fetched(key)),
    ;
}

/// Fetch every stored entity of one type.
pub trait FetchList<Model: View> {
    /// When the connection is fit to be queried.
    spec fn valid(&self) -> bool;

    /// The models of all stored entities, in the entity's defined order.
    spec fn listed(&self) -> Seq<Model::V>;

    /// Return all rows of the entity.
    fn fetch_list(&self) -> (r: Result<Vec<Model>, StorageError>)
        requires
            self.valid(),
        ensures
            (r matches Ok(v) && seq_view(v@) == self.listed()),
    ;
}

/// Fetch every stored entity whose indexed column matches one of the
/// given keys.
pub trait FetchListWithKey<Model: View> {
    /// The type of the indexed column.
    type Key;

    /// When the connection is fit to be queried.
    spec fn valid(&self) -> bool;

    /// The models of the matching entities, in the entity's defined
    /// order.
    spec fn listed_with_key(&self, keys: Seq<Self::Key>) -> Seq<Model::V>;

    /// Return all rows whose indexed column matches any of the keys.
    fn fetch_list_with_key(&self, keys: &[Self::Key]) -> (r: Result<Vec<Model>, StorageError>)
        requires
            self.valid(),
        ensures
            (r matches Ok(v) && seq_view(v@) == self.listed_with_key(keys@)),
    ;
}

/// Insert an entity, failing on a unique-constraint conflict.
///
/// This is the strict variant, used where a duplicate indicates a
/// protocol bug.
pub trait Store<Conn: View>: Sized {
    /// When the connection is fit to be written.
    spec fn conn_valid(conn: &Conn) -> bool;

    /// Whether inserting `self` would violate a unique constraint.
    spec fn store_conflicts(&self, conn: Conn::V) -> bool;

    /// The connection contents after the insert: changed only when no
    /// conflict stops it.
    spec fn store_effect(&self, conn: Conn::V) -> Conn::V;

    /// The message of the constraint-violation error.
    spec fn conflict_message(&self, conn: Conn::V) -> Seq<char>;

    /// Insert; fail with a constraint-violation error if the primary key
    /// (or another unique constraint) already holds.
    fn store(&self, into: &mut Conn) -> (r: Result<(), StorageError>)
        requires
            Self::conn_valid(old(into)),
        ensures
            Self::conn_valid(final(into)),
            final(into)@ == self.store_effect(old(into)@),
            r is Ok <==> !self.store_conflicts(old(into)@),
            (r matches Err(e) ==> (e matches StorageError::EngineError(m) && m@
                == self.conflict_message(old(into)@))),
    ;
}

/// Insert an entity, silently succeeding as a no-op on a
/// unique-constraint conflict.
///
/// Used where duplicate delivery is an expected, benign condition.
pub trait StoreOrIgnore<Conn: View>: Sized {
    /// When the connection is fit to be written.
    spec fn conn_valid(conn: &Conn) -> bool;

    /// Whether inserting `self` hits a unique constraint.
    spec fn ignore_conflicts(&self, conn: Conn::V) -> bool;

    /// The connection contents after the call: unchanged on a conflict,
    /// extended by the entity otherwise.
    spec fn ignore_effect(&self, conn: Conn::V) -> Conn::V;

    /// Insert, absorbing any unique-constraint conflict.
    fn store_or_ignore(&self, into: &mut Conn) -> (r: Result<(), StorageError>)
        requires
            Self::conn_valid(old(into)),
        ensures
            Self::conn_valid(final(into)),
            final(into)@ == self.ignore_effect(old(into)@),
            r is Ok,
    ;
}

/// The contents after storing the items left to right, stopping at the
/// first conflict.
pub open spec fn seq_store_effect<Conn: View, T: Store<Conn>>(
    items: Seq<T>,
    conn: Conn::V,
) -> Conn::V
    decreases items.len(),
{
    if items.len() == 0 {
        conn
    } else if items[0].store_conflicts(conn) {
        items[0].store_effect(conn)
    } else {
        seq_store_effect(items.drop_first(), items[0].store_effect(conn))
    }
}

/// Whether storing the items left to right meets no conflict.
pub open spec fn seq_store_ok<Conn: View, T: Store<Conn>>(items: Seq<T>, conn: Conn::V) -> bool
    decreases items.len(),
{
    if items.len() == 0 {
        true
    } else if items[0].store_conflicts(conn) {
        false
    } else {
        seq_store_ok(items.drop_first(), items[0].store_effect(conn))
    }
}

/// The message of the first conflict met when storing the items left to
/// right; empty if none is met.
pub open spec fn seq_store_message<Conn: View, T: Store<Conn>>(
    items: Seq<T>,
    conn: Conn::V,
) -> Seq<char>
    decreases items.len(),
{
    if items.len() == 0 {
        Seq::<char>::empty()
    } else if items[0].store_conflicts(conn) {
        items[0].conflict_message(conn)
    } else {
        seq_store_message(items.drop_first(), items[0].store_effect(conn))
    }
}

impl<Conn: View, T: Store<Conn>> Store<Conn> for Vec<T> {
    open spec fn conn_valid(conn: &Conn) -> bool {
        T::conn_valid(conn)
    }

    open spec fn store_conflicts(&self, conn: Conn::V) -> bool {
        !seq_store_ok(self@, conn)
    }

    open spec fn store_effect(&self, conn: Conn::V) -> Conn::V {
        seq_store_effect(self@, conn)
    }

    open spec fn conflict_message(&self, conn: Conn::V) -> Seq<char> {
        seq_store_message(self@, conn)
    }

    /// Store each item in order; the first conflict stops the walk and
    /// its error propagates, leaving the earlier items stored.
    fn store(&self, into: &mut Conn) -> (r: Result<(), StorageError>) {
        proof {
            assert(self@.skip(0) =~= self@);
        }
        let mut i: usize = 0;
        while i < self.len()
            invariant
                0 <= i <= self.len(),
                T::conn_valid(into),
                seq_store_effect(self@, old(into)@) == seq_store_effect(
                    self@.skip(i as int),
                    into@,
                ),
                seq_store_ok(self@, old(into)@) == seq_store_ok(self@.skip(i as int), into@),
                seq_store_message(self@, old(into)@) == seq_store_message(
                    self@.skip(i as int),
                    into@,
                ),
            decreases self.len() - i,
        {
            proof {
                assert(self@.skip(i as int)[0] == self@[i as int]);
                assert(self@.skip(i as int).drop_first() =~= self@.skip(i + 1));
            }
            match self[i].store(into) {
                Ok(()) => {}
                Err(e) => {
                    return Err(e);
                }
            }
            i = i + 1;
        }
        proof {
            assert(self@.skip(self.len() as int) =~= Seq::<T>::empty());
        }
        Ok(())
    }
}

} // verus!
