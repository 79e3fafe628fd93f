//! The group entity: one row per group conversation, together with the
//! membership/purpose state machine and its versioned integer persistence
//! codes.

use vstd::prelude::*;

verus! {

use vstd::string::StringExecFns;
use vstd::pervasive::VecAdditionalExecFns;
use crate::db_connection::{contains_id, groups_model, groups_only_changed, DbConnection};
use crate::{DuplicateItem, StorageError};

/// The group id type: an opaque byte identifier, globally unique, generated
/// by the group creator.
pub type ID = Vec<u8>;

/// Status of the local member's access to a group.
#[derive(Debug, Clone, Copy, PartialEq, Eq, Structural)]
pub enum GroupMembershipState {
    /// The local member may interact with this group.
    Allowed,
    /// The local member has been rejected from this group.
    Rejected,
    /// The local member is pending acceptance to the group.
    Pending,
}

/// What a group is for.  `Sync` groups carry protocol history-sync traffic
/// and are excluded from default conversation listings.
#[derive(Debug, Clone, Copy, PartialEq, Eq, Structural)]
pub enum Purpose {
    Conversation,
    Sync,
}

/// The versioned integer code under which a membership state is persisted.
pub open spec fn membership_code(s: GroupMembershipState) -> int {
    match s {
        GroupMembershipState::Allowed => 1,
        GroupMembershipState::Rejected => 2,
        GroupMembershipState::Pending => 3,
    }
}

/// The membership state a persisted integer code decodes to, if any.
pub open spec fn membership_from_code(code: int) -> Option<GroupMembershipState> {
    if code == 1 {
        Some(GroupMembershipState::Allowed)
    } else if code == 2 {
        Some(GroupMembershipState::Rejected)
    } else if code == 3 {
        Some(GroupMembershipState::Pending)
    } else {
        None
    }
}

/// The versioned integer code under which a purpose is persisted.
pub open spec fn purpose_code(p: Purpose) -> int {
    match p {
        Purpose::Conversation => 1,
        Purpose::Sync => 2,
    }
}

/// The purpose a persisted integer code decodes to, if any.
pub open spec fn purpose_from_code(code: int) -> Option<Purpose> {
    if code == 1 {
        Some(Purpose::Conversation)
    } else if code == 2 {
        Some(Purpose::Sync)
    } else {
        None
    }
}

impl GroupMembershipState {
    /// Encode for persistence under the fixed, versioned mapping.
    pub fn to_code(&self) -> (r: i32)
        ensures
            r == membership_code(*self),
    {
        match self {
            GroupMembershipState::Allowed => 1,
            GroupMembershipState::Rejected => 2,
            GroupMembershipState::Pending => 3,
        }
    }

    /// Decode a persisted integer code.  An unrecognized code fails loudly
    /// rather than default-substituting a state.
    pub fn from_code(code: i32) -> (r: Result<GroupMembershipState, crate::StorageError>)
        ensures
            match membership_from_code(code as int) {
                Some(s) => r == Ok::<GroupMembershipState, crate::StorageError>(s),
                None => r matches Err(e) && e matches crate::StorageError::EngineError(m)
                    && m@ == unrecognized_code_message(code as int),
            },
    {
        if code == 1 {
            Ok(GroupMembershipState::Allowed)
        } else if code == 2 {
            Ok(GroupMembershipState::Rejected)
        } else if code == 3 {
            Ok(GroupMembershipState::Pending)
        } else {
            Err(crate::StorageError::EngineError(unrecognized_code_string(code)))
        }
    }
}

impl Purpose {
    /// Encode for persistence under the fixed, versioned mapping.
    pub fn to_code(&self) -> (r: i32)
        ensures
            r == purpose_code(*self),
    {
        match self {
            Purpose::Conversation => 1,
            Purpose::Sync => 2,
        }
    }

    /// Decode a persisted integer code.  An unrecognized code fails loudly
    /// rather than default-substituting a purpose.
    pub fn from_code(code: i32) -> (r: Result<Purpose, crate::StorageError>)
        ensures
            match purpose_from_code(code as int) {
                Some(p) => r == Ok::<Purpose, crate::StorageError>(p),
                None => r matches Err(e) && e matches crate::StorageError::EngineError(m)
                    && m@ == unrecognized_code_message(code as int),
            },
    {
        if code == 1 {
            Ok(Purpose::Conversation)
        } else if code == 2 {
            Ok(Purpose::Sync)
        } else {
            Err(crate::StorageError::EngineError(unrecognized_code_string(code)))
        }
    }
}

/// One decimal digit.
pub open spec fn decimal_digit(d: int) -> char {
    if d == 0 { '0' } else if d == 1 { '1' } else if d == 2 { '2' } else if d == 3 { '3' }
    else if d == 4 { '4' } else if d == 5 { '5' } else if d == 6 { '6' } else if d == 7 { '7' }
    else if d == 8 { '8' } else { '9' }
}

/// The decimal rendering of a non-negative number, most significant digit
/// first.
pub open spec fn decimal_digits(n: nat) -> Seq<char>
    decreases n,
{
    if n < 10 {
        seq![decimal_digit(n as int)]
    } else {
        decimal_digits(n / 10) + seq![decimal_digit((n % 10) as int)]
    }
}

/// The decimal rendering of an integer, as the engine's row values print.
pub open spec fn decimal_of(n: int) -> Seq<char> {
    if n < 0 {
        seq!['-'] + decimal_digits((-n) as nat)
    } else {
        decimal_digits(n as nat)
    }
}

/// The message carried by the decode error for an unrecognized enum code:
/// it names the offending value.
pub open spec fn unrecognized_code_message(code: int) -> Seq<char> {
    "Unrecognized variant "@ + decimal_of(code)
}

fn decimal_digit_str(d: u64) -> (r: &'static str)
    requires
        d < 10,
    ensures
        r@ == seq![decimal_digit(d as int)],
{
    if d == 0 {
        proof {
            reveal_strlit("0");
            assert("0"@ =~= seq![decimal_digit(0)]);
        }
        "0"
    } else if d == 1 {
        proof {
            reveal_strlit("1");
            assert("1"@ =~= seq![decimal_digit(1)]);
        }
        "1"
    } else if d == 2 {
        proof {
            reveal_strlit("2");
            assert("2"@ =~= seq![decimal_digit(2)]);
        }
        "2"
    } else if d == 3 {
        proof {
            reveal_strlit("3");
            assert("3"@ =~= seq![decimal_digit(3)]);
        }
        "3"
    } else if d == 4 {
        proof {
            reveal_strlit("4");
            assert("4"@ =~= seq![decimal_digit(4)]);
        }
        "4"
    } else if d == 5 {
        proof {
            reveal_strlit("5");
            assert("5"@ =~= seq![decimal_digit(5)]);
        }
        "5"
    } else if d == 6 {
        proof {
            reveal_strlit("6");
            assert("6"@ =~= seq![decimal_digit(6)]);
        }
        "6"
    } else if d == 7 {
        proof {
            reveal_strlit("7");
            assert("7"@ =~= seq![decimal_digit(7)]);
        }
        "7"
    } else if d == 8 {
        proof {
            reveal_strlit("8");
            assert("8"@ =~= seq![decimal_digit(8)]);
        }
        "8"
    } else {
        proof {
            reveal_strlit("9");
            assert("9"@ =~= seq![decimal_digit(9)]);
        }
        "9"
    }
}

fn decimal_string_nat(n: u64) -> (r: String)
    ensures
        r@ == decimal_digits(n as nat),
    decreases n,
{
    if n < 10 {
        String::from_str(decimal_digit_str(n))
    } else {
        let mut s = decimal_string_nat(n / 10);
        s.append(decimal_digit_str(n % 10));
        proof {
            assert(s@ =~= decimal_digits(n as nat));
        }
        s
    }
}

fn decimal_string(code: i32) -> (r: String)
    ensures
        r@ == decimal_of(code as int),
{
    let wide: i64 = code as i64;
    if wide < 0 {
        let mut s = String::from_str("-");
        let magnitude: u64 = (-wide) as u64;
        s.append(decimal_string_nat(magnitude).as_str());
        proof {
            reveal_strlit("-");
            assert(s@ =~= decimal_of(code as int));
        }
        s
    } else {
        decimal_string_nat(wide as u64)
    }
}

fn unrecognized_code_string(code: i32) -> (r: String)
    ensures
        r@ == unrecognized_code_message(code as int),
{
    let mut s = String::from_str("Unrecognized variant ");
    s.append(decimal_string(code).as_str());
    proof {
        assert(s@ =~= unrecognized_code_message(code as int));
    }
    s
}

/// A unique group chat, as persisted: one row of the groups table.
#[derive(Debug, PartialEq)]
pub struct StoredGroup {
    /// Randomly generated id chosen by the group creator.
    pub id: Vec<u8>,
    /// Creation timestamp in nanoseconds since the epoch; immutable.
    pub created_at_ns: i64,
    /// Current access status of the local member.
    pub membership_state: GroupMembershipState,
    /// When the device/installation list was last refreshed; 0 means never.
    pub installations_last_checked: i64,
    /// Whether the group is user-facing or a protocol sync channel.
    pub purpose: Purpose,
    /// The inbox id of whoever added the local member (empty for
    /// self-created sync groups).
    pub added_by_inbox_id: String,
    /// The sequence id of the welcome message this group originated from;
    /// `None` for self-created groups.
    pub welcome_id: Option<i64>,
    /// The inbox id of the direct-message target, marking this group as a
    /// 1:1 conversation.
    pub dm_inbox_id: Option<String>,
    /// The normalized direct-message identifier derived from
    /// `dm_inbox_id` and the local identity by a one-time backfill
    /// migration; `None` until that migration has run.
    pub dm_id: Option<String>,
}

/// The mathematical model of one group row.
pub ghost struct GroupView {
    pub id: Seq<u8>,
    pub created_at_ns: int,
    pub membership_state: GroupMembershipState,
    pub installations_last_checked: int,
    pub purpose: Purpose,
    pub added_by_inbox_id: Seq<char>,
    pub welcome_id: Option<int>,
    pub dm_inbox_id: Option<Seq<char>>,
    pub dm_id: Option<Seq<char>>,
}

/// The model of an optional i64 column.
pub open spec fn opt_i64_view(o: Option<i64>) -> Option<int> {
    match o {
        Some(v) => Some(v as int),
        None => None,
    }
}

/// The model of an optional text column.
pub open spec fn opt_string_view(o: Option<String>) -> Option<Seq<char>> {
    match o {
        Some(s) => Some(s@),
        None => None,
    }
}

impl View for StoredGroup {
    type V = GroupView;

    open spec fn view(&self) -> GroupView {
        GroupView {
            id: self.id@,
            created_at_ns: self.created_at_ns as int,
            membership_state: self.membership_state,
            installations_last_checked: self.installations_last_checked as int,
            purpose: self.purpose,
            added_by_inbox_id: self.added_by_inbox_id@,
            welcome_id: opt_i64_view(self.welcome_id),
            dm_inbox_id: opt_string_view(self.dm_inbox_id),
            dm_id: opt_string_view(self.dm_id),
        }
    }
}

impl Clone for StoredGroup {
    /// Cloning a row preserves its model exactly.
    fn clone(&self) -> (res: Self)
        ensures
            res@ == self@,
    {
        StoredGroup {
            id: clone_bytes(&self.id),
            created_at_ns: self.created_at_ns,
            membership_state: self.membership_state,
            installations_last_checked: self.installations_last_checked,
            purpose: self.purpose,
            added_by_inbox_id: clone_string(&self.added_by_inbox_id),
            welcome_id: self.welcome_id,
            dm_inbox_id: clone_opt_string(&self.dm_inbox_id),
            dm_id: clone_opt_string(&self.dm_id),
        }
    }
}

pub(crate) fn clone_bytes(v: &Vec<u8>) -> (res: Vec<u8>)
    ensures
        res@ == v@,
{
    let mut out: Vec<u8> = Vec::new();
    let mut i: usize = 0;
    while i < v.len()
        invariant
            0 <= i <= v.len(),
            out@ == v@.take(i as int),
        decreases v.len() - i,
    {
        out.push(v[i]);
        proof {
            assert(out@ =~= v@.take(i + 1));
        }
        i = i + 1;
    }
    proof {
        assert(v@.take(v.len() as int) =~= v@);
    }
    out
}

pub(crate) fn clone_string(s: &String) -> (res: String)
    ensures
        res@ == s@,
{
    String::from_str(s.as_str())
}

pub(crate) fn clone_opt_string(o: &Option<String>) -> (res: Option<String>)
    ensures
        opt_string_view(res) == opt_string_view(*o),
{
    match o {
        Some(s) => Some(clone_string(s)),
        None => None,
    }
}

impl StoredGroup {
    /// Create a group from a welcome message: the invitation's sequence id
    /// is recorded and the installation list is marked as never checked.
    pub fn new_from_welcome(
        id: ID,
        created_at_ns: i64,
        membership_state: GroupMembershipState,
        added_by_inbox_id: String,
        welcome_id: i64,
        purpose: Purpose,
        dm_inbox_id: Option<String>,
    ) -> (g: StoredGroup)
        ensures
            g@ == (GroupView {
                id: id@,
                created_at_ns: created_at_ns as int,
                membership_state,
                installations_last_checked: 0,
                purpose,
                added_by_inbox_id: added_by_inbox_id@,
                welcome_id: Some(welcome_id as int),
                dm_inbox_id: opt_string_view(dm_inbox_id),
                dm_id: None,
            }),
    {
        StoredGroup {
            id,
            created_at_ns,
            membership_state,
            installations_last_checked: 0,
            purpose,
            added_by_inbox_id,
            welcome_id: Some(welcome_id),
            dm_inbox_id,
            dm_id: None,
        }
    }

    /// Create a self-created `Purpose::Conversation` group, the default kind.
    pub fn new(
        id: ID,
        created_at_ns: i64,
        membership_state: GroupMembershipState,
        added_by_inbox_id: String,
        dm_inbox_id: Option<String>,
    ) -> (g: StoredGroup)
        ensures
            g@ == (GroupView {
                id: id@,
                created_at_ns: created_at_ns as int,
                membership_state,
                installations_last_checked: 0,
                purpose: Purpose::Conversation,
                added_by_inbox_id: added_by_inbox_id@,
                welcome_id: None,
                dm_inbox_id: opt_string_view(dm_inbox_id),
                dm_id: None,
            }),
    {
        StoredGroup {
            id,
            created_at_ns,
            membership_state,
            installations_last_checked: 0,
            purpose: Purpose::Conversation,
            added_by_inbox_id,
            welcome_id: None,
            dm_inbox_id,
            dm_id: None,
        }
    }

    /// Create a `Purpose::Sync` group, used to sync message history.  It is
    /// self-created, so it has no welcome id and an empty adder identity.
    pub fn new_sync_group(
        id: ID,
        created_at_ns: i64,
        membership_state: GroupMembershipState,
    ) -> (g: StoredGroup)
        ensures
            g@ == (GroupView {
                id: id@,
                created_at_ns: created_at_ns as int,
                membership_state,
                installations_last_checked: 0,
                purpose: Purpose::Sync,
                added_by_inbox_id: Seq::<char>::empty(),
                welcome_id: None,
                dm_inbox_id: None,
                dm_id: None,
            }),
    {
        StoredGroup {
            id,
            created_at_ns,
            membership_state,
            installations_last_checked: 0,
            purpose: Purpose::Sync,
            added_by_inbox_id: String::new(),
            welcome_id: None,
            dm_inbox_id: None,
            dm_id: None,
        }
    }
}

/// The model of an optional list of allowed membership states.
pub open spec fn states_view(o: Option<Vec<GroupMembershipState>>) -> Option<
    Seq<GroupMembershipState>,
> {
    match o {
        Some(v) => Some(v@),
        None => None,
    }
}

/// Whether one row passes the optional filters of `find_groups`.  Sync
/// groups never pass, whatever the filters say.
pub open spec fn passes_group_filters(
    g: GroupView,
    allowed: Option<Seq<GroupMembershipState>>,
    created_after_ns: Option<i64>,
    created_before_ns: Option<i64>,
    include_dm_groups: bool,
) -> bool {
    &&& g.purpose is Conversation
    &&& match allowed {
        Some(states) => states.contains(g.membership_state),
        None => true,
    }
    &&& match created_after_ns {
        Some(a) => g.created_at_ns > a as int,
        None => true,
    }
    &&& match created_before_ns {
        Some(b) => g.created_at_ns < b as int,
        None => true,
    }
    &&& (include_dm_groups || g.dm_inbox_id is None)
}

/// The filter predicate of `find_groups`, as one value.
pub open spec fn group_filter_pred(
    allowed: Option<Seq<GroupMembershipState>>,
    created_after_ns: Option<i64>,
    created_before_ns: Option<i64>,
    include_dm_groups: bool,
) -> spec_fn(GroupView) -> bool {
    |g: GroupView|
        passes_group_filters(g, allowed, created_after_ns, created_before_ns, include_dm_groups)
}

/// All rows that pass the filters, in stored (creation-time) order.
pub open spec fn conversations_matching(
    gs: Seq<GroupView>,
    allowed: Option<Seq<GroupMembershipState>>,
    created_after_ns: Option<i64>,
    created_before_ns: Option<i64>,
    include_dm_groups: bool,
) -> Seq<GroupView> {
    gs.filter(group_filter_pred(allowed, created_after_ns, created_before_ns, include_dm_groups))
}

/// A `LIMIT` clause: a non-negative limit keeps at most that many leading
/// rows; a negative limit means no limit, as the engine treats it.
pub open spec fn apply_limit(s: Seq<GroupView>, limit: Option<i64>) -> Seq<GroupView> {
    match limit {
        Some(l) => if 0 <= l && (l as int) < s.len() {
            s.take(l as int)
        } else {
            s
        },
        None => s,
    }
}

/// What `find_groups` returns: the matching conversation rows in
/// creation-time order, up to the limit.
pub open spec fn find_groups_spec(
    gs: Seq<GroupView>,
    allowed: Option<Seq<GroupMembershipState>>,
    created_after_ns: Option<i64>,
    created_before_ns: Option<i64>,
    limit: Option<i64>,
    include_dm_groups: bool,
) -> Seq<GroupView> {
    apply_limit(
        conversations_matching(gs, allowed, created_after_ns, created_before_ns, include_dm_groups),
        limit,
    )
}

/// The filter predicate of `find_sync_groups`, as one value.
pub open spec fn sync_filter_pred() -> spec_fn(GroupView) -> bool {
    |g: GroupView| g.purpose is Sync
}

/// What `find_sync_groups` returns: the sync rows in creation-time order.
pub open spec fn sync_groups_spec(gs: Seq<GroupView>) -> Seq<GroupView> {
    gs.filter(sync_filter_pred())
}

/// Taking a prefix of rows takes the same prefix of their models.
pub proof fn lemma_groups_model_take_commutes(s: Seq<StoredGroup>, k: int)
    requires
        0 <= k <= s.len(),
    ensures
        crate::db_connection::groups_model(s.take(k)) == crate::db_connection::groups_model(
            s,
        ).take(k),
{
    assert(crate::db_connection::groups_model(s.take(k))
        =~= crate::db_connection::groups_model(s).take(k));
}

/// Filtering one more row keeps the filtered prefix and appends the row
/// exactly when it passes.
pub proof fn lemma_filter_push<A>(s: Seq<A>, pred: spec_fn(A) -> bool, x: A)
    ensures
        s.push(x).filter(pred) == if pred(x) {
            s.filter(pred).push(x)
        } else {
            s.filter(pred)
        },
{
    reveal(Seq::filter);
    assert(s.push(x).drop_last() =~= s);
    assert(s.push(x).last() == x);
}

fn state_in(states: &Vec<GroupMembershipState>, s: GroupMembershipState) -> (r: bool)
    ensures
        r == states@.contains(s),
{
    let mut i: usize = 0;
    while i < states.len()
        invariant
            0 <= i <= states.len(),
            forall|k: int| 0 <= k < i ==> states@[k] != s,
        decreases states.len() - i,
    {
        if states[i] == s {
            return true;
        }
        i = i + 1;
    }
    proof {
        assert(!states@.contains(s));
    }
    false
}

fn passes_filters_exec(
    g: &StoredGroup,
    allowed_states: &Option<Vec<GroupMembershipState>>,
    created_after_ns: Option<i64>,
    created_before_ns: Option<i64>,
    include_dm_groups: bool,
) -> (r: bool)
    ensures
        r == passes_group_filters(
            g@,
            states_view(*allowed_states),
            created_after_ns,
            created_before_ns,
            include_dm_groups,
        ),
{
    let conversation = match g.purpose {
        Purpose::Conversation => true,
        Purpose::Sync => false,
    };
    let allowed_ok = match allowed_states {
        Some(states) => state_in(states, g.membership_state),
        None => true,
    };
    let after_ok = match created_after_ns {
        Some(a) => g.created_at_ns > a,
        None => true,
    };
    let before_ok = match created_before_ns {
        Some(b) => g.created_at_ns < b,
        None => true,
    };
    let dm_ok = include_dm_groups || match &g.dm_inbox_id {
        Some(_) => false,
        None => true,
    };
    conversation && allowed_ok && after_ok && before_ok && dm_ok
}

impl crate::db_connection::DbConnection {
    /// Return the `Purpose::Conversation` groups, ordered by creation time
    /// ascending, applying each filter only if supplied.  Sync groups are
    /// always excluded; direct-message groups are excluded unless asked
    /// for.
    pub fn find_groups(
        &self,
        allowed_states: Option<Vec<GroupMembershipState>>,
        created_after_ns: Option<i64>,
        created_before_ns: Option<i64>,
        limit: Option<i64>,
        include_dm_groups: bool,
    ) -> (r: Result<Vec<StoredGroup>, crate::StorageError>)
        requires
            self.wf(),
        ensures
            r matches Ok(v) && crate::db_connection::groups_model(v@) == find_groups_spec(
                self@.data.groups,
                states_view(allowed_states),
                created_after_ns,
                created_before_ns,
                limit,
                include_dm_groups,
            ),
    {
        let ghost gs = self@.data.groups;
        let ghost pred = group_filter_pred(
            states_view(allowed_states),
            created_after_ns,
            created_before_ns,
            include_dm_groups,
        );
        let rows = &self.db.groups;
        let mut out: Vec<StoredGroup> = Vec::new();
        let mut i: usize = 0;
        while i < rows.len()
            invariant
                0 <= i <= rows.len(),
                gs == crate::db_connection::groups_model(rows@),
                crate::db_connection::groups_model(out@) == gs.take(i as int).filter(pred),
                pred == group_filter_pred(
                    states_view(allowed_states),
                    created_after_ns,
                    created_before_ns,
                    include_dm_groups,
                ),
            decreases rows.len() - i,
        {
            let ghost prev = out@;
            if passes_filters_exec(
                &rows[i],
                &allowed_states,
                created_after_ns,
                created_before_ns,
                include_dm_groups,
            ) {
                out.push(rows[i].clone());
                proof {
                    crate::db_connection::lemma_groups_model_push(prev, out@.last());
                }
            }
            proof {
                assert(gs.take(i + 1) =~= gs.take(i as int).push(gs[i as int]));
                lemma_filter_push(gs.take(i as int), pred, gs[i as int]);
            }
            i = i + 1;
        }
        proof {
            assert(gs.take(rows@.len() as int) =~= gs);
        }
        let ghost matching = conversations_matching(
            gs,
            states_view(allowed_states),
            created_after_ns,
            created_before_ns,
            include_dm_groups,
        );
        if let Some(l) = limit {
            if l >= 0 {
                let lu: u64 = l as u64;
                if lu < (out.len() as u64) {
                    let ghost full = out@;
                    out.truncate(lu as usize);
                    proof {
                        lemma_groups_model_take_commutes(full, l as int);
                    }
                }
            }
        }
        Ok(out)
    }

    /// Return only the `Purpose::Sync` groups, ordered by creation time
    /// ascending.
    pub fn find_sync_groups(&self) -> (r: Result<Vec<StoredGroup>, crate::StorageError>)
        requires
            self.wf(),
        ensures
            r matches Ok(v) && crate::db_connection::groups_model(v@) == sync_groups_spec(
                self@.data.groups,
            ),
    {
        let ghost gs = self@.data.groups;
        let rows = &self.db.groups;
        let mut out: Vec<StoredGroup> = Vec::new();
        let mut i: usize = 0;
        while i < rows.len()
            invariant
                0 <= i <= rows.len(),
                gs == crate::db_connection::groups_model(rows@),
                crate::db_connection::groups_model(out@) == gs.take(i as int).filter(
                    sync_filter_pred(),
                ),
            decreases rows.len() - i,
        {
            let ghost prev = out@;
            let is_sync = match rows[i].purpose {
                Purpose::Sync => true,
                Purpose::Conversation => false,
            };
            if is_sync {
                out.push(rows[i].clone());
                proof {
                    crate::db_connection::lemma_groups_model_push(prev, out@.last());
                }
            }
            proof {
                assert(gs.take(i + 1) =~= gs.take(i as int).push(gs[i as int]));
                lemma_filter_push(gs.take(i as int), sync_filter_pred(), gs[i as int]);
            }
            i = i + 1;
        }
        proof {
            assert(gs.take(rows@.len() as int) =~= gs);
        }
        Ok(out)
    }
}

/// The model of an optional row.
pub open spec fn opt_group_view(o: Option<StoredGroup>) -> Option<GroupView> {
    match o {
        Some(g) => Some(g@),
        None => None,
    }
}

/// `r` is the first row (in stored order) passing `pred`, or `None` if no
/// row passes.
pub open spec fn first_match_result(
    gs: Seq<GroupView>,
    pred: spec_fn(GroupView) -> bool,
    r: Option<GroupView>,
) -> bool {
    match r {
        Some(g) => exists|i: int|
            0 <= i < gs.len() && gs[i] == g && pred(g) && (forall|j: int|
                0 <= j < i ==> !pred(gs[j])),
        None => forall|i: int| 0 <= i < gs.len() ==> !pred(gs[i]),
    }
}

/// The predicate "this row carries the given group id".
pub open spec fn id_pred(id: Seq<u8>) -> spec_fn(GroupView) -> bool {
    |g: GroupView| g.id == id
}

/// The predicate "this row originated from the given welcome".
pub open spec fn welcome_pred(welcome_id: int) -> spec_fn(GroupView) -> bool {
    |g: GroupView| g.welcome_id == Some(welcome_id)
}

/// The index of the row carrying the given id, where one exists.
pub open spec fn index_of_id_spec(gs: Seq<GroupView>, id: Seq<u8>) -> int {
    choose|i: int| 0 <= i < gs.len() && gs[i].id == id
}

/// The row carrying the given id, where one exists.
pub open spec fn row_with_id(gs: Seq<GroupView>, id: Seq<u8>) -> GroupView {
    gs[index_of_id_spec(gs, id)]
}

/// Under unique ids, any row that matches an id is the row at
/// `index_of_id_spec`.
pub proof fn lemma_id_index_unique(gs: Seq<GroupView>, id: Seq<u8>, i: int)
    requires
        crate::db_connection::group_ids_unique(gs),
        0 <= i < gs.len(),
        gs[i].id == id,
    ensures
        index_of_id_spec(gs, id) == i,
        row_with_id(gs, id) == gs[i],
{
    assert(contains_id(gs, id));
    let j = index_of_id_spec(gs, id);
    assert(0 <= j < gs.len() && gs[j].id == id);
    if i < j {
        assert(gs[i].id != gs[j].id);
    } else if j < i {
        assert(gs[j].id != gs[i].id);
    }
}

/// One row with its membership state overwritten.
pub open spec fn with_membership(g: GroupView, s: GroupMembershipState) -> GroupView {
    GroupView { membership_state: s, ..g }
}

/// One row with its installation-check timestamp overwritten.
pub open spec fn with_time_checked(g: GroupView, t: int) -> GroupView {
    GroupView { installations_last_checked: t, ..g }
}

/// Replacing a row by one with the same id and creation time preserves
/// well-formedness of the table.
pub proof fn lemma_wf_update_same_key(gs: Seq<GroupView>, i: int, g: GroupView)
    requires
        crate::db_connection::groups_sorted(gs),
        crate::db_connection::group_ids_unique(gs),
        0 <= i < gs.len(),
        g.id == gs[i].id,
        g.created_at_ns == gs[i].created_at_ns,
    ensures
        crate::db_connection::groups_sorted(gs.update(i, g)),
        crate::db_connection::group_ids_unique(gs.update(i, g)),
{
    let post = gs.update(i, g);
    assert forall|a: int, b: int| 0 <= a < b < post.len() implies post[a].created_at_ns
        <= post[b].created_at_ns by {
        assert(gs[a].created_at_ns <= gs[b].created_at_ns);
    }
    assert forall|a: int, b: int| 0 <= a < b < post.len() implies post[a].id != post[b].id by {
        assert(gs[a].id != gs[b].id);
    }
}

impl DbConnection {
    /// The index of the row with the given id, scanning in stored order.
    pub(crate) fn index_of_id(&self, id: &[u8]) -> (r: Option<usize>)
        ensures
            match r {
                Some(i) => 0 <= i < self@.data.groups.len() && self@.data.groups[i as int].id
                    == id@,
                None => !contains_id(self@.data.groups, id@),
            },
    {
        let ghost gs = self@.data.groups;
        let rows = &self.db.groups;
        let mut i: usize = 0;
        while i < rows.len()
            invariant
                0 <= i <= rows.len(),
                gs == groups_model(rows@),
                gs == self@.data.groups,
                forall|j: int| 0 <= j < i ==> gs[j].id != id@,
            decreases rows.len() - i,
        {
            if crate::db_connection::bytes_eq(rows[i].id.as_slice(), id) {
                proof {
                    assert(gs[i as int] == rows@[i as int]@);
                }
                return Some(i);
            }
            i = i + 1;
        }
        proof {
            assert forall|j: int| !(0 <= j < gs.len() && gs[j].id == id@) by {}
        }
        None
    }

    /// Return the single group with the given id, or `None` if there is
    /// none.
    pub fn find_group(&self, id: Vec<u8>) -> (r: Result<Option<StoredGroup>, StorageError>)
        requires
            self.wf(),
        ensures
            r matches Ok(o) && first_match_result(self@.data.groups, id_pred(id@), opt_group_view(o)),
    {
        let ghost gs = self@.data.groups;
        let rows = &self.db.groups;
        let mut i: usize = 0;
        while i < rows.len()
            invariant
                0 <= i <= rows.len(),
                gs == groups_model(rows@),
                gs == self@.data.groups,
                forall|j: int| 0 <= j < i ==> !(id_pred(id@))(gs[j]),
            decreases rows.len() - i,
        {
            if crate::db_connection::bytes_eq(rows[i].id.as_slice(), id.as_slice()) {
                let found = rows[i].clone();
                proof {
                    assert(gs[i as int] == rows@[i as int]@);
                    assert((id_pred(id@))(gs[i as int]));
                }
                return Ok(Some(found));
            }
            i = i + 1;
        }
        Ok(None)
    }

    /// Return the earliest-created group that the given welcome message
    /// produced, or `None`.  Welcome ids are expected to be unique; if the
    /// table nonetheless holds several matches (a data-integrity anomaly),
    /// the earliest-created row is returned rather than failing the call.
    pub fn find_group_by_welcome_id(&self, welcome_id: i64) -> (r: Result<
        Option<StoredGroup>,
        StorageError,
    >)
        requires
            self.wf(),
        ensures
            r matches Ok(o) && first_match_result(
                self@.data.groups,
                welcome_pred(welcome_id as int),
                opt_group_view(o),
            ),
    {
        let ghost gs = self@.data.groups;
        let rows = &self.db.groups;
        let mut i: usize = 0;
        while i < rows.len()
            invariant
                0 <= i <= rows.len(),
                gs == groups_model(rows@),
                gs == self@.data.groups,
                forall|j: int| 0 <= j < i ==> !(welcome_pred(welcome_id as int))(gs[j]),
            decreases rows.len() - i,
        {
            proof {
                assert(gs[i as int] == rows@[i as int]@);
            }
            let hit = match &rows[i].welcome_id {
                Some(w) => *w == welcome_id,
                None => false,
            };
            if hit {
                let found = rows[i].clone();
                proof {
                    assert(gs[i as int] == rows@[i as int]@);
                    assert((welcome_pred(welcome_id as int))(gs[i as int]));
                }
                return Ok(Some(found));
            }
            i = i + 1;
        }
        Ok(None)
    }

    /// Overwrite the membership state of the group with the given id.  The
    /// overwrite is unconditional: any state may replace any other, and a
    /// missing id is a no-op, as an `UPDATE` matching no row is.
    pub fn update_group_membership(&mut self, group_id: &[u8], state: GroupMembershipState) -> (r:
        Result<(), StorageError>)
        requires
            old(self).wf(),
        ensures
            final(self).wf(),
            r == Ok::<(), StorageError>(()),
            groups_only_changed(old(self)@, final(self)@),
            contains_id(old(self)@.data.groups, group_id@) ==> final(self)@.data.groups
                == old(self)@.data.groups.update(
                index_of_id_spec(old(self)@.data.groups, group_id@),
                with_membership(row_with_id(old(self)@.data.groups, group_id@), state),
            ),
            !contains_id(old(self)@.data.groups, group_id@) ==> final(self)@.data.groups
                == old(self)@.data.groups,
    {
        let ghost gs = old(self)@.data.groups;
        match self.index_of_id(group_id) {
            Some(i) => {
                let mut row = self.db.groups[i].clone();
                row.membership_state = state;
                proof {
                    lemma_id_index_unique(gs, group_id@, i as int);
                    lemma_wf_update_same_key(gs, i as int, row@);
                }
                let ghost prev = self.db.groups@;
                self.db.groups.set(i, row);
                proof {
                    assert(groups_model(self.db.groups@) =~= groups_model(prev).update(
                        i as int,
                        with_membership(gs[i as int], state),
                    ));
                }
                Ok(())
            }
            None => Ok(()),
        }
    }
}

/// One lowercase hexadecimal digit.
pub open spec fn hex_digit(n: int) -> char {
    if n == 0 { '0' } else if n == 1 { '1' } else if n == 2 { '2' } else if n == 3 { '3' }
    else if n == 4 { '4' } else if n == 5 { '5' } else if n == 6 { '6' } else if n == 7 { '7' }
    else if n == 8 { '8' } else if n == 9 { '9' } else if n == 10 { 'a' } else if n == 11 { 'b' }
    else if n == 12 { 'c' } else if n == 13 { 'd' } else if n == 14 { 'e' } else { 'f' }
}

/// The lowercase hexadecimal rendering of a byte string: two digits per
/// byte, most significant nibble first.
pub open spec fn hex_of(bytes: Seq<u8>) -> Seq<char>
    decreases bytes.len(),
{
    if bytes.len() == 0 {
        Seq::<char>::empty()
    } else {
        seq![hex_digit(bytes[0] as int / 16), hex_digit(bytes[0] as int % 16)] + hex_of(
            bytes.drop_first(),
        )
    }
}

/// The message of the `NotFound` error for a missing installation-check
/// lookup.
pub open spec fn installations_not_found_message(id: Seq<u8>) -> Seq<char> {
    "installation time for group "@ + hex_of(id)
}

/// Relies on hex::encode: each byte becomes two lowercase hexadecimal
/// digits, most significant nibble first (its digit table is
/// "0123456789abcdef").
#[verifier::external_body]
fn hex_encode(bytes: &Vec<u8>) -> (r: String)
    ensures
        r@ == hex_of(bytes@),
{
    hex::encode(bytes)
}

fn installations_not_found_label(group_id: &Vec<u8>) -> (r: String)
    ensures
        r@ == installations_not_found_message(group_id@),
{
    let mut s = String::from_str("installation time for group ");
    s.append(hex_encode(group_id).as_str());
    proof {
        assert(s@ =~= installations_not_found_message(group_id@));
    }
    s
}

/// Relies on the system clock, `std::time::SystemTime`: some non-negative
/// number of nanoseconds since the Unix epoch.  The clock's value depends
/// on the machine, so nothing more is assumed of it.
#[verifier::external_body]
fn now_ns() -> (r: i64)
    ensures
        0 <= r,
{
    match std::time::SystemTime::now().duration_since(std::time::UNIX_EPOCH) {
        Ok(d) => i64::try_from(d.as_nanos()).unwrap_or(i64::MAX),
        Err(_) => 0,
    }
}

/// Where a row with the given creation time enters the table: after every
/// row created at or before it.
pub open spec fn insert_position(gs: Seq<GroupView>, t: int) -> int
    decreases gs.len(),
{
    if gs.len() == 0 {
        0
    } else if gs[0].created_at_ns <= t {
        1 + insert_position(gs.drop_first(), t)
    } else {
        0
    }
}

/// A new row enters the table at its creation-time position, keeping the
/// creation-time order.
pub open spec fn sorted_insert(gs: Seq<GroupView>, g: GroupView) -> Seq<GroupView> {
    gs.insert(insert_position(gs, g.created_at_ns), g)
}

/// `insert_position` is the first index whose row was created strictly
/// later, or the length if there is none.
pub proof fn lemma_insert_position_characterization(gs: Seq<GroupView>, t: int)
    ensures
        0 <= insert_position(gs, t) <= gs.len(),
        forall|j: int| 0 <= j < insert_position(gs, t) ==> gs[j].created_at_ns <= t,
        insert_position(gs, t) < gs.len() ==> gs[insert_position(gs, t)].created_at_ns > t,
    decreases gs.len(),
{
    if gs.len() > 0 {
        let rest = gs.drop_first();
        lemma_insert_position_characterization(rest, t);
        let ip = insert_position(gs, t);
        if gs[0].created_at_ns <= t {
            assert forall|j: int| 0 <= j < ip implies gs[j].created_at_ns <= t by {
                if j > 0 {
                    assert(rest[j - 1] == gs[j]);
                }
            }
            if ip < gs.len() {
                assert(gs[ip] == rest[ip - 1]);
            }
        }
    }
}

/// Inserting a row whose id is new keeps the table well formed.
pub proof fn lemma_sorted_insert_wf(gs: Seq<GroupView>, g: GroupView)
    requires
        crate::db_connection::groups_sorted(gs),
        crate::db_connection::group_ids_unique(gs),
        !contains_id(gs, g.id),
    ensures
        crate::db_connection::groups_sorted(sorted_insert(gs, g)),
        crate::db_connection::group_ids_unique(sorted_insert(gs, g)),
        sorted_insert(gs, g).len() == gs.len() + 1,
{
    let t = g.created_at_ns;
    lemma_insert_position_characterization(gs, t);
    let ip = insert_position(gs, t);
    let post = sorted_insert(gs, g);
    gs.insert_ensures(ip, g);
    assert forall|k: int| 0 <= k < gs.len() implies gs[k].id != g.id by {
        assert(!contains_id(gs, g.id));
    }
    assert forall|a: int, b: int| 0 <= a < b < post.len() implies post[a].created_at_ns
        <= post[b].created_at_ns by {
        if a < ip && b < ip {
            assert(post[a] == gs[a] && post[b] == gs[b]);
        } else if a < ip && b == ip {
            assert(post[a] == gs[a]);
        } else if a < ip && b > ip {
            assert(post[a] == gs[a] && post[b] == gs[b - 1]);
            assert(gs[a].created_at_ns <= t);
            assert(ip <= b - 1);
            if ip < gs.len() {
                assert(gs[ip].created_at_ns > t);
                assert(gs[ip].created_at_ns <= gs[b - 1].created_at_ns || ip == b - 1);
            }
        } else if a == ip && b > ip {
            assert(post[b] == gs[b - 1]);
            assert(ip <= b - 1 && ip < gs.len());
            assert(gs[ip].created_at_ns > t);
            assert(gs[ip].created_at_ns <= gs[b - 1].created_at_ns || ip == b - 1);
        } else {
            assert(post[a] == gs[a - 1] && post[b] == gs[b - 1]);
        }
    }
    assert forall|a: int, b: int| 0 <= a < b < post.len() implies post[a].id != post[b].id by {
        if a < ip && b < ip {
            assert(post[a] == gs[a] && post[b] == gs[b]);
        } else if a < ip && b == ip {
            assert(post[a] == gs[a]);
        } else if a < ip && b > ip {
            assert(post[a] == gs[a] && post[b] == gs[b - 1]);
        } else if a == ip && b > ip {
            assert(post[b] == gs[b - 1]);
        } else {
            assert(post[a] == gs[a - 1] && post[b] == gs[b - 1]);
        }
    }
}

impl DbConnection {
    /// Return when the installation list of the given group was last
    /// checked.  A missing group is a `NotFound` error naming the group in
    /// hexadecimal.
    pub fn get_installations_time_checked(&self, group_id: Vec<u8>) -> (r: Result<
        i64,
        StorageError,
    >)
        requires
            self.wf(),
        ensures
            contains_id(self@.data.groups, group_id@) ==> (r matches Ok(t) && t as int
                == row_with_id(self@.data.groups, group_id@).installations_last_checked),
            !contains_id(self@.data.groups, group_id@) ==> (r matches Err(e) && e matches
                StorageError::NotFound(m) && m@ == installations_not_found_message(group_id@)),
    {
        match self.index_of_id(group_id.as_slice()) {
            Some(i) => {
                proof {
                    lemma_id_index_unique(self@.data.groups, group_id@, i as int);
                }
                Ok(self.db.groups[i].installations_last_checked)
            }
            None => Err(StorageError::NotFound(installations_not_found_label(&group_id))),
        }
    }

    /// Record that the installation list of the given group was checked
    /// just now.  The new timestamp comes from the system clock, of which
    /// only non-negativity is known; whatever the clock reports, the
    /// recorded value never falls below the group's creation time nor
    /// below its previous value, so the field is monotonically
    /// non-decreasing and, once updated, at least `created_at_ns`.  A
    /// missing id is a no-op.
    pub fn update_installations_time_checked(&mut self, group_id: Vec<u8>) -> (r: Result<
        (),
        StorageError,
    >)
        requires
            old(self).wf(),
        ensures
            final(self).wf(),
            r == Ok::<(), StorageError>(()),
            groups_only_changed(old(self)@, final(self)@),
            contains_id(old(self)@.data.groups, group_id@) ==> exists|t: int|
                0 <= t && t >= row_with_id(old(self)@.data.groups, group_id@).created_at_ns
                && t >= row_with_id(
                    old(self)@.data.groups,
                    group_id@,
                ).installations_last_checked && final(self)@.data.groups
                == old(self)@.data.groups.update(
                    index_of_id_spec(old(self)@.data.groups, group_id@),
                    with_time_checked(row_with_id(old(self)@.data.groups, group_id@), t),
                ),
            !contains_id(old(self)@.data.groups, group_id@) ==> final(self)@.data.groups
                == old(self)@.data.groups,
    {
        let ghost gs = old(self)@.data.groups;
        match self.index_of_id(group_id.as_slice()) {
            Some(i) => {
                let mut now = now_ns();
                let mut row = self.db.groups[i].clone();
                if now < row.created_at_ns {
                    now = row.created_at_ns;
                }
                if now < row.installations_last_checked {
                    now = row.installations_last_checked;
                }
                row.installations_last_checked = now;
                proof {
                    lemma_id_index_unique(gs, group_id@, i as int);
                    lemma_wf_update_same_key(gs, i as int, row@);
                }
                let ghost prev = self.db.groups@;
                self.db.groups.set(i, row);
                proof {
                    assert(groups_model(self.db.groups@) =~= groups_model(prev).update(
                        i as int,
                        with_time_checked(gs[i as int], now as int),
                    ));
                }
                Ok(())
            }
            None => Ok(()),
        }
    }

    /// The idempotent welcome-application protocol.  Try a plain insert
    /// with "do nothing on conflict"; if a row with this id already
    /// exists, a matching welcome id is a duplicate delivery of the same
    /// welcome and fails with a distinguished `Duplicate` error (so that
    /// an enclosing transaction also unwinds sibling writes), while a
    /// differing welcome id returns the existing row unchanged.
    pub fn insert_or_replace_group(&mut self, group: StoredGroup) -> (r: Result<
        StoredGroup,
        StorageError,
    >)
        requires
            old(self).wf(),
        ensures
            final(self).wf(),
            groups_only_changed(old(self)@, final(self)@),
            !contains_id(old(self)@.data.groups, group@.id) ==> (r matches Ok(g) && g@ == group@
                && final(self)@.data.groups == sorted_insert(old(self)@.data.groups, group@)),
            contains_id(old(self)@.data.groups, group@.id) ==> final(self)@.data.groups
                == old(self)@.data.groups && (if row_with_id(old(self)@.data.groups, group@.id).welcome_id
                == group@.welcome_id {
                r matches Err(e) && e matches StorageError::Duplicate(d) && d matches
                    DuplicateItem::WelcomeId(w) && opt_i64_view(w) == group@.welcome_id
            } else {
                r matches Ok(g) && g@ == row_with_id(old(self)@.data.groups, group@.id)
            }),
    {
        let ghost gs = old(self)@.data.groups;
        match self.index_of_id(group.id.as_slice()) {
            None => {
                // No row with this id: the plain insert takes effect.
                self.insert_group_row(group.clone());
                Ok(group)
            }
            Some(i) => {
                proof {
                    lemma_id_index_unique(gs, group@.id, i as int);
                }
                let same_welcome = match (&self.db.groups[i].welcome_id, &group.welcome_id) {
                    (Some(a), Some(b)) => *a == *b,
                    (None, None) => true,
                    _ => false,
                };
                if same_welcome {
                    // Duplicate delivery of the same welcome: fail so an
                    // enclosing transaction rolls dependent writes back.
                    Err(StorageError::Duplicate(DuplicateItem::WelcomeId(
                        self.db.groups[i].welcome_id,
                    )))
                } else {
                    // The id collided with a different group: hand back the
                    // existing row, writing nothing.
                    Ok(self.db.groups[i].clone())
                }
            }
        }
    }
}

/// The message of the engine's unique-constraint violation on the groups
/// table's primary key.
pub open spec fn unique_id_violation_message() -> Seq<char> {
    "UNIQUE constraint failed: groups.id"@
}

pub(crate) fn unique_id_violation_string() -> (r: String)
    ensures
        r@ == unique_id_violation_message(),
{
    String::from_str("UNIQUE constraint failed: groups.id")
}

impl DbConnection {
    /// Insert a row whose id is not yet present, at its creation-time
    /// position.
    pub(crate) fn insert_group_row(&mut self, group: StoredGroup)
        requires
            old(self).wf(),
            !contains_id(old(self)@.data.groups, group@.id),
        ensures
            final(self).wf(),
            groups_only_changed(old(self)@, final(self)@),
            final(self)@.data.groups == sorted_insert(old(self)@.data.groups, group@),
    {
        let ghost gs = old(self)@.data.groups;
        let mut pos: usize = 0;
        let rows = &self.db.groups;
        while pos < rows.len() && rows[pos].created_at_ns <= group.created_at_ns
            invariant
                0 <= pos <= rows.len(),
                gs == groups_model(rows@),
                forall|j: int| 0 <= j < pos ==> gs[j].created_at_ns <= group@.created_at_ns,
            decreases rows.len() - pos,
        {
            pos = pos + 1;
        }
        proof {
            lemma_insert_position_characterization(gs, group@.created_at_ns);
            let ip = insert_position(gs, group@.created_at_ns);
            if ip < pos as int {
                assert(gs[ip].created_at_ns <= group@.created_at_ns);
            }
            if (pos as int) < ip {
                assert(gs[pos as int].created_at_ns <= group@.created_at_ns);
            }
            assert(pos as int == ip);
            lemma_sorted_insert_wf(gs, group@);
        }
        let ghost prev = self.db.groups@;
        self.db.groups.insert(pos, group);
        proof {
            assert(groups_model(self.db.groups@) =~= groups_model(prev).insert(
                pos as int,
                group@,
            ));
        }
    }
}

impl crate::Fetch<StoredGroup> for DbConnection {
    type Key = Vec<u8>;

    open spec fn valid(&self) -> bool {
        self.wf()
    }

    open spec fn fetched(&self, key: &Vec<u8>) -> Option<GroupView> {
        if contains_id(self@.data.groups, key@) {
            Some(row_with_id(self@.data.groups, key@))
        } else {
            None
        }
    }

    fn fetch(&self, key: &Vec<u8>) -> (r: Result<Option<StoredGroup>, StorageError>) {
        match self.index_of_id(key.as_slice()) {
            Some(i) => {
                proof {
                    lemma_id_index_unique(self@.data.groups, key@, i as int);
                }
                Ok(Some(self.db.groups[i].clone()))
            }
            None => Ok(None),
        }
    }
}

impl crate::FetchList<StoredGroup> for DbConnection {
    open spec fn valid(&self) -> bool {
        self.wf()
    }

    open spec fn listed(&self) -> Seq<GroupView> {
        self@.data.groups
    }

    fn fetch_list(&self) -> (r: Result<Vec<StoredGroup>, StorageError>) {
        let rows = crate::db_connection::clone_group_rows(&self.db.groups);
        proof {
            assert(crate::seq_view(rows@) =~= groups_model(rows@));
        }
        Ok(rows)
    }
}

impl crate::Store<DbConnection> for StoredGroup {
    open spec fn conn_valid(conn: &DbConnection) -> bool {
        conn.wf()
    }

    open spec fn store_conflicts(&self, conn: crate::db_connection::ConnView) -> bool {
        contains_id(conn.data.groups, self@.id)
    }

    open spec fn store_effect(
        &self,
        conn: crate::db_connection::ConnView,
    ) -> crate::db_connection::ConnView {
        if contains_id(conn.data.groups, self@.id) {
            conn
        } else {
            crate::db_connection::ConnView {
                data: crate::db_connection::DataView {
                    groups: sorted_insert(conn.data.groups, self@),
                    ..conn.data
                },
                tx: conn.tx,
            }
        }
    }

    open spec fn conflict_message(&self, conn: crate::db_connection::ConnView) -> Seq<char> {
        unique_id_violation_message()
    }

    fn store(&self, into: &mut DbConnection) -> (r: Result<(), StorageError>) {
        match into.index_of_id(self.id.as_slice()) {
            Some(_) => Err(StorageError::EngineError(unique_id_violation_string())),
            None => {
                into.insert_group_row(self.clone());
                Ok(())
            }
        }
    }
}

impl crate::StoreOrIgnore<DbConnection> for StoredGroup {
    open spec fn conn_valid(conn: &DbConnection) -> bool {
        conn.wf()
    }

    open spec fn ignore_conflicts(&self, conn: crate::db_connection::ConnView) -> bool {
        contains_id(conn.data.groups, self@.id)
    }

    open spec fn ignore_effect(
        &self,
        conn: crate::db_connection::ConnView,
    ) -> crate::db_connection::ConnView {
        if contains_id(conn.data.groups, self@.id) {
            conn
        } else {
            crate::db_connection::ConnView {
                data: crate::db_connection::DataView {
                    groups: sorted_insert(conn.data.groups, self@),
                    ..conn.data
                },
                tx: conn.tx,
            }
        }
    }

    fn store_or_ignore(&self, into: &mut DbConnection) -> (r: Result<(), StorageError>) {
        match into.index_of_id(self.id.as_slice()) {
            Some(_) => Ok(()),
            None => {
                into.insert_group_row(self.clone());
                Ok(())
            }
        }
    }
}

/// Law: welcome application is idempotent in the failing direction.
/// After a welcome-derived group is inserted into a table that did not
/// hold its id, the table holds exactly that row under its id, with the
/// same welcome id — so a second `insert_or_replace_group` of the same
/// `(id, welcome_id)` pair meets its duplicate-welcome branch: it fails
/// with the distinguished `Duplicate` error and changes nothing.
pub proof fn lemma_welcome_application_idempotent(gs: Seq<GroupView>, g: GroupView)
    requires
        crate::db_connection::groups_sorted(gs),
        crate::db_connection::group_ids_unique(gs),
        !contains_id(gs, g.id),
    ensures
        contains_id(sorted_insert(gs, g), g.id),
        row_with_id(sorted_insert(gs, g), g.id) == g,
        row_with_id(sorted_insert(gs, g), g.id).welcome_id == g.welcome_id,
{
    lemma_insert_position_characterization(gs, g.created_at_ns);
    let ip = insert_position(gs, g.created_at_ns);
    let post = sorted_insert(gs, g);
    gs.insert_ensures(ip, g);
    lemma_sorted_insert_wf(gs, g);
    assert(post[ip] == g);
    assert(contains_id(post, g.id));
    lemma_id_index_unique(post, g.id, ip);
}

/// Law: the membership transition is unconditional.  Overwriting the
/// membership state of a stored group succeeds whatever state the row
/// held before — no transition table is enforced at this layer — and a
/// subsequent lookup of the same id sees exactly the new state, with
/// every other column and every other row untouched.
pub proof fn lemma_membership_overwrite_unconditional(
    gs: Seq<GroupView>,
    id: Seq<u8>,
    s: GroupMembershipState,
)
    requires
        crate::db_connection::groups_sorted(gs),
        crate::db_connection::group_ids_unique(gs),
        contains_id(gs, id),
    ensures
        ({
            let u = gs.update(index_of_id_spec(gs, id), with_membership(row_with_id(gs, id), s));
            &&& u.len() == gs.len()
            &&& contains_id(u, id)
            &&& row_with_id(u, id) == with_membership(row_with_id(gs, id), s)
            &&& row_with_id(u, id).membership_state == s
            &&& forall|j: int|
                0 <= j < gs.len() && j != index_of_id_spec(gs, id) ==> u[j] == gs[j]
        }),
{
    let i = index_of_id_spec(gs, id);
    assert(0 <= i < gs.len() && gs[i].id == id);
    let g2 = with_membership(row_with_id(gs, id), s);
    let u = gs.update(i, g2);
    lemma_wf_update_same_key(gs, i, g2);
    assert(u[i] == g2);
    assert(contains_id(u, id));
    lemma_id_index_unique(u, id, i);
}

/// Whether a row originated from any of the given welcomes.
pub open spec fn welcome_in_keys(g: GroupView, keys: Seq<i64>) -> bool {
    exists|i: int| 0 <= i < keys.len() && g.welcome_id == Some(keys[i] as int)
}

/// The filter predicate of `fetch_list_with_key` on groups, as one value.
pub open spec fn welcome_keys_pred(keys: Seq<i64>) -> spec_fn(GroupView) -> bool {
    |g: GroupView| welcome_in_keys(g, keys)
}

fn welcome_matches_any(keys: &[i64], welcome_id: &Option<i64>) -> (r: bool)
    ensures
        forall|g: GroupView|
            g.welcome_id == opt_i64_view(*welcome_id) ==> r == #[trigger] welcome_in_keys(g, keys@),
{
    let w = match welcome_id {
        Some(v) => *v,
        None => {
            proof {
                assert forall|g: GroupView|
                    g.welcome_id == opt_i64_view(*welcome_id) implies !welcome_in_keys(
                    g,
                    keys@,
                ) by {}
            }
            return false;
        }
    };
    let mut i: usize = 0;
    while i < keys.len()
        invariant
            0 <= i <= keys.len(),
            opt_i64_view(*welcome_id) == Some(w as int),
            forall|j: int| 0 <= j < i ==> keys@[j] != w,
        decreases keys.len() - i,
    {
        if keys[i] == w {
            proof {
                assert forall|g: GroupView|
                    g.welcome_id == opt_i64_view(*welcome_id) implies welcome_in_keys(
                    g,
                    keys@,
                ) by {
                    assert((i as int) < keys@.len() && g.welcome_id == Some(
                        keys@[i as int] as int,
                    ));
                }
            }
            return true;
        }
        i = i + 1;
    }
    proof {
        assert forall|g: GroupView|
            g.welcome_id == opt_i64_view(*welcome_id) implies !welcome_in_keys(g, keys@) by {}
    }
    false
}

impl crate::FetchListWithKey<StoredGroup> for DbConnection {
    type Key = i64;

    open spec fn valid(&self) -> bool {
        self.wf()
    }

    open spec fn listed_with_key(&self, keys: Seq<i64>) -> Seq<GroupView> {
        self@.data.groups.filter(welcome_keys_pred(keys))
    }

    /// The indexed column of the groups table is the welcome id.
    fn fetch_list_with_key(&self, keys: &[i64]) -> (r: Result<Vec<StoredGroup>, StorageError>) {
        let ghost gs = self@.data.groups;
        let rows = &self.db.groups;
        let mut out: Vec<StoredGroup> = Vec::new();
        let mut i: usize = 0;
        while i < rows.len()
            invariant
                0 <= i <= rows.len(),
                gs == groups_model(rows@),
                groups_model(out@) == gs.take(i as int).filter(welcome_keys_pred(keys@)),
            decreases rows.len() - i,
        {
            let ghost prev = out@;
            proof {
                assert(gs[i as int] == rows@[i as int]@);
            }
            if welcome_matches_any(keys, &rows[i].welcome_id) {
                out.push(rows[i].clone());
                proof {
                    crate::db_connection::lemma_groups_model_push(prev, out@.last());
                }
            }
            proof {
                assert(gs.take(i + 1) =~= gs.take(i as int).push(gs[i as int]));
                lemma_filter_push(gs.take(i as int), welcome_keys_pred(keys@), gs[i as int]);
            }
            i = i + 1;
        }
        proof {
            assert(gs.take(rows@.len() as int) =~= gs);
            assert(crate::seq_view(out@) =~= groups_model(out@));
        }
        Ok(out)
    }
}

/// Law: a group id names at most one row.  Under the table's primary key
/// an id collision meets exactly one existing row, and — the colliding
/// call writing nothing — exactly that one row carries the id after it.
pub proof fn lemma_id_names_at_most_one_row(gs: Seq<GroupView>, id: Seq<u8>)
    requires
        crate::db_connection::group_ids_unique(gs),
        contains_id(gs, id),
    ensures
        0 <= index_of_id_spec(gs, id) < gs.len(),
        gs[index_of_id_spec(gs, id)].id == id,
        forall|i: int, j: int|
            0 <= i < gs.len() && 0 <= j < gs.len() && gs[i].id == id && gs[j].id == id ==> i == j,
{
    let w = index_of_id_spec(gs, id);
    assert(0 <= w < gs.len() && gs[w].id == id);
    assert forall|i: int, j: int|
        0 <= i < gs.len() && 0 <= j < gs.len() && gs[i].id == id && gs[j].id == id implies i
        == j by {
        if i < j {
            assert(gs[i].id != gs[j].id);
        } else if j < i {
            assert(gs[j].id != gs[i].id);
        }
    }
}

/// Law: the default listing excludes sync and direct-message groups.
/// Given one conversation, one sync group and one direct-message
/// conversation, the default listing holds exactly the conversation, the
/// sync listing exactly the sync group, and asking for direct messages
/// adds exactly the direct-message conversation — the sync group stays
/// out of `find_groups` whatever the filters say.
pub proof fn lemma_default_listing_selection(c: GroupView, s: GroupView, d: GroupView)
    requires
        c.purpose is Conversation,
        c.dm_inbox_id is None,
        s.purpose is Sync,
        d.purpose is Conversation,
        d.dm_inbox_id is Some,
    ensures
        find_groups_spec(seq![c, s, d], None, None, None, None, false) == seq![c],
        sync_groups_spec(seq![c, s, d]) == seq![s],
        find_groups_spec(seq![c, s, d], None, None, None, None, true) == seq![c, d],
{
    let gs = seq![c, s, d];
    let e = Seq::<GroupView>::empty();
    assert(gs =~= e.push(c).push(s).push(d));
    reveal(Seq::filter);
    assert(e.filter(group_filter_pred(None, None, None, false)) =~= e);
    assert(e.filter(group_filter_pred(None, None, None, true)) =~= e);
    assert(e.filter(sync_filter_pred()) =~= e);
    lemma_filter_push(e, group_filter_pred(None, None, None, false), c);
    lemma_filter_push(e.push(c), group_filter_pred(None, None, None, false), s);
    lemma_filter_push(e.push(c).push(s), group_filter_pred(None, None, None, false), d);
    assert(gs.filter(group_filter_pred(None, None, None, false)) =~= seq![c]);
    lemma_filter_push(e, sync_filter_pred(), c);
    lemma_filter_push(e.push(c), sync_filter_pred(), s);
    lemma_filter_push(e.push(c).push(s), sync_filter_pred(), d);
    assert(gs.filter(sync_filter_pred()) =~= seq![s]);
    lemma_filter_push(e, group_filter_pred(None, None, None, true), c);
    lemma_filter_push(e.push(c), group_filter_pred(None, None, None, true), s);
    lemma_filter_push(e.push(c).push(s), group_filter_pred(None, None, None, true), d);
    assert(gs.filter(group_filter_pred(None, None, None, true)) =~= seq![c, d]);
}

/// Law: the creation-time filters compose with the limit.  Over groups
/// created at three strictly increasing times, `created_after` of the
/// first time excludes exactly the group created then (the bound is
/// strict), and a limit of one keeps exactly the earliest-created group.
pub proof fn lemma_filter_composition_on_time(
    g1: GroupView,
    g2: GroupView,
    g3: GroupView,
    t1: i64,
    t2: i64,
    t3: i64,
)
    requires
        g1.created_at_ns == t1 as int,
        g2.created_at_ns == t2 as int,
        g3.created_at_ns == t3 as int,
        t1 < t2 < t3,
        g1.purpose is Conversation && g1.dm_inbox_id is None,
        g2.purpose is Conversation && g2.dm_inbox_id is None,
        g3.purpose is Conversation && g3.dm_inbox_id is None,
    ensures
        find_groups_spec(seq![g1, g2, g3], None, Some(t1), None, None, false) == seq![g2, g3],
        find_groups_spec(seq![g1, g2, g3], None, None, None, Some(1i64), false) == seq![g1],
{
    let gs = seq![g1, g2, g3];
    let e = Seq::<GroupView>::empty();
    assert(gs =~= e.push(g1).push(g2).push(g3));
    reveal(Seq::filter);
    assert(e.filter(group_filter_pred(None, Some(t1), None, false)) =~= e);
    assert(e.filter(group_filter_pred(None, None, None, false)) =~= e);
    lemma_filter_push(e, group_filter_pred(None, Some(t1), None, false), g1);
    lemma_filter_push(e.push(g1), group_filter_pred(None, Some(t1), None, false), g2);
    lemma_filter_push(e.push(g1).push(g2), group_filter_pred(None, Some(t1), None, false), g3);
    assert(gs.filter(group_filter_pred(None, Some(t1), None, false)) =~= seq![g2, g3]);
    lemma_filter_push(e, group_filter_pred(None, None, None, false), g1);
    lemma_filter_push(e.push(g1), group_filter_pred(None, None, None, false), g2);
    lemma_filter_push(e.push(g1).push(g2), group_filter_pred(None, None, None, false), g3);
    assert(gs.filter(group_filter_pred(None, None, None, false)) =~= gs);
    assert(apply_limit(gs, Some(1i64)) =~= seq![g1]);
}

} // verus!
