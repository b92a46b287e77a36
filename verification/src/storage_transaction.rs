//! Transactions over the storage of one origin: staged mutations that a
//! transaction reads back before it commits, exact-origin scopes in which
//! readers share and writers are exclusive in the order the transactions
//! began, and commits that apply every staged mutation or none.
use crate::origin::{Origin, OriginModel};
use crate::process::StorageProcessId;
use crate::storage::{
    persistent_identity_fits, validate_persistent_origin_identity, StorageError, StorageErrorKind,
    StorageLimits, StorageProcessState,
};
use crate::text::{
    copy_bytes, decimal, push_decimal, push_decimal_u64, push_str, size_message, str_eq,
    utf8_byte_len, utf8_len,
};
use vstd::prelude::*;

verus! {

pub const DEFAULT_MAX_STORAGE_TRANSACTIONS: usize = 256;

pub const DEFAULT_MAX_STORAGE_TRANSACTION_MUTATIONS: usize = 1024;

pub const DEFAULT_MAX_STORAGE_TRANSACTION_BYTES: usize = 4194304;

pub const DEFAULT_MAX_STAGED_STORAGE_BYTES: usize = 16777216;

/// Bounds on the transactions of one manager.
#[derive(Clone, Copy, Debug, PartialEq, Eq, Structural)]
pub struct StorageTransactionLimits {
    pub max_transactions: usize,
    pub max_mutations_per_transaction: usize,
    pub max_staged_bytes_per_transaction: usize,
    pub max_total_staged_bytes: usize,
}

impl StorageTransactionLimits {
    pub open spec fn spec_is_valid(self) -> bool {
        &&& self.max_transactions > 0
        &&& self.max_mutations_per_transaction > 0
        &&& self.max_staged_bytes_per_transaction > 0
        &&& self.max_total_staged_bytes > 0
        &&& self.max_staged_bytes_per_transaction <= self.max_total_staged_bytes
    }

    /// Every bound is non-zero and one transaction's bytes fit the total.
    pub fn is_valid(self) -> (r: bool)
        ensures
            r == self.spec_is_valid(),
    {
        self.max_transactions > 0 && self.max_mutations_per_transaction > 0
            && self.max_staged_bytes_per_transaction > 0 && self.max_total_staged_bytes > 0
            && self.max_staged_bytes_per_transaction <= self.max_total_staged_bytes
    }
}

impl Default for StorageTransactionLimits {
    fn default() -> (r: Self)
        ensures
            r == (StorageTransactionLimits {
                max_transactions: DEFAULT_MAX_STORAGE_TRANSACTIONS,
                max_mutations_per_transaction: DEFAULT_MAX_STORAGE_TRANSACTION_MUTATIONS,
                max_staged_bytes_per_transaction: DEFAULT_MAX_STORAGE_TRANSACTION_BYTES,
                max_total_staged_bytes: DEFAULT_MAX_STAGED_STORAGE_BYTES,
            }),
    {
        StorageTransactionLimits {
            max_transactions: DEFAULT_MAX_STORAGE_TRANSACTIONS,
            max_mutations_per_transaction: DEFAULT_MAX_STORAGE_TRANSACTION_MUTATIONS,
            max_staged_bytes_per_transaction: DEFAULT_MAX_STORAGE_TRANSACTION_BYTES,
            max_total_staged_bytes: DEFAULT_MAX_STAGED_STORAGE_BYTES,
        }
    }
}

#[derive(Clone, Copy, Debug, PartialEq, Eq, Structural)]
pub enum StorageTransactionMode {
    ReadOnly,
    ReadWrite,
}

#[derive(Clone, Copy, Debug, PartialEq, Eq, Structural)]
pub enum StorageDurabilityHint {
    Default,
    Strict,
    Relaxed,
}

#[derive(Clone, Copy, Debug, PartialEq, Eq, Structural)]
pub enum StorageTransactionState {
    Waiting,
    Active,
}

/// The identity of a transaction; never zero, never handed out twice by one
/// manager.
#[derive(Clone, Copy, Debug, PartialEq, Eq, Hash, Structural)]
pub struct StorageTransactionId {
    value: u64,
}

impl StorageTransactionId {
    pub closed spec fn spec_get(self) -> u64 {
        self.value
    }

    pub fn get(self) -> (r: u64)
        ensures
            r == self.spec_get(),
    {
        self.value
    }

    /// `storage-transaction:` and the id's value.
    pub fn to_string(self) -> (r: String)
        ensures
            r@ == "storage-transaction:"@ + decimal(self.spec_get() as nat),
    {
        let mut out = String::new();
        push_str(&mut out, "storage-transaction:");
        push_decimal_u64(&mut out, self.value);
        proof {
            assert(Seq::<char>::empty() + "storage-transaction:"@ =~= "storage-transaction:"@);
        }
        out
    }
}

#[derive(Clone, Copy, Debug, PartialEq, Eq, Structural)]
pub enum StorageTransactionErrorKind {
    InvalidLimits,
    TransactionIdentitySpaceExhausted,
    TransactionLimitExceeded,
    UnknownTransaction,
    TransactionNotActive,
    ReadOnlyMutation,
    MutationLimitExceeded,
    StagedByteLimitExceeded,
    TotalStagedByteLimitExceeded,
    WrongProcess,
    AccountingOverflow,
    AllocationFailed,
    Storage(StorageErrorKind),
}

#[derive(Clone, Debug, PartialEq, Eq)]
pub struct StorageTransactionError {
    pub kind: StorageTransactionErrorKind,
    pub message: String,
}

impl StorageTransactionError {
    fn new(kind: StorageTransactionErrorKind, message: String) -> (r: Self)
        ensures
            r.kind == kind,
            r.message@ == message@,
    {
        StorageTransactionError { kind, message }
    }

    /// The error that a refusal of the storage state becomes.
    pub fn from_storage(error: StorageError) -> (r: Self)
        ensures
            r.kind == StorageTransactionErrorKind::Storage(error.kind),
            r.message@ == error.message@,
    {
        StorageTransactionError {
            kind: StorageTransactionErrorKind::Storage(error.kind),
            message: error.message,
        }
    }

    /// The error's message.
    pub fn to_string(&self) -> (r: String)
        ensures
            r@ == self.message@,
    {
        self.message.clone()
    }
}

fn transaction_error(kind: StorageTransactionErrorKind, message: &str) -> (r: StorageTransactionError)
    ensures
        r.kind == kind,
        r.message@ == message@,
{
    StorageTransactionError::new(kind, message.to_owned())
}

fn overflow_error() -> (r: StorageTransactionError)
    ensures
        r.kind == StorageTransactionErrorKind::AccountingOverflow,
        r.message@ == "storage transaction byte accounting overflow"@,
{
    transaction_error(
        StorageTransactionErrorKind::AccountingOverflow,
        "storage transaction byte accounting overflow",
    )
}

fn unknown_error(id: StorageTransactionId) -> (r: StorageTransactionError)
    ensures
        r.kind == StorageTransactionErrorKind::UnknownTransaction,
        r.message@ == "unknown, completed or aborted storage transaction "@ + "storage-transaction:"@
            + decimal(id.spec_get() as nat),
{
    let mut message = String::new();
    push_str(&mut message, "unknown, completed or aborted storage transaction ");
    let text = id.to_string();
    push_str(&mut message, text.as_str());
    proof {
        assert(Seq::<char>::empty() + "unknown, completed or aborted storage transaction "@
            =~= "unknown, completed or aborted storage transaction "@);
    }
    StorageTransactionError::new(StorageTransactionErrorKind::UnknownTransaction, message)
}

/// A staged change to the transaction's origin.
#[derive(Debug)]
enum StorageMutation {
    Put { key: String, value: Vec<u8> },
    Remove { key: String },
    Clear,
}

/// A staged change as values.
pub enum MutationModel {
    Put(Seq<char>, Seq<u8>),
    Remove(Seq<char>),
    Clear,
}

impl View for StorageMutation {
    type V = MutationModel;

    closed spec fn view(&self) -> MutationModel {
        match self {
            StorageMutation::Put { key, value } => MutationModel::Put(key@, value@),
            StorageMutation::Remove { key } => MutationModel::Remove(key@),
            StorageMutation::Clear => MutationModel::Clear,
        }
    }
}

/// What a transaction is, as values.
pub struct TransactionModel {
    pub id: u64,
    pub origin: OriginModel,
    pub mode: StorageTransactionMode,
    pub durability: StorageDurabilityHint,
    pub mutations: Seq<MutationModel>,
    pub staged_bytes: nat,
}

#[derive(Debug)]
struct StorageTransaction {
    id: StorageTransactionId,
    origin: Origin,
    mode: StorageTransactionMode,
    durability: StorageDurabilityHint,
    mutations: Vec<StorageMutation>,
    staged_bytes: usize,
}

impl StorageTransaction {
    spec fn model(self) -> TransactionModel {
        TransactionModel {
            id: self.id.spec_get(),
            origin: self.origin@,
            mode: self.mode,
            durability: self.durability,
            mutations: self.mutations@.map_values(|m: StorageMutation| m@),
            staged_bytes: self.staged_bytes as nat,
        }
    }
}

/// An older transaction keeps a newer one of the given mode and origin
/// waiting: the same origin, and one of them writes.
pub open spec fn conflicts(older: TransactionModel, mode: StorageTransactionMode, origin: OriginModel) -> bool {
    older.origin == origin && (mode == StorageTransactionMode::ReadWrite || older.mode
        == StorageTransactionMode::ReadWrite)
}

/// Some transaction older than the one at position `i` conflicts with it.
pub open spec fn blocked(ts: Seq<TransactionModel>, i: int) -> bool {
    exists|j: int| 0 <= j < i && #[trigger] conflicts(ts[j], ts[i].mode, ts[i].origin)
}

/// The state the transaction at position `i` is in: active exactly when no
/// older transaction conflicts with it.
pub open spec fn scheduled_state(ts: Seq<TransactionModel>, i: int) -> StorageTransactionState {
    if blocked(ts, i) {
        StorageTransactionState::Waiting
    } else {
        StorageTransactionState::Active
    }
}

/// The position of the transaction with the given id, if there is one.
pub open spec fn transaction_index(ts: Seq<TransactionModel>, id: u64) -> Option<int> {
    if exists|i: int| 0 <= i < ts.len() && (#[trigger] ts[i]).id == id {
        Some(choose|i: int| 0 <= i < ts.len() && (#[trigger] ts[i]).id == id)
    } else {
        None
    }
}

/// The sequence without the element at position `i`.
pub open spec fn without<T>(s: Seq<T>, i: int) -> Seq<T> {
    s.take(i) + s.skip(i + 1)
}

/// The bytes staged by the transactions.
pub open spec fn staged_total(ts: Seq<TransactionModel>) -> nat
    decreases ts.len(),
{
    if ts.len() == 0 {
        0
    } else {
        staged_total(ts.drop_last()) + ts.last().staged_bytes
    }
}

/// What reading a key through the staged mutations gives, newest first:
/// `Some` of the value (or of `None`) when a mutation decides it, `None`
/// when the committed storage does.
pub open spec fn staged_read(ms: Seq<MutationModel>, key: Seq<char>) -> Option<Option<Seq<u8>>>
    decreases ms.len(),
{
    if ms.len() == 0 {
        None
    } else {
        match ms.last() {
            MutationModel::Put(k, v) => if k == key {
                Some(Some(v))
            } else {
                staged_read(ms.drop_last(), key)
            },
            MutationModel::Remove(k) => if k == key {
                Some(None)
            } else {
                staged_read(ms.drop_last(), key)
            },
            MutationModel::Clear => Some(None),
        }
    }
}

/// One staged mutation applied to the storage of the origin: `after` is a
/// well-formed state that holds what the mutation leaves.
pub open spec fn mutation_applied(
    before: StorageProcessState,
    after: StorageProcessState,
    origin: OriginModel,
    m: MutationModel,
) -> bool {
    &&& after.wf()
    &&& match m {
        MutationModel::Put(k, v) => before.put_refusal(origin, k, v) is None && after.is_put_of(
            before,
            origin,
            k,
            v,
        ),
        MutationModel::Remove(k) => if before.spec_get(origin, k) is Some {
            after.is_remove_of(before, origin, k)
        } else {
            after.same_state(before)
        },
        MutationModel::Clear => {
            &&& after.spec_entries() == before.spec_entries().remove(origin)
            &&& after.spec_total_bytes() == before.spec_total_bytes() - before.spec_origin_bytes(
                origin,
            )
            &&& after.spec_origin_bytes(origin) == 0
            &&& after.spec_entry_count(origin) == 0
            &&& forall|o: OriginModel|
                o != origin ==> #[trigger] after.spec_origin_bytes(o) == before.spec_origin_bytes(o)
                    && after.spec_entry_count(o) == before.spec_entry_count(o)
            &&& after.spec_origin_count() == before.spec_origin_count() - (if before.spec_entries().contains_key(
                origin,
            ) {
                1int
            } else {
                0int
            })
            &&& after.spec_process() == before.spec_process()
            &&& after.spec_limits() == before.spec_limits()
        },
    }
}

/// The states a storage goes through as the mutations are applied in order.
pub open spec fn applied_chain(
    states: Seq<StorageProcessState>,
    origin: OriginModel,
    ms: Seq<MutationModel>,
) -> bool {
    &&& states.len() == ms.len() + 1
    &&& forall|k: int|
        #![trigger ms[k]]
        0 <= k < ms.len() ==> mutation_applied(states[k], states[k + 1], origin, ms[k])
}

/// The mutations, applied in order from `start`, all succeed and end in
/// `end`.
pub open spec fn commit_succeeds(
    start: StorageProcessState,
    end: StorageProcessState,
    origin: OriginModel,
    ms: Seq<MutationModel>,
) -> bool {
    exists|states: Seq<StorageProcessState>|
        #[trigger] applied_chain(states, origin, ms) && states[0].same_state(start) && states.last()
            == end
}

/// Applied in order from `start`, the mutations before position `n` succeed
/// and the put at position `n` is refused for the reason `kind`.
pub open spec fn commit_refused(
    start: StorageProcessState,
    origin: OriginModel,
    ms: Seq<MutationModel>,
    kind: StorageErrorKind,
) -> bool {
    exists|states: Seq<StorageProcessState>, n: int|
        0 <= n < ms.len() && #[trigger] applied_chain(states, origin, ms.take(n))
            && states[0].same_state(start) && match ms[n] {
            MutationModel::Put(k, v) => states.last().put_refusal(origin, k, v) == Some(kind),
            _ => false,
        }
}

/// The bytes a mutation is charged: its key's UTF-8 bytes and its value.
pub open spec fn mutation_bytes(m: MutationModel) -> nat {
    match m {
        MutationModel::Put(k, v) => utf8_len(k) + v.len(),
        MutationModel::Remove(k) => utf8_len(k),
        MutationModel::Clear => 0,
    }
}

/// Ids are non-zero, increase in the order the transactions began, and stay
/// below the next id unless the ids are spent.
#[verifier::opaque]
pub closed spec fn ids_ordered(ts: Seq<TransactionModel>, next: u64) -> bool {
    &&& forall|i: int, j: int| 0 <= i < j < ts.len() ==> (#[trigger] ts[i]).id < (#[trigger] ts[j]).id
    &&& forall|i: int|
        0 <= i < ts.len() ==> (#[trigger] ts[i]).id != 0 && (next != 0 ==> ts[i].id < next)
}

/// Adding a newer transaction leaves the older ones' states as they were,
/// and the new one waits exactly when an older one conflicts with it.
pub proof fn lemma_push_keeps_states(before: Seq<TransactionModel>, x: TransactionModel)
    ensures
        forall|i: int|
            0 <= i < before.len() ==> #[trigger] scheduled_state(before.push(x), i) == scheduled_state(
                before,
                i,
            ),
        scheduled_state(before.push(x), before.len() as int) == (if exists|j: int|
            0 <= j < before.len() && #[trigger] conflicts(before[j], x.mode, x.origin) {
            StorageTransactionState::Waiting
        } else {
            StorageTransactionState::Active
        }),
{
    let ts = before.push(x);
    assert forall|i: int| 0 <= i < before.len() implies #[trigger] scheduled_state(ts, i)
        == scheduled_state(before, i) by {
        assert(ts[i] == before[i]);
        if blocked(ts, i) {
            let j = choose|j: int| 0 <= j < i && #[trigger] conflicts(ts[j], ts[i].mode, ts[i].origin);
            assert(ts[j] == before[j]);
            assert(conflicts(before[j], before[i].mode, before[i].origin));
        }
        if blocked(before, i) {
            let j = choose|j: int|
                0 <= j < i && #[trigger] conflicts(before[j], before[i].mode, before[i].origin);
            assert(ts[j] == before[j]);
            assert(conflicts(ts[j], ts[i].mode, ts[i].origin));
        }
    }
    let n = before.len() as int;
    if blocked(ts, n) {
        let j = choose|j: int| 0 <= j < n && #[trigger] conflicts(ts[j], ts[n].mode, ts[n].origin);
        assert(ts[j] == before[j]);
        assert(conflicts(before[j], x.mode, x.origin));
    }
    if exists|j: int| 0 <= j < before.len() && #[trigger] conflicts(before[j], x.mode, x.origin) {
        let j = choose|j: int| 0 <= j < before.len() && #[trigger] conflicts(before[j], x.mode, x.origin);
        assert(ts[j] == before[j]);
        assert(conflicts(ts[j], ts[n].mode, ts[n].origin));
    }
}

proof fn lemma_push_keeps_ids(before: Seq<TransactionModel>, next: u64, x: TransactionModel)
    requires
        ids_ordered(before, next),
        next != 0,
        x.id == next,
    ensures
        ids_ordered(before.push(x), if next == u64::MAX { 0 } else { (next + 1) as u64 }),
{
    reveal(ids_ordered);
    let ts = before.push(x);
    assert forall|i: int| 0 <= i < before.len() implies ts[i] == before[i] by {}
}

/// A commit's report.
#[derive(Clone, Copy, Debug, PartialEq, Eq, Structural)]
pub struct StorageTransactionCommit {
    transaction: StorageTransactionId,
    durability: StorageDurabilityHint,
    mutated: bool,
}

impl StorageTransactionCommit {
    pub closed spec fn spec_transaction(self) -> StorageTransactionId {
        self.transaction
    }

    pub closed spec fn spec_durability(self) -> StorageDurabilityHint {
        self.durability
    }

    pub closed spec fn spec_mutated(self) -> bool {
        self.mutated
    }

    pub fn transaction(self) -> (r: StorageTransactionId)
        ensures
            r == self.spec_transaction(),
    {
        self.transaction
    }

    pub fn durability(self) -> (r: StorageDurabilityHint)
        ensures
            r == self.spec_durability(),
    {
        self.durability
    }

    pub fn mutated(self) -> (r: bool)
        ensures
            r == self.spec_mutated(),
    {
        self.mutated
    }
}

/// Reads a key through staged mutations, newest first.
fn staged_lookup(mutations: &Vec<StorageMutation>, key: &str) -> (r: Option<Option<Vec<u8>>>)
    ensures
        (match r {
            Some(Some(b)) => Some(Some(b@)),
            Some(None) => Some(None),
            None => None,
        }) == staged_read(mutations@.map_values(|m: StorageMutation| m@), key@),
{
    let ghost ms = mutations@.map_values(|m: StorageMutation| m@);
    let mut k = mutations.len();
    proof {
        assert(ms.take(k as int) =~= ms);
    }
    while k > 0
        invariant
            k <= mutations@.len(),
            ms == mutations@.map_values(|m: StorageMutation| m@),
            staged_read(ms, key@) == staged_read(ms.take(k as int), key@),
        decreases k,
    {
        let ghost prefix = ms.take(k as int);
        proof {
            assert(prefix.last() == mutations@[k - 1]@);
            assert(prefix.drop_last() =~= ms.take(k - 1));
        }
        match &mutations[k - 1] {
            StorageMutation::Put { key: staged, value } => {
                if str_eq(staged.as_str(), key) {
                    return Some(Some(copy_bytes(value.as_slice())));
                }
            },
            StorageMutation::Remove { key: staged } => {
                if str_eq(staged.as_str(), key) {
                    return Some(None);
                }
            },
            StorageMutation::Clear => {
                return Some(None);
            },
        }
        k = k - 1;
    }
    proof {
        assert(ms.take(0) =~= Seq::<MutationModel>::empty());
    }
    None
}

/// Replacing a transaction trades its staged bytes for the new one's.
proof fn lemma_staged_total_update(ts: Seq<TransactionModel>, i: int, x: TransactionModel)
    requires
        0 <= i < ts.len(),
    ensures
        staged_total(ts.update(i, x)) + ts[i].staged_bytes == staged_total(ts) + x.staged_bytes,
    decreases ts.len(),
{
    let u = ts.update(i, x);
    if i == ts.len() - 1 {
        assert(u.drop_last() =~= ts.drop_last());
    } else {
        assert(u.drop_last() =~= ts.drop_last().update(i, x));
        lemma_staged_total_update(ts.drop_last(), i, x);
    }
}

/// Removing a transaction releases its staged bytes.
proof fn lemma_staged_total_without(ts: Seq<TransactionModel>, i: int)
    requires
        0 <= i < ts.len(),
    ensures
        staged_total(without(ts, i)) + ts[i].staged_bytes == staged_total(ts),
    decreases ts.len(),
{
    if i == ts.len() - 1 {
        assert(without(ts, i) =~= ts.drop_last());
    } else {
        lemma_staged_total_without(ts.drop_last(), i);
        assert(without(ts, i).drop_last() =~= without(ts.drop_last(), i));
        assert(without(ts, i).last() == ts.last());
    }
}

/// Holding the same entries and accounting is transitive.
proof fn lemma_same_state_trans(a: StorageProcessState, b: StorageProcessState, c: StorageProcessState)
    requires
        a.same_state(b),
        b.same_state(c),
    ensures
        a.same_state(c),
{
    assert forall|o: OriginModel| #[trigger] a.spec_origin_bytes(o) == c.spec_origin_bytes(o)
        && a.spec_entry_count(o) == c.spec_entry_count(o) by {
        assert(a.spec_origin_bytes(o) == b.spec_origin_bytes(o));
        assert(b.spec_origin_bytes(o) == c.spec_origin_bytes(o));
    }
}

/// Applies the staged mutations in order to the storage, stopping at the
/// first refused put.
fn apply_mutations(
    candidate: &mut StorageProcessState,
    origin: &Origin,
    mutations: &Vec<StorageMutation>,
    start: Ghost<StorageProcessState>,
) -> (r: Result<(), StorageError>)
    requires
        old(candidate).wf(),
        old(candidate).same_state(start@),
    ensures
        final(candidate).wf(),
        r is Ok ==> commit_succeeds(
            start@,
            *final(candidate),
            origin@,
            mutations@.map_values(|m: StorageMutation| m@),
        ),
        r matches Err(e) ==> commit_refused(
            start@,
            origin@,
            mutations@.map_values(|m: StorageMutation| m@),
            e.kind,
        ),
{
    let ghost ms = mutations@.map_values(|m: StorageMutation| m@);
    let ghost mut states: Seq<StorageProcessState> = seq![*candidate];
    let mut k: usize = 0;
    proof {
        assert(ms.take(0) =~= Seq::<MutationModel>::empty());
    }
    while k < mutations.len()
        invariant
            candidate.wf(),
            k <= mutations@.len(),
            ms == mutations@.map_values(|m: StorageMutation| m@),
            states.len() == k + 1,
            applied_chain(states, origin@, ms.take(k as int)),
            states[0].same_state(start@),
            states.last() == *candidate,
        decreases mutations@.len() - k,
    {
        let ghost prev = *candidate;
        proof {
            assert(ms[k as int] == mutations@[k as int]@);
        }
        match &mutations[k] {
            StorageMutation::Put { key, value } => {
                match candidate.put(origin, key.as_str(), value.as_slice()) {
                    Ok(()) => {},
                    Err(e) => {
                        proof {
                            assert(ms[k as int] == MutationModel::Put(key@, value@));
                            assert(applied_chain(states, origin@, ms.take(k as int)));
                        }
                        return Err(e);
                    },
                }
            },
            StorageMutation::Remove { key } => {
                let _ = candidate.remove(origin, key.as_str());
            },
            StorageMutation::Clear => {
                let _ = candidate.clear_origin(origin);
            },
        }
        proof {
            let next = states.push(*candidate);
            let taken = ms.take(k + 1);
            assert(mutation_applied(prev, *candidate, origin@, ms[k as int]));
            assert forall|j: int| #![trigger taken[j]] 0 <= j < taken.len() implies mutation_applied(
                next[j],
                next[j + 1],
                origin@,
                taken[j],
            ) by {
                if j < k {
                    assert(ms.take(k as int)[j] == ms[j]);
                    assert(next[j] == states[j]);
                    assert(next[j + 1] == states[j + 1]);
                } else {
                    assert(next[j] == prev);
                }
            }
            states = next;
        }
        k = k + 1;
    }
    proof {
        assert(ms.take(mutations@.len() as int) =~= ms);
        assert(applied_chain(states, origin@, ms));
    }
    Ok(())
}

/// The transactions of one storage process, in the order they began.
#[derive(Debug)]
pub struct StorageTransactionManager {
    process: StorageProcessId,
    storage_limits: StorageLimits,
    limits: StorageTransactionLimits,
    next_transaction: u64,
    transactions: Vec<StorageTransaction>,
    total_staged_bytes: usize,
}

impl StorageTransactionManager {
    pub closed spec fn spec_transactions(&self) -> Seq<TransactionModel> {
        self.transactions@.map_values(|t: StorageTransaction| t.model())
    }

    pub closed spec fn spec_process(&self) -> StorageProcessId {
        self.process
    }

    pub closed spec fn spec_storage_limits(&self) -> StorageLimits {
        self.storage_limits
    }

    pub closed spec fn spec_limits(&self) -> StorageTransactionLimits {
        self.limits
    }

    /// The id the next transaction gets; zero once the ids are spent.
    pub closed spec fn spec_next(&self) -> u64 {
        self.next_transaction
    }

    /// Live transactions have non-zero ids that rise in the order the
    /// transactions began, so no two share an id, and every id is below the
    /// next one while ids remain.
    pub proof fn lemma_ids_ordered(&self)
        requires
            self.wf(),
        ensures
            forall|i: int, j: int|
                0 <= i < j < self.spec_transactions().len() ==> (#[trigger] self.spec_transactions()[i]).id
                    < (#[trigger] self.spec_transactions()[j]).id,
            forall|i: int, j: int|
                0 <= i < self.spec_transactions().len() && 0 <= j < self.spec_transactions().len()
                    && (#[trigger] self.spec_transactions()[i]).id == (#[trigger] self.spec_transactions()[j]).id
                    ==> i == j,
            forall|i: int|
                0 <= i < self.spec_transactions().len() ==> (#[trigger] self.spec_transactions()[i]).id != 0
                    && (self.spec_next() != 0 ==> self.spec_transactions()[i].id < self.spec_next()),
    {
        reveal(ids_ordered);
        let ts = self.spec_transactions();
        assert forall|i: int, j: int|
            0 <= i < ts.len() && 0 <= j < ts.len() && (#[trigger] ts[i]).id == (#[trigger] ts[j]).id implies i == j by {
            if i < j {
                assert(ts[i].id < ts[j].id);
            }
            if j < i {
                assert(ts[j].id < ts[i].id);
            }
        }
    }

    pub closed spec fn spec_total_staged(&self) -> nat {
        self.total_staged_bytes as nat
    }

    /// The manager is well formed: valid limits; ids non-zero, increasing in
    /// the order the transactions began and below the next id; every
    /// transaction for an origin that may hold storage, within its bounds,
    /// and in the state the older transactions decide; and a total that is
    /// the sum of the staged bytes and within its bound.
    pub closed spec fn wf(&self) -> bool {
        let ts = self.spec_transactions();
        &&& self.limits.spec_is_valid()
        &&& self.storage_limits.spec_is_valid()
        &&& ts.len() <= self.limits.max_transactions
        &&& ids_ordered(ts, self.next_transaction)
        &&& forall|i: int|
            0 <= i < ts.len() ==> {
                &&& persistent_identity_fits((#[trigger] ts[i]).origin)
                &&& ts[i].mutations.len() <= self.limits.max_mutations_per_transaction
                &&& ts[i].staged_bytes <= self.limits.max_staged_bytes_per_transaction
            }
        &&& self.total_staged_bytes == staged_total(ts)
        &&& self.total_staged_bytes <= self.limits.max_total_staged_bytes
    }

    /// Why beginning a transaction is refused, checked in this order.
    pub open spec fn begin_refusal(&self, origin: OriginModel) -> Option<StorageTransactionErrorKind> {
        if origin is Opaque {
            Some(StorageTransactionErrorKind::Storage(StorageErrorKind::OpaqueOrigin))
        } else if !persistent_identity_fits(origin) {
            Some(StorageTransactionErrorKind::Storage(StorageErrorKind::OriginIdentityTooLarge))
        } else if self.spec_transactions().len() >= self.spec_limits().max_transactions {
            Some(StorageTransactionErrorKind::TransactionLimitExceeded)
        } else if self.spec_next() == 0 {
            Some(StorageTransactionErrorKind::TransactionIdentitySpaceExhausted)
        } else {
            None
        }
    }

    /// Why a transaction may not stage a mutation of the given bytes,
    /// checked in this order.
    pub open spec fn budget_refusal(&self, id: u64, bytes: nat) -> Option<StorageTransactionErrorKind> {
        let ts = self.spec_transactions();
        let limits = self.spec_limits();
        match transaction_index(ts, id) {
            None => Some(StorageTransactionErrorKind::UnknownTransaction),
            Some(i) => if scheduled_state(ts, i) != StorageTransactionState::Active {
                Some(StorageTransactionErrorKind::TransactionNotActive)
            } else if ts[i].mode != StorageTransactionMode::ReadWrite {
                Some(StorageTransactionErrorKind::ReadOnlyMutation)
            } else if ts[i].mutations.len() >= limits.max_mutations_per_transaction {
                Some(StorageTransactionErrorKind::MutationLimitExceeded)
            } else if ts[i].staged_bytes + bytes > usize::MAX {
                Some(StorageTransactionErrorKind::AccountingOverflow)
            } else if ts[i].staged_bytes + bytes > limits.max_staged_bytes_per_transaction {
                Some(StorageTransactionErrorKind::StagedByteLimitExceeded)
            } else if self.spec_total_staged() + bytes > usize::MAX {
                Some(StorageTransactionErrorKind::AccountingOverflow)
            } else if self.spec_total_staged() + bytes > limits.max_total_staged_bytes {
                Some(StorageTransactionErrorKind::TotalStagedByteLimitExceeded)
            } else {
                None
            },
        }
    }

    /// The manager after the transaction at position `i` staged the
    /// mutation: its mutations and bytes and the total grow.
    pub open spec fn is_staged_of(self, before: Self, i: int, m: MutationModel) -> bool {
        let t = before.spec_transactions()[i];
        &&& self.spec_transactions() == before.spec_transactions().update(
            i,
            TransactionModel {
                id: t.id,
                origin: t.origin,
                mode: t.mode,
                durability: t.durability,
                mutations: t.mutations.push(m),
                staged_bytes: t.staged_bytes + mutation_bytes(m),
            },
        )
        &&& self.spec_total_staged() == before.spec_total_staged() + mutation_bytes(m)
        &&& self.spec_next() == before.spec_next()
        &&& self.spec_process() == before.spec_process()
        &&& self.spec_limits() == before.spec_limits()
        &&& self.spec_storage_limits() == before.spec_storage_limits()
    }

    /// The manager after the transaction at position `i` ended: it is gone,
    /// its bytes are released, and the waiting transactions that no older
    /// one conflicts with any more are active.
    pub open spec fn is_finished_of(self, before: Self, i: int) -> bool {
        &&& self.spec_transactions() == without(before.spec_transactions(), i)
        &&& self.spec_total_staged() == before.spec_total_staged()
            - before.spec_transactions()[i].staged_bytes
        &&& self.spec_next() == before.spec_next()
        &&& self.spec_process() == before.spec_process()
        &&& self.spec_limits() == before.spec_limits()
        &&& self.spec_storage_limits() == before.spec_storage_limits()
    }

    /// A manager without transactions; refused with `InvalidLimits` unless
    /// both sets of limits are valid.
    pub fn try_new(
        process: StorageProcessId,
        storage_limits: StorageLimits,
        limits: StorageTransactionLimits,
    ) -> (r: Result<Self, StorageTransactionError>)
        ensures
            r is Ok <==> storage_limits.spec_is_valid() && limits.spec_is_valid(),
            r matches Err(e) ==> e.kind == StorageTransactionErrorKind::InvalidLimits,
            r matches Ok(m) ==> {
                &&& m.wf()
                &&& m.spec_process() == process
                &&& m.spec_storage_limits() == storage_limits
                &&& m.spec_limits() == limits
                &&& m.spec_next() == 1
                &&& m.spec_transactions().len() == 0
                &&& m.spec_total_staged() == 0
            },
    {
        if !storage_limits.is_valid() || !limits.is_valid() {
            return Err(
                transaction_error(
                    StorageTransactionErrorKind::InvalidLimits,
                    "storage and transaction limits must be valid and non-zero",
                ),
            );
        }
        let m = StorageTransactionManager {
            process,
            storage_limits,
            limits,
            next_transaction: 1,
            transactions: Vec::new(),
            total_staged_bytes: 0,
        };
        proof {
            reveal(ids_ordered);
            assert(m.spec_transactions() =~= Seq::<TransactionModel>::empty());
        }
        Ok(m)
    }

    pub fn process(&self) -> (r: StorageProcessId)
        ensures
            r == self.spec_process(),
    {
        self.process
    }

    pub fn limits(&self) -> (r: StorageTransactionLimits)
        ensures
            r == self.spec_limits(),
    {
        self.limits
    }

    /// The transactions that began and did not end yet.
    pub fn active_transactions(&self) -> (r: usize)
        ensures
            r == self.spec_transactions().len(),
    {
        self.transactions.len()
    }

    pub fn total_staged_bytes(&self) -> (r: usize)
        ensures
            r == self.spec_total_staged(),
    {
        self.total_staged_bytes
    }

    fn conflicts_before(&self, end: usize, mode: StorageTransactionMode, origin: &Origin) -> (r: bool)
        requires
            end <= self.transactions@.len(),
        ensures
            r == exists|j: int|
                0 <= j < end && #[trigger] conflicts(self.spec_transactions()[j], mode, origin@),
    {
        let mut j: usize = 0;
        while j < end
            invariant
                j <= end <= self.transactions@.len(),
                forall|k: int| 0 <= k < j ==> !#[trigger] conflicts(self.spec_transactions()[k], mode, origin@),
            decreases end - j,
        {
            let older = &self.transactions[j];
            proof {
                assert(self.spec_transactions()[j as int] == older.model());
            }
            if older.origin.same_origin(origin) && (mode == StorageTransactionMode::ReadWrite
                || older.mode == StorageTransactionMode::ReadWrite) {
                proof {
                    assert(conflicts(self.spec_transactions()[j as int], mode, origin@));
                }
                return true;
            }
            j = j + 1;
        }
        false
    }

    /// Begins a transaction on the storage of the origin. Refused, with
    /// nothing changed, for the first reason `begin_refusal` gives;
    /// otherwise the transaction gets the next id and is active exactly when
    /// no older transaction conflicts with it.
    pub fn begin(
        &mut self,
        origin: Origin,
        mode: StorageTransactionMode,
        durability: StorageDurabilityHint,
    ) -> (r: Result<StorageTransactionId, StorageTransactionError>)
        requires
            old(self).wf(),
        ensures
            final(self).wf(),
            r is Ok <==> old(self).begin_refusal(origin@) is None,
            r matches Err(e) ==> old(self).begin_refusal(origin@) == Some(e.kind) && *final(self)
                == *old(self),
            r matches Ok(id) ==> {
                &&& id.spec_get() == old(self).spec_next()
                &&& final(self).spec_next() == (if id.spec_get() == u64::MAX {
                    0
                } else {
                    (id.spec_get() + 1) as u64
                })
                &&& final(self).spec_transactions() == old(self).spec_transactions().push(
                    TransactionModel {
                        id: id.spec_get(),
                        origin: origin@,
                        mode,
                        durability,
                        mutations: Seq::empty(),
                        staged_bytes: 0,
                    },
                )
                &&& scheduled_state(
                    final(self).spec_transactions(),
                    old(self).spec_transactions().len() as int,
                ) == (if exists|j: int|
                    0 <= j < old(self).spec_transactions().len() && #[trigger] conflicts(
                        old(self).spec_transactions()[j],
                        mode,
                        origin@,
                    ) {
                    StorageTransactionState::Waiting
                } else {
                    StorageTransactionState::Active
                })
                &&& forall|i: int|
                    0 <= i < old(self).spec_transactions().len() ==> #[trigger] scheduled_state(
                        final(self).spec_transactions(),
                        i,
                    ) == scheduled_state(old(self).spec_transactions(), i)
                &&& final(self).spec_total_staged() == old(self).spec_total_staged()
                &&& final(self).spec_process() == old(self).spec_process()
                &&& final(self).spec_limits() == old(self).spec_limits()
                &&& final(self).spec_storage_limits() == old(self).spec_storage_limits()
            },
    {
        match validate_persistent_origin_identity(&origin) {
            Err(e) => return Err(StorageTransactionError::from_storage(e)),
            Ok(()) => {},
        }
        if self.transactions.len() >= self.limits.max_transactions {
            let mut message = String::new();
            push_str(&mut message, "storage transaction limit ");
            push_decimal(&mut message, self.limits.max_transactions);
            push_str(&mut message, " reached");
            return Err(
                StorageTransactionError::new(
                    StorageTransactionErrorKind::TransactionLimitExceeded,
                    message,
                ),
            );
        }
        if self.next_transaction == 0 {
            return Err(
                transaction_error(
                    StorageTransactionErrorKind::TransactionIdentitySpaceExhausted,
                    "storage transaction identity space is exhausted",
                ),
            );
        }
        let raw = self.next_transaction;
        let id = StorageTransactionId { value: raw };
        let ghost before = self.spec_transactions();
        let transaction = StorageTransaction {
            id,
            origin,
            mode,
            durability,
            mutations: Vec::new(),
            staged_bytes: 0,
        };
        proof {
            assert(transaction.model().mutations =~= Seq::<MutationModel>::empty());
        }
        self.next_transaction = if raw == u64::MAX {
            0
        } else {
            raw + 1
        };
        self.transactions.push(transaction);
        proof {
            let ts = self.spec_transactions();
            assert(ts =~= before.push(transaction.model()));
            lemma_push_keeps_states(before, transaction.model());
            lemma_push_keeps_ids(before, raw, transaction.model());
            assert(ts.drop_last() =~= before);
            assert forall|i: int| 0 <= i < ts.len() implies {
                &&& persistent_identity_fits((#[trigger] ts[i]).origin)
                &&& ts[i].mutations.len() <= self.limits.max_mutations_per_transaction
                &&& ts[i].staged_bytes <= self.limits.max_staged_bytes_per_transaction
            } by {
                if i < before.len() {
                    assert(ts[i] == before[i]);
                }
            }
        }
        Ok(id)
    }

    fn state_at(&self, i: usize) -> (r: StorageTransactionState)
        requires
            i < self.transactions@.len(),
        ensures
            r == scheduled_state(self.spec_transactions(), i as int),
    {
        let t = &self.transactions[i];
        proof {
            assert(self.spec_transactions()[i as int] == t.model());
        }
        if self.conflicts_before(i, t.mode, &t.origin) {
            StorageTransactionState::Waiting
        } else {
            StorageTransactionState::Active
        }
    }

    fn find(&self, id: StorageTransactionId) -> (r: Option<usize>)
        requires
            self.wf(),
        ensures
            (match r {
                Some(i) => transaction_index(self.spec_transactions(), id.spec_get()) == Some(
                    i as int,
                ) && i < self.transactions@.len(),
                None => transaction_index(self.spec_transactions(), id.spec_get()) is None,
            }),
    {
        let mut i: usize = 0;
        while i < self.transactions.len()
            invariant
                self.wf(),
                i <= self.transactions@.len(),
                forall|k: int| 0 <= k < i ==> (#[trigger] self.spec_transactions()[k]).id != id.spec_get(),
            decreases self.transactions@.len() - i,
        {
            proof {
                assert(self.spec_transactions()[i as int] == self.transactions@[i as int].model());
            }
            if self.transactions[i].id.value == id.value {
                proof {
                    reveal(ids_ordered);
                    let ts = self.spec_transactions();
                    let j = choose|j: int| 0 <= j < ts.len() && (#[trigger] ts[j]).id == id.spec_get();
                    if j < i {
                        assert(ts[j].id < ts[i as int].id);
                    } else if j > i {
                        assert(ts[i as int].id < ts[j].id);
                    }
                }
                return Some(i);
            }
            i = i + 1;
        }
        None
    }

    fn transaction_at(&self, id: StorageTransactionId) -> (r: Result<usize, StorageTransactionError>)
        requires
            self.wf(),
        ensures
            (match transaction_index(self.spec_transactions(), id.spec_get()) {
                Some(i) => r == Ok::<usize, StorageTransactionError>(i as usize) && i
                    < self.transactions@.len(),
                None => r matches Err(e) && e.kind == StorageTransactionErrorKind::UnknownTransaction,
            }),
    {
        match self.find(id) {
            Some(i) => Ok(i),
            None => Err(unknown_error(id)),
        }
    }

    /// The state of a transaction; `UnknownTransaction` for an id that is
    /// not live.
    pub fn state(&self, id: StorageTransactionId) -> (r: Result<StorageTransactionState, StorageTransactionError>)
        requires
            self.wf(),
        ensures
            (match transaction_index(self.spec_transactions(), id.spec_get()) {
                Some(i) => r == Ok::<StorageTransactionState, StorageTransactionError>(
                    scheduled_state(self.spec_transactions(), i),
                ),
                None => r matches Err(e) && e.kind == StorageTransactionErrorKind::UnknownTransaction,
            }),
    {
        let i = self.transaction_at(id)?;
        proof {
            assert(self.spec_transactions()[i as int] == self.transactions@[i as int].model());
        }
        Ok(self.state_at(i))
    }

    /// The origin of a transaction.
    pub fn origin(&self, id: StorageTransactionId) -> (r: Result<&Origin, StorageTransactionError>)
        requires
            self.wf(),
        ensures
            (match transaction_index(self.spec_transactions(), id.spec_get()) {
                Some(i) => r matches Ok(o) && o@ == self.spec_transactions()[i].origin,
                None => r matches Err(e) && e.kind == StorageTransactionErrorKind::UnknownTransaction,
            }),
    {
        let i = self.transaction_at(id)?;
        proof {
            assert(self.spec_transactions()[i as int] == self.transactions@[i as int].model());
        }
        Ok(&self.transactions[i].origin)
    }

    /// The mode of a transaction.
    pub fn mode(&self, id: StorageTransactionId) -> (r: Result<StorageTransactionMode, StorageTransactionError>)
        requires
            self.wf(),
        ensures
            (match transaction_index(self.spec_transactions(), id.spec_get()) {
                Some(i) => r == Ok::<StorageTransactionMode, StorageTransactionError>(
                    self.spec_transactions()[i].mode,
                ),
                None => r matches Err(e) && e.kind == StorageTransactionErrorKind::UnknownTransaction,
            }),
    {
        let i = self.transaction_at(id)?;
        proof {
            assert(self.spec_transactions()[i as int] == self.transactions@[i as int].model());
        }
        Ok(self.transactions[i].mode)
    }

    /// The durability hint of a transaction.
    pub fn durability(&self, id: StorageTransactionId) -> (r: Result<StorageDurabilityHint, StorageTransactionError>)
        requires
            self.wf(),
        ensures
            (match transaction_index(self.spec_transactions(), id.spec_get()) {
                Some(i) => r == Ok::<StorageDurabilityHint, StorageTransactionError>(
                    self.spec_transactions()[i].durability,
                ),
                None => r matches Err(e) && e.kind == StorageTransactionErrorKind::UnknownTransaction,
            }),
    {
        let i = self.transaction_at(id)?;
        proof {
            assert(self.spec_transactions()[i as int] == self.transactions@[i as int].model());
        }
        Ok(self.transactions[i].durability)
    }

    /// The number of mutations a transaction staged.
    pub fn staged_mutations(&self, id: StorageTransactionId) -> (r: Result<usize, StorageTransactionError>)
        requires
            self.wf(),
        ensures
            (match transaction_index(self.spec_transactions(), id.spec_get()) {
                Some(i) => r == Ok::<usize, StorageTransactionError>(
                    self.spec_transactions()[i].mutations.len() as usize,
                ),
                None => r matches Err(e) && e.kind == StorageTransactionErrorKind::UnknownTransaction,
            }),
    {
        let i = self.transaction_at(id)?;
        proof {
            assert(self.spec_transactions()[i as int] == self.transactions@[i as int].model());
        }
        Ok(self.transactions[i].mutations.len())
    }

    /// The bytes a transaction staged.
    pub fn staged_bytes(&self, id: StorageTransactionId) -> (r: Result<usize, StorageTransactionError>)
        requires
            self.wf(),
        ensures
            (match transaction_index(self.spec_transactions(), id.spec_get()) {
                Some(i) => r == Ok::<usize, StorageTransactionError>(
                    self.spec_transactions()[i].staged_bytes as usize,
                ),
                None => r matches Err(e) && e.kind == StorageTransactionErrorKind::UnknownTransaction,
            }),
    {
        let i = self.transaction_at(id)?;
        proof {
            assert(self.spec_transactions()[i as int] == self.transactions@[i as int].model());
        }
        Ok(self.transactions[i].staged_bytes)
    }

    fn active_at(&self, id: StorageTransactionId) -> (r: Result<usize, StorageTransactionError>)
        requires
            self.wf(),
        ensures
            (match transaction_index(self.spec_transactions(), id.spec_get()) {
                Some(i) => if scheduled_state(self.spec_transactions(), i) == StorageTransactionState::Active {
                    r == Ok::<usize, StorageTransactionError>(i as usize) && i < self.transactions@.len()
                } else {
                    r matches Err(e) && e.kind == StorageTransactionErrorKind::TransactionNotActive
                },
                None => r matches Err(e) && e.kind == StorageTransactionErrorKind::UnknownTransaction,
            }),
    {
        let i = self.transaction_at(id)?;
        proof {
            assert(self.spec_transactions()[i as int] == self.transactions@[i as int].model());
        }
        if self.state_at(i) != StorageTransactionState::Active {
            let mut message = String::new();
            push_str(&mut message, "storage transaction ");
            push_str(&mut message, id.to_string().as_str());
            push_str(&mut message, " is waiting for its exact-origin scope");
            return Err(
                StorageTransactionError::new(StorageTransactionErrorKind::TransactionNotActive, message),
            );
        }
        Ok(i)
    }

    fn authorize_storage(&self, storage: &StorageProcessState) -> (r: Result<(), StorageTransactionError>)
        ensures
            r is Ok <==> storage.spec_process() == self.spec_process(),
            r matches Err(e) ==> e.kind == StorageTransactionErrorKind::WrongProcess,
    {
        if storage.process() != self.process {
            return Err(
                transaction_error(
                    StorageTransactionErrorKind::WrongProcess,
                    "storage transaction manager and committed state belong to different Storage processes",
                ),
            );
        }
        Ok(())
    }

    fn validate_key(&self, key: &str) -> (r: Result<usize, StorageTransactionError>)
        ensures
            (match r {
                Ok(n) => n == utf8_len(key@) && n <= self.storage_limits.max_key_bytes,
                Err(e) => utf8_len(key@) > self.storage_limits.max_key_bytes && e.kind
                    == StorageTransactionErrorKind::Storage(StorageErrorKind::KeyTooLarge),
            }),
    {
        let n = utf8_byte_len(key);
        if n > self.storage_limits.max_key_bytes {
            return Err(
                StorageTransactionError::new(
                    StorageTransactionErrorKind::Storage(StorageErrorKind::KeyTooLarge),
                    size_message("storage key", n, self.storage_limits.max_key_bytes),
                ),
            );
        }
        Ok(n)
    }

    /// Reads a key through an active transaction: the newest staged
    /// mutation of the key decides (a put gives its value; a removal, or a
    /// clear staged after the last put, gives nothing); otherwise the
    /// committed storage does. Refused with `WrongProcess` for another
    /// process's storage, then `KeyTooLarge`, then an unknown or waiting
    /// transaction.
    pub fn read(&self, id: StorageTransactionId, storage: &StorageProcessState, key: &str) -> (r:
        Result<Option<Vec<u8>>, StorageTransactionError>)
        requires
            self.wf(),
            storage.wf(),
        ensures
            storage.spec_process() != self.spec_process() ==> (r matches Err(e) && e.kind
                == StorageTransactionErrorKind::WrongProcess),
            storage.spec_process() == self.spec_process() && utf8_len(key@)
                > self.spec_storage_limits().max_key_bytes ==> (r matches Err(e) && e.kind
                == StorageTransactionErrorKind::Storage(StorageErrorKind::KeyTooLarge)),
            storage.spec_process() == self.spec_process() && utf8_len(key@)
                <= self.spec_storage_limits().max_key_bytes ==> match transaction_index(
                self.spec_transactions(),
                id.spec_get(),
            ) {
                None => r matches Err(e) && e.kind == StorageTransactionErrorKind::UnknownTransaction,
                Some(i) => {
                    let t = self.spec_transactions()[i];
                    if scheduled_state(self.spec_transactions(), i) != StorageTransactionState::Active {
                        r matches Err(e) && e.kind == StorageTransactionErrorKind::TransactionNotActive
                    } else {
                        r matches Ok(v) && (match v {
                            Some(b) => Some(b@),
                            None => None,
                        }) == match staged_read(t.mutations, key@) {
                            Some(decided) => decided,
                            None => storage.spec_get(t.origin, key@),
                        }
                    }
                },
            },
    {
        self.authorize_storage(storage)?;
        self.validate_key(key)?;
        let i = self.active_at(id)?;
        let transaction = &self.transactions[i];
        let ghost t = self.spec_transactions()[i as int];
        proof {
            assert(t == transaction.model());
        }
        match staged_lookup(&transaction.mutations, key) {
            Some(decided) => {
                return Ok(decided);
            },
            None => {},
        }
        match storage.get(&transaction.origin, key) {
            Some(v) => Ok(Some(copy_bytes(v))),
            None => Ok(None),
        }
    }

    /// Why staging a put is refused, checked in this order.
    pub open spec fn put_refusal(&self, id: u64, key: Seq<char>, value: Seq<u8>) -> Option<
        StorageTransactionErrorKind,
    > {
        if utf8_len(key) > self.spec_storage_limits().max_key_bytes {
            Some(StorageTransactionErrorKind::Storage(StorageErrorKind::KeyTooLarge))
        } else if value.len() > self.spec_storage_limits().max_value_bytes {
            Some(StorageTransactionErrorKind::Storage(StorageErrorKind::ValueTooLarge))
        } else if utf8_len(key) + value.len() > usize::MAX {
            Some(StorageTransactionErrorKind::AccountingOverflow)
        } else {
            self.budget_refusal(id, utf8_len(key) + value.len())
        }
    }

    fn validate_budget(&self, id: StorageTransactionId, bytes: usize) -> (r: Result<usize, StorageTransactionError>)
        requires
            self.wf(),
        ensures
            (match self.budget_refusal(id.spec_get(), bytes as nat) {
                Some(kind) => r matches Err(e) && e.kind == kind,
                None => r matches Ok(i) && transaction_index(self.spec_transactions(), id.spec_get())
                    == Some(i as int) && i < self.transactions@.len(),
            }),
    {
        let i = self.active_at(id)?;
        let t = &self.transactions[i];
        proof {
            assert(self.spec_transactions()[i as int] == t.model());
        }
        if t.mode != StorageTransactionMode::ReadWrite {
            return Err(
                transaction_error(
                    StorageTransactionErrorKind::ReadOnlyMutation,
                    "read-only storage transaction cannot stage mutations",
                ),
            );
        }
        if t.mutations.len() >= self.limits.max_mutations_per_transaction {
            let mut message = String::new();
            push_str(&mut message, "storage transaction mutation limit ");
            push_decimal(&mut message, self.limits.max_mutations_per_transaction);
            push_str(&mut message, " reached");
            return Err(
                StorageTransactionError::new(StorageTransactionErrorKind::MutationLimitExceeded, message),
            );
        }
        let transaction_bytes = match t.staged_bytes.checked_add(bytes) {
            Some(b) => b,
            None => return Err(overflow_error()),
        };
        if transaction_bytes > self.limits.max_staged_bytes_per_transaction {
            return Err(
                StorageTransactionError::new(
                    StorageTransactionErrorKind::StagedByteLimitExceeded,
                    size_message(
                        "storage transaction staging",
                        transaction_bytes,
                        self.limits.max_staged_bytes_per_transaction,
                    ),
                ),
            );
        }
        let total_bytes = match self.total_staged_bytes.checked_add(bytes) {
            Some(b) => b,
            None => return Err(overflow_error()),
        };
        if total_bytes > self.limits.max_total_staged_bytes {
            return Err(
                StorageTransactionError::new(
                    StorageTransactionErrorKind::TotalStagedByteLimitExceeded,
                    size_message(
                        "storage transactions staging",
                        total_bytes,
                        self.limits.max_total_staged_bytes,
                    ),
                ),
            );
        }
        Ok(i)
    }

    fn push_mutation(&mut self, i: usize, m: StorageMutation, bytes: usize)
        requires
            old(self).wf(),
            i < old(self).transactions@.len(),
            bytes == mutation_bytes(m@),
            old(self).spec_transactions()[i as int].mutations.len()
                < old(self).limits.max_mutations_per_transaction,
            old(self).spec_transactions()[i as int].staged_bytes + bytes
                <= old(self).limits.max_staged_bytes_per_transaction,
            old(self).total_staged_bytes + bytes <= old(self).limits.max_total_staged_bytes,
        ensures
            final(self).wf(),
            final(self).is_staged_of(*old(self), i as int, m@),
    {
        let ghost before = self.spec_transactions();
        let ghost mm = m@;
        let mut t = self.transactions.remove(i);
        proof {
            assert(before[i as int] == t.model());
        }
        let ghost old_t = t.model();
        t.mutations.push(m);
        t.staged_bytes = t.staged_bytes + bytes;
        self.transactions.insert(i, t);
        self.total_staged_bytes = self.total_staged_bytes + bytes;
        proof {
            assert(t.model().mutations =~= old_t.mutations.push(mm));
            let x = TransactionModel {
                id: old_t.id,
                origin: old_t.origin,
                mode: old_t.mode,
                durability: old_t.durability,
                mutations: old_t.mutations.push(mm),
                staged_bytes: old_t.staged_bytes + mutation_bytes(mm),
            };
            assert(t.model() == x);
            assert(self.transactions@ =~= old(self).transactions@.update(i as int, t));
            let ts = self.spec_transactions();
            assert(ts =~= before.update(i as int, x));
            lemma_staged_total_update(before, i as int, x);
            reveal(ids_ordered);
            assert forall|a: int| 0 <= a < ts.len() implies {
                &&& persistent_identity_fits((#[trigger] ts[a]).origin)
                &&& ts[a].mutations.len() <= self.limits.max_mutations_per_transaction
                &&& ts[a].staged_bytes <= self.limits.max_staged_bytes_per_transaction
            } by {
                if a != i {
                    assert(ts[a] == before[a]);
                }
            }
            assert forall|a: int, b: int| 0 <= a < b < ts.len() implies (#[trigger] ts[a]).id < (
            #[trigger] ts[b]).id by {
                assert(before[a].id < before[b].id);
            }
        }
    }

    /// Stages a put of the value under the key. Refused, with nothing
    /// changed, for the first reason `put_refusal` gives; otherwise the
    /// transaction's mutations, its bytes and the total grow by the put.
    pub fn stage_put(&mut self, id: StorageTransactionId, key: &str, value: &[u8]) -> (r: Result<
        (),
        StorageTransactionError,
    >)
        requires
            old(self).wf(),
        ensures
            final(self).wf(),
            r is Ok <==> old(self).put_refusal(id.spec_get(), key@, value@) is None,
            r matches Err(e) ==> old(self).put_refusal(id.spec_get(), key@, value@) == Some(e.kind)
                && *final(self) == *old(self),
            r is Ok ==> (transaction_index(old(self).spec_transactions(), id.spec_get()) matches Some(
                i,
            ) && final(self).is_staged_of(*old(self), i, MutationModel::Put(key@, value@))),
    {
        let key_len = self.validate_key(key)?;
        if value.len() > self.storage_limits.max_value_bytes {
            return Err(
                StorageTransactionError::new(
                    StorageTransactionErrorKind::Storage(StorageErrorKind::ValueTooLarge),
                    size_message("storage value", value.len(), self.storage_limits.max_value_bytes),
                ),
            );
        }
        let bytes = match key_len.checked_add(value.len()) {
            Some(b) => b,
            None => return Err(overflow_error()),
        };
        let i = self.validate_budget(id, bytes)?;
        let m = StorageMutation::Put { key: key.to_owned(), value: copy_bytes(value) };
        self.push_mutation(i, m, bytes);
        Ok(())
    }

    /// Stages the removal of the key: refused as a put of no value would
    /// be, but for the value's own checks.
    pub fn stage_remove(&mut self, id: StorageTransactionId, key: &str) -> (r: Result<
        (),
        StorageTransactionError,
    >)
        requires
            old(self).wf(),
        ensures
            final(self).wf(),
            utf8_len(key@) > old(self).spec_storage_limits().max_key_bytes ==> (r matches Err(e)
                && e.kind == StorageTransactionErrorKind::Storage(StorageErrorKind::KeyTooLarge)
                && *final(self) == *old(self)),
            utf8_len(key@) <= old(self).spec_storage_limits().max_key_bytes
                ==> match old(self).budget_refusal(id.spec_get(), utf8_len(key@)) {
                Some(kind) => r matches Err(e) && e.kind == kind && *final(self) == *old(self),
                None => r is Ok && (transaction_index(old(self).spec_transactions(), id.spec_get())
                    matches Some(i) && final(self).is_staged_of(
                    *old(self),
                    i,
                    MutationModel::Remove(key@),
                )),
            },
    {
        let key_len = self.validate_key(key)?;
        let i = self.validate_budget(id, key_len)?;
        let m = StorageMutation::Remove { key: key.to_owned() };
        self.push_mutation(i, m, key_len);
        Ok(())
    }

    /// Stages clearing the origin's storage.
    pub fn stage_clear(&mut self, id: StorageTransactionId) -> (r: Result<(), StorageTransactionError>)
        requires
            old(self).wf(),
        ensures
            final(self).wf(),
            (match old(self).budget_refusal(id.spec_get(), 0) {
                Some(kind) => r matches Err(e) && e.kind == kind && *final(self) == *old(self),
                None => r is Ok && (transaction_index(old(self).spec_transactions(), id.spec_get())
                    matches Some(i) && final(self).is_staged_of(*old(self), i, MutationModel::Clear)),
            }),
    {
        let i = self.validate_budget(id, 0)?;
        self.push_mutation(i, StorageMutation::Clear, 0);
        Ok(())
    }

    fn finish(&mut self, i: usize)
        requires
            old(self).wf(),
            i < old(self).transactions@.len(),
        ensures
            final(self).wf(),
            final(self).is_finished_of(*old(self), i as int),
    {
        let ghost before = self.spec_transactions();
        let t = self.transactions.remove(i);
        proof {
            assert(before[i as int] == t.model());
            lemma_staged_total_without(before, i as int);
        }
        self.total_staged_bytes = self.total_staged_bytes - t.staged_bytes;
        proof {
            let ts = self.spec_transactions();
            assert(self.transactions@ =~= without(old(self).transactions@, i as int));
            assert(ts =~= without(before, i as int));
            reveal(ids_ordered);
            assert forall|a: int| 0 <= a < ts.len() implies ts[a] == before[if a < i { a } else { a + 1 }] by {}
            assert forall|a: int, b: int| 0 <= a < b < ts.len() implies (#[trigger] ts[a]).id < (
            #[trigger] ts[b]).id by {
                assert(ts[a] == before[if a < i { a } else { a + 1 }]);
                assert(ts[b] == before[if b < i { b } else { b + 1 }]);
            }
            assert forall|a: int| 0 <= a < ts.len() implies {
                &&& persistent_identity_fits((#[trigger] ts[a]).origin)
                &&& ts[a].mutations.len() <= self.limits.max_mutations_per_transaction
                &&& ts[a].staged_bytes <= self.limits.max_staged_bytes_per_transaction
                &&& ts[a].id != 0
                &&& (self.next_transaction != 0 ==> ts[a].id < self.next_transaction)
            } by {
                assert(ts[a] == before[if a < i { a } else { a + 1 }]);
            }
        }
    }

    /// Ends a transaction without applying it: `Ok(true)` and its staged
    /// mutations and bytes gone; `UnknownTransaction` and nothing changed
    /// for an id that is not live.
    pub fn abort(&mut self, id: StorageTransactionId) -> (r: Result<bool, StorageTransactionError>)
        requires
            old(self).wf(),
        ensures
            final(self).wf(),
            (match transaction_index(old(self).spec_transactions(), id.spec_get()) {
                None => r matches Err(e) && e.kind == StorageTransactionErrorKind::UnknownTransaction
                    && *final(self) == *old(self),
                Some(i) => r == Ok::<bool, StorageTransactionError>(true)
                    && final(self).is_finished_of(*old(self), i),
            }),
    {
        let i = self.transaction_at(id)?;
        self.finish(i);
        Ok(true)
    }

    /// Commits an active transaction and ends it. Refused, with nothing
    /// changed, with `WrongProcess` for another process's storage, then for
    /// an unknown or waiting transaction. A read-only transaction changes no
    /// storage. Otherwise the staged mutations are applied in order to a
    /// copy of the storage: when all succeed the copy becomes the storage;
    /// when a put is refused the storage stays as it was and the refusal
    /// comes back. Either way the transaction ends.
    pub fn commit(&mut self, id: StorageTransactionId, storage: &mut StorageProcessState) -> (r:
        Result<StorageTransactionCommit, StorageTransactionError>)
        requires
            old(self).wf(),
            old(storage).wf(),
        ensures
            final(self).wf(),
            final(storage).wf(),
            old(storage).spec_process() != old(self).spec_process() ==> (r matches Err(e) && e.kind
                == StorageTransactionErrorKind::WrongProcess && *final(self) == *old(self)
                && *final(storage) == *old(storage)),
            old(storage).spec_process() == old(self).spec_process() ==> match transaction_index(
                old(self).spec_transactions(),
                id.spec_get(),
            ) {
                None => r matches Err(e) && e.kind == StorageTransactionErrorKind::UnknownTransaction
                    && *final(self) == *old(self) && *final(storage) == *old(storage),
                Some(i) => if scheduled_state(old(self).spec_transactions(), i)
                    != StorageTransactionState::Active {
                    r matches Err(e) && e.kind == StorageTransactionErrorKind::TransactionNotActive
                        && *final(self) == *old(self) && *final(storage) == *old(storage)
                } else {
                    let t = old(self).spec_transactions()[i];
                    &&& final(self).is_finished_of(*old(self), i)
                    &&& t.mode == StorageTransactionMode::ReadOnly ==> (r matches Ok(c)
                        && c.spec_transaction() == id && c.spec_durability() == t.durability
                        && !c.spec_mutated() && *final(storage) == *old(storage))
                    &&& t.mode == StorageTransactionMode::ReadWrite ==> match r {
                        Ok(c) => c.spec_transaction() == id && c.spec_durability() == t.durability
                            && c.spec_mutated() == (t.mutations.len() > 0) && commit_succeeds(
                            *old(storage),
                            *final(storage),
                            t.origin,
                            t.mutations,
                        ),
                        Err(e) => *final(storage) == *old(storage) && (e.kind matches StorageTransactionErrorKind::Storage(
                            kind,
                        ) && commit_refused(*old(storage), t.origin, t.mutations, kind)),
                    }
                },
            },
    {
        self.authorize_storage(storage)?;
        let i = self.active_at(id)?;
        let ghost before = *storage;
        let (mode, durability, mutated) = {
            let t = &self.transactions[i];
            (t.mode, t.durability, t.mutations.len() > 0)
        };
        proof {
            assert(self.spec_transactions()[i as int] == self.transactions@[i as int].model());
        }
        if mode == StorageTransactionMode::ReadOnly {
            self.finish(i);
            return Ok(StorageTransactionCommit { transaction: id, durability, mutated: false });
        }
        let mut candidate = storage.duplicate();
        let applied = {
            let t = &self.transactions[i];
            apply_mutations(&mut candidate, &t.origin, &t.mutations, Ghost(before))
        };
        self.finish(i);
        match applied {
            Ok(()) => {
                *storage = candidate;
                Ok(StorageTransactionCommit { transaction: id, durability, mutated })
            },
            Err(e) => Err(StorageTransactionError::from_storage(e)),
        }
    }

}

} // verus!
