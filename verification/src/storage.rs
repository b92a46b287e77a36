//! Per-origin key/value storage of the storage process, with quotas.
//!
//! Values are kept per exact origin: two origins of one site never share
//! entries. Every mutation is checked against the entry, origin and process
//! byte quotas before anything changes, so a refused mutation leaves the
//! state exactly as it was. Origins are kept in canonical order and each
//! origin's keys in byte order, so a checkpoint can list them directly.
use crate::keyed::{
    index_of_key, key_at, keyed_map, lemma_index_of_key, lemma_keyed_map_at,
    lemma_keyed_map_congruent, lemma_keyed_map_insert, lemma_keyed_map_remove,
    lemma_keyed_map_update, lemma_sorted_distinct, lemma_weight_sum_congruent, lemma_sorted_insert,
    lemma_sorted_remove, lemma_sorted_update, lemma_weight_sum_insert, lemma_weight_sum_remove,
    lemma_weight_sum_update, less_is_transitive, less_separates, sorted_by, weight_sum,
};
use crate::order::{
    bytes_order, compare_bytes, lemma_bytes_order_equal, lemma_bytes_order_flip,
    lemma_bytes_order_trans, Order,
};
use crate::origin::{
    compare_origins, lemma_origin_order_equal, lemma_origin_order_flip, lemma_origin_order_trans,
    origin_order, HostModel, Origin, OriginModel, UrlHost,
};
use crate::process::StorageProcessId;
use crate::text::{copy_bytes, lemma_encode_injective, size_message, utf8_byte_len, utf8_len};
use vstd::prelude::*;
use vstd::utf8::encode_utf8;

verus! {

pub const DEFAULT_MAX_ORIGINS: usize = 1024;

pub const DEFAULT_MAX_ENTRIES_PER_ORIGIN: usize = 4096;

pub const DEFAULT_MAX_KEY_BYTES: usize = 16384;

pub const DEFAULT_MAX_VALUE_BYTES: usize = 1048576;

pub const DEFAULT_MAX_ORIGIN_BYTES: usize = 16777216;

pub const DEFAULT_MAX_TOTAL_BYTES: usize = 268435456;

/// The most UTF-8 bytes a persisted origin's scheme or domain may have.
pub const MAX_PERSISTENT_ORIGIN_IDENTITY_BYTES: usize = 2048;

/// An origin may hold persistent storage: a tuple origin whose scheme and
/// domain fit `MAX_PERSISTENT_ORIGIN_IDENTITY_BYTES`.
pub open spec fn persistent_identity_fits(o: OriginModel) -> bool {
    match o {
        OriginModel::Tuple { scheme, host, .. } => {
            &&& utf8_len(scheme) <= MAX_PERSISTENT_ORIGIN_IDENTITY_BYTES
            &&& match host {
                HostModel::Domain(d) => utf8_len(d) <= MAX_PERSISTENT_ORIGIN_IDENTITY_BYTES,
                HostModel::Ipv4(a) => a.len() == 4,
                HostModel::Ipv6(a) => a.len() == 16,
            }
        },
        OriginModel::Opaque(_) => false,
    }
}

/// Quotas of the storage process.
#[derive(Clone, Copy, Debug, PartialEq, Eq, Structural)]
pub struct StorageLimits {
    pub max_origins: usize,
    pub max_entries_per_origin: usize,
    pub max_key_bytes: usize,
    pub max_value_bytes: usize,
    pub max_origin_bytes: usize,
    pub max_total_bytes: usize,
}

impl StorageLimits {
    /// Every quota is non-zero and the value and origin byte quotas fit
    /// within their parents.
    pub open spec fn spec_is_valid(self) -> bool {
        &&& self.max_origins > 0
        &&& self.max_entries_per_origin > 0
        &&& self.max_key_bytes > 0
        &&& self.max_value_bytes > 0
        &&& self.max_origin_bytes > 0
        &&& self.max_total_bytes > 0
        &&& self.max_value_bytes <= self.max_origin_bytes
        &&& self.max_origin_bytes <= self.max_total_bytes
    }

    pub fn is_valid(self) -> (r: bool)
        ensures
            r == self.spec_is_valid(),
    {
        self.max_origins > 0 && self.max_entries_per_origin > 0 && self.max_key_bytes > 0
            && self.max_value_bytes > 0 && self.max_origin_bytes > 0 && self.max_total_bytes > 0
            && self.max_value_bytes <= self.max_origin_bytes && self.max_origin_bytes
            <= self.max_total_bytes
    }
}

impl Default for StorageLimits {
    fn default() -> (r: Self)
        ensures
            r == (StorageLimits {
                max_origins: DEFAULT_MAX_ORIGINS,
                max_entries_per_origin: DEFAULT_MAX_ENTRIES_PER_ORIGIN,
                max_key_bytes: DEFAULT_MAX_KEY_BYTES,
                max_value_bytes: DEFAULT_MAX_VALUE_BYTES,
                max_origin_bytes: DEFAULT_MAX_ORIGIN_BYTES,
                max_total_bytes: DEFAULT_MAX_TOTAL_BYTES,
            }),
    {
        StorageLimits {
            max_origins: DEFAULT_MAX_ORIGINS,
            max_entries_per_origin: DEFAULT_MAX_ENTRIES_PER_ORIGIN,
            max_key_bytes: DEFAULT_MAX_KEY_BYTES,
            max_value_bytes: DEFAULT_MAX_VALUE_BYTES,
            max_origin_bytes: DEFAULT_MAX_ORIGIN_BYTES,
            max_total_bytes: DEFAULT_MAX_TOTAL_BYTES,
        }
    }
}

#[derive(Clone, Copy, Debug, PartialEq, Eq, Structural)]
pub enum StorageErrorKind {
    InvalidLimits,
    OpaqueOrigin,
    KeyTooLarge,
    ValueTooLarge,
    OriginLimitExceeded,
    EntryLimitExceeded,
    OriginByteLimitExceeded,
    TotalByteLimitExceeded,
    AccountingOverflow,
    AllocationFailed,
    OriginIdentityTooLarge,
}

#[derive(Clone, Debug, PartialEq, Eq)]
pub struct StorageError {
    pub kind: StorageErrorKind,
    pub message: String,
}

impl StorageError {
    pub(crate) fn new(kind: StorageErrorKind, message: &str) -> (r: Self)
        ensures
            r.kind == kind,
            r.message@ == message@,
    {
        StorageError { kind, message: message.to_owned() }
    }

    /// The error's message.
    pub fn to_string(&self) -> (r: String)
        ensures
            r@ == self.message@,
    {
        self.message.clone()
    }
}

/// One stored entry.
#[derive(Debug)]
pub(crate) struct StorageEntry {
    pub(crate) key: String,
    pub(crate) value: Vec<u8>,
}

/// The entries of one origin and their byte count.
#[derive(Debug)]
pub(crate) struct OriginStorage {
    pub(crate) origin: Origin,
    pub(crate) entries: Vec<StorageEntry>,
    pub(crate) bytes: usize,
}

pub(crate) open spec fn entry_key() -> spec_fn(StorageEntry) -> Seq<char> {
    |e: StorageEntry| e.key@
}

pub(crate) open spec fn entry_value() -> spec_fn(StorageEntry) -> Seq<u8> {
    |e: StorageEntry| e.value@
}

/// The bytes an entry is charged: its key's UTF-8 bytes and its value.
pub(crate) open spec fn entry_weight() -> spec_fn(StorageEntry) -> nat {
    |e: StorageEntry| utf8_len(e.key@) + e.value@.len()
}

/// Entries are ordered by the UTF-8 bytes of their keys.
pub(crate) open spec fn entry_order() -> spec_fn(StorageEntry, StorageEntry) -> Order {
    |a: StorageEntry, b: StorageEntry| bytes_order(encode_utf8(a.key@), encode_utf8(b.key@))
}

pub(crate) open spec fn storage_origin() -> spec_fn(OriginStorage) -> OriginModel {
    |o: OriginStorage| o.origin@
}

pub(crate) open spec fn storage_entries() -> spec_fn(OriginStorage) -> Map<Seq<char>, Seq<u8>> {
    |o: OriginStorage| keyed_map(o.entries@, entry_key(), entry_value())
}

pub(crate) open spec fn storage_weight() -> spec_fn(OriginStorage) -> nat {
    |o: OriginStorage| o.bytes as nat
}

pub(crate) open spec fn storage_count() -> spec_fn(OriginStorage) -> nat {
    |o: OriginStorage| o.entries@.len()
}

/// Origins are ordered canonically.
pub(crate) open spec fn storage_order() -> spec_fn(OriginStorage, OriginStorage) -> Order {
    |a: OriginStorage, b: OriginStorage| origin_order(a.origin@, b.origin@)
}

/// The storage of one origin is well formed: a tuple origin, at least one
/// entry and at most the entry quota, keys in order, and a byte count that is
/// the sum of the entries' bytes and within the origin quota.
pub(crate) open spec fn origin_storage_wf(o: OriginStorage, limits: StorageLimits) -> bool {
    &&& o.origin@ is Tuple
    &&& o.entries@.len() > 0
    &&& o.entries@.len() <= limits.max_entries_per_origin
    &&& sorted_by(o.entries@, entry_order())
    &&& o.bytes == weight_sum(o.entries@, entry_weight())
    &&& o.bytes <= limits.max_origin_bytes
    &&& forall|j: int|
        0 <= j < o.entries@.len() ==> utf8_len((#[trigger] o.entries@[j]).key@) <= limits.max_key_bytes
            && o.entries@[j].value@.len() <= limits.max_value_bytes
}

pub(crate) proof fn lemma_entry_order_laws()
    ensures
        less_is_transitive(entry_order()),
        less_separates(entry_order(), entry_key()),
{
    assert forall|a: StorageEntry, b: StorageEntry, c: StorageEntry|
        #![trigger entry_order()(a, b), entry_order()(b, c)]
        entry_order()(a, b) == Order::Less && entry_order()(b, c) == Order::Less implies entry_order()(
        a,
        c,
    ) == Order::Less by {
        lemma_bytes_order_trans(encode_utf8(a.key@), encode_utf8(b.key@), encode_utf8(c.key@));
    }
    assert forall|a: StorageEntry, b: StorageEntry| #[trigger]
        entry_order()(a, b) == Order::Less implies entry_key()(a) != entry_key()(b) by {
        lemma_bytes_order_equal(encode_utf8(a.key@), encode_utf8(b.key@));
    }
}

pub(crate) proof fn lemma_storage_order_laws()
    ensures
        less_is_transitive(storage_order()),
        less_separates(storage_order(), storage_origin()),
{
    assert forall|a: OriginStorage, b: OriginStorage, c: OriginStorage|
        #![trigger storage_order()(a, b), storage_order()(b, c)]
        storage_order()(a, b) == Order::Less && storage_order()(b, c) == Order::Less implies storage_order()(
        a,
        c,
    ) == Order::Less by {
        lemma_origin_order_trans(a.origin@, b.origin@, c.origin@);
    }
    assert forall|a: OriginStorage, b: OriginStorage| #[trigger]
        storage_order()(a, b) == Order::Less implies storage_origin()(a) != storage_origin()(b) by {
        lemma_origin_order_equal(a.origin@, b.origin@);
    }
}

/// The storage state of one storage process.
#[derive(Debug)]
pub struct StorageProcessState {
    pub(crate) process: StorageProcessId,
    pub(crate) limits: StorageLimits,
    pub(crate) origins: Vec<OriginStorage>,
    pub(crate) total_bytes: usize,
}


/// A copy of one origin's storage: the same origin and byte count, and
/// entries with the same keys and values.
fn duplicate_origin(o: &OriginStorage) -> (r: OriginStorage)
    ensures
        r.origin == o.origin,
        r.bytes == o.bytes,
        r.entries@.len() == o.entries@.len(),
        forall|i: int|
            0 <= i < o.entries@.len() ==> (#[trigger] r.entries@[i]).key == o.entries@[i].key
                && r.entries@[i].value@ == o.entries@[i].value@,
{
    let mut entries: Vec<StorageEntry> = Vec::new();
    let mut i: usize = 0;
    while i < o.entries.len()
        invariant
            i <= o.entries@.len(),
            entries@.len() == i,
            forall|j: int|
                0 <= j < i ==> (#[trigger] entries@[j]).key == o.entries@[j].key
                    && entries@[j].value@ == o.entries@[j].value@,
        decreases o.entries@.len() - i,
    {
        let e = &o.entries[i];
        let copy = StorageEntry { key: e.key.clone(), value: copy_bytes(e.value.as_slice()) };
        entries.push(copy);
        i = i + 1;
    }
    OriginStorage { origin: o.origin.clone(), entries, bytes: o.bytes }
}

impl StorageProcessState {
    /// Two states hold the same entries under the same process, limits and
    /// accounting.
    pub open spec fn same_state(self, other: Self) -> bool {
        &&& self.spec_entries() == other.spec_entries()
        &&& self.spec_process() == other.spec_process()
        &&& self.spec_limits() == other.spec_limits()
        &&& self.spec_total_bytes() == other.spec_total_bytes()
        &&& self.spec_origin_count() == other.spec_origin_count()
        &&& forall|o: OriginModel|
            #[trigger] self.spec_origin_bytes(o) == other.spec_origin_bytes(o)
                && self.spec_entry_count(o) == other.spec_entry_count(o)
    }

    /// A separate copy of the state.
    pub(crate) fn duplicate(&self) -> (r: Self)
        requires
            self.wf(),
        ensures
            r.wf(),
            r.same_state(*self),
    {
        let mut origins: Vec<OriginStorage> = Vec::new();
        let mut i: usize = 0;
        while i < self.origins.len()
            invariant
                i <= self.origins@.len(),
                origins@.len() == i,
                forall|j: int|
                    0 <= j < i ==> {
                        &&& (#[trigger] origins@[j]).origin == self.origins@[j].origin
                        &&& origins@[j].bytes == self.origins@[j].bytes
                        &&& origins@[j].entries@.len() == self.origins@[j].entries@.len()
                        &&& forall|k: int|
                            0 <= k < self.origins@[j].entries@.len() ==> (
                            #[trigger] origins@[j].entries@[k]).key
                                == self.origins@[j].entries@[k].key
                                && origins@[j].entries@[k].value@
                                == self.origins@[j].entries@[k].value@
                    },
            decreases self.origins@.len() - i,
        {
            let copy = duplicate_origin(&self.origins[i]);
            origins.push(copy);
            i = i + 1;
        }
        let r = StorageProcessState {
            process: self.process,
            limits: self.limits,
            origins,
            total_bytes: self.total_bytes,
        };
        proof {
            let s = self.origins@;
            let d = r.origins@;
            lemma_storage_order_laws();
            lemma_entry_order_laws();
            lemma_sorted_distinct(s, storage_order(), storage_origin());
            assert forall|j: int| 0 <= j < s.len() implies {
                &&& storage_entries()(#[trigger] s[j]) == storage_entries()(d[j])
                &&& origin_storage_wf(d[j], self.limits)
            } by {
                let es = s[j].entries@;
                let ed = d[j].entries@;
                assert(origin_storage_wf(s[j], self.limits));
                lemma_sorted_distinct(es, entry_order(), entry_key());
                assert forall|k: int| 0 <= k < es.len() implies entry_key()(#[trigger] es[k])
                    == entry_key()(ed[k]) && entry_value()(es[k]) == entry_value()(ed[k]) by {}
                lemma_keyed_map_congruent(es, ed, entry_key(), entry_value());
                assert forall|k: int| 0 <= k < es.len() implies entry_weight()(#[trigger] es[k])
                    == entry_weight()(ed[k]) by {}
                lemma_weight_sum_congruent(es, ed, entry_weight());
                assert forall|a: int, b: int| 0 <= a < b < ed.len() implies entry_order()(
                    #[trigger] ed[a],
                    #[trigger] ed[b],
                ) == Order::Less by {
                    assert(entry_order()(es[a], es[b]) == Order::Less);
                }
                assert forall|k: int| 0 <= k < ed.len() implies utf8_len(
                    (#[trigger] ed[k]).key@,
                ) <= self.limits.max_key_bytes && ed[k].value@.len() <= self.limits.max_value_bytes by {
                    assert(utf8_len(es[k].key@) <= self.limits.max_key_bytes);
                }
            }
            assert forall|j: int| 0 <= j < s.len() implies storage_origin()(#[trigger] s[j])
                == storage_origin()(d[j]) && storage_entries()(s[j]) == storage_entries()(d[j]) by {}
            lemma_keyed_map_congruent(s, d, storage_origin(), storage_entries());
            assert forall|j: int| 0 <= j < s.len() implies storage_origin()(#[trigger] s[j])
                == storage_origin()(d[j]) && storage_weight()(s[j]) == storage_weight()(d[j]) by {}
            lemma_keyed_map_congruent(s, d, storage_origin(), storage_weight());
            assert forall|j: int| 0 <= j < s.len() implies storage_origin()(#[trigger] s[j])
                == storage_origin()(d[j]) && storage_count()(s[j]) == storage_count()(d[j]) by {}
            lemma_keyed_map_congruent(s, d, storage_origin(), storage_count());
            assert forall|j: int| 0 <= j < s.len() implies storage_weight()(#[trigger] s[j])
                == storage_weight()(d[j]) by {}
            lemma_weight_sum_congruent(s, d, storage_weight());
            assert forall|a: int, b: int| 0 <= a < b < d.len() implies storage_order()(
                #[trigger] d[a],
                #[trigger] d[b],
            ) == Order::Less by {
                assert(storage_order()(s[a], s[b]) == Order::Less);
            }
            assert forall|j: int| 0 <= j < d.len() implies origin_storage_wf(
                #[trigger] d[j],
                self.limits,
            ) by {
                assert(storage_entries()(s[j]) == storage_entries()(d[j]));
            }
        }
        r
    }
}

pub(crate) open spec fn entry_pair() -> spec_fn(StorageEntry) -> (Seq<char>, Seq<u8>) {
    |e: StorageEntry| (e.key@, e.value@)
}

pub(crate) open spec fn listing_item() -> spec_fn(OriginStorage) -> (
    OriginModel,
    Seq<(Seq<char>, Seq<u8>)>,
) {
    |o: OriginStorage| (o.origin@, o.entries@.map_values(entry_pair()))
}


/// Where a key stands in a sorted sequence: at a position, or absent with
/// the position where it belongs.
enum Probe {
    Found(usize),
    Vacant(usize),
}


/// Finds an origin among origins in canonical order.
fn probe_origin(origins: &Vec<OriginStorage>, origin: &Origin) -> (r: Probe)
    requires
        sorted_by(origins@, storage_order()),
    ensures
        match r {
            Probe::Found(i) => i < origins@.len() && origins@[i as int].origin@ == origin@,
            Probe::Vacant(p) => {
                &&& p <= origins@.len()
                &&& !key_at(origins@, storage_origin(), origin@)
                &&& forall|j: int|
                    0 <= j < p ==> #[trigger] origin_order(origins@[j].origin@, origin@)
                        == Order::Less
                &&& p < origins@.len() ==> origin_order(origin@, origins@[p as int].origin@)
                    == Order::Less
            },
        },
{
    let mut i: usize = 0;
    while i < origins.len()
        invariant
            0 <= i <= origins@.len(),
            sorted_by(origins@, storage_order()),
            forall|j: int| 0 <= j < i ==> #[trigger] origin_order(origins@[j].origin@, origin@) == Order::Less,
        decreases origins@.len() - i,
    {
        let c = compare_origins(&origins[i].origin, origin);
        proof {
            lemma_origin_order_equal(origins@[i as int].origin@, origin@);
            lemma_origin_order_flip(origins@[i as int].origin@, origin@);
        }
        match c {
            Order::Equal => {
                return Probe::Found(i);
            },
            Order::Greater => {
                proof {
                    assert forall|j: int| 0 <= j < origins@.len() implies origins@[j].origin@
                        != origin@ by {
                        lemma_origin_order_equal(origin@, origin@);
                        if j > i {
                            assert(storage_order()(origins@[i as int], origins@[j]) == Order::Less);
                        }
                    }
                }
                return Probe::Vacant(i);
            },
            Order::Less => {},
        }
        i = i + 1;
    }
    proof {
        assert forall|j: int| 0 <= j < origins@.len() implies origins@[j].origin@ != origin@ by {
            lemma_origin_order_equal(origin@, origin@);
            assert(origin_order(origins@[j].origin@, origin@) == Order::Less);
        }
    }
    Probe::Vacant(i)
}

/// Finds a key among entries in key order.
fn probe_entry(entries: &Vec<StorageEntry>, key: &str) -> (r: Probe)
    requires
        sorted_by(entries@, entry_order()),
    ensures
        match r {
            Probe::Found(i) => i < entries@.len() && entries@[i as int].key@ == key@,
            Probe::Vacant(p) => {
                &&& p <= entries@.len()
                &&& !key_at(entries@, entry_key(), key@)
                &&& forall|j: int|
                    0 <= j < p ==> #[trigger] bytes_order(encode_utf8(entries@[j].key@), encode_utf8(key@))
                        == Order::Less
                &&& p < entries@.len() ==> bytes_order(encode_utf8(key@), encode_utf8(entries@[p as int].key@))
                    == Order::Less
            },
        },
{
    let kb = key.as_bytes();
    let mut i: usize = 0;
    while i < entries.len()
        invariant
            0 <= i <= entries@.len(),
            kb@ == encode_utf8(key@),
            sorted_by(entries@, entry_order()),
            forall|j: int|
                0 <= j < i ==> #[trigger] bytes_order(encode_utf8(entries@[j].key@), encode_utf8(key@))
                    == Order::Less,
        decreases entries@.len() - i,
    {
        let c = compare_bytes(entries[i].key.as_str().as_bytes(), kb);
        proof {
            let ek = encode_utf8(entries@[i as int].key@);
            lemma_bytes_order_equal(ek, encode_utf8(key@));
            lemma_bytes_order_flip(ek, encode_utf8(key@));
            lemma_encode_injective(entries@[i as int].key@, key@);
        }
        match c {
            Order::Equal => {
                return Probe::Found(i);
            },
            Order::Greater => {
                proof {
                    assert forall|j: int| 0 <= j < entries@.len() implies entries@[j].key@
                        != key@ by {
                        lemma_bytes_order_equal(encode_utf8(key@), encode_utf8(key@));
                        if j > i {
                            assert(entry_order()(entries@[i as int], entries@[j]) == Order::Less);
                        }
                    }
                }
                return Probe::Vacant(i);
            },
            Order::Less => {},
        }
        i = i + 1;
    }
    proof {
        assert forall|j: int| 0 <= j < entries@.len() implies entries@[j].key@ != key@ by {
            lemma_bytes_order_equal(encode_utf8(key@), encode_utf8(key@));
            assert(bytes_order(encode_utf8(entries@[j].key@), encode_utf8(key@)) == Order::Less);
        }
    }
    Probe::Vacant(i)
}

/// Checks that an origin may hold persistent storage.
pub(crate) fn validate_persistent_origin_identity(origin: &Origin) -> (r: Result<(), StorageError>)
    ensures
        r is Ok <==> persistent_identity_fits(origin@),
        r matches Err(e) ==> e.kind == (if origin@ is Opaque {
            StorageErrorKind::OpaqueOrigin
        } else {
            StorageErrorKind::OriginIdentityTooLarge
        }),
{
    match origin {
        Origin::Opaque(_) => Err(
            StorageError::new(
                StorageErrorKind::OpaqueOrigin,
                "opaque origins do not receive persistent storage authority",
            ),
        ),
        Origin::Tuple { scheme, host, .. } => {
            let scheme_len = utf8_byte_len(scheme.as_str());
            if scheme_len > MAX_PERSISTENT_ORIGIN_IDENTITY_BYTES {
                let message = size_message("origin scheme", scheme_len, MAX_PERSISTENT_ORIGIN_IDENTITY_BYTES);
                return Err(StorageError::new(StorageErrorKind::OriginIdentityTooLarge, message.as_str()));
            }
            if let UrlHost::Domain(domain) = host {
                let domain_len = utf8_byte_len(domain.as_str());
                if domain_len > MAX_PERSISTENT_ORIGIN_IDENTITY_BYTES {
                    let message = size_message("origin domain", domain_len, MAX_PERSISTENT_ORIGIN_IDENTITY_BYTES);
                    return Err(StorageError::new(StorageErrorKind::OriginIdentityTooLarge, message.as_str()));
                }
            }
            Ok(())
        },
    }
}

fn allocation_error() -> (r: StorageError)
    ensures
        r.kind == StorageErrorKind::AllocationFailed,
        r.message@ == "storage allocation failed within the configured quota"@,
{
    StorageError::new(
        StorageErrorKind::AllocationFailed,
        "storage allocation failed within the configured quota",
    )
}

fn overflow_error() -> (r: StorageError)
    ensures
        r.kind == StorageErrorKind::AccountingOverflow,
        r.message@ == "storage quota byte accounting overflow"@,
{
    StorageError::new(StorageErrorKind::AccountingOverflow, "storage quota byte accounting overflow")
}

impl StorageProcessState {
    /// The state is well formed: valid limits, origins in canonical order,
    /// each origin's storage well formed, and process accounting that is the
    /// sum of the origins' bytes and within the quotas.
    pub closed spec fn wf(&self) -> bool {
        &&& self.limits.spec_is_valid()
        &&& sorted_by(self.origins@, storage_order())
        &&& forall|i: int|
            0 <= i < self.origins@.len() ==> origin_storage_wf(#[trigger] self.origins@[i], self.limits)
        &&& self.origins@.len() <= self.limits.max_origins
        &&& self.total_bytes == weight_sum(self.origins@, storage_weight())
        &&& self.total_bytes <= self.limits.max_total_bytes
    }

    /// The stored values: for each origin, its keys and their values.
    pub closed spec fn spec_entries(&self) -> Map<OriginModel, Map<Seq<char>, Seq<u8>>> {
        keyed_map(self.origins@, storage_origin(), storage_entries())
    }

    pub closed spec fn spec_process(&self) -> StorageProcessId {
        self.process
    }

    pub closed spec fn spec_limits(&self) -> StorageLimits {
        self.limits
    }

    pub closed spec fn spec_total_bytes(&self) -> nat {
        self.total_bytes as nat
    }

    pub closed spec fn spec_origin_count(&self) -> nat {
        self.origins@.len()
    }

    /// The number of entries an origin holds.
    pub closed spec fn spec_entry_count(&self, origin: OriginModel) -> nat {
        let counts = keyed_map(self.origins@, storage_origin(), storage_count());
        if counts.contains_key(origin) {
            counts[origin]
        } else {
            0
        }
    }

    /// The bytes an origin is charged.
    pub closed spec fn spec_origin_bytes(&self, origin: OriginModel) -> nat {
        let bytes = keyed_map(self.origins@, storage_origin(), storage_weight());
        if bytes.contains_key(origin) {
            bytes[origin]
        } else {
            0
        }
    }

    /// The entries of an origin; empty for an origin without storage.
    pub open spec fn spec_origin_entries(&self, origin: OriginModel) -> Map<Seq<char>, Seq<u8>> {
        if self.spec_entries().contains_key(origin) {
            self.spec_entries()[origin]
        } else {
            Map::empty()
        }
    }

    /// The value stored under a key of an origin.
    pub open spec fn spec_get(&self, origin: OriginModel, key: Seq<char>) -> Option<Seq<u8>> {
        if self.spec_origin_entries(origin).contains_key(key) {
            Some(self.spec_origin_entries(origin)[key])
        } else {
            None
        }
    }

    /// The bytes currently charged for a key of an origin.
    pub open spec fn spec_existing_bytes(&self, origin: OriginModel, key: Seq<char>) -> int {
        match self.spec_get(origin, key) {
            Some(v) => (utf8_len(key) + v.len()) as int,
            None => 0,
        }
    }

    /// The origin's bytes after storing the value under the key.
    pub open spec fn put_origin_bytes(&self, origin: OriginModel, key: Seq<char>, value: Seq<u8>) -> int {
        self.spec_origin_bytes(origin) - self.spec_existing_bytes(origin, key) + utf8_len(key)
            + value.len()
    }

    /// The process's bytes after storing the value under the key.
    pub open spec fn put_total_bytes(&self, origin: OriginModel, key: Seq<char>, value: Seq<u8>) -> int {
        self.spec_total_bytes() - self.spec_existing_bytes(origin, key) + utf8_len(key)
            + value.len()
    }

    /// Why storing the value under the key is refused, checked in this
    /// order; `None` when it is accepted.
    pub open spec fn put_refusal(&self, origin: OriginModel, key: Seq<char>, value: Seq<u8>) -> Option<
        StorageErrorKind,
    > {
        let limits = self.spec_limits();
        let next_origin = self.put_origin_bytes(origin, key, value);
        let next_total = self.put_total_bytes(origin, key, value);
        if origin is Opaque {
            Some(StorageErrorKind::OpaqueOrigin)
        } else if utf8_len(key) > limits.max_key_bytes {
            Some(StorageErrorKind::KeyTooLarge)
        } else if value.len() > limits.max_value_bytes {
            Some(StorageErrorKind::ValueTooLarge)
        } else if utf8_len(key) + value.len() > usize::MAX {
            Some(StorageErrorKind::AccountingOverflow)
        } else if !self.spec_entries().contains_key(origin) && self.spec_origin_count()
            >= limits.max_origins {
            Some(StorageErrorKind::OriginLimitExceeded)
        } else if self.spec_get(origin, key) is None && self.spec_entry_count(origin)
            >= limits.max_entries_per_origin {
            Some(StorageErrorKind::EntryLimitExceeded)
        } else if next_origin > usize::MAX {
            Some(StorageErrorKind::AccountingOverflow)
        } else if next_origin > limits.max_origin_bytes {
            Some(StorageErrorKind::OriginByteLimitExceeded)
        } else if next_total > usize::MAX {
            Some(StorageErrorKind::AccountingOverflow)
        } else if next_total > limits.max_total_bytes {
            Some(StorageErrorKind::TotalByteLimitExceeded)
        } else {
            None
        }
    }

    /// An empty state; refused with `InvalidLimits` unless the limits are
    /// valid.
    pub fn try_new(process: StorageProcessId, limits: StorageLimits) -> (r: Result<Self, StorageError>)
        ensures
            limits.spec_is_valid() <==> r is Ok,
            r matches Ok(s) ==> {
                &&& s.wf()
                &&& s.spec_entries() == Map::<OriginModel, Map<Seq<char>, Seq<u8>>>::empty()
                &&& s.spec_process() == process
                &&& s.spec_limits() == limits
                &&& s.spec_total_bytes() == 0
                &&& s.spec_origin_count() == 0
                &&& forall|o: OriginModel| #[trigger] s.spec_origin_bytes(o) == 0 && s.spec_entry_count(o) == 0
            },
            r matches Err(e) ==> e.kind == StorageErrorKind::InvalidLimits,
    {
        if !limits.is_valid() {
            return Err(
                StorageError::new(
                    StorageErrorKind::InvalidLimits,
                    "storage limits must be non-zero and nested byte limits must fit their parents",
                ),
            );
        }
        let s = StorageProcessState { process, limits, origins: Vec::new(), total_bytes: 0 };
        assert(s.spec_entries() =~= Map::empty());
        assert forall|o: OriginModel| #[trigger] s.spec_origin_bytes(o) == 0 && s.spec_entry_count(o) == 0 by {
            assert(!key_at(s.origins@, storage_origin(), o));
        }
        Ok(s)
    }

    pub fn process(&self) -> (r: StorageProcessId)
        ensures
            r == self.spec_process(),
    {
        self.process
    }

    pub fn limits(&self) -> (r: StorageLimits)
        ensures
            r == self.spec_limits(),
    {
        self.limits
    }

    pub fn origin_count(&self) -> (r: usize)
        ensures
            r == self.spec_origin_count(),
    {
        self.origins.len()
    }

    pub fn total_bytes(&self) -> (r: usize)
        ensures
            r == self.spec_total_bytes(),
    {
        self.total_bytes
    }

    /// The number of entries an origin holds; zero without storage.
    pub fn entry_count(&self, origin: &Origin) -> (r: usize)
        requires
            self.wf(),
        ensures
            r == self.spec_entry_count(origin@),
    {
        proof {
            lemma_storage_order_laws();
            lemma_sorted_distinct(self.origins@, storage_order(), storage_origin());
        }
        match probe_origin(&self.origins, origin) {
            Probe::Found(i) => {
                proof {
                    lemma_keyed_map_at(self.origins@, storage_origin(), storage_count(), i as int);
                }
                self.origins[i].entries.len()
            },
            Probe::Vacant(_) => 0,
        }
    }

    /// The bytes an origin is charged; zero without storage.
    pub fn origin_bytes(&self, origin: &Origin) -> (r: usize)
        requires
            self.wf(),
        ensures
            r == self.spec_origin_bytes(origin@),
    {
        proof {
            lemma_storage_order_laws();
            lemma_sorted_distinct(self.origins@, storage_order(), storage_origin());
        }
        match probe_origin(&self.origins, origin) {
            Probe::Found(i) => {
                proof {
                    lemma_keyed_map_at(self.origins@, storage_origin(), storage_weight(), i as int);
                }
                self.origins[i].bytes
            },
            Probe::Vacant(_) => 0,
        }
    }

    /// The value stored under the key of the origin.
    pub fn get(&self, origin: &Origin, key: &str) -> (r: Option<&[u8]>)
        requires
            self.wf(),
        ensures
            match r {
                Some(v) => self.spec_get(origin@, key@) == Some(v@),
                None => self.spec_get(origin@, key@) is None,
            },
    {
        proof {
            lemma_storage_order_laws();
            lemma_entry_order_laws();
            lemma_sorted_distinct(self.origins@, storage_order(), storage_origin());
        }
        match probe_origin(&self.origins, origin) {
            Probe::Found(i) => {
                let storage = &self.origins[i];
                proof {
                    lemma_keyed_map_at(self.origins@, storage_origin(), storage_entries(), i as int);
                    assert(origin_storage_wf(self.origins@[i as int], self.limits));
                    lemma_sorted_distinct(storage.entries@, entry_order(), entry_key());
                }
                match probe_entry(&storage.entries, key) {
                    Probe::Found(j) => {
                        proof {
                            lemma_keyed_map_at(storage.entries@, entry_key(), entry_value(), j as int);
                        }
                        Some(storage.entries[j].value.as_slice())
                    },
                    Probe::Vacant(_) => None,
                }
            },
            Probe::Vacant(_) => None,
        }
    }

    /// This state is `before` with the value stored under the key of the
    /// origin, and the origin's and the process's accounting updated.
    pub open spec fn is_put_of(self, before: Self, origin: OriginModel, key: Seq<char>, value: Seq<u8>) -> bool {
        &&& self.spec_entries() == before.spec_entries().insert(
            origin,
            before.spec_origin_entries(origin).insert(key, value),
        )
        &&& self.spec_total_bytes() == before.put_total_bytes(origin, key, value)
        &&& self.spec_origin_bytes(origin) == before.put_origin_bytes(origin, key, value)
        &&& self.spec_entry_count(origin) == before.spec_entry_count(origin) + (if before.spec_get(
            origin,
            key,
        ) is Some {
            0int
        } else {
            1int
        })
        &&& forall|o: OriginModel|
            o != origin ==> #[trigger] self.spec_origin_bytes(o) == before.spec_origin_bytes(o)
                && self.spec_entry_count(o) == before.spec_entry_count(o)
        &&& self.spec_origin_count() == before.spec_origin_count() + (if before.spec_entries().contains_key(
            origin,
        ) {
            0int
        } else {
            1int
        })
        &&& self.spec_process() == before.spec_process()
        &&& self.spec_limits() == before.spec_limits()
    }

    /// Adds storage for an origin that has none, holding one entry.
    fn insert_origin(
        &mut self,
        p: usize,
        origin: &Origin,
        key: &str,
        value: &[u8],
        new_bytes: usize,
        next_total: usize,
    )
        requires
            old(self).wf(),
            origin@ is Tuple,
            p <= old(self).origins@.len(),
            !key_at(old(self).origins@, storage_origin(), origin@),
            forall|j: int|
                0 <= j < p ==> #[trigger] origin_order(old(self).origins@[j].origin@, origin@)
                    == Order::Less,
            p < old(self).origins@.len() ==> origin_order(origin@, old(self).origins@[p as int].origin@)
                == Order::Less,
            old(self).origins@.len() < old(self).limits.max_origins,
            new_bytes == utf8_len(key@) + value@.len(),
            utf8_len(key@) <= old(self).limits.max_key_bytes,
            value@.len() <= old(self).limits.max_value_bytes,
            new_bytes <= old(self).limits.max_origin_bytes,
            next_total == old(self).total_bytes + new_bytes,
            next_total <= old(self).limits.max_total_bytes,
        ensures
            final(self).wf(),
            final(self).is_put_of(*old(self), origin@, key@, value@),
    {
        let ghost before = *self;
        let entry = StorageEntry { key: key.to_owned(), value: copy_bytes(value) };
        let mut entries: Vec<StorageEntry> = Vec::new();
        entries.push(entry);
        let storage = OriginStorage { origin: origin.clone(), entries, bytes: new_bytes };
        proof {
            let es = storage.entries@;
            assert(es =~= Seq::<StorageEntry>::empty().insert(0, entry));
            lemma_weight_sum_insert(Seq::<StorageEntry>::empty(), entry_weight(), 0, entry);
            lemma_keyed_map_insert(Seq::<StorageEntry>::empty(), entry_key(), entry_value(), 0, entry);
            assert(keyed_map(Seq::<StorageEntry>::empty(), entry_key(), entry_value()) =~= Map::empty());
            assert(sorted_by(es, entry_order()));
            assert(origin_storage_wf(storage, before.limits));
            lemma_storage_order_laws();
            lemma_sorted_distinct(before.origins@, storage_order(), storage_origin());
            lemma_sorted_insert(before.origins@, storage_order(), p as int, storage);
            lemma_keyed_map_insert(before.origins@, storage_origin(), storage_entries(), p as int, storage);
            lemma_keyed_map_insert(before.origins@, storage_origin(), storage_weight(), p as int, storage);
            lemma_keyed_map_insert(before.origins@, storage_origin(), storage_count(), p as int, storage);
            lemma_weight_sum_insert(before.origins@, storage_weight(), p as int, storage);
            assert(!before.spec_entries().contains_key(origin@));
            assert(!keyed_map(before.origins@, storage_origin(), storage_weight()).contains_key(origin@));
            assert(!keyed_map(before.origins@, storage_origin(), storage_count()).contains_key(origin@));
        }
        self.origins.insert(p, storage);
        self.total_bytes = next_total;
        proof {
            let t = self.origins@;
            assert(t == before.origins@.insert(p as int, storage));
            assert forall|k: int| 0 <= k < t.len() implies origin_storage_wf(#[trigger] t[k], self.limits) by {
                if k < p {
                    assert(t[k] == before.origins@[k]);
                } else if k > p {
                    assert(t[k] == before.origins@[k - 1]);
                }
            }
        }
    }

    /// Replaces or adds an entry in the storage of an origin that has some.
    fn update_origin(
        &mut self,
        i: usize,
        found: Probe,
        key: &str,
        value: &[u8],
        next_origin: usize,
        next_total: usize,
    )
        requires
            old(self).wf(),
            i < old(self).origins@.len(),
            match found {
                Probe::Found(j) => j < old(self).origins@[i as int].entries@.len()
                    && old(self).origins@[i as int].entries@[j as int].key@ == key@,
                Probe::Vacant(q) => {
                    let es = old(self).origins@[i as int].entries@;
                    &&& q <= es.len()
                    &&& !key_at(es, entry_key(), key@)
                    &&& forall|j: int|
                        0 <= j < q ==> #[trigger] bytes_order(encode_utf8(es[j].key@), encode_utf8(key@))
                            == Order::Less
                    &&& q < es.len() ==> bytes_order(encode_utf8(key@), encode_utf8(es[q as int].key@))
                        == Order::Less
                    &&& es.len() < old(self).limits.max_entries_per_origin
                },
            },
            next_origin == old(self).origins@[i as int].bytes - (match found {
                Probe::Found(j) => entry_weight()(old(self).origins@[i as int].entries@[j as int]) as int,
                Probe::Vacant(_) => 0int,
            }) + utf8_len(key@) + value@.len(),
            next_origin <= old(self).limits.max_origin_bytes,
            utf8_len(key@) <= old(self).limits.max_key_bytes,
            value@.len() <= old(self).limits.max_value_bytes,
            next_total == old(self).total_bytes - old(self).origins@[i as int].bytes + next_origin,
            next_total <= old(self).limits.max_total_bytes,
        ensures
            final(self).wf(),
            final(self).spec_entries() == old(self).spec_entries().insert(
                old(self).origins@[i as int].origin@,
                keyed_map(old(self).origins@[i as int].entries@, entry_key(), entry_value()).insert(key@, value@),
            ),
            final(self).spec_total_bytes() == next_total,
            final(self).spec_origin_bytes(old(self).origins@[i as int].origin@) == next_origin,
            final(self).spec_entry_count(old(self).origins@[i as int].origin@) == old(self).origins@[i as int].entries@.len() + (if found is Found {
                0int
            } else {
                1int
            }),
            forall|o: OriginModel|
                o != old(self).origins@[i as int].origin@ ==> #[trigger] final(self).spec_origin_bytes(o)
                    == old(self).spec_origin_bytes(o) && final(self).spec_entry_count(o)
                    == old(self).spec_entry_count(o),
            final(self).spec_origin_count() == old(self).spec_origin_count(),
            final(self).spec_process() == old(self).spec_process(),
            final(self).spec_limits() == old(self).spec_limits(),
    {
        let ghost before = *self;
        let ghost old_storage = self.origins@[i as int];
        let mut storage = self.origins.remove(i);
        let entry = StorageEntry { key: key.to_owned(), value: copy_bytes(value) };
        proof {
            lemma_entry_order_laws();
            assert(origin_storage_wf(old_storage, before.limits));
            lemma_sorted_distinct(old_storage.entries@, entry_order(), entry_key());
        }
        match found {
            Probe::Found(j) => {
                proof {
                    let es = old_storage.entries@;
                    assert forall|k: int| 0 <= k < es.len() implies #[trigger] entry_order()(es[k], entry)
                        == entry_order()(es[k], es[j as int]) by {}
                    assert forall|k: int| 0 <= k < es.len() implies #[trigger] entry_order()(entry, es[k])
                        == entry_order()(es[j as int], es[k]) by {}
                    lemma_sorted_update(es, entry_order(), j as int, entry);
                    lemma_keyed_map_update(es, entry_key(), entry_value(), j as int, entry);
                    lemma_weight_sum_update(es, entry_weight(), j as int, entry);
                }
                storage.entries.set(j, entry);
            },
            Probe::Vacant(q) => {
                proof {
                    let es = old_storage.entries@;
                    lemma_sorted_insert(es, entry_order(), q as int, entry);
                    lemma_keyed_map_insert(es, entry_key(), entry_value(), q as int, entry);
                    lemma_weight_sum_insert(es, entry_weight(), q as int, entry);
                }
                storage.entries.insert(q, entry);
            },
        }
        storage.bytes = next_origin;
        proof {
            let es = storage.entries@;
            assert forall|k: int| 0 <= k < es.len() implies utf8_len((#[trigger] es[k]).key@)
                <= before.limits.max_key_bytes && es[k].value@.len() <= before.limits.max_value_bytes by {
                match found {
                    Probe::Found(j) => {
                        if k != j {
                            assert(es[k] == old_storage.entries@[k]);
                        }
                    },
                    Probe::Vacant(q) => {
                        if k < q {
                            assert(es[k] == old_storage.entries@[k]);
                        } else if k > q {
                            assert(es[k] == old_storage.entries@[k - 1]);
                        }
                    },
                }
            }
            assert(origin_storage_wf(storage, before.limits));
            lemma_storage_order_laws();
            lemma_sorted_distinct(before.origins@, storage_order(), storage_origin());
            let os = before.origins@;
            assert forall|k: int| 0 <= k < os.len() implies #[trigger] storage_order()(os[k], storage)
                == storage_order()(os[k], os[i as int]) by {}
            assert forall|k: int| 0 <= k < os.len() implies #[trigger] storage_order()(storage, os[k])
                == storage_order()(os[i as int], os[k]) by {}
            lemma_sorted_update(os, storage_order(), i as int, storage);
            lemma_keyed_map_update(os, storage_origin(), storage_entries(), i as int, storage);
            lemma_keyed_map_update(os, storage_origin(), storage_weight(), i as int, storage);
            lemma_keyed_map_update(os, storage_origin(), storage_count(), i as int, storage);
            lemma_weight_sum_update(os, storage_weight(), i as int, storage);
        }
        self.origins.insert(i, storage);
        self.total_bytes = next_total;
        proof {
            let t = self.origins@;
            assert(t =~= before.origins@.update(i as int, storage));
            assert forall|k: int| 0 <= k < t.len() implies origin_storage_wf(#[trigger] t[k], self.limits) by {
                if k != i {
                    assert(t[k] == before.origins@[k]);
                }
            }
        }
    }

    /// What `put` promises: a well-formed state; success exactly when
    /// `put_refusal` gives no reason; on refusal the first reason and no
    /// change; on success the value stored.
    pub open spec fn put_done(
        self,
        before: Self,
        origin: OriginModel,
        key: Seq<char>,
        value: Seq<u8>,
        r: Result<(), StorageError>,
    ) -> bool {
        &&& self.wf()
        &&& (r is Ok) <==> before.put_refusal(origin, key, value) is None
        &&& r matches Err(e) ==> before.put_refusal(origin, key, value) == Some(e.kind) && self
            == before
        &&& r is Ok ==> self.is_put_of(before, origin, key, value)
    }

    /// Stores the value under the key of the origin. Refused, with nothing
    /// changed, for the first reason `put_refusal` gives; otherwise the
    /// entry is stored and the origin's and process's bytes updated.
    pub fn put(&mut self, origin: &Origin, key: &str, value: &[u8]) -> (r: Result<(), StorageError>)
        requires
            old(self).wf(),
        ensures
            final(self).put_done(*old(self), origin@, key@, value@, r),
    {
        if let Origin::Opaque(_) = origin {
            return Err(
                StorageError::new(
                    StorageErrorKind::OpaqueOrigin,
                    "opaque origins do not receive persistent storage authority",
                ),
            );
        }
        let key_len = utf8_byte_len(key);
        if key_len > self.limits.max_key_bytes {
            let message = size_message("storage key", key_len, self.limits.max_key_bytes);
            return Err(StorageError::new(StorageErrorKind::KeyTooLarge, message.as_str()));
        }
        if value.len() > self.limits.max_value_bytes {
            let message = size_message("storage value", value.len(), self.limits.max_value_bytes);
            return Err(StorageError::new(StorageErrorKind::ValueTooLarge, message.as_str()));
        }
        proof {
            lemma_storage_order_laws();
            lemma_sorted_distinct(self.origins@, storage_order(), storage_origin());
        }
        match probe_origin(&self.origins, origin) {
            Probe::Vacant(p) => self.put_into_new_origin(p, origin, key, value),
            Probe::Found(i) => self.put_into_origin(i, origin, key, value),
        }
    }

    /// `put` for an origin without storage.
    fn put_into_new_origin(&mut self, p: usize, origin: &Origin, key: &str, value: &[u8]) -> (r: Result<
        (),
        StorageError,
    >)
        requires
            old(self).wf(),
            origin@ is Tuple,
            utf8_len(key@) <= old(self).limits.max_key_bytes,
            value@.len() <= old(self).limits.max_value_bytes,
            p <= old(self).origins@.len(),
            !key_at(old(self).origins@, storage_origin(), origin@),
            forall|j: int|
                0 <= j < p ==> #[trigger] origin_order(old(self).origins@[j].origin@, origin@)
                    == Order::Less,
            p < old(self).origins@.len() ==> origin_order(origin@, old(self).origins@[p as int].origin@)
                == Order::Less,
        ensures
            final(self).put_done(*old(self), origin@, key@, value@, r),
    {
        proof {
            lemma_storage_order_laws();
            lemma_sorted_distinct(self.origins@, storage_order(), storage_origin());
            assert(!self.spec_entries().contains_key(origin@));
            assert(!keyed_map(self.origins@, storage_origin(), storage_weight()).contains_key(origin@));
            assert(!keyed_map(self.origins@, storage_origin(), storage_count()).contains_key(origin@));
        }
        let key_len = utf8_byte_len(key);
        let new_bytes = match key_len.checked_add(value.len()) {
            Some(b) => b,
            None => {
                return Err(
                    StorageError::new(
                        StorageErrorKind::AccountingOverflow,
                        "storage entry byte accounting overflow",
                    ),
                );
            },
        };
        if self.origins.len() >= self.limits.max_origins {
            return Err(
                StorageError::new(StorageErrorKind::OriginLimitExceeded, "storage origin limit reached"),
            );
        }
        if new_bytes > self.limits.max_origin_bytes {
            let message = size_message("storage origin", new_bytes, self.limits.max_origin_bytes);
            return Err(StorageError::new(StorageErrorKind::OriginByteLimitExceeded, message.as_str()));
        }
        let next_total = match self.total_bytes.checked_add(new_bytes) {
            Some(t) => t,
            None => {
                return Err(overflow_error());
            },
        };
        if next_total > self.limits.max_total_bytes {
            let message = size_message("storage process", next_total, self.limits.max_total_bytes);
            return Err(StorageError::new(StorageErrorKind::TotalByteLimitExceeded, message.as_str()));
        }
        self.insert_origin(p, origin, key, value, new_bytes, next_total);
        Ok(())
    }

    /// `put` for an origin that has storage at position `i`.
    #[verifier::rlimit(60)]
    #[verifier::spinoff_prover]
    fn put_into_origin(&mut self, i: usize, origin: &Origin, key: &str, value: &[u8]) -> (r: Result<
        (),
        StorageError,
    >)
        requires
            old(self).wf(),
            origin@ is Tuple,
            utf8_len(key@) <= old(self).limits.max_key_bytes,
            value@.len() <= old(self).limits.max_value_bytes,
            i < old(self).origins@.len(),
            old(self).origins@[i as int].origin@ == origin@,
        ensures
            final(self).put_done(*old(self), origin@, key@, value@, r),
    {
        let storage = &self.origins[i];
        proof {
            lemma_storage_order_laws();
            lemma_entry_order_laws();
            lemma_sorted_distinct(self.origins@, storage_order(), storage_origin());
            assert(origin_storage_wf(*storage, self.limits));
            lemma_sorted_distinct(storage.entries@, entry_order(), entry_key());
            lemma_keyed_map_at(self.origins@, storage_origin(), storage_entries(), i as int);
            lemma_keyed_map_at(self.origins@, storage_origin(), storage_weight(), i as int);
            lemma_keyed_map_at(self.origins@, storage_origin(), storage_count(), i as int);
            lemma_weight_sum_remove(self.origins@, storage_weight(), i as int);
        }
        let key_len = utf8_byte_len(key);
        let found = probe_entry(&storage.entries, key);
        let existing: usize = match found {
            Probe::Found(j) => {
                proof {
                    lemma_keyed_map_at(storage.entries@, entry_key(), entry_value(), j as int);
                    lemma_weight_sum_remove(storage.entries@, entry_weight(), j as int);
                }
                key_len + storage.entries[j].value.len()
            },
            Probe::Vacant(_) => 0,
        };
        let new_bytes = match key_len.checked_add(value.len()) {
            Some(b) => b,
            None => {
                return Err(
                    StorageError::new(
                        StorageErrorKind::AccountingOverflow,
                        "storage entry byte accounting overflow",
                    ),
                );
            },
        };
        let is_new_entry = match found {
            Probe::Found(_) => false,
            Probe::Vacant(_) => true,
        };
        if is_new_entry && storage.entries.len() >= self.limits.max_entries_per_origin {
            return Err(
                StorageError::new(
                    StorageErrorKind::EntryLimitExceeded,
                    "storage entry limit reached for origin",
                ),
            );
        }
        let next_origin = match (storage.bytes - existing).checked_add(new_bytes) {
            Some(b) => b,
            None => {
                return Err(overflow_error());
            },
        };
        if next_origin > self.limits.max_origin_bytes {
            let message = size_message("storage origin", next_origin, self.limits.max_origin_bytes);
            return Err(StorageError::new(StorageErrorKind::OriginByteLimitExceeded, message.as_str()));
        }
        let next_total = match (self.total_bytes - existing).checked_add(new_bytes) {
            Some(t) => t,
            None => {
                return Err(overflow_error());
            },
        };
        if next_total > self.limits.max_total_bytes {
            let message = size_message("storage process", next_total, self.limits.max_total_bytes);
            return Err(StorageError::new(StorageErrorKind::TotalByteLimitExceeded, message.as_str()));
        }
        self.update_origin(i, found, key, value, next_origin, next_total);
        Ok(())
    }


    /// This state is `before` with the entry under the key of the origin
    /// removed, the origin dropped when that was its last entry, and the
    /// accounting reduced by the entry's bytes.
    pub open spec fn is_remove_of(self, before: Self, origin: OriginModel, key: Seq<char>) -> bool {
        &&& self.spec_entries() == (if before.spec_entry_count(origin) == 1 {
            before.spec_entries().remove(origin)
        } else {
            before.spec_entries().insert(origin, before.spec_origin_entries(origin).remove(key))
        })
        &&& self.spec_total_bytes() == before.spec_total_bytes() - before.spec_existing_bytes(
            origin,
            key,
        )
        &&& self.spec_origin_bytes(origin) == before.spec_origin_bytes(origin)
            - before.spec_existing_bytes(origin, key)
        &&& self.spec_entry_count(origin) == before.spec_entry_count(origin) - 1
        &&& forall|o: OriginModel|
            o != origin ==> #[trigger] self.spec_origin_bytes(o) == before.spec_origin_bytes(o)
                && self.spec_entry_count(o) == before.spec_entry_count(o)
        &&& self.spec_origin_count() == before.spec_origin_count() - (if before.spec_entry_count(
            origin,
        ) == 1 {
            1int
        } else {
            0int
        })
        &&& self.spec_process() == before.spec_process()
        &&& self.spec_limits() == before.spec_limits()
    }

    /// Removes the entry under the key of the origin; `Ok(true)` exactly when
    /// there was one. An origin left without entries loses its storage. The
    /// accounting always balances, so no error comes back.
    #[verifier::rlimit(50)]
    pub fn remove(&mut self, origin: &Origin, key: &str) -> (r: Result<bool, StorageError>)
        requires
            old(self).wf(),
        ensures
            final(self).wf(),
            r == Ok::<bool, StorageError>(old(self).spec_get(origin@, key@) is Some),
            old(self).spec_get(origin@, key@) is None ==> *final(self) == *old(self),
            old(self).spec_get(origin@, key@) is Some ==> final(self).is_remove_of(*old(self), origin@, key@),
    {
        proof {
            lemma_storage_order_laws();
            lemma_entry_order_laws();
            lemma_sorted_distinct(self.origins@, storage_order(), storage_origin());
        }
        let i = match probe_origin(&self.origins, origin) {
            Probe::Vacant(_) => {
                proof {
                    assert(!self.spec_entries().contains_key(origin@));
                }
                return Ok(false);
            },
            Probe::Found(i) => i,
        };
        proof {
            assert(origin_storage_wf(self.origins@[i as int], self.limits));
            lemma_sorted_distinct(self.origins@[i as int].entries@, entry_order(), entry_key());
            lemma_keyed_map_at(self.origins@, storage_origin(), storage_entries(), i as int);
            lemma_keyed_map_at(self.origins@, storage_origin(), storage_weight(), i as int);
            lemma_keyed_map_at(self.origins@, storage_origin(), storage_count(), i as int);
            lemma_weight_sum_remove(self.origins@, storage_weight(), i as int);
        }
        let j = match probe_entry(&self.origins[i].entries, key) {
            Probe::Vacant(_) => {
                return Ok(false);
            },
            Probe::Found(j) => j,
        };
        let ghost before = *self;
        let ghost old_storage = self.origins@[i as int];
        proof {
            lemma_keyed_map_at(old_storage.entries@, entry_key(), entry_value(), j as int);
            lemma_weight_sum_remove(old_storage.entries@, entry_weight(), j as int);
        }
        let removed = utf8_byte_len(key) + self.origins[i].entries[j].value.len();
        let mut storage = self.origins.remove(i);
        let _ = storage.entries.remove(j);
        storage.bytes = storage.bytes - removed;
        self.total_bytes = self.total_bytes - removed;
        proof {
            let es = old_storage.entries@;
            lemma_sorted_remove(es, entry_order(), j as int);
            lemma_keyed_map_remove(es, entry_key(), entry_value(), j as int);
            let os = before.origins@;
            lemma_keyed_map_remove(os, storage_origin(), storage_entries(), i as int);
            lemma_keyed_map_remove(os, storage_origin(), storage_weight(), i as int);
            lemma_keyed_map_remove(os, storage_origin(), storage_count(), i as int);
            lemma_sorted_remove(os, storage_order(), i as int);
            lemma_weight_sum_remove(os, storage_weight(), i as int);
        }
        if storage.entries.len() > 0 {
            proof {
                let es = storage.entries@;
                assert forall|k: int| 0 <= k < es.len() implies utf8_len((#[trigger] es[k]).key@)
                    <= before.limits.max_key_bytes && es[k].value@.len() <= before.limits.max_value_bytes by {
                    if k < j {
                        assert(es[k] == old_storage.entries@[k]);
                    } else {
                        assert(es[k] == old_storage.entries@[k + 1]);
                    }
                }
                assert(origin_storage_wf(storage, before.limits));
                let os = before.origins@;
                assert forall|k: int| 0 <= k < os.len() implies #[trigger] storage_order()(os[k], storage)
                    == storage_order()(os[k], os[i as int]) by {}
                assert forall|k: int| 0 <= k < os.len() implies #[trigger] storage_order()(storage, os[k])
                    == storage_order()(os[i as int], os[k]) by {}
                lemma_sorted_update(os, storage_order(), i as int, storage);
                lemma_keyed_map_update(os, storage_origin(), storage_entries(), i as int, storage);
                lemma_keyed_map_update(os, storage_origin(), storage_weight(), i as int, storage);
                lemma_keyed_map_update(os, storage_origin(), storage_count(), i as int, storage);
                lemma_weight_sum_update(os, storage_weight(), i as int, storage);
                assert(os.remove(i as int).insert(i as int, storage) =~= os.update(i as int, storage));
            }
            self.origins.insert(i, storage);
            proof {
                let t = self.origins@;
                assert forall|k: int| 0 <= k < t.len() implies origin_storage_wf(#[trigger] t[k], self.limits) by {
                    if k != i {
                        assert(t[k] == before.origins@[k]);
                    }
                }
            }
        } else {
            proof {
                let t = self.origins@;
                let os = before.origins@;
                assert(old_storage.entries@.len() == 1);
                assert forall|k: int| 0 <= k < t.len() implies origin_storage_wf(#[trigger] t[k], self.limits) by {
                    if k < i {
                        assert(t[k] == os[k]);
                    } else {
                        assert(t[k] == os[k + 1]);
                    }
                }
                assert(keyed_map(old_storage.entries@, entry_key(), entry_value()).remove(key@) =~= Map::empty()) by {
                    assert(old_storage.entries@.remove(j as int) =~= Seq::<StorageEntry>::empty());
                };
            }
        }
        Ok(true)
    }

    /// Drops all storage of the origin; `Ok(true)` exactly when it had some.
    /// The accounting always balances, so no error comes back.
    pub fn clear_origin(&mut self, origin: &Origin) -> (r: Result<bool, StorageError>)
        requires
            old(self).wf(),
        ensures
            final(self).wf(),
            r == Ok::<bool, StorageError>(old(self).spec_entries().contains_key(origin@)),
            final(self).spec_entries() == old(self).spec_entries().remove(origin@),
            final(self).spec_total_bytes() == old(self).spec_total_bytes() - old(self).spec_origin_bytes(
                origin@,
            ),
            final(self).spec_origin_bytes(origin@) == 0,
            final(self).spec_entry_count(origin@) == 0,
            forall|o: OriginModel|
                o != origin@ ==> #[trigger] final(self).spec_origin_bytes(o) == old(self).spec_origin_bytes(o)
                    && final(self).spec_entry_count(o) == old(self).spec_entry_count(o),
            final(self).spec_origin_count() == old(self).spec_origin_count() - (if old(self).spec_entries().contains_key(
                origin@,
            ) {
                1int
            } else {
                0int
            }),
            final(self).spec_process() == old(self).spec_process(),
            final(self).spec_limits() == old(self).spec_limits(),
    {
        proof {
            lemma_storage_order_laws();
            lemma_sorted_distinct(self.origins@, storage_order(), storage_origin());
        }
        match probe_origin(&self.origins, origin) {
            Probe::Vacant(_) => {
                proof {
                    assert(self.spec_entries().remove(origin@) =~= self.spec_entries());
                    assert(!keyed_map(self.origins@, storage_origin(), storage_weight()).contains_key(origin@));
                    assert(!keyed_map(self.origins@, storage_origin(), storage_count()).contains_key(origin@));
                }
                Ok(false)
            },
            Probe::Found(i) => {
                let ghost before = *self;
                proof {
                    let os = before.origins@;
                    lemma_keyed_map_at(os, storage_origin(), storage_weight(), i as int);
                    lemma_keyed_map_remove(os, storage_origin(), storage_entries(), i as int);
                    lemma_keyed_map_remove(os, storage_origin(), storage_weight(), i as int);
                    lemma_keyed_map_remove(os, storage_origin(), storage_count(), i as int);
                    lemma_sorted_remove(os, storage_order(), i as int);
                    lemma_weight_sum_remove(os, storage_weight(), i as int);
                }
                let storage = self.origins.remove(i);
                self.total_bytes = self.total_bytes - storage.bytes;
                proof {
                    let t = self.origins@;
                    let os = before.origins@;
                    assert forall|k: int| 0 <= k < t.len() implies origin_storage_wf(#[trigger] t[k], self.limits) by {
                        if k < i {
                            assert(t[k] == os[k]);
                        } else {
                            assert(t[k] == os[k + 1]);
                        }
                    }
                }
                Ok(true)
            },
        }
    }

    /// The stored origins in canonical order, each with its entries in key
    /// byte order.
    pub closed spec fn spec_listing(&self) -> Seq<(OriginModel, Seq<(Seq<char>, Seq<u8>)>)> {
        self.origins@.map_values(listing_item())
    }

    /// What the state's specification functions are, for code of this crate
    /// that builds or walks a state.
    pub(crate) proof fn lemma_parts(&self)
        ensures
            self.spec_listing() == self.origins@.map_values(listing_item()),
            self.spec_limits() == self.limits,
            self.spec_process() == self.process,
            self.spec_total_bytes() == self.total_bytes,
            self.spec_origin_count() == self.origins@.len(),
            self.spec_entries() == keyed_map(self.origins@, storage_origin(), storage_entries()),
            forall|o: OriginModel| #[trigger] self.spec_origin_bytes(o) == (if keyed_map(
                self.origins@,
                storage_origin(),
                storage_weight(),
            ).contains_key(o) {
                keyed_map(self.origins@, storage_origin(), storage_weight())[o]
            } else {
                0
            }),
            forall|o: OriginModel| #[trigger] self.spec_entry_count(o) == (if keyed_map(
                self.origins@,
                storage_origin(),
                storage_count(),
            ).contains_key(o) {
                keyed_map(self.origins@, storage_origin(), storage_count())[o]
            } else {
                0
            }),
            self.wf() <==> {
                &&& self.limits.spec_is_valid()
                &&& sorted_by(self.origins@, storage_order())
                &&& forall|i: int|
                    0 <= i < self.origins@.len() ==> origin_storage_wf(
                        #[trigger] self.origins@[i],
                        self.limits,
                    )
                &&& self.origins@.len() <= self.limits.max_origins
                &&& self.total_bytes == weight_sum(self.origins@, storage_weight())
                &&& self.total_bytes <= self.limits.max_total_bytes
            },
    {
    }
}


/// Reading after a write: once a value is stored under a key of an origin,
/// that key of that origin reads the value, and every other key of every
/// origin, the same key of other same-site origins included, reads as it did.
pub proof fn lemma_put_then_get(
    before: StorageProcessState,
    after: StorageProcessState,
    origin: OriginModel,
    key: Seq<char>,
    value: Seq<u8>,
    other_origin: OriginModel,
    other_key: Seq<char>,
)
    requires
        after.is_put_of(before, origin, key, value),
    ensures
        after.spec_get(origin, key) == Some(value),
        other_origin != origin || other_key != key ==> after.spec_get(other_origin, other_key)
            == before.spec_get(other_origin, other_key),
{
}

/// Reading after a removal: the removed key of the origin reads nothing, and
/// every other key of every origin reads as it did.
pub proof fn lemma_remove_then_get(
    before: StorageProcessState,
    after: StorageProcessState,
    origin: OriginModel,
    key: Seq<char>,
    other_origin: OriginModel,
    other_key: Seq<char>,
)
    requires
        before.wf(),
        before.spec_get(origin, key) is Some,
        after.is_remove_of(before, origin, key),
    ensures
        after.spec_get(origin, key) is None,
        other_origin != origin || other_key != key ==> after.spec_get(other_origin, other_key)
            == before.spec_get(other_origin, other_key),
{
    before.lemma_parts();
    lemma_storage_order_laws();
    lemma_sorted_distinct(before.origins@, storage_order(), storage_origin());
    let i = index_of_key(before.origins@, storage_origin(), origin);
    lemma_index_of_key(before.origins@, storage_origin(), i);
    lemma_keyed_map_at(before.origins@, storage_origin(), storage_entries(), i);
    lemma_keyed_map_at(before.origins@, storage_origin(), storage_count(), i);
    let o = before.origins@[i];
    if before.spec_entry_count(origin) == 1 && other_origin == origin {
        assert(origin_storage_wf(o, before.limits));
        lemma_entry_order_laws();
        lemma_sorted_distinct(o.entries@, entry_order(), entry_key());
        let m = keyed_map(o.entries@, entry_key(), entry_value());
        assert(m.contains_key(key));
        let j = index_of_key(o.entries@, entry_key(), key);
        assert forall|k: Seq<char>| m.contains_key(k) implies k == key by {
            let jj = choose|jj: int| 0 <= jj < o.entries@.len() && entry_key()(o.entries@[jj]) == k;
        }
    }
}


} // verus!
