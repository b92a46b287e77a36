//! The decisions of the Windows accessibility bridge: which native provider
//! stands for which node, which queued events still apply, and which action
//! callbacks may reach the engine.
//!
//! The bridge keeps provider serials stable for nodes that stay across
//! snapshots, never reuses a serial, and drops events and actions that name
//! a node, document generation or geometry revision that is no longer
//! current. Delivering events to the native layer is left to the caller: it
//! asks `next_delivery` for the next event, hands it to the native layer and
//! reports the outcome.
use crate::accessibility::{
    PlatformAccessibilityAction, PlatformAccessibilityActionRequest, PlatformAccessibilityError,
    PlatformAccessibilityErrorKind, PlatformAccessibilityEvent,
    PlatformAccessibilityEventDisposition, PlatformAccessibilityEventKind,
    PlatformAccessibilityNode, PlatformAccessibilityNodeId, PlatformAccessibilitySnapshot,
    PlatformAccessibilitySnapshotReport,
};
use crate::keyed::{
    key_at, keyed_map, keys_distinct, lemma_keyed_map_at, lemma_keyed_map_insert,
    lemma_keyed_map_len,
};
use vstd::prelude::*;

verus! {

pub const DEFAULT_MAX_WINDOWS_ACCESSIBILITY_PROVIDERS: usize = 4096;

pub const DEFAULT_MAX_WINDOWS_ACCESSIBILITY_PENDING_EVENTS: usize = 1024;

pub const DEFAULT_MAX_WINDOWS_ACCESSIBILITY_ACTION_REQUESTS: usize = 128;

/// The largest provider serial that UI Automation accepts.
pub const MAX_WINDOWS_ACCESSIBILITY_PROVIDER_SERIAL: u64 = 2147483647;

/// Why the native accessibility layer failed.
#[derive(Clone, Copy, Debug, PartialEq, Eq, Structural)]
pub enum WindowsAccessibilityNativeErrorKind {
    Unsupported,
    ProviderUnavailable,
    EventRejected,
    Failed,
}

#[derive(Clone, Copy, Debug, PartialEq, Eq, Structural)]
pub enum WindowsAccessibilityBridgeError {
    UnsupportedTarget,
    InvalidLimits,
    Native(WindowsAccessibilityNativeErrorKind),
}

/// Bounds of the bridge; all non-zero.
#[derive(Clone, Copy, Debug, PartialEq, Eq, Structural)]
pub struct WindowsAccessibilityLimits {
    max_providers: usize,
    max_pending_events: usize,
    max_action_requests: usize,
}

impl WindowsAccessibilityLimits {
    pub closed spec fn spec_max_providers(self) -> usize {
        self.max_providers
    }

    pub closed spec fn spec_max_pending_events(self) -> usize {
        self.max_pending_events
    }

    pub closed spec fn spec_max_action_requests(self) -> usize {
        self.max_action_requests
    }

    /// Limits with these bounds; refused with `InvalidLimits` when any is zero.
    pub fn try_new(max_providers: usize, max_pending_events: usize, max_action_requests: usize) -> (r:
        Result<Self, WindowsAccessibilityBridgeError>)
        ensures
            (r is Ok) <==> (max_providers > 0 && max_pending_events > 0 && max_action_requests > 0),
            r matches Ok(l) ==> l.spec_max_providers() == max_providers && l.spec_max_pending_events()
                == max_pending_events && l.spec_max_action_requests() == max_action_requests,
            r matches Err(e) ==> e == WindowsAccessibilityBridgeError::InvalidLimits,
    {
        if max_providers == 0 || max_pending_events == 0 || max_action_requests == 0 {
            return Err(WindowsAccessibilityBridgeError::InvalidLimits);
        }
        Ok(WindowsAccessibilityLimits { max_providers, max_pending_events, max_action_requests })
    }

    pub fn max_providers(self) -> (r: usize)
        ensures
            r == self.spec_max_providers(),
    {
        self.max_providers
    }

    pub fn max_pending_events(self) -> (r: usize)
        ensures
            r == self.spec_max_pending_events(),
    {
        self.max_pending_events
    }

    pub fn max_action_requests(self) -> (r: usize)
        ensures
            r == self.spec_max_action_requests(),
    {
        self.max_action_requests
    }
}

impl Default for WindowsAccessibilityLimits {
    fn default() -> (r: Self)
        ensures
            r.spec_max_providers() == DEFAULT_MAX_WINDOWS_ACCESSIBILITY_PROVIDERS,
            r.spec_max_pending_events() == DEFAULT_MAX_WINDOWS_ACCESSIBILITY_PENDING_EVENTS,
            r.spec_max_action_requests() == DEFAULT_MAX_WINDOWS_ACCESSIBILITY_ACTION_REQUESTS,
    {
        WindowsAccessibilityLimits {
            max_providers: DEFAULT_MAX_WINDOWS_ACCESSIBILITY_PROVIDERS,
            max_pending_events: DEFAULT_MAX_WINDOWS_ACCESSIBILITY_PENDING_EVENTS,
            max_action_requests: DEFAULT_MAX_WINDOWS_ACCESSIBILITY_ACTION_REQUESTS,
        }
    }
}

/// The native provider serial of a node.
#[derive(Clone, Copy, Debug)]
struct ProviderEntry {
    node: PlatformAccessibilityNodeId,
    serial: u64,
}

spec fn entry_node() -> spec_fn(ProviderEntry) -> PlatformAccessibilityNodeId {
    |e: ProviderEntry| e.node
}

spec fn entry_serial() -> spec_fn(ProviderEntry) -> u64 {
    |e: ProviderEntry| e.serial
}

/// What the bridge remembers of the current snapshot.
#[derive(Clone, Debug)]
struct SnapshotIdentity {
    scope: u64,
    document_generation: u64,
    geometry_revision: u64,
    root: PlatformAccessibilityNodeId,
    nodes: Vec<PlatformAccessibilityNodeId>,
}

/// The node identities of a snapshot's nodes.
pub open spec fn snapshot_ids(nodes: Seq<PlatformAccessibilityNode>) -> Seq<PlatformAccessibilityNodeId> {
    nodes.map_values(|n: PlatformAccessibilityNode| n.spec_id())
}

/// A queued event still applies to a snapshot: same generation, a present
/// target.
pub open spec fn event_applies(
    e: PlatformAccessibilityEvent,
    generation: u64,
    ids: Seq<PlatformAccessibilityNodeId>,
) -> bool {
    e.spec_document_generation() == generation && ids.contains(e.spec_target())
}

/// A queued action still applies to a snapshot: same generation and
/// revision, a present target.
pub open spec fn action_applies(
    a: PlatformAccessibilityActionRequest,
    generation: u64,
    revision: u64,
    ids: Seq<PlatformAccessibilityNodeId>,
) -> bool {
    a.spec_document_generation() == generation && a.spec_geometry_revision() == revision
        && ids.contains(a.spec_target())
}

/// The Windows accessibility bridge's state.
#[derive(Debug)]
pub struct WindowsAccessibilityBridge {
    limits: WindowsAccessibilityLimits,
    current: Option<SnapshotIdentity>,
    providers: Vec<ProviderEntry>,
    next_provider: u64,
    pending_events: Vec<PlatformAccessibilityEvent>,
    action_requests: Vec<PlatformAccessibilityActionRequest>,
    last_native_error: Option<WindowsAccessibilityNativeErrorKind>,
}

impl WindowsAccessibilityBridge {
    /// Providers are keyed by node and carry distinct serials below the next
    /// one; without a snapshot there are none, with one they name its nodes.
    pub closed spec fn wf(&self) -> bool {
        &&& self.next_provider >= 1
        &&& keys_distinct(self.providers@, entry_node())
        &&& keys_distinct(self.providers@, entry_serial())
        &&& forall|i: int|
            0 <= i < self.providers@.len() ==> 1 <= (#[trigger] self.providers@[i]).serial
                < self.next_provider
        &&& match self.current {
            None => self.providers@.len() == 0,
            Some(c) => forall|i: int|
                0 <= i < self.providers@.len() ==> c.nodes@.contains(
                    (#[trigger] self.providers@[i]).node,
                ),
        }
    }

    /// The provider serial of each node.
    pub closed spec fn spec_providers(&self) -> Map<PlatformAccessibilityNodeId, u64> {
        keyed_map(self.providers@, entry_node(), entry_serial())
    }

    pub closed spec fn spec_provider_count(&self) -> nat {
        self.providers@.len()
    }

    pub closed spec fn spec_next_provider(&self) -> u64 {
        self.next_provider
    }

    pub closed spec fn spec_limits(&self) -> WindowsAccessibilityLimits {
        self.limits
    }

    pub closed spec fn spec_pending(&self) -> Seq<PlatformAccessibilityEvent> {
        self.pending_events@
    }

    pub closed spec fn spec_actions(&self) -> Seq<PlatformAccessibilityActionRequest> {
        self.action_requests@
    }

    pub closed spec fn spec_last_native_error(&self) -> Option<WindowsAccessibilityNativeErrorKind> {
        self.last_native_error
    }

    pub closed spec fn spec_has_snapshot(&self) -> bool {
        self.current is Some
    }

    pub closed spec fn spec_scope(&self) -> u64 {
        self.current->0.scope
    }

    pub closed spec fn spec_generation(&self) -> u64 {
        self.current->0.document_generation
    }

    pub closed spec fn spec_revision(&self) -> u64 {
        self.current->0.geometry_revision
    }

    pub closed spec fn spec_root(&self) -> PlatformAccessibilityNodeId {
        self.current->0.root
    }

    pub closed spec fn spec_nodes(&self) -> Seq<PlatformAccessibilityNodeId> {
        self.current->0.nodes@
    }

    /// A bridge with no snapshot, providers, events or actions.
    pub fn new(limits: WindowsAccessibilityLimits) -> (r: Self)
        ensures
            r.wf(),
            !r.spec_has_snapshot(),
            r.spec_provider_count() == 0,
            r.spec_next_provider() == 1,
            r.spec_pending().len() == 0,
            r.spec_actions().len() == 0,
            r.spec_limits() == limits,
            r.spec_last_native_error() is None,
    {
        WindowsAccessibilityBridge {
            limits,
            current: None,
            providers: Vec::new(),
            next_provider: 1,
            pending_events: Vec::new(),
            action_requests: Vec::new(),
            last_native_error: None,
        }
    }

    pub fn limits(&self) -> (r: WindowsAccessibilityLimits)
        ensures
            r == self.spec_limits(),
    {
        self.limits
    }

    pub fn provider_count(&self) -> (r: usize)
        ensures
            r == self.spec_provider_count(),
    {
        self.providers.len()
    }

    pub fn pending_event_count(&self) -> (r: usize)
        ensures
            r == self.spec_pending().len(),
    {
        self.pending_events.len()
    }

    pub fn pending_action_count(&self) -> (r: usize)
        ensures
            r == self.spec_actions().len(),
    {
        self.action_requests.len()
    }

    pub fn last_native_error(&self) -> (r: Option<WindowsAccessibilityNativeErrorKind>)
        ensures
            r == self.spec_last_native_error(),
    {
        self.last_native_error
    }

    /// The first queued event, if any.
    pub fn pending_front(&self) -> (r: Option<PlatformAccessibilityEvent>)
        ensures
            self.spec_pending().len() == 0 ==> r is None,
            self.spec_pending().len() > 0 ==> r == Some(self.spec_pending()[0]),
    {
        if self.pending_events.len() == 0 {
            None
        } else {
            Some(self.pending_events[0])
        }
    }

    fn find_node(&self, node: PlatformAccessibilityNodeId) -> (r: Option<usize>)
        ensures
            match r {
                Some(i) => i < self.providers@.len() && self.providers@[i as int].node == node,
                None => !key_at(self.providers@, entry_node(), node),
            },
    {
        let mut i: usize = 0;
        while i < self.providers.len()
            invariant
                0 <= i <= self.providers@.len(),
                forall|j: int| 0 <= j < i ==> self.providers@[j].node != node,
            decreases self.providers@.len() - i,
        {
            if self.providers[i].node == node {
                return Some(i);
            }
            i = i + 1;
        }
        None
    }

    fn find_serial(&self, serial: u64) -> (r: Option<usize>)
        ensures
            match r {
                Some(i) => i < self.providers@.len() && self.providers@[i as int].serial == serial,
                None => !key_at(self.providers@, entry_serial(), serial),
            },
    {
        let mut i: usize = 0;
        while i < self.providers.len()
            invariant
                0 <= i <= self.providers@.len(),
                forall|j: int| 0 <= j < i ==> self.providers@[j].serial != serial,
            decreases self.providers@.len() - i,
        {
            if self.providers[i].serial == serial {
                return Some(i);
            }
            i = i + 1;
        }
        None
    }

    /// The provider serial standing for a node.
    pub fn provider_serial_for_node(&self, node: PlatformAccessibilityNodeId) -> (r: Option<u64>)
        requires
            self.wf(),
        ensures
            match r {
                Some(s) => self.spec_providers().contains_key(node) && self.spec_providers()[node] == s,
                None => !self.spec_providers().contains_key(node),
            },
    {
        match self.find_node(node) {
            Some(i) => {
                proof {
                    lemma_keyed_map_at(self.providers@, entry_node(), entry_serial(), i as int);
                }
                Some(self.providers[i].serial)
            },
            None => None,
        }
    }

    /// Forgets the snapshot, its providers, events and actions.
    pub fn clear_snapshot(&mut self)
        requires
            old(self).wf(),
        ensures
            final(self).wf(),
            !final(self).spec_has_snapshot(),
            final(self).spec_provider_count() == 0,
            final(self).spec_pending().len() == 0,
            final(self).spec_actions().len() == 0,
            final(self).spec_last_native_error() is None,
            final(self).spec_next_provider() == old(self).spec_next_provider(),
            final(self).spec_limits() == old(self).spec_limits(),
    {
        self.current = None;
        self.providers = Vec::new();
        self.pending_events = Vec::new();
        self.action_requests = Vec::new();
        self.last_native_error = None;
    }
}


/// Whether some identity occurs twice.
fn has_duplicate(ids: &Vec<PlatformAccessibilityNodeId>) -> (r: bool)
    ensures
        r == !(forall|i: int, j: int| 0 <= i < ids@.len() && 0 <= j < ids@.len() && i != j ==> ids@[i] != ids@[j]),
{
    let mut i: usize = 0;
    while i < ids.len()
        invariant
            0 <= i <= ids@.len(),
            forall|a: int, b: int| 0 <= a < i && 0 <= b < ids@.len() && a != b ==> ids@[a] != ids@[b],
        decreases ids@.len() - i,
    {
        let mut j: usize = 0;
        while j < ids.len()
            invariant
                0 <= i < ids@.len(),
                0 <= j <= ids@.len(),
                forall|b: int| 0 <= b < j && b != i ==> ids@[i as int] != ids@[b],
            decreases ids@.len() - j,
        {
            if j != i && ids[j] == ids[i] {
                return true;
            }
            j = j + 1;
        }
        i = i + 1;
    }
    false
}

fn contains_id(ids: &Vec<PlatformAccessibilityNodeId>, id: PlatformAccessibilityNodeId) -> (r: bool)
    ensures
        r == ids@.contains(id),
{
    let mut i: usize = 0;
    while i < ids.len()
        invariant
            0 <= i <= ids@.len(),
            forall|k: int| 0 <= k < i ==> ids@[k] != id,
        decreases ids@.len() - i,
    {
        if ids[i] == id {
            return true;
        }
        i = i + 1;
    }
    false
}

fn capacity_exceeded() -> (r: PlatformAccessibilityError)
    ensures
        r.spec_kind() == PlatformAccessibilityErrorKind::CapacityExceeded,
{
    PlatformAccessibilityError::new(PlatformAccessibilityErrorKind::CapacityExceeded)
}

fn stale_correlation() -> (r: PlatformAccessibilityError)
    ensures
        r.spec_kind() == PlatformAccessibilityErrorKind::StaleCorrelation,
{
    PlatformAccessibilityError::new(PlatformAccessibilityErrorKind::StaleCorrelation)
}

fn invalid_snapshot() -> (r: PlatformAccessibilityError)
    ensures
        r.spec_kind() == PlatformAccessibilityErrorKind::InvalidSnapshot,
{
    PlatformAccessibilityError::new(PlatformAccessibilityErrorKind::InvalidSnapshot)
}

/// A snapshot's identities are distinct, include the root, and share the
/// root's scope.
pub open spec fn identities_consistent(
    ids: Seq<PlatformAccessibilityNodeId>,
    root: PlatformAccessibilityNodeId,
) -> bool {
    &&& forall|i: int, j: int| 0 <= i < ids.len() && 0 <= j < ids.len() && i != j ==> ids[i] != ids[j]
    &&& ids.contains(root)
    &&& forall|i: int| 0 <= i < ids.len() ==> (#[trigger] ids[i]).spec_scope() == root.spec_scope()
}

/// Counting the identities present in a map does not see an entry whose key
/// is not among them.
proof fn lemma_count_present_remove(
    ids: Seq<PlatformAccessibilityNodeId>,
    m: Map<PlatformAccessibilityNodeId, u64>,
    x: PlatformAccessibilityNodeId,
)
    requires
        !ids.contains(x),
    ensures
        count_present(ids, m) == count_present(ids, m.remove(x)),
    decreases ids.len(),
{
    if ids.len() > 0 {
        let rest = ids.drop_last();
        if rest.contains(x) {
            let i = choose|i: int| 0 <= i < rest.len() && rest[i] == x;
            assert(ids[i] == x);
        }
        assert(ids.last() != x) by {
            assert(ids[ids.len() - 1] == ids.last());
        }
        lemma_count_present_remove(rest, m, x);
    }
}

/// Distinct identities find at most as many entries as the map has.
proof fn lemma_count_present_bound(ids: Seq<PlatformAccessibilityNodeId>, m: Map<PlatformAccessibilityNodeId, u64>)
    requires
        forall|i: int, j: int| 0 <= i < ids.len() && 0 <= j < ids.len() && i != j ==> ids[i] != ids[j],
        m.dom().finite(),
    ensures
        count_present(ids, m) <= m.dom().len(),
    decreases ids.len(),
{
    if ids.len() > 0 {
        let x = ids.last();
        let rest = ids.drop_last();
        if rest.contains(x) {
            let i = choose|i: int| 0 <= i < rest.len() && rest[i] == x;
            assert(ids[i] == ids[ids.len() - 1]);
        }
        lemma_count_present_remove(rest, m, x);
        assert(m.remove(x).dom() =~= m.dom().remove(x));
        lemma_count_present_bound(rest, m.remove(x));
    }
}

/// A snapshot whose identities are distinct retains at most as many
/// providers as the bridge holds, so the retired count of a replacement is
/// the provider count less the retained one.
pub proof fn lemma_retained_within_providers(bridge: WindowsAccessibilityBridge, ids: Seq<PlatformAccessibilityNodeId>)
    requires
        bridge.wf(),
        forall|i: int, j: int| 0 <= i < ids.len() && 0 <= j < ids.len() && i != j ==> ids[i] != ids[j],
    ensures
        count_present(ids, bridge.spec_providers()) <= bridge.spec_provider_count(),
{
    lemma_keyed_map_len(bridge.providers@, entry_node(), entry_serial());
    lemma_count_present_bound(ids, bridge.spec_providers());
}

impl WindowsAccessibilityBridge {
    /// Whether a snapshot of this scope replaces one of another scope.
    pub closed spec fn spec_scope_changes(&self, scope: u64) -> bool {
        self.current matches Some(c) && c.scope != scope
    }

    /// The providers that a snapshot of these identities keeps.
    pub closed spec fn spec_kept(&self, scope: u64, ids: Seq<PlatformAccessibilityNodeId>) -> Seq<
        PlatformAccessibilityNodeId,
    > {
        if self.spec_scope_changes(scope) {
            Seq::empty()
        } else {
            self.providers@.map_values(|e: ProviderEntry| e.node).filter(
                |n: PlatformAccessibilityNodeId| ids.contains(n),
            )
        }
    }
}


/// How many of the identities a provider map holds.
pub open spec fn count_present(ids: Seq<PlatformAccessibilityNodeId>, m: Map<PlatformAccessibilityNodeId, u64>) -> nat
    decreases ids.len(),
{
    if ids.len() == 0 {
        0
    } else {
        count_present(ids.drop_last(), m) + (if m.contains_key(ids.last()) {
            1nat
        } else {
            0nat
        })
    }
}

fn collect_ids(nodes: &[PlatformAccessibilityNode]) -> (r: Vec<PlatformAccessibilityNodeId>)
    ensures
        r@ == snapshot_ids(nodes@),
{
    let mut out: Vec<PlatformAccessibilityNodeId> = Vec::new();
    let mut i: usize = 0;
    while i < nodes.len()
        invariant
            0 <= i <= nodes@.len(),
            out@ == snapshot_ids(nodes@.take(i as int)),
        decreases nodes@.len() - i,
    {
        out.push(nodes[i].id());
        i = i + 1;
        assert(out@ =~= snapshot_ids(nodes@.take(i as int)));
    }
    assert(nodes@.take(nodes@.len() as int) =~= nodes@);
    out
}

/// Inserts an identity among others kept in increasing serial order.
fn insert_by_serial(ids: &mut Vec<PlatformAccessibilityNodeId>, id: PlatformAccessibilityNodeId)
    requires
        !old(ids)@.contains(id),
    ensures
        final(ids)@.len() == old(ids)@.len() + 1,
        forall|x: PlatformAccessibilityNodeId| final(ids)@.contains(x) <==> (old(ids)@.contains(x) || x == id),
        (forall|a: int, b: int| 0 <= a < old(ids)@.len() && 0 <= b < old(ids)@.len() && a != b ==> old(ids)@[a] != old(ids)@[b])
            ==> (forall|a: int, b: int| 0 <= a < final(ids)@.len() && 0 <= b < final(ids)@.len() && a != b ==> final(ids)@[a] != final(ids)@[b]),
{
    let mut p: usize = 0;
    while p < ids.len() && ids[p].serial() < id.serial()
        invariant
            0 <= p <= ids@.len(),
        decreases ids@.len() - p,
    {
        p = p + 1;
    }
    let ghost before = ids@;
    ids.insert(p, id);
    proof {
        let t = ids@;
        assert forall|x: PlatformAccessibilityNodeId| t.contains(x) <==> (before.contains(x) || x == id) by {
            if t.contains(x) {
                let k = choose|k: int| 0 <= k < t.len() && t[k] == x;
                if k < p {
                    assert(before[k] == x);
                } else if k > p {
                    assert(before[k - 1] == x);
                }
            }
            if before.contains(x) {
                let k = choose|k: int| 0 <= k < before.len() && before[k] == x;
                if k < p {
                    assert(t[k] == x);
                } else {
                    assert(t[k + 1] == x);
                }
            }
            if x == id {
                assert(t[p as int] == x);
            }
        }
        if forall|a: int, b: int| 0 <= a < before.len() && 0 <= b < before.len() && a != b ==> before[a] != before[b] {
            assert forall|a: int, b: int| 0 <= a < t.len() && 0 <= b < t.len() && a != b implies t[a] != t[b] by {
                let sa = if a < p { a } else { a - 1 };
                let sb = if b < p { b } else { b - 1 };
                if a != p && b != p {
                    assert(t[a] == before[sa] && t[b] == before[sb]);
                } else if a == p {
                    assert(t[b] == before[sb]);
                    assert(before.contains(t[b]));
                } else {
                    assert(t[a] == before[sa]);
                    assert(before.contains(t[a]));
                }
            }
        }
    }
}


impl WindowsAccessibilityBridge {
    /// The providers a snapshot of these distinct identities gets: a node
    /// that keeps its provider keeps its serial, every other node gets a
    /// fresh serial, handed out in increasing node serial order.
    fn plan_providers(&self, ids: &Vec<PlatformAccessibilityNodeId>, keep: bool) -> (r: Result<
        (Vec<ProviderEntry>, u64, usize),
        PlatformAccessibilityError,
    >)
        requires
            self.wf(),
            forall|i: int, j: int| 0 <= i < ids@.len() && 0 <= j < ids@.len() && i != j ==> ids@[i] != ids@[j],
        ensures
            r matches Ok((entries, next, retained)) ==> {
                &&& keys_distinct(entries@, entry_node())
                &&& keys_distinct(entries@, entry_serial())
                &&& self.next_provider <= next
                &&& forall|i: int| 0 <= i < entries@.len() ==> 1 <= (#[trigger] entries@[i]).serial < next
                &&& forall|i: int| 0 <= i < entries@.len() ==> ids@.contains((#[trigger] entries@[i]).node)
                &&& forall|x: PlatformAccessibilityNodeId| ids@.contains(x) ==> #[trigger] key_at(entries@, entry_node(), x)
                &&& forall|i: int|
                    0 <= i < entries@.len() ==> if keep && self.spec_providers().contains_key(
                        (#[trigger] entries@[i]).node,
                    ) {
                        entries@[i].serial == self.spec_providers()[entries@[i].node]
                    } else {
                        self.next_provider <= entries@[i].serial
                    }
                &&& retained == (if keep {
                    count_present(ids@, self.spec_providers())
                } else {
                    0
                })
                &&& next == self.next_provider + ids@.len() - retained
                &&& entries@.len() == ids@.len()
            },
            r matches Err(e) ==> e.spec_kind() == PlatformAccessibilityErrorKind::CapacityExceeded,
            r is Err <==> ({
                let fresh_count = ids@.len() - (if keep {
                    count_present(ids@, self.spec_providers())
                } else {
                    0
                });
                fresh_count > 0 && self.next_provider + fresh_count > MAX_WINDOWS_ACCESSIBILITY_PROVIDER_SERIAL + 1
            }),
    {
        let mut entries: Vec<ProviderEntry> = Vec::new();
        let mut fresh: Vec<PlatformAccessibilityNodeId> = Vec::new();
        let mut retained: usize = 0;
        let mut i: usize = 0;
        while i < ids.len()
            invariant
                self.wf(),
                0 <= i <= ids@.len(),
                forall|a: int, b: int| 0 <= a < ids@.len() && 0 <= b < ids@.len() && a != b ==> ids@[a] != ids@[b],
                entries@.len() + fresh@.len() == i,
                retained == entries@.len(),
                retained == (if keep { count_present(ids@.take(i as int), self.spec_providers()) } else { 0 }),
                keys_distinct(entries@, entry_node()),
                keys_distinct(entries@, entry_serial()),
                forall|a: int, b: int| 0 <= a < fresh@.len() && 0 <= b < fresh@.len() && a != b ==> fresh@[a] != fresh@[b],
                forall|k: int| 0 <= k < entries@.len() ==> ids@.take(i as int).contains((#[trigger] entries@[k]).node),
                forall|k: int| 0 <= k < fresh@.len() ==> ids@.take(i as int).contains(#[trigger] fresh@[k]),
                forall|k: int| 0 <= k < fresh@.len() ==> !key_at(entries@, entry_node(), #[trigger] fresh@[k]),
                forall|x: PlatformAccessibilityNodeId| ids@.take(i as int).contains(x) ==> (#[trigger] key_at(entries@, entry_node(), x) || fresh@.contains(x)),
                forall|k: int| 0 <= k < entries@.len() ==> keep && self.spec_providers().contains_key((#[trigger] entries@[k]).node) && entries@[k].serial == self.spec_providers()[entries@[k].node],
                forall|k: int| 0 <= k < fresh@.len() ==> !(keep && self.spec_providers().contains_key(#[trigger] fresh@[k])),
                forall|k: int| 0 <= k < entries@.len() ==> 1 <= (#[trigger] entries@[k]).serial < self.next_provider,
            decreases ids@.len() - i,
        {
            let id = ids[i];
            proof {
                assert(ids@.take(i + 1) =~= ids@.take(i as int).push(id));
                assert(ids@.take(i + 1).drop_last() =~= ids@.take(i as int));
                assert(!ids@.take(i as int).contains(id)) by {
                    if ids@.take(i as int).contains(id) {
                        let k = choose|k: int| 0 <= k < i && ids@.take(i as int)[k] == id;
                        assert(ids@[k] == ids@[i as int]);
                    }
                }
            }
            let ghost entries_before = entries@;
            let ghost fresh_before = fresh@;
            let found = if keep {
                self.find_node(id)
            } else {
                None
            };
            match found {
                Some(j) => {
                    let entry = ProviderEntry { node: id, serial: self.providers[j].serial };
                    proof {
                        lemma_keyed_map_at(self.providers@, entry_node(), entry_serial(), j as int);
                        assert(!key_at(entries@, entry_node(), id));
                        assert(!key_at(entries@, entry_serial(), entry.serial)) by {
                            if key_at(entries@, entry_serial(), entry.serial) {
                                let k = choose|k: int| 0 <= k < entries@.len() && entry_serial()(entries@[k]) == entry.serial;
                                let other = entries@[k].node;
                                let m = choose|m: int| 0 <= m < self.providers@.len() && entry_node()(self.providers@[m]) == other;
                                lemma_keyed_map_at(self.providers@, entry_node(), entry_serial(), m);
                                assert(self.providers@[m].serial == self.providers@[j as int].serial);
                            }
                        }
                        lemma_keyed_map_insert(entries@, entry_node(), entry_serial(), entries@.len() as int, entry);
                        lemma_keyed_map_insert(entries@, entry_serial(), entry_node(), entries@.len() as int, entry);
                        assert(entries@.insert(entries@.len() as int, entry) =~= entries@.push(entry));
                    }
                    entries.push(entry);
                    retained = retained + 1;
                },
                None => {
                    proof {
                        assert(!fresh@.contains(id));
                    }
                    insert_by_serial(&mut fresh, id);
                },
            }
            proof {
                let t = ids@.take(i + 1);
                assert(t[i as int] == id);
                assert forall|x: PlatformAccessibilityNodeId| ids@.take(i as int).contains(x) implies t.contains(x) by {
                    let m = choose|m: int| 0 <= m < i && ids@.take(i as int)[m] == x;
                    assert(t[m] == x);
                }
                assert forall|k: int| 0 <= k < entries@.len() implies t.contains((#[trigger] entries@[k]).node) by {
                    if k < entries_before.len() {
                        assert(entries@[k] == entries_before[k]);
                        assert(ids@.take(i as int).contains(entries_before[k].node));
                    }
                }
                assert forall|k: int| 0 <= k < fresh@.len() implies t.contains(#[trigger] fresh@[k]) by {
                    if fresh@[k] != id {
                        assert(fresh_before.contains(fresh@[k]));
                        let m = choose|m: int| 0 <= m < fresh_before.len() && fresh_before[m] == fresh@[k];
                        assert(ids@.take(i as int).contains(fresh_before[m]));
                    }
                }
                assert forall|x: PlatformAccessibilityNodeId| t.contains(x) implies (#[trigger] key_at(entries@, entry_node(), x) || fresh@.contains(x)) by {
                    if x != id {
                        let m = choose|m: int| 0 <= m < t.len() && t[m] == x;
                        assert(m < i);
                        assert(ids@.take(i as int)[m] == x);
                        assert(ids@.take(i as int).contains(x));
                        if key_at(entries_before, entry_node(), x) {
                            let j = choose|j: int| 0 <= j < entries_before.len() && entry_node()(entries_before[j]) == x;
                            assert(entries@[j] == entries_before[j]);
                        } else {
                            assert(fresh_before.contains(x));
                        }
                    } else if found is Some {
                        assert(entry_node()(entries@[entries@.len() - 1]) == x);
                    }
                }
                assert forall|k: int| 0 <= k < fresh@.len() implies !key_at(entries@, entry_node(), #[trigger] fresh@[k]) by {
                    if fresh@[k] == id {
                        assert(!key_at(entries@, entry_node(), id)) by {
                            if key_at(entries@, entry_node(), id) {
                                let j = choose|j: int| 0 <= j < entries@.len() && entry_node()(entries@[j]) == id;
                                assert(ids@.take(i as int).contains(entries_before[j].node));
                            }
                        }
                    } else {
                        assert(fresh_before.contains(fresh@[k]));
                        let m = choose|m: int| 0 <= m < fresh_before.len() && fresh_before[m] == fresh@[k];
                        assert(!key_at(entries_before, entry_node(), fresh_before[m]));
                        if found is Some {
                            assert(fresh_before[m] != id) by {
                                assert(ids@.take(i as int).contains(fresh_before[m]));
                            }
                        }
                    }
                }
                assert forall|k: int| 0 <= k < fresh@.len() implies !(keep && self.spec_providers().contains_key(#[trigger] fresh@[k])) by {
                    if fresh@[k] != id {
                        assert(fresh_before.contains(fresh@[k]));
                        let m = choose|m: int| 0 <= m < fresh_before.len() && fresh_before[m] == fresh@[k];
                        assert(!(keep && self.spec_providers().contains_key(fresh_before[m])));
                    }
                }
            }
            i = i + 1;
        }
        proof {
            assert(ids@.take(ids@.len() as int) =~= ids@);
        }
        let mut next = self.next_provider;
        let mut k: usize = 0;
        while k < fresh.len()
            invariant
                0 <= k <= fresh@.len(),
                self.next_provider >= 1,
                next == self.next_provider + k,
                keys_distinct(entries@, entry_node()),
                keys_distinct(entries@, entry_serial()),
                forall|a: int, b: int| 0 <= a < fresh@.len() && 0 <= b < fresh@.len() && a != b ==> fresh@[a] != fresh@[b],
                forall|j: int| k <= j < fresh@.len() ==> !key_at(entries@, entry_node(), #[trigger] fresh@[j]),
                forall|j: int| 0 <= j < entries@.len() ==> 1 <= (#[trigger] entries@[j]).serial < next,
                forall|j: int| 0 <= j < entries@.len() ==> ids@.contains((#[trigger] entries@[j]).node),
                forall|j: int| 0 <= j < fresh@.len() ==> ids@.contains(#[trigger] fresh@[j]),
                forall|x: PlatformAccessibilityNodeId| ids@.contains(x) ==> (#[trigger] key_at(entries@, entry_node(), x) || (exists|j: int| k <= j < fresh@.len() && fresh@[j] == x)),
                forall|j: int|
                    0 <= j < entries@.len() ==> if keep && self.spec_providers().contains_key(
                        (#[trigger] entries@[j]).node,
                    ) {
                        entries@[j].serial == self.spec_providers()[entries@[j].node]
                    } else {
                        self.next_provider <= entries@[j].serial
                    },
                forall|j: int| 0 <= j < fresh@.len() ==> !(keep && self.spec_providers().contains_key(#[trigger] fresh@[j])),
                entries@.len() + fresh@.len() - k == ids@.len(),
                retained == (if keep { count_present(ids@, self.spec_providers()) } else { 0 }),
                fresh@.len() + retained == ids@.len(),
                k > 0 ==> next <= MAX_WINDOWS_ACCESSIBILITY_PROVIDER_SERIAL + 1,
            decreases fresh@.len() - k,
        {
            if next == 0 || next > MAX_WINDOWS_ACCESSIBILITY_PROVIDER_SERIAL {
                return Err(capacity_exceeded());
            }
            let node = fresh[k];
            let entry = ProviderEntry { node, serial: next };
            let ghost entries_before = entries@;
            proof {
                assert(!key_at(entries@, entry_serial(), next)) by {
                    if key_at(entries@, entry_serial(), next) {
                        let j = choose|j: int| 0 <= j < entries@.len() && entry_serial()(entries@[j]) == next;
                    }
                }
                lemma_keyed_map_insert(entries@, entry_node(), entry_serial(), entries@.len() as int, entry);
                lemma_keyed_map_insert(entries@, entry_serial(), entry_node(), entries@.len() as int, entry);
                assert(entries@.insert(entries@.len() as int, entry) =~= entries@.push(entry));
            }
            entries.push(entry);
            next = next + 1;
            k = k + 1;
            proof {
                assert forall|x: PlatformAccessibilityNodeId| ids@.contains(x) implies (#[trigger] key_at(entries@, entry_node(), x) || (exists|j: int| k <= j < fresh@.len() && fresh@[j] == x)) by {
                    if x == node {
                        assert(entry_node()(entries@[entries@.len() - 1]) == x);
                    } else if key_at(entries_before, entry_node(), x) {
                        let j = choose|j: int| 0 <= j < entries_before.len() && entry_node()(entries_before[j]) == x;
                        assert(entries@[j] == entries_before[j]);
                    } else {
                        let j = choose|j: int| k - 1 <= j < fresh@.len() && fresh@[j] == x;
                        assert(j != k - 1);
                    }
                }
            }
        }
        Ok((entries, next, retained))
    }
}


/// The events that still apply to a snapshot.
pub open spec fn event_filter(generation: u64, ids: Seq<PlatformAccessibilityNodeId>) -> spec_fn(
    PlatformAccessibilityEvent,
) -> bool {
    |e: PlatformAccessibilityEvent| event_applies(e, generation, ids)
}

/// The actions that still apply to a snapshot.
pub open spec fn action_filter(generation: u64, revision: u64, ids: Seq<PlatformAccessibilityNodeId>) -> spec_fn(
    PlatformAccessibilityActionRequest,
) -> bool {
    |a: PlatformAccessibilityActionRequest| action_applies(a, generation, revision, ids)
}

fn filter_events(events: &Vec<PlatformAccessibilityEvent>, generation: u64, ids: &Vec<PlatformAccessibilityNodeId>) -> (r: (
    Vec<PlatformAccessibilityEvent>,
    bool,
))
    ensures
        r.0@ == events@.filter(event_filter(generation, ids@)),
        r.1 == exists|i: int| 0 <= i < events@.len() && !event_applies(#[trigger] events@[i], generation, ids@),
{
    let ghost pred = event_filter(generation, ids@);
    let mut out: Vec<PlatformAccessibilityEvent> = Vec::new();
    let mut stale = false;
    let mut i: usize = 0;
    proof {
        reveal(Seq::filter);
        assert(events@.take(0) =~= Seq::<PlatformAccessibilityEvent>::empty());
    }
    while i < events.len()
        invariant
            0 <= i <= events@.len(),
            pred == event_filter(generation, ids@),
            out@ == events@.take(i as int).filter(pred),
            stale == exists|j: int| 0 <= j < i && !event_applies(#[trigger] events@[j], generation, ids@),
        decreases events@.len() - i,
    {
        let e = events[i];
        let keep = e.document_generation() == generation && contains_id(ids, e.target());
        proof {
            reveal(Seq::filter);
            assert(events@.take(i + 1).drop_last() =~= events@.take(i as int));
            assert(events@.take(i + 1).last() == e);
        }
        if keep {
            out.push(e);
        } else {
            stale = true;
        }
        i = i + 1;
    }
    proof {
        assert(events@.take(events@.len() as int) =~= events@);
    }
    (out, stale)
}

fn filter_actions(
    actions: &Vec<PlatformAccessibilityActionRequest>,
    generation: u64,
    revision: u64,
    ids: &Vec<PlatformAccessibilityNodeId>,
) -> (r: Vec<PlatformAccessibilityActionRequest>)
    ensures
        r@ == actions@.filter(action_filter(generation, revision, ids@)),
{
    let ghost pred = action_filter(generation, revision, ids@);
    let mut out: Vec<PlatformAccessibilityActionRequest> = Vec::new();
    let mut i: usize = 0;
    proof {
        reveal(Seq::filter);
        assert(actions@.take(0) =~= Seq::<PlatformAccessibilityActionRequest>::empty());
    }
    while i < actions.len()
        invariant
            0 <= i <= actions@.len(),
            pred == action_filter(generation, revision, ids@),
            out@ == actions@.take(i as int).filter(pred),
        decreases actions@.len() - i,
    {
        let a = actions[i];
        let keep = a.document_generation() == generation && a.geometry_revision() == revision
            && contains_id(ids, a.target());
        proof {
            reveal(Seq::filter);
            assert(actions@.take(i + 1).drop_last() =~= actions@.take(i as int));
            assert(actions@.take(i + 1).last() == a);
        }
        if keep {
            out.push(a);
        }
        i = i + 1;
    }
    proof {
        assert(actions@.take(actions@.len() as int) =~= actions@);
    }
    out
}


impl WindowsAccessibilityBridge {
    /// What `replace_snapshot` promises when it succeeds.
    pub open spec fn is_replacement(
        self,
        before: Self,
        ids: Seq<PlatformAccessibilityNodeId>,
        root: PlatformAccessibilityNodeId,
        generation: u64,
        revision: u64,
        report: PlatformAccessibilitySnapshotReport,
    ) -> bool {
        let keep = !before.spec_scope_changes(root.spec_scope());
        let retained = if keep {
            count_present(ids, before.spec_providers())
        } else {
            0
        };
        let fresh = ids.len() - retained;
        &&& report.retained_providers == retained
        &&& report.created_providers == fresh
        &&& report.retired_providers == (if before.spec_provider_count() >= retained {
            before.spec_provider_count() - retained
        } else {
            0
        })
        &&& self.spec_has_snapshot()
        &&& self.spec_scope() == root.spec_scope()
        &&& self.spec_generation() == generation
        &&& self.spec_revision() == revision
        &&& self.spec_root() == root
        &&& self.spec_nodes() == ids
        &&& self.spec_provider_count() == ids.len()
        &&& forall|x: PlatformAccessibilityNodeId| #[trigger]
            self.spec_providers().contains_key(x) <==> ids.contains(x)
        &&& forall|x: PlatformAccessibilityNodeId|
            ids.contains(x) ==> if keep && before.spec_providers().contains_key(x) {
                #[trigger] self.spec_providers()[x] == before.spec_providers()[x]
            } else {
                before.spec_next_provider() <= self.spec_providers()[x] < self.spec_next_provider()
            }
        &&& self.spec_next_provider() == before.spec_next_provider() + fresh
        &&& !keep ==> self.spec_pending().len() == 0 && self.spec_actions().len() == 0
        &&& keep ==> self.spec_actions() == before.spec_actions().filter(
            action_filter(generation, revision, ids),
        )
        &&& keep ==> if exists|i: int|
            0 <= i < before.spec_pending().len() && !event_applies(
                #[trigger] before.spec_pending()[i],
                generation,
                ids,
            ) {
            &&& self.spec_pending().len() == 1
            &&& self.spec_pending()[0].spec_target() == root
            &&& self.spec_pending()[0].spec_kind() == PlatformAccessibilityEventKind::TreeChanged
            &&& self.spec_pending()[0].spec_document_generation() == generation
        } else {
            self.spec_pending() == before.spec_pending()
        }
        &&& self.spec_last_native_error() == before.spec_last_native_error()
        &&& self.spec_limits() == before.spec_limits()
    }

    /// Replaces the snapshot. Nodes that stay (in the same scope) keep their
    /// provider serials, new nodes get fresh ones, absent nodes lose theirs;
    /// queued events and actions that no longer apply are dropped, and stale
    /// events are coalesced into one tree change of the new root. Refused,
    /// with nothing changed, with `CapacityExceeded` when the snapshot has
    /// more nodes than providers may exist or fresh serials would pass the
    /// largest serial, and with `InvalidSnapshot` when its identities repeat,
    /// miss the root or leave the root's scope.
    pub fn replace_snapshot(&mut self, snapshot: &PlatformAccessibilitySnapshot) -> (r: Result<
        PlatformAccessibilitySnapshotReport,
        PlatformAccessibilityError,
    >)
        requires
            old(self).wf(),
        ensures
            final(self).wf(),
            r is Err ==> *final(self) == *old(self),
            ({
                let ids = snapshot_ids(snapshot.spec_nodes());
                let root = snapshot.spec_root();
                let keep = !old(self).spec_scope_changes(root.spec_scope());
                let fresh = ids.len() - (if keep {
                    count_present(ids, old(self).spec_providers())
                } else {
                    0
                });
                &&& ids.len() > old(self).spec_limits().spec_max_providers() ==> (r matches Err(e)
                    && e.spec_kind() == PlatformAccessibilityErrorKind::CapacityExceeded)
                &&& ids.len() <= old(self).spec_limits().spec_max_providers()
                    && !identities_consistent(ids, root) ==> (r matches Err(e) && e.spec_kind()
                    == PlatformAccessibilityErrorKind::InvalidSnapshot)
                &&& ids.len() <= old(self).spec_limits().spec_max_providers()
                    && identities_consistent(ids, root) ==> ((r is Err) <==> (fresh > 0
                    && old(self).spec_next_provider() + fresh > MAX_WINDOWS_ACCESSIBILITY_PROVIDER_SERIAL
                    + 1)) && (r matches Err(e) ==> e.spec_kind()
                    == PlatformAccessibilityErrorKind::CapacityExceeded)
                &&& r matches Ok(report) ==> final(self).is_replacement(
                    *old(self),
                    ids,
                    root,
                    snapshot.spec_document_generation(),
                    snapshot.spec_geometry_revision(),
                    report,
                )
            }),
    {
        let nodes = snapshot.nodes();
        if nodes.len() > self.limits.max_providers {
            return Err(capacity_exceeded());
        }
        let ids = collect_ids(nodes);
        let root = snapshot.root();
        let scope = snapshot.scope();
        if has_duplicate(&ids) || !contains_id(&ids, root) {
            return Err(invalid_snapshot());
        }
        let mut i: usize = 0;
        while i < ids.len()
            invariant
                0 <= i <= ids@.len(),
                scope == root.spec_scope(),
                root == snapshot.spec_root(),
                ids@ == snapshot_ids(snapshot.spec_nodes()),
                ids@.len() <= self.limits.spec_max_providers(),
                *self == *old(self),
                old(self).wf(),
                forall|k: int| 0 <= k < i ==> (#[trigger] ids@[k]).spec_scope() == scope,
            decreases ids@.len() - i,
        {
            if ids[i].scope() != scope {
                return Err(invalid_snapshot());
            }
            i = i + 1;
        }
        let keep = match &self.current {
            Some(current) => current.scope == scope,
            None => true,
        };
        let (entries, next, retained) = self.plan_providers(&ids, keep)?;
        let generation = snapshot.document_generation();
        let revision = snapshot.geometry_revision();
        let created = ids.len() - retained;
        let retired = if self.providers.len() >= retained {
            self.providers.len() - retained
        } else {
            0
        };
        if keep {
            let (kept_events, stale) = filter_events(&self.pending_events, generation, &ids);
            if stale {
                let mut coalesced: Vec<PlatformAccessibilityEvent> = Vec::new();
                coalesced.push(
                    PlatformAccessibilityEvent::new(
                        root,
                        PlatformAccessibilityEventKind::TreeChanged,
                        generation,
                    ),
                );
                self.pending_events = coalesced;
            }
            self.action_requests = filter_actions(&self.action_requests, generation, revision, &ids);
        } else {
            self.pending_events = Vec::new();
            self.action_requests = Vec::new();
        }
        let ghost before_providers = self.providers@;
        self.providers = entries;
        self.next_provider = next;
        self.current = Some(
            SnapshotIdentity {
                scope,
                document_generation: generation,
                geometry_revision: revision,
                root,
                nodes: ids,
            },
        );
        proof {
            let e = self.providers@;
            assert forall|x: PlatformAccessibilityNodeId| #[trigger]
                self.spec_providers().contains_key(x) <==> self.spec_nodes().contains(x) by {
                if key_at(e, entry_node(), x) {
                    let j = choose|j: int| 0 <= j < e.len() && entry_node()(e[j]) == x;
                    assert(self.spec_nodes().contains(e[j].node));
                }
            }
            assert forall|x: PlatformAccessibilityNodeId|
                self.spec_nodes().contains(x) implies #[trigger] self.spec_providers()[x] == self.spec_providers()[x]
                && (exists|j: int| 0 <= j < e.len() && e[j].node == x && self.spec_providers()[x] == e[j].serial) by {
                assert(key_at(e, entry_node(), x));
                let j = choose|j: int| 0 <= j < e.len() && entry_node()(e[j]) == x;
                lemma_keyed_map_at(e, entry_node(), entry_serial(), j);
            }
        }
        Ok(
            PlatformAccessibilitySnapshotReport {
                retained_providers: retained,
                created_providers: created,
                retired_providers: retired,
            },
        )
    }
}


/// The UI Automation event a platform event is raised as.
#[derive(Clone, Copy, Debug, PartialEq, Eq, Structural)]
pub enum WindowsAccessibilityNativeEventKind {
    FocusChanged,
    Invoked,
    StateChanged,
    NameChanged,
    ValueChanged,
    BoundsChanged,
    TreeChanged,
}

/// The native event for a platform event kind, one for one.
pub open spec fn spec_native_event_kind(kind: PlatformAccessibilityEventKind) -> WindowsAccessibilityNativeEventKind {
    match kind {
        PlatformAccessibilityEventKind::FocusChanged => WindowsAccessibilityNativeEventKind::FocusChanged,
        PlatformAccessibilityEventKind::Invoked => WindowsAccessibilityNativeEventKind::Invoked,
        PlatformAccessibilityEventKind::StateChanged => WindowsAccessibilityNativeEventKind::StateChanged,
        PlatformAccessibilityEventKind::NameChanged => WindowsAccessibilityNativeEventKind::NameChanged,
        PlatformAccessibilityEventKind::ValueChanged => WindowsAccessibilityNativeEventKind::ValueChanged,
        PlatformAccessibilityEventKind::BoundsChanged => WindowsAccessibilityNativeEventKind::BoundsChanged,
        PlatformAccessibilityEventKind::TreeChanged => WindowsAccessibilityNativeEventKind::TreeChanged,
    }
}

/// The native event for a platform event kind, one for one.
pub fn native_event_kind(kind: PlatformAccessibilityEventKind) -> (r: WindowsAccessibilityNativeEventKind)
    ensures
        r == spec_native_event_kind(kind),
        r == match kind {
            PlatformAccessibilityEventKind::FocusChanged => WindowsAccessibilityNativeEventKind::FocusChanged,
            PlatformAccessibilityEventKind::Invoked => WindowsAccessibilityNativeEventKind::Invoked,
            PlatformAccessibilityEventKind::StateChanged => WindowsAccessibilityNativeEventKind::StateChanged,
            PlatformAccessibilityEventKind::NameChanged => WindowsAccessibilityNativeEventKind::NameChanged,
            PlatformAccessibilityEventKind::ValueChanged => WindowsAccessibilityNativeEventKind::ValueChanged,
            PlatformAccessibilityEventKind::BoundsChanged => WindowsAccessibilityNativeEventKind::BoundsChanged,
            PlatformAccessibilityEventKind::TreeChanged => WindowsAccessibilityNativeEventKind::TreeChanged,
        },
{
    match kind {
        PlatformAccessibilityEventKind::FocusChanged => WindowsAccessibilityNativeEventKind::FocusChanged,
        PlatformAccessibilityEventKind::Invoked => WindowsAccessibilityNativeEventKind::Invoked,
        PlatformAccessibilityEventKind::StateChanged => WindowsAccessibilityNativeEventKind::StateChanged,
        PlatformAccessibilityEventKind::NameChanged => WindowsAccessibilityNativeEventKind::NameChanged,
        PlatformAccessibilityEventKind::ValueChanged => WindowsAccessibilityNativeEventKind::ValueChanged,
        PlatformAccessibilityEventKind::BoundsChanged => WindowsAccessibilityNativeEventKind::BoundsChanged,
        PlatformAccessibilityEventKind::TreeChanged => WindowsAccessibilityNativeEventKind::TreeChanged,
    }
}

impl WindowsAccessibilityBridge {
    /// Accepts an action that the native layer reports for a provider. It
    /// reaches the engine's queue only when the provider stands for a node of
    /// the current snapshot and the generation and revision are current;
    /// otherwise it is refused with `StaleCorrelation`. A full queue refuses
    /// it with `CapacityExceeded`. A refusal changes nothing.
    pub fn accept_native_action_callback(
        &mut self,
        provider_serial: u64,
        document_generation: u64,
        geometry_revision: u64,
        action: PlatformAccessibilityAction,
    ) -> (r: Result<(), PlatformAccessibilityError>)
        requires
            old(self).wf(),
        ensures
            final(self).wf(),
            ({
                let current = old(self).spec_has_snapshot() && exists|x: PlatformAccessibilityNodeId|
                    #[trigger] old(self).spec_providers().contains_key(x)
                        && old(self).spec_providers()[x] == provider_serial
                        && old(self).spec_nodes().contains(x)
                        && old(self).spec_generation() == document_generation
                        && old(self).spec_revision() == geometry_revision;
                &&& !current ==> (r matches Err(e) && e.spec_kind()
                    == PlatformAccessibilityErrorKind::StaleCorrelation)
                &&& current && old(self).spec_actions().len() >= old(self).spec_limits().spec_max_action_requests()
                    ==> (r matches Err(e) && e.spec_kind() == PlatformAccessibilityErrorKind::CapacityExceeded)
                &&& current && old(self).spec_actions().len() < old(self).spec_limits().spec_max_action_requests()
                    ==> r is Ok
                &&& r is Err ==> *final(self) == *old(self)
                &&& r is Ok ==> current && exists|x: PlatformAccessibilityNodeId|
                    #[trigger] old(self).spec_providers().contains_key(x)
                        && old(self).spec_providers()[x] == provider_serial
                        && final(self).spec_actions() == old(self).spec_actions().push(
                        PlatformAccessibilityActionRequest::spec_make(
                            x,
                            action,
                            document_generation,
                            geometry_revision,
                        ),
                    )
                &&& r is Ok ==> final(self).spec_pending() == old(self).spec_pending()
                    && final(self).spec_providers() == old(self).spec_providers()
            }),
    {
        let found = if provider_serial == 0 {
            None
        } else {
            self.find_serial(provider_serial)
        };
        let j = match found {
            Some(j) => j,
            None => {
                proof {
                    assert forall|x: PlatformAccessibilityNodeId|
                        #[trigger] self.spec_providers().contains_key(x) implies self.spec_providers()[x] != provider_serial by {
                        let m = choose|m: int| 0 <= m < self.providers@.len() && entry_node()(self.providers@[m]) == x;
                        lemma_keyed_map_at(self.providers@, entry_node(), entry_serial(), m);
                    }
                }
                return Err(stale_correlation());
            },
        };
        let target = self.providers[j].node;
        proof {
            lemma_keyed_map_at(self.providers@, entry_node(), entry_serial(), j as int);
            assert forall|x: PlatformAccessibilityNodeId|
                #[trigger] self.spec_providers().contains_key(x) && self.spec_providers()[x] == provider_serial implies x == target by {
                let m = choose|m: int| 0 <= m < self.providers@.len() && entry_node()(self.providers@[m]) == x;
                lemma_keyed_map_at(self.providers@, entry_node(), entry_serial(), m);
            }
        }
        let fits = match &self.current {
            None => false,
            Some(current) => current.document_generation == document_generation
                && current.geometry_revision == geometry_revision && contains_id(&current.nodes, target),
        };
        if !fits {
            return Err(stale_correlation());
        }
        proof {
            assert(self.spec_providers().contains_key(target) && self.spec_providers()[target] == provider_serial
                && self.spec_nodes().contains(target));
        }
        if self.action_requests.len() >= self.limits.max_action_requests {
            return Err(capacity_exceeded());
        }
        let request = PlatformAccessibilityActionRequest::new(target, action, document_generation, geometry_revision);
        self.action_requests.push(request);
        proof {
            assert(old(self).spec_providers().contains_key(target) && old(self).spec_providers()[target] == provider_serial
                && self.spec_actions() == old(self).spec_actions().push(PlatformAccessibilityActionRequest::spec_make(
                target, action, document_generation, geometry_revision)));
        }
        Ok(())
    }

    /// Hands the oldest action to the engine.
    pub fn next_action_request(&mut self) -> (r: Option<PlatformAccessibilityActionRequest>)
        requires
            old(self).wf(),
        ensures
            final(self).wf(),
            old(self).spec_actions().len() == 0 ==> r is None && *final(self) == *old(self),
            old(self).spec_actions().len() > 0 ==> r == Some(old(self).spec_actions()[0])
                && final(self).spec_actions() == old(self).spec_actions().drop_first(),
            final(self).spec_pending() == old(self).spec_pending(),
            final(self).spec_providers() == old(self).spec_providers(),
    {
        if self.action_requests.len() == 0 {
            return None;
        }
        let first = self.action_requests.remove(0);
        assert(self.action_requests@ =~= old(self).spec_actions().drop_first());
        Some(first)
    }

    /// Checks an event against the current snapshot and finds the provider
    /// to raise it on; a target that is not a current node with a provider,
    /// or an old generation, is refused with `StaleCorrelation`.
    pub fn event_provider(&self, event: PlatformAccessibilityEvent) -> (r: Result<u64, PlatformAccessibilityError>)
        requires
            self.wf(),
        ensures
            ({
                let t = event.spec_target();
                let ok = self.spec_has_snapshot() && t.spec_scope() == self.spec_scope()
                    && event.spec_document_generation() == self.spec_generation()
                    && self.spec_nodes().contains(t) && self.spec_providers().contains_key(t);
                &&& ok ==> r == Ok::<u64, PlatformAccessibilityError>(self.spec_providers()[t])
                &&& !ok ==> (r matches Err(e) && e.spec_kind() == PlatformAccessibilityErrorKind::StaleCorrelation)
            }),
    {
        let fits = match &self.current {
            None => false,
            Some(current) => event.target().scope() == current.scope && event.document_generation()
                == current.document_generation && contains_id(&current.nodes, event.target()),
        };
        if !fits {
            return Err(stale_correlation());
        }
        match self.provider_serial_for_node(event.target()) {
            Some(serial) => Ok(serial),
            None => Err(stale_correlation()),
        }
    }

    /// Records what the native layer did with a published event: a
    /// delivered event clears the last native error; a failed one records
    /// the error and is queued for retry. When the queue is full it is
    /// replaced by one tree change of the current root.
    pub fn record_publish(
        &mut self,
        event: PlatformAccessibilityEvent,
        failure: Option<WindowsAccessibilityNativeErrorKind>,
    ) -> (r: PlatformAccessibilityEventDisposition)
        requires
            old(self).wf(),
        ensures
            final(self).wf(),
            final(self).spec_providers() == old(self).spec_providers(),
            final(self).spec_actions() == old(self).spec_actions(),
            failure is None ==> r == PlatformAccessibilityEventDisposition::Delivered
                && final(self).spec_last_native_error() is None && final(self).spec_pending()
                == old(self).spec_pending(),
            failure is Some ==> r == PlatformAccessibilityEventDisposition::Queued
                && final(self).spec_last_native_error() == failure && if old(self).spec_pending().len()
                < old(self).spec_limits().spec_max_pending_events() {
                final(self).spec_pending() == old(self).spec_pending().push(event)
            } else if old(self).spec_has_snapshot() {
                &&& final(self).spec_pending().len() == 1
                &&& final(self).spec_pending()[0].spec_target() == old(self).spec_root()
                &&& final(self).spec_pending()[0].spec_kind() == PlatformAccessibilityEventKind::TreeChanged
                &&& final(self).spec_pending()[0].spec_document_generation() == old(self).spec_generation()
            } else {
                final(self).spec_pending().len() == 0
            },
    {
        match failure {
            None => {
                self.last_native_error = None;
                PlatformAccessibilityEventDisposition::Delivered
            },
            Some(error) => {
                self.last_native_error = Some(error);
                self.queue_event_conservatively(event);
                PlatformAccessibilityEventDisposition::Queued
            },
        }
    }

    fn queue_event_conservatively(&mut self, event: PlatformAccessibilityEvent)
        requires
            old(self).wf(),
        ensures
            final(self).wf(),
            final(self).spec_providers() == old(self).spec_providers(),
            final(self).spec_actions() == old(self).spec_actions(),
            final(self).spec_last_native_error() == old(self).spec_last_native_error(),
            if old(self).spec_pending().len() < old(self).spec_limits().spec_max_pending_events() {
                final(self).spec_pending() == old(self).spec_pending().push(event)
            } else if old(self).spec_has_snapshot() {
                &&& final(self).spec_pending().len() == 1
                &&& final(self).spec_pending()[0].spec_target() == old(self).spec_root()
                &&& final(self).spec_pending()[0].spec_kind() == PlatformAccessibilityEventKind::TreeChanged
                &&& final(self).spec_pending()[0].spec_document_generation() == old(self).spec_generation()
            } else {
                final(self).spec_pending().len() == 0
            },
    {
        if self.pending_events.len() < self.limits.max_pending_events {
            self.pending_events.push(event);
            return;
        }
        let replacement = match &self.current {
            None => None,
            Some(current) => Some(
                PlatformAccessibilityEvent::new(
                    current.root,
                    PlatformAccessibilityEventKind::TreeChanged,
                    current.document_generation,
                ),
            ),
        };
        let mut pending: Vec<PlatformAccessibilityEvent> = Vec::new();
        if let Some(e) = replacement {
            pending.push(e);
        }
        self.pending_events = pending;
    }

    /// The next queued event to hand to the native layer: events that no
    /// longer apply, or whose target has no provider, are dropped from the
    /// front first. `None` when nothing is left to deliver.
    pub fn next_delivery(&mut self) -> (r: Option<(u64, WindowsAccessibilityNativeEventKind)>)
        requires
            old(self).wf(),
        ensures
            final(self).wf(),
            final(self).spec_providers() == old(self).spec_providers(),
            final(self).spec_actions() == old(self).spec_actions(),
            final(self).spec_last_native_error() == old(self).spec_last_native_error(),
            final(self).spec_pending().len() <= old(self).spec_pending().len(),
            old(self).spec_pending().len() > 0 ==> final(self).spec_pending() == old(self).spec_pending().skip(
                old(self).spec_pending().len() - final(self).spec_pending().len(),
            ),
            r matches Some((serial, kind)) ==> {
                let e = final(self).spec_pending()[0];
                &&& final(self).spec_pending().len() > 0
                &&& final(self).spec_has_snapshot()
                &&& e.spec_document_generation() == final(self).spec_generation()
                &&& final(self).spec_nodes().contains(e.spec_target())
                &&& final(self).spec_providers().contains_key(e.spec_target())
                &&& serial == final(self).spec_providers()[e.spec_target()]
                &&& kind == spec_native_event_kind(e.spec_kind())
            },
            r is None ==> final(self).spec_pending().len() == 0,
    {
        loop
            invariant
                self.wf(),
                self.providers@ == old(self).providers@,
                self.current == old(self).current,
                self.action_requests@ == old(self).action_requests@,
                self.last_native_error == old(self).last_native_error,
                self.limits == old(self).limits,
                self.next_provider == old(self).next_provider,
                self.pending_events@.len() <= old(self).pending_events@.len(),
                old(self).pending_events@.len() > 0 ==> self.pending_events@ == old(self).pending_events@.skip(
                    old(self).pending_events@.len() - self.pending_events@.len(),
                ),
            decreases self.pending_events@.len(),
        {
            if self.pending_events.len() == 0 {
                return None;
            }
            let event = self.pending_events[0];
            let deliverable = match &self.current {
                None => false,
                Some(current) => event.document_generation() == current.document_generation
                    && contains_id(&current.nodes, event.target()),
            };
            if deliverable {
                if let Some(serial) = self.provider_serial_for_node(event.target()) {
                    return Some((serial, native_event_kind(event.kind())));
                }
            }
            let ghost before = self.pending_events@;
            self.pending_events.remove(0);
            proof {
                assert(self.pending_events@ =~= before.drop_first());
                assert(old(self).pending_events@.skip(old(self).pending_events@.len() - self.pending_events@.len())
                    =~= before.drop_first());
            }
        }
    }

    /// The native layer delivered the event `next_delivery` gave: it leaves
    /// the queue and the last native error is cleared.
    pub fn delivery_succeeded(&mut self)
        requires
            old(self).wf(),
        ensures
            final(self).wf(),
            final(self).spec_last_native_error() is None,
            final(self).spec_pending() == (if old(self).spec_pending().len() > 0 {
                old(self).spec_pending().drop_first()
            } else {
                old(self).spec_pending()
            }),
            final(self).spec_providers() == old(self).spec_providers(),
            final(self).spec_actions() == old(self).spec_actions(),
    {
        if self.pending_events.len() > 0 {
            self.pending_events.remove(0);
            assert(self.pending_events@ =~= old(self).spec_pending().drop_first());
        }
        self.last_native_error = None;
    }

    /// The native layer refused the event `next_delivery` gave: it stays
    /// queued and the error is recorded.
    pub fn delivery_failed(&mut self, error: WindowsAccessibilityNativeErrorKind)
        requires
            old(self).wf(),
        ensures
            final(self).wf(),
            final(self).spec_last_native_error() == Some(error),
            final(self).spec_pending() == old(self).spec_pending(),
            final(self).spec_providers() == old(self).spec_providers(),
            final(self).spec_actions() == old(self).spec_actions(),
    {
        self.last_native_error = Some(error);
    }
}


/// A provider serial never changes hands: after a snapshot replacement,
/// a serial that stood for one node before stands for no other node.
pub proof fn lemma_serials_never_change_hands(
    before: WindowsAccessibilityBridge,
    after: WindowsAccessibilityBridge,
    ids: Seq<PlatformAccessibilityNodeId>,
    root: PlatformAccessibilityNodeId,
    generation: u64,
    revision: u64,
    report: PlatformAccessibilitySnapshotReport,
    old_node: PlatformAccessibilityNodeId,
    new_node: PlatformAccessibilityNodeId,
)
    requires
        before.wf(),
        after.is_replacement(before, ids, root, generation, revision, report),
        before.spec_providers().contains_key(old_node),
        after.spec_providers().contains_key(new_node),
        before.spec_providers()[old_node] == after.spec_providers()[new_node],
    ensures
        old_node == new_node,
{
    let s = before.providers@;
    let i = choose|i: int| 0 <= i < s.len() && entry_node()(s[i]) == old_node;
    lemma_keyed_map_at(s, entry_node(), entry_serial(), i);
    assert(ids.contains(new_node));
    if before.spec_providers().contains_key(new_node) && !before.spec_scope_changes(root.spec_scope()) {
        let j = choose|j: int| 0 <= j < s.len() && entry_node()(s[j]) == new_node;
        lemma_keyed_map_at(s, entry_node(), entry_serial(), j);
    }
}

} // verus!
