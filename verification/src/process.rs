//! Process identities and the assignment of sites to site processes.
//!
//! Host, site and storage processes draw their identities from one
//! allocator, so no two processes of a topology ever share an identity, and
//! a retired identity is never handed out again.
use crate::keyed::{
    index_of_key, key_at, keyed_map, keys_distinct, lemma_index_of_key, lemma_keyed_map_at,
    lemma_keyed_map_insert, lemma_keyed_map_remove,
};
use crate::origin::{SiteIdentity, SiteModel};
use crate::text::{decimal, push_decimal_u64};
use vstd::prelude::*;

verus! {

pub const DEFAULT_MAX_SITE_PROCESSES: usize = 64;

/// The identity of the host process.
#[derive(Clone, Copy, Debug, PartialEq, Eq, Hash, Structural)]
pub struct HostProcessId {
    value: u64,
}

/// The identity of a site process.
#[derive(Clone, Copy, Debug, PartialEq, Eq, Hash, Structural)]
pub struct SiteProcessId {
    value: u64,
}

/// The identity of the storage process.
#[derive(Clone, Copy, Debug, PartialEq, Eq, Hash, Structural)]
pub struct StorageProcessId {
    value: u64,
}

impl HostProcessId {
    pub closed spec fn spec_get(self) -> u64 {
        self.value
    }

    /// The identity written as `host:<value>`.
    pub fn to_string(&self) -> (r: String)
        ensures
            r@ == "host:"@ + decimal(self.spec_get() as nat),
    {
        let mut out = "host:".to_owned();
        push_decimal_u64(&mut out, self.value);
        out
    }

    pub fn get(self) -> (r: u64)
        ensures
            r == self.spec_get(),
    {
        self.value
    }
}

impl SiteProcessId {
    pub closed spec fn spec_get(self) -> u64 {
        self.value
    }

    /// The identity written as `site:<value>`.
    pub fn to_string(&self) -> (r: String)
        ensures
            r@ == "site:"@ + decimal(self.spec_get() as nat),
    {
        let mut out = "site:".to_owned();
        push_decimal_u64(&mut out, self.value);
        out
    }

    /// The site process identity with this value; `None` for zero, which no
    /// process has.
    pub fn from_raw(value: u64) -> (r: Option<Self>)
        ensures
            value == 0 ==> r is None,
            value != 0 ==> (r matches Some(p) && p.spec_get() == value),
    {
        if value == 0 {
            None
        } else {
            Some(SiteProcessId { value })
        }
    }

    pub fn get(self) -> (r: u64)
        ensures
            r == self.spec_get(),
    {
        self.value
    }
}

impl StorageProcessId {
    pub closed spec fn spec_get(self) -> u64 {
        self.value
    }

    pub fn get(self) -> (r: u64)
        ensures
            r == self.spec_get(),
    {
        self.value
    }
}

#[derive(Clone, Copy, Debug, PartialEq, Eq, Structural)]
pub enum ProcessTopologyErrorKind {
    InvalidProcessLimit,
    ProcessLimitExceeded,
    IdentitySpaceExhausted,
    UnknownSiteProcess,
}

#[derive(Clone, Debug, PartialEq, Eq)]
pub struct ProcessTopologyError {
    pub kind: ProcessTopologyErrorKind,
    pub message: String,
}

impl ProcessTopologyError {
    fn new(kind: ProcessTopologyErrorKind, message: &str) -> (r: Self)
        ensures
            r.kind == kind,
            r.message@ == message@,
    {
        ProcessTopologyError { kind, message: message.to_owned() }
    }

    /// The error's message.
    pub fn to_string(&self) -> (r: String)
        ensures
            r@ == self.message@,
    {
        self.message.clone()
    }
}

/// A raw process identity, never zero.
#[derive(Clone, Copy, Debug, PartialEq, Eq, Hash, Structural)]
pub struct ProcessId {
    value: u64,
}

impl ProcessId {
    pub closed spec fn spec_get(self) -> u64 {
        self.value
    }

    pub fn get(self) -> (r: u64)
        ensures
            r == self.spec_get(),
    {
        self.value
    }
}

/// Hands out process identities in increasing order, starting at one, and
/// fails for good once the last `u64` value has been handed out.
#[derive(Debug)]
pub struct ProcessIdAllocator {
    next: Option<u64>,
}

impl ProcessIdAllocator {
    #[verifier::type_invariant]
    spec fn next_is_nonzero(self) -> bool {
        self.next matches Some(n) ==> n != 0
    }

    /// The identity the allocator hands out next, if any is left.
    pub closed spec fn spec_next(&self) -> Option<u64> {
        self.next
    }

    /// An allocator whose first identity is one.
    pub fn new() -> (r: Self)
        ensures
            r.spec_next() == Some(1u64),
    {
        ProcessIdAllocator { next: Some(1) }
    }

    /// An allocator whose next identity is `next`; `None` when `next` is zero.
    pub fn starting_at(next: u64) -> (r: Option<Self>)
        ensures
            next == 0 ==> r is None,
            next != 0 ==> (r matches Some(a) && a.spec_next() == Some(next)),
    {
        if next == 0 {
            None
        } else {
            Some(ProcessIdAllocator { next: Some(next) })
        }
    }

    /// Hands out the next identity; after `u64::MAX` nothing is left and
    /// every later call fails with `IdentitySpaceExhausted`.
    pub fn allocate(&mut self) -> (r: Result<ProcessId, ProcessTopologyError>)
        ensures
            match old(self).spec_next() {
                Some(n) => (r matches Ok(id) && id.spec_get() == n && n != 0) && final(self).spec_next() == (
                if n == u64::MAX {
                    None::<u64>
                } else {
                    Some((n + 1) as u64)
                }),
                None => (r matches Err(e) && e.kind == ProcessTopologyErrorKind::IdentitySpaceExhausted)
                    && final(self).spec_next() is None,
            },
    {
        proof {
            use_type_invariant(&*self);
        }
        match self.next {
            None => Err(
                ProcessTopologyError::new(
                    ProcessTopologyErrorKind::IdentitySpaceExhausted,
                    "process identity space is exhausted",
                ),
            ),
            Some(n) => {
                self.next = if n == u64::MAX {
                    None
                } else {
                    Some(n + 1)
                };
                Ok(ProcessId { value: n })
            },
        }
    }
}


#[derive(Clone, Copy, Debug, PartialEq, Eq, Structural)]
pub enum SiteAssignmentKind {
    Existing,
    Created,
}

/// The process a site is assigned to, and whether it was just created.
#[derive(Clone, Copy, Debug, PartialEq, Eq, Structural)]
pub struct SiteAssignment {
    process: SiteProcessId,
    kind: SiteAssignmentKind,
}

impl SiteAssignment {
    pub closed spec fn spec_process(self) -> SiteProcessId {
        self.process
    }

    pub closed spec fn spec_kind(self) -> SiteAssignmentKind {
        self.kind
    }

    pub fn process(self) -> (r: SiteProcessId)
        ensures
            r == self.spec_process(),
    {
        self.process
    }

    pub fn kind(self) -> (r: SiteAssignmentKind)
        ensures
            r == self.spec_kind(),
    {
        self.kind
    }

    pub fn is_new(self) -> (r: bool)
        ensures
            r == (self.spec_kind() == SiteAssignmentKind::Created),
    {
        match self.kind {
            SiteAssignmentKind::Created => true,
            SiteAssignmentKind::Existing => false,
        }
    }
}

/// The storage process and whether it was just created.
#[derive(Clone, Copy, Debug, PartialEq, Eq, Structural)]
pub struct StorageProcessAssignment {
    process: StorageProcessId,
    kind: SiteAssignmentKind,
}

impl StorageProcessAssignment {
    pub closed spec fn spec_process(self) -> StorageProcessId {
        self.process
    }

    pub closed spec fn spec_kind(self) -> SiteAssignmentKind {
        self.kind
    }

    pub fn process(self) -> (r: StorageProcessId)
        ensures
            r == self.spec_process(),
    {
        self.process
    }

    pub fn kind(self) -> (r: SiteAssignmentKind)
        ensures
            r == self.spec_kind(),
    {
        self.kind
    }
}

/// A site and the process it is assigned to.
#[derive(Debug)]
struct Assignment {
    site: SiteIdentity,
    process: SiteProcessId,
}

spec fn assignment_site() -> spec_fn(Assignment) -> SiteModel {
    |a: Assignment| a.site@
}

spec fn assignment_process() -> spec_fn(Assignment) -> u64 {
    |a: Assignment| a.process.value
}

/// The host process and the site processes of one browser instance. Every
/// site gets a process of its own; sites never share one to stay within the
/// process budget.
#[derive(Debug)]
pub struct ProcessTopology {
    host: HostProcessId,
    max_site_processes: usize,
    allocator: ProcessIdAllocator,
    assignments: Vec<Assignment>,
    storage: Option<StorageProcessId>,
}

impl ProcessTopology {
    /// Every identity handed out so far is below the allocator's next one
    /// (or the allocator is spent), sites and processes are each assigned at
    /// most once, and the budget is respected.
    pub closed spec fn wf(&self) -> bool {
        &&& self.max_site_processes > 0
        &&& keys_distinct(self.assignments@, assignment_site())
        &&& keys_distinct(self.assignments@, assignment_process())
        &&& self.assignments@.len() <= self.max_site_processes
        &&& forall|i: int|
            0 <= i < self.assignments@.len() ==> self.issued(#[trigger] self.assignments@[i].process.value)
        &&& self.issued(self.host.value)
        &&& (self.storage matches Some(p) ==> self.issued(p.value))
        &&& forall|i: int|
            0 <= i < self.assignments@.len() ==> (#[trigger] self.assignments@[i]).process.value
                != self.host.value && (self.storage matches Some(p) ==> self.assignments@[i].process.value
                != p.value)
        &&& (self.storage matches Some(p) ==> p.value != self.host.value)
    }

    /// The identity was handed out by this topology's allocator.
    pub closed spec fn issued(&self, id: u64) -> bool {
        &&& id != 0
        &&& (self.allocator.spec_next() matches Some(n) ==> id < n)
    }

    /// The process each site is assigned to.
    pub closed spec fn spec_assignments(&self) -> Map<SiteModel, u64> {
        keyed_map(self.assignments@, assignment_site(), assignment_process())
    }

    /// The sites each process serves.
    pub closed spec fn spec_sites(&self) -> Map<u64, SiteModel> {
        keyed_map(self.assignments@, assignment_process(), assignment_site())
    }

    pub closed spec fn spec_host(&self) -> HostProcessId {
        self.host
    }

    pub closed spec fn spec_max_site_processes(&self) -> usize {
        self.max_site_processes
    }

    pub closed spec fn spec_active(&self) -> nat {
        self.assignments@.len()
    }

    pub closed spec fn spec_storage(&self) -> Option<StorageProcessId> {
        self.storage
    }

    /// The next identity the allocator hands out, if any is left.
    pub closed spec fn spec_next_id(&self) -> Option<u64> {
        self.allocator.spec_next()
    }

    /// A topology with host process one and no site processes; refused with
    /// `InvalidProcessLimit` for a zero budget.
    pub fn try_new(max_site_processes: usize) -> (r: Result<Self, ProcessTopologyError>)
        ensures
            (r is Err) <==> max_site_processes == 0,
            r matches Err(e) ==> e.kind == ProcessTopologyErrorKind::InvalidProcessLimit,
            r matches Ok(t) ==> {
                &&& t.wf()
                &&& t.spec_host().spec_get() == 1
                &&& t.spec_max_site_processes() == max_site_processes
                &&& t.spec_active() == 0
                &&& t.spec_assignments() == Map::<SiteModel, u64>::empty()
                &&& t.spec_storage() is None
                &&& t.spec_next_id() == Some(2u64)
            },
    {
        if max_site_processes == 0 {
            return Err(
                ProcessTopologyError::new(
                    ProcessTopologyErrorKind::InvalidProcessLimit,
                    "site process limit must be non-zero",
                ),
            );
        }
        let mut allocator = ProcessIdAllocator::new();
        let id = match allocator.allocate() {
            Ok(id) => id,
            Err(e) => {
                return Err(e);
            },
        };
        let t = ProcessTopology {
            host: HostProcessId { value: id.get() },
            max_site_processes,
            allocator,
            assignments: Vec::new(),
            storage: None,
        };
        assert(t.spec_assignments() =~= Map::empty());
        Ok(t)
    }

    pub fn with_default_limit() -> (r: Result<Self, ProcessTopologyError>)
        ensures
            r matches Ok(t) && t.wf() && t.spec_max_site_processes() == DEFAULT_MAX_SITE_PROCESSES
                && t.spec_active() == 0,
    {
        Self::try_new(DEFAULT_MAX_SITE_PROCESSES)
    }

    pub fn host_process(&self) -> (r: HostProcessId)
        ensures
            r == self.spec_host(),
    {
        self.host
    }

    pub fn max_site_processes(&self) -> (r: usize)
        ensures
            r == self.spec_max_site_processes(),
    {
        self.max_site_processes
    }

    pub fn active_site_processes(&self) -> (r: usize)
        ensures
            r == self.spec_active(),
    {
        self.assignments.len()
    }

    fn find_site(&self, site: &SiteIdentity) -> (r: Option<usize>)
        ensures
            match r {
                Some(i) => i < self.assignments@.len() && self.assignments@[i as int].site@ == site@,
                None => !key_at(self.assignments@, assignment_site(), site@),
            },
    {
        let mut i: usize = 0;
        while i < self.assignments.len()
            invariant
                0 <= i <= self.assignments@.len(),
                forall|j: int| 0 <= j < i ==> self.assignments@[j].site@ != site@,
            decreases self.assignments@.len() - i,
        {
            if self.assignments[i].site.same_site(site) {
                return Some(i);
            }
            i = i + 1;
        }
        None
    }

    fn find_process(&self, process: SiteProcessId) -> (r: Option<usize>)
        ensures
            match r {
                Some(i) => i < self.assignments@.len() && self.assignments@[i as int].process.value
                    == process.value,
                None => !key_at(self.assignments@, assignment_process(), process.value),
            },
    {
        let mut i: usize = 0;
        while i < self.assignments.len()
            invariant
                0 <= i <= self.assignments@.len(),
                forall|j: int| 0 <= j < i ==> self.assignments@[j].process.value != process.value,
            decreases self.assignments@.len() - i,
        {
            if self.assignments[i].process.value == process.value {
                return Some(i);
            }
            i = i + 1;
        }
        None
    }

    /// The process of a site: its existing one, or a new one with a fresh
    /// identity while the budget allows. A site beyond the budget is refused
    /// with `ProcessLimitExceeded` rather than share another site's process.
    pub fn assign_site(&mut self, site: SiteIdentity) -> (r: Result<SiteAssignment, ProcessTopologyError>)
        requires
            old(self).wf(),
        ensures
            final(self).wf(),
            final(self).spec_host() == old(self).spec_host(),
            final(self).spec_max_site_processes() == old(self).spec_max_site_processes(),
            final(self).spec_storage() == old(self).spec_storage(),
            old(self).spec_assignments().contains_key(site@) ==> (r matches Ok(a) && a.spec_kind()
                == SiteAssignmentKind::Existing && a.spec_process().spec_get()
                == old(self).spec_assignments()[site@] && *final(self) == *old(self)),
            r is Err ==> final(self).spec_sites() == old(self).spec_sites(),
            !old(self).spec_assignments().contains_key(site@) && old(self).spec_active()
                >= old(self).spec_max_site_processes() ==> (r matches Err(e) && e.kind
                == ProcessTopologyErrorKind::ProcessLimitExceeded && *final(self) == *old(self)),
            !old(self).spec_assignments().contains_key(site@) && old(self).spec_active()
                < old(self).spec_max_site_processes() ==> match old(self).spec_next_id() {
                Some(n) => r matches Ok(a) && a.spec_kind() == SiteAssignmentKind::Created
                    && a.spec_process().spec_get() == n && n != old(self).spec_host().spec_get()
                    && (old(self).spec_storage() matches Some(p) ==> n != p.spec_get())
                    && final(self).spec_assignments()
                    == old(self).spec_assignments().insert(site@, n) && !old(self).spec_sites().contains_key(n)
                    && final(self).spec_sites() == old(self).spec_sites().insert(n, site@)
                    && final(self).spec_active()
                    == old(self).spec_active() + 1,
                None => r matches Err(e) && e.kind == ProcessTopologyErrorKind::IdentitySpaceExhausted
                    && final(self).spec_assignments() == old(self).spec_assignments(),
            },
    {
        match self.find_site(&site) {
            Some(i) => {
                proof {
                    lemma_keyed_map_at(self.assignments@, assignment_site(), assignment_process(), i as int);
                }
                return Ok(SiteAssignment { process: self.assignments[i].process, kind: SiteAssignmentKind::Existing });
            },
            None => {},
        }
        if self.assignments.len() >= self.max_site_processes {
            return Err(
                ProcessTopologyError::new(
                    ProcessTopologyErrorKind::ProcessLimitExceeded,
                    "site process limit reached; cross-site process sharing is forbidden",
                ),
            );
        }
        let ghost before = *self;
        let id = match self.allocator.allocate() {
            Ok(id) => id,
            Err(e) => {
                return Err(e);
            },
        };
        let process = SiteProcessId { value: id.get() };
        let entry = Assignment { site, process };
        proof {
            let s = before.assignments@;
            assert(!key_at(s, assignment_process(), process.value)) by {
                if key_at(s, assignment_process(), process.value) {
                    let j = choose|j: int| 0 <= j < s.len() && assignment_process()(s[j]) == process.value;
                    assert(before.issued(s[j].process.value));
                }
            }
            lemma_keyed_map_insert(s, assignment_site(), assignment_process(), s.len() as int, entry);
            lemma_keyed_map_insert(s, assignment_process(), assignment_site(), s.len() as int, entry);
            assert(s.insert(s.len() as int, entry) =~= s.push(entry));
        }
        self.assignments.push(entry);
        Ok(SiteAssignment { process, kind: SiteAssignmentKind::Created })
    }

    /// The process a site is assigned to.
    pub fn process_for_site(&self, site: &SiteIdentity) -> (r: Option<SiteProcessId>)
        requires
            self.wf(),
        ensures
            match r {
                Some(p) => self.spec_assignments().contains_key(site@) && self.spec_assignments()[site@]
                    == p.spec_get(),
                None => !self.spec_assignments().contains_key(site@),
            },
    {
        match self.find_site(site) {
            Some(i) => {
                proof {
                    lemma_keyed_map_at(self.assignments@, assignment_site(), assignment_process(), i as int);
                }
                Some(self.assignments[i].process)
            },
            None => None,
        }
    }

    /// The site a process serves.
    pub fn site_for_process(&self, process: SiteProcessId) -> (r: Option<&SiteIdentity>)
        requires
            self.wf(),
        ensures
            match r {
                Some(s) => self.spec_sites().contains_key(process.spec_get()) && self.spec_sites()[process.spec_get()]
                    == s@,
                None => !self.spec_sites().contains_key(process.spec_get()),
            },
    {
        match self.find_process(process) {
            Some(i) => {
                proof {
                    lemma_keyed_map_at(self.assignments@, assignment_process(), assignment_site(), i as int);
                }
                Some(&self.assignments[i].site)
            },
            None => None,
        }
    }

    /// Retires a site process and returns the site it served; its identity
    /// is never handed out again. An unknown process is refused with
    /// `UnknownSiteProcess` and nothing changes.
    pub fn retire_site_process(&mut self, process: SiteProcessId) -> (r: Result<SiteIdentity, ProcessTopologyError>)
        requires
            old(self).wf(),
        ensures
            final(self).wf(),
            final(self).spec_next_id() == old(self).spec_next_id(),
            final(self).spec_host() == old(self).spec_host(),
            final(self).spec_storage() == old(self).spec_storage(),
            old(self).spec_sites().contains_key(process.spec_get()) ==> (r matches Ok(s) && s@
                == old(self).spec_sites()[process.spec_get()] && final(self).spec_assignments()
                == old(self).spec_assignments().remove(s@) && final(self).spec_active()
                == old(self).spec_active() - 1),
            !old(self).spec_sites().contains_key(process.spec_get()) ==> (r matches Err(e) && e.kind
                == ProcessTopologyErrorKind::UnknownSiteProcess && *final(self) == *old(self)),
    {
        match self.find_process(process) {
            None => Err(
                ProcessTopologyError::new(
                    ProcessTopologyErrorKind::UnknownSiteProcess,
                    "unknown site process",
                ),
            ),
            Some(i) => {
                let ghost s = self.assignments@;
                proof {
                    lemma_keyed_map_at(s, assignment_process(), assignment_site(), i as int);
                    lemma_keyed_map_remove(s, assignment_site(), assignment_process(), i as int);
                    lemma_keyed_map_remove(s, assignment_process(), assignment_site(), i as int);
                }
                let removed = self.assignments.remove(i);
                proof {
                    let t = self.assignments@;
                    assert forall|k: int| 0 <= k < t.len() implies self.issued(#[trigger] t[k].process.value) by {
                        if k < i {
                            assert(t[k] == s[k]);
                        } else {
                            assert(t[k] == s[k + 1]);
                        }
                    }
                    assert forall|k: int| 0 <= k < t.len() implies (#[trigger] t[k]).process.value
                        != self.host.value && (self.storage matches Some(p) ==> t[k].process.value
                        != p.value) by {
                        if k < i {
                            assert(t[k] == s[k]);
                        } else {
                            assert(t[k] == s[k + 1]);
                        }
                    }
                }
                Ok(removed.site)
            },
        }
    }

    /// The storage process: the existing one, or a new one with a fresh
    /// identity.
    pub fn ensure_storage_process(&mut self) -> (r: Result<StorageProcessAssignment, ProcessTopologyError>)
        requires
            old(self).wf(),
        ensures
            final(self).wf(),
            final(self).spec_assignments() == old(self).spec_assignments(),
            final(self).spec_host() == old(self).spec_host(),
            old(self).spec_storage() matches Some(p) ==> (r matches Ok(a) && a.spec_process() == p
                && a.spec_kind() == SiteAssignmentKind::Existing && *final(self) == *old(self)),
            old(self).spec_storage() is None ==> match old(self).spec_next_id() {
                Some(n) => r matches Ok(a) && a.spec_process().spec_get() == n && a.spec_kind()
                    == SiteAssignmentKind::Created && final(self).spec_storage() == Some(a.spec_process()),
                None => r matches Err(e) && e.kind == ProcessTopologyErrorKind::IdentitySpaceExhausted,
            },
    {
        if let Some(p) = self.storage {
            return Ok(StorageProcessAssignment { process: p, kind: SiteAssignmentKind::Existing });
        }
        let id = match self.allocator.allocate() {
            Ok(id) => id,
            Err(e) => {
                return Err(e);
            },
        };
        let process = StorageProcessId { value: id.get() };
        self.storage = Some(process);
        Ok(StorageProcessAssignment { process, kind: SiteAssignmentKind::Created })
    }
}

/// No two sites share a process: the process a site is assigned to serves
/// that site and no other.
pub proof fn lemma_sites_never_share(t: &ProcessTopology, a: SiteModel, b: SiteModel)
    requires
        t.wf(),
        t.spec_assignments().contains_key(a),
        t.spec_assignments().contains_key(b),
        a != b,
    ensures
        t.spec_assignments()[a] != t.spec_assignments()[b],
{
    let s = t.assignments@;
    let i = index_of_key(s, assignment_site(), a);
    let j = index_of_key(s, assignment_site(), b);
    lemma_index_of_key(s, assignment_site(), i);
    lemma_index_of_key(s, assignment_site(), j);
}

/// A site created after a retirement never gets the retired identity: every
/// identity still to come is above every identity handed out.
pub proof fn lemma_new_identity_is_fresh(t: &ProcessTopology, site: SiteModel)
    requires
        t.wf(),
        t.spec_assignments().contains_key(site),
        t.spec_next_id() is Some,
    ensures
        t.spec_assignments()[site] < t.spec_next_id()->0,
        t.spec_host().spec_get() < t.spec_next_id()->0,
{
    let s = t.assignments@;
    let i = index_of_key(s, assignment_site(), site);
    assert(t.issued(s[i].process.value));
}

} // verus!
