//! The script-runtime boundary: realm and rooted-value identities, realm
//! limits, sources, diagnostics and completions.
use crate::fresh::ScopeCounter;
use crate::text::{decimal, push_decimal, push_str, utf8_byte_len, utf8_len};
use vstd::prelude::*;

verus! {

/// Identity of a script realm: the scope of its runtime and a serial.
#[derive(Clone, Copy, Debug, PartialEq, Eq, PartialOrd, Ord, Hash, Structural)]
pub struct RealmId {
    scope: u64,
    serial: u64,
}

impl RealmId {
    pub closed spec fn spec_scope(self) -> u64 {
        self.scope
    }

    pub closed spec fn spec_serial(self) -> u64 {
        self.serial
    }

    /// The scope of the runtime that issued this identity.
    pub fn scope(self) -> (r: u64)
        ensures
            r == self.spec_scope(),
    {
        self.scope
    }

    /// The serial of this identity within its runtime.
    pub fn serial(self) -> (r: u64)
        ensures
            r == self.spec_serial(),
    {
        self.serial
    }

    /// Two realm identities are equal exactly when scope and serial are.
    pub proof fn lemma_parts_determine(a: RealmId, b: RealmId)
        ensures
            (a == b) <==> (a.spec_scope() == b.spec_scope() && a.spec_serial() == b.spec_serial()),
    {
    }
}

#[derive(Clone, Copy, Debug, PartialEq, Eq, Structural)]
pub enum ScriptErrorKind {
    InvalidInput,
    InvalidRealm,
    InvalidRoot,
    ResourceLimit,
    Backend,
}

#[derive(Clone, Copy, Debug, PartialEq, Eq, Structural)]
pub enum ScriptDiagnosticLevel {
    Warning,
    Error,
}

#[derive(Clone, Copy, Debug, PartialEq, Eq, Structural)]
pub struct ScriptSourceSpan {
    pub start: usize,
    pub end: usize,
}

impl ScriptSourceSpan {
    /// A span from `start` to `end`; reversed offsets are refused.
    pub fn try_new(start: usize, end: usize) -> (r: Result<Self, ScriptError>)
        ensures
            start > end ==> (r matches Err(e) && e.kind == ScriptErrorKind::InvalidInput),
            start <= end ==> r == Ok::<Self, ScriptError>(ScriptSourceSpan { start, end }),
    {
        if start > end {
            return Err(
                ScriptError::new(
                    ScriptErrorKind::InvalidInput,
                    "script diagnostic source span must have start <= end",
                ),
            );
        }
        Ok(ScriptSourceSpan { start, end })
    }
}

#[derive(Clone, Debug, PartialEq, Eq)]
pub struct ScriptDiagnostic {
    pub level: ScriptDiagnosticLevel,
    pub message: String,
    pub source_name: Option<String>,
    pub span: Option<ScriptSourceSpan>,
}

impl ScriptDiagnostic {
    pub fn new(level: ScriptDiagnosticLevel, message: &str) -> (r: Self)
        ensures
            r.level == level,
            r.message@ == message@,
            r.source_name is None,
            r.span is None,
    {
        ScriptDiagnostic { level, message: message.to_owned(), source_name: None, span: None }
    }

    pub fn with_source_name(self, source_name: &str) -> (r: Self)
        ensures
            r.level == self.level,
            r.message == self.message,
            r.source_name matches Some(n) && n@ == source_name@,
            r.span == self.span,
    {
        ScriptDiagnostic { source_name: Some(source_name.to_owned()), ..self }
    }

    pub fn with_span(self, span: ScriptSourceSpan) -> (r: Self)
        ensures
            r.level == self.level,
            r.message == self.message,
            r.source_name == self.source_name,
            r.span == Some(span),
    {
        ScriptDiagnostic { span: Some(span), ..self }
    }
}

#[derive(Clone, Debug, PartialEq, Eq)]
pub struct ScriptError {
    pub kind: ScriptErrorKind,
    pub message: String,
    pub diagnostic: Option<ScriptDiagnostic>,
}

impl ScriptError {
    pub fn new(kind: ScriptErrorKind, message: &str) -> (r: Self)
        ensures
            r.kind == kind,
            r.message@ == message@,
            r.diagnostic is None,
    {
        ScriptError { kind, message: message.to_owned(), diagnostic: None }
    }

    fn with_message(kind: ScriptErrorKind, message: String) -> (r: Self)
        ensures
            r.kind == kind,
            r.message == message,
            r.diagnostic is None,
    {
        ScriptError { kind, message, diagnostic: None }
    }

    pub fn with_diagnostic(self, diagnostic: ScriptDiagnostic) -> (r: Self)
        ensures
            r.kind == self.kind,
            r.message == self.message,
            r.diagnostic == Some(diagnostic),
    {
        ScriptError { diagnostic: Some(diagnostic), ..self }
    }

    /// The error's message.
    pub fn to_string(&self) -> (r: String)
        ensures
            r@ == self.message@,
    {
        self.message.clone()
    }
}

/// The serial that follows `next`; after the last serial the space is spent
/// and the next serial is zero.
pub open spec fn following_serial(next: u64) -> u64 {
    if next == u64::MAX {
        0
    } else {
        (next + 1) as u64
    }
}

/// Issues realm identities for one script runtime.
#[derive(Debug)]
pub struct RealmIdAllocator {
    scope: u64,
    next: u64,
}

impl RealmIdAllocator {
    pub closed spec fn spec_scope(&self) -> u64 {
        self.scope
    }

    /// The serial the next realm receives; zero once the space is spent.
    pub closed spec fn spec_next(&self) -> u64 {
        self.next
    }

    /// An allocator in the next scope of `scopes`; refused with
    /// `ResourceLimit` once the counter is spent.
    pub fn new(scopes: &mut ScopeCounter) -> (r: Result<Self, ScriptError>)
        requires
            old(scopes).spec_next() >= 1,
        ensures
            (r is Err) <==> old(scopes).spec_next() == u64::MAX,
            r is Err ==> *final(scopes) == *old(scopes),
            r is Ok ==> final(scopes).spec_next() == old(scopes).spec_next() + 1,
            r matches Ok(a) ==> a.spec_scope() == old(scopes).spec_next() && a.spec_next() == 1,
            r matches Err(e) ==> e.kind == ScriptErrorKind::ResourceLimit,
    {
        match scopes.draw() {
            Some(scope) => Self::with_scope(scope),
            None => Self::with_scope(0),
        }
    }

    /// An allocator in the given scope; a zero scope is refused.
    pub fn with_scope(scope: u64) -> (r: Result<Self, ScriptError>)
        ensures
            scope == 0 <==> r is Err,
            r matches Err(e) ==> e.kind == ScriptErrorKind::ResourceLimit,
            r matches Ok(a) ==> a.spec_scope() == scope && a.spec_next() == 1,
    {
        if scope == 0 {
            return Err(
                ScriptError::new(
                    ScriptErrorKind::ResourceLimit,
                    "script runtime identity space is exhausted",
                ),
            );
        }
        Ok(RealmIdAllocator { scope, next: 1 })
    }

    /// Issues the next realm identity, or fails once the serials are spent.
    pub fn allocate(&mut self) -> (r: Result<RealmId, ScriptError>)
        ensures
            final(self).spec_scope() == old(self).spec_scope(),
            old(self).spec_next() == 0 ==> (r matches Err(e) && e.kind
                == ScriptErrorKind::ResourceLimit) && final(self).spec_next() == 0,
            old(self).spec_next() != 0 ==> (r matches Ok(id) && id.spec_scope()
                == old(self).spec_scope() && id.spec_serial() == old(self).spec_next())
                && final(self).spec_next() == following_serial(old(self).spec_next()),
    {
        if self.next == 0 {
            return Err(
                ScriptError::new(
                    ScriptErrorKind::ResourceLimit,
                    "script realm identity space is exhausted",
                ),
            );
        }
        let serial = self.next;
        self.next = match self.next.checked_add(1) {
            Some(n) => n,
            None => 0,
        };
        Ok(RealmId { scope: self.scope, serial })
    }

    /// Skips serials up to `next`; the skipped serials are never issued.
    pub fn advance_to(&mut self, next: u64)
        requires
            old(self).spec_next() != 0,
            old(self).spec_next() <= next,
        ensures
            final(self).spec_scope() == old(self).spec_scope(),
            final(self).spec_next() == next,
    {
        self.next = next;
    }
}

#[derive(Clone, Copy, Debug, PartialEq, Eq, Structural)]
pub struct ScriptRealmLimits {
    max_source_bytes: usize,
    max_rooted_values: usize,
}

impl ScriptRealmLimits {
    #[verifier::type_invariant]
    spec fn limits_nonzero(self) -> bool {
        self.max_source_bytes > 0 && self.max_rooted_values > 0
    }

    pub closed spec fn spec_max_source_bytes(self) -> usize {
        self.max_source_bytes
    }

    pub closed spec fn spec_max_rooted_values(self) -> usize {
        self.max_rooted_values
    }

    /// Both limits must be non-zero.
    pub fn try_new(max_source_bytes: usize, max_rooted_values: usize) -> (r: Result<Self, ScriptError>)
        ensures
            (max_source_bytes == 0 || max_rooted_values == 0) <==> r is Err,
            r matches Err(e) ==> e.kind == ScriptErrorKind::InvalidInput,
            r matches Ok(l) ==> l.spec_max_source_bytes() == max_source_bytes
                && l.spec_max_rooted_values() == max_rooted_values,
    {
        if max_source_bytes == 0 {
            return Err(
                ScriptError::new(
                    ScriptErrorKind::InvalidInput,
                    "script source byte limit must be non-zero",
                ),
            );
        }
        if max_rooted_values == 0 {
            return Err(
                ScriptError::new(
                    ScriptErrorKind::InvalidInput,
                    "script rooted-value limit must be non-zero",
                ),
            );
        }
        Ok(ScriptRealmLimits { max_source_bytes, max_rooted_values })
    }

    pub fn max_source_bytes(self) -> (r: usize)
        ensures
            r == self.spec_max_source_bytes(),
            r > 0,
    {
        proof {
            use_type_invariant(&self);
        }
        self.max_source_bytes
    }

    pub fn max_rooted_values(self) -> (r: usize)
        ensures
            r == self.spec_max_rooted_values(),
            r > 0,
    {
        proof {
            use_type_invariant(&self);
        }
        self.max_rooted_values
    }
}

/// Identity of a realm's global object.
#[derive(Clone, Copy, Debug, PartialEq, Eq, PartialOrd, Ord, Hash, Structural)]
pub struct GlobalObjectId {
    realm: RealmId,
}

impl GlobalObjectId {
    pub closed spec fn spec_realm(self) -> RealmId {
        self.realm
    }

    pub fn realm(self) -> (r: RealmId)
        ensures
            r == self.spec_realm(),
    {
        self.realm
    }
}

/// A realm and its global object, which belongs to that realm.
#[derive(Clone, Copy, Debug, PartialEq, Eq, Structural)]
pub struct ScriptRealm {
    id: RealmId,
    global: GlobalObjectId,
}

impl ScriptRealm {
    #[verifier::type_invariant]
    spec fn global_in_realm(self) -> bool {
        self.global.realm == self.id
    }

    pub closed spec fn spec_id(self) -> RealmId {
        self.id
    }

    pub closed spec fn spec_global(self) -> GlobalObjectId {
        self.global
    }

    pub fn new(id: RealmId) -> (r: Self)
        ensures
            r.spec_id() == id,
            r.spec_global().spec_realm() == id,
    {
        ScriptRealm { id, global: GlobalObjectId { realm: id } }
    }

    pub fn id(self) -> (r: RealmId)
        ensures
            r == self.spec_id(),
    {
        self.id
    }

    /// The realm's global object, which always belongs to the realm.
    pub fn global(self) -> (r: GlobalObjectId)
        ensures
            r == self.spec_global(),
            r.spec_realm() == self.spec_id(),
    {
        proof {
            use_type_invariant(&self);
        }
        self.global
    }
}

/// Identity of a rooted script value: its realm, the scope of the allocator
/// that issued it, and a serial.
#[derive(Clone, Copy, Debug, PartialEq, Eq, PartialOrd, Ord, Hash, Structural)]
pub struct RootedValueId {
    realm: RealmId,
    scope: u64,
    serial: u64,
}

impl RootedValueId {
    pub closed spec fn spec_realm(self) -> RealmId {
        self.realm
    }

    pub closed spec fn spec_scope(self) -> u64 {
        self.scope
    }

    pub closed spec fn spec_serial(self) -> u64 {
        self.serial
    }

    pub fn realm(self) -> (r: RealmId)
        ensures
            r == self.spec_realm(),
    {
        self.realm
    }

    /// The scope of the allocator that issued this identity.
    pub fn scope(self) -> (r: u64)
        ensures
            r == self.spec_scope(),
    {
        self.scope
    }

    /// The serial of this identity within its allocator.
    pub fn serial(self) -> (r: u64)
        ensures
            r == self.spec_serial(),
    {
        self.serial
    }

    /// Identities from allocators with different scopes never coincide.
    pub proof fn lemma_scopes_separate(a: RootedValueId, b: RootedValueId)
        requires
            a.spec_scope() != b.spec_scope(),
        ensures
            a != b,
    {
    }
}

/// Issues rooted-value identities within one realm.
#[derive(Debug)]
pub struct RootedValueIdAllocator {
    realm: RealmId,
    scope: u64,
    next: u64,
}

impl RootedValueIdAllocator {
    pub closed spec fn spec_realm(&self) -> RealmId {
        self.realm
    }

    pub closed spec fn spec_scope(&self) -> u64 {
        self.scope
    }

    pub closed spec fn spec_next(&self) -> u64 {
        self.next
    }

    /// An allocator for `realm` in the next scope of `scopes`; refused with
    /// `ResourceLimit` once the counter is spent.
    pub fn new(realm: RealmId, scopes: &mut ScopeCounter) -> (r: Result<Self, ScriptError>)
        requires
            old(scopes).spec_next() >= 1,
        ensures
            (r is Err) <==> old(scopes).spec_next() == u64::MAX,
            r is Err ==> *final(scopes) == *old(scopes),
            r is Ok ==> final(scopes).spec_next() == old(scopes).spec_next() + 1,
            r matches Ok(a) ==> a.spec_realm() == realm && a.spec_scope() == old(scopes).spec_next()
                && a.spec_next() == 1,
            r matches Err(e) ==> e.kind == ScriptErrorKind::ResourceLimit,
    {
        match scopes.draw() {
            Some(scope) => Self::with_scope(realm, scope),
            None => Self::with_scope(realm, 0),
        }
    }

    /// An allocator for `realm` in the given scope; a zero scope is refused.
    pub fn with_scope(realm: RealmId, scope: u64) -> (r: Result<Self, ScriptError>)
        ensures
            scope == 0 <==> r is Err,
            r matches Err(e) ==> e.kind == ScriptErrorKind::ResourceLimit,
            r matches Ok(a) ==> a.spec_realm() == realm && a.spec_scope() == scope
                && a.spec_next() == 1,
    {
        if scope == 0 {
            return Err(
                ScriptError::new(
                    ScriptErrorKind::ResourceLimit,
                    "script rooted-value allocator identity space is exhausted",
                ),
            );
        }
        Ok(RootedValueIdAllocator { realm, scope, next: 1 })
    }

    /// Issues the next rooted-value identity, or fails once the serials are
    /// spent.
    pub fn allocate(&mut self) -> (r: Result<RootedValueId, ScriptError>)
        ensures
            final(self).spec_realm() == old(self).spec_realm(),
            final(self).spec_scope() == old(self).spec_scope(),
            old(self).spec_next() == 0 ==> (r matches Err(e) && e.kind
                == ScriptErrorKind::ResourceLimit) && final(self).spec_next() == 0,
            old(self).spec_next() != 0 ==> (r matches Ok(id) && id.spec_realm()
                == old(self).spec_realm() && id.spec_scope() == old(self).spec_scope()
                && id.spec_serial() == old(self).spec_next()) && final(self).spec_next()
                == following_serial(old(self).spec_next()),
    {
        if self.next == 0 {
            return Err(
                ScriptError::new(
                    ScriptErrorKind::ResourceLimit,
                    "script rooted-value identity space is exhausted",
                ),
            );
        }
        let serial = self.next;
        self.next = match self.next.checked_add(1) {
            Some(n) => n,
            None => 0,
        };
        Ok(RootedValueId { realm: self.realm, scope: self.scope, serial })
    }

    /// Skips serials up to `next`; the skipped serials are never issued.
    pub fn advance_to(&mut self, next: u64)
        requires
            old(self).spec_next() != 0,
            old(self).spec_next() <= next,
        ensures
            final(self).spec_realm() == old(self).spec_realm(),
            final(self).spec_scope() == old(self).spec_scope(),
            final(self).spec_next() == next,
    {
        self.next = next;
    }
}

/// Script source text with an optional name.
#[derive(Clone, Copy, Debug, PartialEq, Eq)]
pub struct ScriptSource<'a> {
    text: &'a str,
    name: Option<&'a str>,
}

impl<'a> ScriptSource<'a> {
    pub closed spec fn spec_text(&self) -> Seq<char> {
        self.text@
    }

    pub closed spec fn spec_name(&self) -> Option<Seq<char>> {
        match self.name {
            Some(n) => Some(n@),
            None => None,
        }
    }

    pub fn new(text: &'a str) -> (r: Self)
        ensures
            r.spec_text() == text@,
            r.spec_name() is None,
    {
        ScriptSource { text, name: None }
    }

    pub fn named(text: &'a str, name: &'a str) -> (r: Self)
        ensures
            r.spec_text() == text@,
            r.spec_name() == Some(name@),
    {
        ScriptSource { text, name: Some(name) }
    }

    pub fn text(&self) -> (r: &'a str)
        ensures
            r@ == self.spec_text(),
    {
        self.text
    }

    pub fn name(&self) -> (r: Option<&'a str>)
        ensures
            match self.spec_name() {
                Some(n) => r matches Some(s) && s@ == n,
                None => r is None,
            },
    {
        self.name
    }

    /// The source size in UTF-8 bytes.
    pub fn byte_len(&self) -> (r: usize)
        ensures
            r == utf8_len(self.spec_text()),
    {
        utf8_byte_len(self.text)
    }

    /// The same source, if its UTF-8 size is within `max_bytes`.
    pub fn ensure_byte_limit(self, max_bytes: usize) -> (r: Result<Self, ScriptError>)
        ensures
            utf8_len(self.spec_text()) > max_bytes ==> (r matches Err(e) && e.kind
                == ScriptErrorKind::ResourceLimit && e.diagnostic is None && e.message@ == "script source is "@
                + decimal(utf8_len(self.spec_text())) + " bytes, exceeding the configured "@ + decimal(
                max_bytes as nat,
            ) + "-byte limit"@),
            utf8_len(self.spec_text()) <= max_bytes ==> r == Ok::<Self, ScriptError>(self),
    {
        let len = self.byte_len();
        if len > max_bytes {
            let mut message = String::new();
            push_str(&mut message, "script source is ");
            push_decimal(&mut message, len);
            push_str(&mut message, " bytes, exceeding the configured ");
            push_decimal(&mut message, max_bytes);
            push_str(&mut message, "-byte limit");
            proof {
                assert(message@ =~= "script source is "@ + decimal(len as nat)
                    + " bytes, exceeding the configured "@ + decimal(max_bytes as nat) + "-byte limit"@);
            }
            return Err(ScriptError::with_message(ScriptErrorKind::ResourceLimit, message));
        }
        Ok(self)
    }
}

#[derive(Clone, Debug, PartialEq, Eq)]
pub struct ScriptException {
    pub value: RootedValueId,
    pub message: Option<String>,
    pub stack: Option<String>,
}

#[derive(Clone, Debug, PartialEq, Eq)]
pub enum ScriptCompletion {
    Normal(RootedValueId),
    Throw(ScriptException),
}

impl ScriptCompletion {
    pub open spec fn spec_rooted_value(&self) -> RootedValueId {
        match self {
            ScriptCompletion::Normal(value) => *value,
            ScriptCompletion::Throw(exception) => exception.value,
        }
    }

    /// The rooted value of the completion: the result, or the thrown value.
    pub fn rooted_value(&self) -> (r: RootedValueId)
        ensures
            r == self.spec_rooted_value(),
    {
        match self {
            ScriptCompletion::Normal(value) => *value,
            ScriptCompletion::Throw(exception) => exception.value,
        }
    }
}

#[derive(Clone, Debug, PartialEq, Eq)]
pub struct EvaluationOutcome {
    pub completion: ScriptCompletion,
    pub diagnostics: Vec<ScriptDiagnostic>,
}

/// A script engine behind the realm boundary; engines implement it.
pub trait ScriptRuntime {
    fn create_realm(&mut self, limits: ScriptRealmLimits) -> Result<ScriptRealm, ScriptError>;

    fn evaluate(&mut self, realm: RealmId, source: ScriptSource<'_>) -> Result<
        EvaluationOutcome,
        ScriptError,
    >;

    fn duplicate_root(&mut self, value: RootedValueId) -> Result<RootedValueId, ScriptError>;

    fn release_root(&mut self, value: RootedValueId) -> Result<(), ScriptError>;

    fn destroy_realm(&mut self, realm: RealmId) -> Result<(), ScriptError>;
}

/// Successive identities from one allocator are distinct and increasing:
/// two allocations that both succeed give serials `n` and `n + 1`.
pub proof fn lemma_realm_serials_increase(next: u64)
    requires
        next != 0,
        following_serial(next) != 0,
    ensures
        following_serial(next) == next + 1,
{
}

/// After the last serial is issued the allocator is spent for good: it never
/// wraps around to reissue serial one.
pub proof fn lemma_exhaustion_is_final()
    ensures
        following_serial(u64::MAX) == 0,
        forall|n: u64| n != 0 && n != u64::MAX ==> following_serial(n) > n,
{
}

/// Realm allocators made one after the other from one scope counter never
/// issue the same identity: each identity carries its allocator's scope, and
/// a later draw from the counter is a larger scope.
pub proof fn lemma_realm_allocators_of_one_counter_never_alias(
    first: ScopeCounter,
    later: ScopeCounter,
    a: RealmIdAllocator,
    b: RealmIdAllocator,
    x: RealmId,
    y: RealmId,
)
    requires
        a.spec_scope() == first.spec_next(),
        b.spec_scope() == later.spec_next(),
        first.spec_next() < later.spec_next(),
        x.spec_scope() == a.spec_scope(),
        y.spec_scope() == b.spec_scope(),
    ensures
        x != y,
{
}

/// Rooted-value allocators made one after the other from one scope counter
/// never issue the same identity, whatever realms they serve.
pub proof fn lemma_rooted_allocators_of_one_counter_never_alias(
    first: ScopeCounter,
    later: ScopeCounter,
    a: RootedValueIdAllocator,
    b: RootedValueIdAllocator,
    x: RootedValueId,
    y: RootedValueId,
)
    requires
        a.spec_scope() == first.spec_next(),
        b.spec_scope() == later.spec_next(),
        first.spec_next() < later.spec_next(),
        x.spec_scope() == a.spec_scope(),
        y.spec_scope() == b.spec_scope(),
    ensures
        x != y,
{
    RootedValueId::lemma_scopes_separate(x, y);
}

} // verus!
