use rarog::fresh::ScopeCounter;
use rarog::script::{
    RealmIdAllocator, RootedValueIdAllocator, ScriptCompletion, ScriptDiagnostic,
    ScriptDiagnosticLevel, ScriptError, ScriptErrorKind, ScriptException, ScriptRealm,
    ScriptRealmLimits, ScriptSource, ScriptSourceSpan,
};

#[test]
fn realm_ids_are_nonzero_and_monotonic_within_one_runtime() {
    let mut scopes = ScopeCounter::new();
    let mut ids = RealmIdAllocator::new(&mut scopes).unwrap();
    let first = ids.allocate().unwrap();
    let second = ids.allocate().unwrap();
    assert_eq!(first.scope(), second.scope());
    assert_eq!(first.serial(), 1);
    assert_eq!(second.serial(), 2);
}

#[test]
fn realm_ids_from_different_runtimes_do_not_alias() {
    let mut scopes = ScopeCounter::new();
    let first = RealmIdAllocator::new(&mut scopes).unwrap().allocate().unwrap();
    let second = RealmIdAllocator::new(&mut scopes).unwrap().allocate().unwrap();
    assert_ne!(first, second);
}

#[test]
fn realm_id_allocator_fails_after_exhaustion() {
    let mut scopes = ScopeCounter::new();
    let mut ids = RealmIdAllocator::new(&mut scopes).unwrap();
    ids.advance_to(u64::MAX);
    assert_eq!(ids.allocate().unwrap().serial(), u64::MAX);
    let error = ids.allocate().unwrap_err();
    assert_eq!(error.kind, ScriptErrorKind::ResourceLimit);
}

#[test]
fn rooted_value_ids_from_independent_allocators_do_not_alias() {
    let mut root_scopes = ScopeCounter::new();
    let mut scopes = ScopeCounter::new();
    let realm = RealmIdAllocator::new(&mut scopes).unwrap().allocate().unwrap();
    let first = RootedValueIdAllocator::new(realm, &mut root_scopes).unwrap().allocate().unwrap();
    let second = RootedValueIdAllocator::new(realm, &mut root_scopes).unwrap().allocate().unwrap();
    assert_eq!(first.realm(), realm);
    assert_eq!(second.realm(), realm);
    assert_ne!(first.scope(), second.scope());
    assert_ne!(first, second);
}

#[test]
fn rooted_value_id_allocator_fails_after_exhaustion() {
    let mut root_scopes = ScopeCounter::new();
    let mut scopes = ScopeCounter::new();
    let realm = RealmIdAllocator::new(&mut scopes).unwrap().allocate().unwrap();
    let mut ids = RootedValueIdAllocator::new(realm, &mut root_scopes).unwrap();
    ids.advance_to(u64::MAX);
    assert_eq!(ids.allocate().unwrap().serial(), u64::MAX);
    let error = ids.allocate().unwrap_err();
    assert_eq!(error.kind, ScriptErrorKind::ResourceLimit);
}

#[test]
fn realm_limits_reject_zero_values() {
    let source_error = ScriptRealmLimits::try_new(0, 1).unwrap_err();
    assert_eq!(source_error.kind, ScriptErrorKind::InvalidInput);
    let roots_error = ScriptRealmLimits::try_new(1, 0).unwrap_err();
    assert_eq!(roots_error.kind, ScriptErrorKind::InvalidInput);
}

#[test]
fn source_span_rejects_reversed_offsets() {
    let error = ScriptSourceSpan::try_new(4, 3).unwrap_err();
    assert_eq!(error.kind, ScriptErrorKind::InvalidInput);
}

#[test]
fn realm_global_identity_is_bound_to_its_realm() {
    let mut scopes = ScopeCounter::new();
    let realm_id = RealmIdAllocator::new(&mut scopes).unwrap().allocate().unwrap();
    let realm = ScriptRealm::new(realm_id);
    assert_eq!(realm.global().realm(), realm.id());
}

#[test]
fn source_limit_counts_utf8_bytes() {
    let limits = ScriptRealmLimits::try_new(4, 8).unwrap();
    assert_eq!(limits.max_source_bytes(), 4);
    assert_eq!(limits.max_rooted_values(), 8);
    let error = ScriptSource::new("12345").ensure_byte_limit(limits.max_source_bytes()).unwrap_err();
    assert_eq!(error.kind, ScriptErrorKind::ResourceLimit);
    assert_eq!(
        error.message,
        "script source is 5 bytes, exceeding the configured 4-byte limit"
    );
    let source = ScriptSource::named("éé", "fixture.js");
    assert_eq!(source.byte_len(), 4);
    assert_eq!(source.name(), Some("fixture.js"));
    assert_eq!(source.ensure_byte_limit(4).unwrap().text(), "éé");
}

#[test]
fn diagnostics_and_errors_carry_owned_details() {
    let diagnostic = ScriptDiagnostic::new(ScriptDiagnosticLevel::Warning, "fixture diagnostic")
        .with_source_name("fixture.js")
        .with_span(ScriptSourceSpan::try_new(1, 2).unwrap());
    assert_eq!(diagnostic.source_name.as_deref(), Some("fixture.js"));
    assert_eq!(diagnostic.message, "fixture diagnostic");
    assert_eq!(diagnostic.span, Some(ScriptSourceSpan { start: 1, end: 2 }));
    let error = ScriptError::new(ScriptErrorKind::Backend, "boom").with_diagnostic(diagnostic.clone());
    assert_eq!(error.diagnostic, Some(diagnostic));
    assert_eq!(error.to_string(), "boom");
}

#[test]
fn completion_exposes_its_rooted_value() {
    let realm = RealmIdAllocator::with_scope(3).unwrap().allocate().unwrap();
    let mut roots = RootedValueIdAllocator::with_scope(realm, 5).unwrap();
    let value = roots.allocate().unwrap();
    assert_eq!(value.scope(), 5);
    assert_eq!(value.serial(), 1);
    assert_eq!(ScriptCompletion::Normal(value).rooted_value(), value);
    let thrown = ScriptCompletion::Throw(ScriptException {
        value,
        message: Some(String::from("fixture exception")),
        stack: None,
    });
    assert_eq!(thrown.rooted_value(), value);
    assert!(RealmIdAllocator::with_scope(0).is_err());
    assert!(RootedValueIdAllocator::with_scope(realm, 0).is_err());
}
