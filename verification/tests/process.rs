use rarog::fresh::ScopeCounter;
use rarog::origin::{Origin, SiteIdentity};
use rarog::process::{
    ProcessIdAllocator, ProcessTopology, ProcessTopologyErrorKind, SiteAssignmentKind,
    SiteProcessId,
};
use rarog::web_url::WebUrl;

fn site(url: &str) -> SiteIdentity {
    let mut scopes = ScopeCounter::new();
    WebUrl::parse(url).unwrap().site_identity(&mut scopes).unwrap()
}

#[test]
fn host_and_site_process_identities_use_one_nonzero_space() {
    let mut topology = ProcessTopology::try_new(2).unwrap();
    assert_eq!(topology.host_process().get(), 1);
    let assignment = topology.assign_site(site("https://example.com/")).unwrap();
    assert_eq!(assignment.process().get(), 2);
    assert!(assignment.is_new());
}

#[test]
fn same_schemeful_site_reuses_one_assignment() {
    let mut topology = ProcessTopology::try_new(2).unwrap();
    let first_site = site("https://a.example.com/");
    let second_site = site("https://b.example.com/path");

    let first = topology.assign_site(first_site.clone()).unwrap();
    let second = topology.assign_site(second_site.clone()).unwrap();

    assert_eq!(first.kind(), SiteAssignmentKind::Created);
    assert_eq!(second.kind(), SiteAssignmentKind::Existing);
    assert_eq!(first.process(), second.process());
    assert_eq!(topology.active_site_processes(), 1);
    assert_eq!(
        topology.process_for_site(&first_site),
        topology.process_for_site(&second_site)
    );
}

#[test]
fn distinct_sites_never_share_to_satisfy_a_process_budget() {
    let mut topology = ProcessTopology::try_new(1).unwrap();
    let first_site = site("https://example.com/");
    let cross_scheme = site("http://example.com/");

    let first = topology.assign_site(first_site.clone()).unwrap();
    let error = topology.assign_site(cross_scheme.clone()).unwrap_err();

    assert_eq!(error.kind, ProcessTopologyErrorKind::ProcessLimitExceeded);
    assert_eq!(topology.active_site_processes(), 1);
    assert_eq!(topology.process_for_site(&first_site), Some(first.process()));
    assert_eq!(topology.process_for_site(&cross_scheme), None);
}

#[test]
fn opaque_site_identity_isolated_unless_exact_identity_is_reused() {
    let mut scopes = ScopeCounter::new();
    let url = WebUrl::parse("data:text/plain,hello").unwrap();
    let first_origin = url.origin(&mut scopes).unwrap();
    let first_site = first_origin.site();
    let same_site = first_site.clone();
    let second_site = match url.origin(&mut scopes).unwrap() {
        Origin::Opaque(_) => url.origin(&mut scopes).unwrap().site(),
        Origin::Tuple { .. } => unreachable!(),
    };

    let mut topology = ProcessTopology::try_new(3).unwrap();
    let first = topology.assign_site(first_site).unwrap();
    let same = topology.assign_site(same_site).unwrap();
    let second = topology.assign_site(second_site).unwrap();

    assert_eq!(first.process(), same.process());
    assert_ne!(first.process(), second.process());
    assert_eq!(topology.active_site_processes(), 2);
}

#[test]
fn retired_process_identity_is_not_reused() {
    let mut topology = ProcessTopology::try_new(1).unwrap();
    let site_identity = site("https://example.com/");
    let first = topology.assign_site(site_identity.clone()).unwrap();
    assert_eq!(topology.retire_site_process(first.process()).unwrap(), site_identity);
    assert_eq!(topology.active_site_processes(), 0);

    let replacement = topology.assign_site(site("https://example.com/")).unwrap();
    assert_ne!(first.process(), replacement.process());
    assert_eq!(replacement.kind(), SiteAssignmentKind::Created);
}

#[test]
fn unknown_process_retirement_fails_without_mutating_assignments() {
    let mut topology = ProcessTopology::try_new(2).unwrap();
    let first = topology.assign_site(site("https://example.com/")).unwrap();
    let unknown = SiteProcessId::from_raw(999).unwrap();

    let error = topology.retire_site_process(unknown).unwrap_err();

    assert_eq!(error.kind, ProcessTopologyErrorKind::UnknownSiteProcess);
    assert_eq!(topology.active_site_processes(), 1);
    assert!(topology.site_for_process(first.process()).is_some());
}

#[test]
fn zero_process_limit_is_rejected() {
    let error = ProcessTopology::try_new(0).unwrap_err();
    assert_eq!(error.kind, ProcessTopologyErrorKind::InvalidProcessLimit);
}

#[test]
fn allocator_exhaustion_fails_closed_after_last_identity() {
    let mut allocator = ProcessIdAllocator::starting_at(u64::MAX).unwrap();
    assert_eq!(allocator.allocate().unwrap().get(), u64::MAX);
    let error = allocator.allocate().unwrap_err();
    assert_eq!(error.kind, ProcessTopologyErrorKind::IdentitySpaceExhausted);
    assert_eq!(
        allocator.allocate().unwrap_err().kind,
        ProcessTopologyErrorKind::IdentitySpaceExhausted
    );
}

#[test]
fn storage_process_is_created_once_with_a_fresh_identity() {
    let mut topology = ProcessTopology::try_new(2).unwrap();
    let site_process = topology.assign_site(site("https://example.com/")).unwrap().process();
    let storage = topology.ensure_storage_process().unwrap();
    assert_eq!(storage.kind(), SiteAssignmentKind::Created);
    assert_eq!(storage.process().get(), 3);
    assert_ne!(storage.process().get(), site_process.get());
    let again = topology.ensure_storage_process().unwrap();
    assert_eq!(again.kind(), SiteAssignmentKind::Existing);
    assert_eq!(again.process(), storage.process());
}
