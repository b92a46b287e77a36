use rarog::fresh::ScopeCounter;
use rarog::origin::{Origin, UrlHost};
use rarog::web_url::{UrlErrorKind, WebUrl};

#[test]
fn parsing_canonicalizes_special_urls() {
    let url = WebUrl::parse("HTTP://ExAmPle.com:80/a/../b?q=hello world#frag ment").unwrap();
    assert_eq!(
        url.as_str(),
        "http://example.com/b?q=hello%20world#frag%20ment"
    );
    assert_eq!(url.scheme(), "http");
    assert_eq!(url.host(), Some(UrlHost::Domain(String::from("example.com"))));
    assert_eq!(url.port(), None);
    assert_eq!(url.port_or_known_default(), Some(80));
    assert_eq!(url.path(), "/b");
    assert_eq!(url.query(), Some("q=hello%20world"));
    assert_eq!(url.fragment(), Some("frag%20ment"));
}

#[test]
fn relative_references_resolve_against_a_base() {
    let base = WebUrl::parse("https://example.com/a/b/index.html").unwrap();
    let resolved = WebUrl::resolve(&base, "../image.png?x=1#top").unwrap();
    assert_eq!(
        resolved.as_str(),
        "https://example.com/a/image.png?x=1#top"
    );
}

#[test]
fn international_domains_are_serialized_as_ascii() {
    let url = WebUrl::parse("https://bücher.example/").unwrap();
    assert_eq!(url.as_str(), "https://xn--bcher-kva.example/");
    assert_eq!(
        url.host(),
        Some(UrlHost::Domain(String::from("xn--bcher-kva.example")))
    );
}

#[test]
fn ipv6_hosts_remain_typed_in_the_rarog_api() {
    let url = WebUrl::parse("https://[2001:db8::1]:8443/path").unwrap();
    assert_eq!(
        url.host(),
        Some(UrlHost::Ipv6([
            0x20, 0x01, 0x0d, 0xb8, 0, 0, 0, 0, 0, 0, 0, 0, 0, 0, 0, 1
        ]))
    );
    assert_eq!(url.port(), Some(8443));
}

#[test]
fn cannot_be_a_base_urls_are_reported_without_dependency_types() {
    let url = WebUrl::parse("data:text/plain,hello").unwrap();
    assert!(url.cannot_be_a_base());
    assert_eq!(url.host(), None);
    let error = url.join("child").unwrap_err();
    assert_eq!(error.kind, UrlErrorKind::RelativeWithCannotBeABaseBase);
}

#[test]
fn relative_input_without_a_base_has_an_owned_error() {
    let error = WebUrl::parse("../relative").unwrap_err();
    assert_eq!(error.kind, UrlErrorKind::RelativeWithoutBase);
    assert!(!error.message.is_empty());
}

#[test]
fn fragment_removal_does_not_mutate_the_original_url() {
    let original = WebUrl::parse("https://example.com/path?q=1#fragment").unwrap();
    let request_url = original.without_fragment();
    assert_eq!(original.fragment(), Some("fragment"));
    assert_eq!(request_url.fragment(), None);
    assert_eq!(request_url.as_str(), "https://example.com/path?q=1");
}

#[test]
fn tuple_origins_include_effective_port_and_ignore_path() {
    let mut scopes = ScopeCounter::new();
    let first = WebUrl::parse("https://example.com/a")
        .unwrap()
        .origin(&mut scopes)
        .unwrap();
    let second = WebUrl::parse("https://example.com:443/b?q=1")
        .unwrap()
        .origin(&mut scopes)
        .unwrap();
    assert_eq!(first, second);
    assert_eq!(first.ascii_serialization(), "https://example.com");
}

#[test]
fn different_ports_are_cross_origin_but_same_site() {
    let mut scopes = ScopeCounter::new();
    let first = WebUrl::parse("https://shop.example.com:8443/")
        .unwrap()
        .origin(&mut scopes)
        .unwrap();
    let second = WebUrl::parse("https://cdn.example.com/")
        .unwrap()
        .origin(&mut scopes)
        .unwrap();
    assert!(!first.same_origin(&second));
    assert!(first.site().same_site(&second.site()));
    assert_eq!(first.site().ascii_serialization(), "https://example.com");
}

#[test]
fn registrable_domains_define_schemeful_site() {
    let mut scopes = ScopeCounter::new();
    let first = WebUrl::parse("https://a.example.co.uk/")
        .unwrap()
        .site_identity(&mut scopes)
        .unwrap();
    let second = WebUrl::parse("https://b.example.co.uk/")
        .unwrap()
        .site_identity(&mut scopes)
        .unwrap();
    let cross_scheme = WebUrl::parse("http://b.example.co.uk/")
        .unwrap()
        .site_identity(&mut scopes)
        .unwrap();
    assert_eq!(first.ascii_serialization(), "https://example.co.uk");
    assert!(first.same_site(&second));
    assert!(!first.same_site(&cross_scheme));
}

#[test]
fn private_suffixes_isolate_sites() {
    let mut scopes = ScopeCounter::new();
    let first = WebUrl::parse("https://alice.github.io/")
        .unwrap()
        .site_identity(&mut scopes)
        .unwrap();
    let second = WebUrl::parse("https://bob.github.io/")
        .unwrap()
        .site_identity(&mut scopes)
        .unwrap();
    assert_eq!(first.ascii_serialization(), "https://alice.github.io");
    assert_eq!(second.ascii_serialization(), "https://bob.github.io");
    assert!(!first.same_site(&second));
}

#[test]
fn ip_hosts_remain_exact_site_boundaries() {
    let mut scopes = ScopeCounter::new();
    let first = WebUrl::parse("https://127.0.0.1:8443/")
        .unwrap()
        .site_identity(&mut scopes)
        .unwrap();
    let second = WebUrl::parse("https://127.0.0.1/")
        .unwrap()
        .site_identity(&mut scopes)
        .unwrap();
    let other = WebUrl::parse("https://127.0.0.2/")
        .unwrap()
        .site_identity(&mut scopes)
        .unwrap();
    assert!(first.same_site(&second));
    assert!(!first.same_site(&other));
}

#[test]
fn opaque_origins_are_unique_and_clone_preserves_identity() {
    let mut scopes = ScopeCounter::new();
    let url = WebUrl::parse("data:text/plain,hello").unwrap();
    let first = url.origin(&mut scopes).unwrap();
    let cloned = first.clone();
    let second = url.origin(&mut scopes).unwrap();
    assert!(first.is_opaque());
    assert_eq!(first, cloned);
    assert_ne!(first, second);
    assert_eq!(first.ascii_serialization(), "null");
    assert_eq!(first.site().ascii_serialization(), "null");
}

#[test]
fn blob_urls_inherit_the_embedded_tuple_origin() {
    let mut scopes = ScopeCounter::new();
    let origin = WebUrl::parse("blob:https://example.com/550e8400-e29b-41d4-a716-446655440000")
        .unwrap()
        .origin(&mut scopes)
        .unwrap();
    assert_eq!(origin.ascii_serialization(), "https://example.com");
}

#[test]
fn host_text_follows_the_standard_address_forms() {
    assert_eq!(UrlHost::Ipv4([127, 0, 0, 1]).to_string(), "127.0.0.1");
    assert_eq!(
        UrlHost::Ipv6([0x20, 0x01, 0x0d, 0xb8, 0, 0, 0, 0, 0, 0, 0, 0, 0, 0, 0, 1]).to_string(),
        "[2001:db8::1]"
    );
    assert_eq!(UrlHost::Ipv6([0; 16]).to_string(), "[::]");
    assert_eq!(
        UrlHost::Ipv6([0, 0, 0, 0, 0, 0, 0, 0, 0, 0, 0xff, 0xff, 192, 0, 2, 1]).to_string(),
        "[::ffff:192.0.2.1]"
    );
    assert_eq!(
        UrlHost::Ipv6([0, 1, 0, 0, 0, 2, 0, 0, 0, 0, 0, 3, 0, 0, 0, 0]).to_string(),
        "[1:0:2::3:0:0]"
    );
    assert_eq!(
        UrlHost::Ipv6([0, 1, 0, 0, 0, 2, 0, 3, 0, 4, 0, 5, 0, 6, 0, 7]).to_string(),
        "[1:0:2:3:4:5:6:7]"
    );
    assert_eq!(UrlHost::Domain(String::from("example.com")).to_string(), "example.com");
}

#[test]
fn origins_keep_non_default_ports_and_bracket_ipv6_hosts() {
    let mut scopes = ScopeCounter::new();
    let origin = WebUrl::parse("http://[::1]:8080/").unwrap().origin(&mut scopes).unwrap();
    assert_eq!(origin.ascii_serialization(), "http://[::1]:8080");
    let ftp = WebUrl::parse("ftp://files.example/").unwrap().origin(&mut scopes).unwrap();
    assert_eq!(ftp.ascii_serialization(), "ftp://files.example");
    match origin {
        Origin::Tuple { port, .. } => assert_eq!(port, 8080),
        Origin::Opaque(_) => panic!("expected a tuple origin"),
    }
}

#[test]
fn parse_errors_and_join_keep_the_serialization_model() {
    assert_eq!(
        WebUrl::parse("https://example.com:99999/").unwrap_err().kind,
        UrlErrorKind::InvalidPort
    );
    let base = WebUrl::parse("https://example.com/dir/").unwrap();
    assert_eq!(base.join("x").unwrap().as_str(), "https://example.com/dir/x");
    assert_eq!(base.clone(), base);
}

#[test]
fn parse_errors_carry_the_parser_description() {
    let error = WebUrl::parse("http://[::1").unwrap_err();
    assert_eq!(error.kind, UrlErrorKind::InvalidIpv6Address);
    assert_eq!(error.message, "invalid IPv6 address");
    assert_eq!(error.to_string(), "invalid IPv6 address");
    let port = WebUrl::parse("https://example.com:99999/").unwrap_err();
    assert_eq!(port.message, "invalid port number");
}
