//! URLs parsed by the WHATWG URL parser of the `url` crate, and the origin
//! and site of a URL.
//!
//! Parsing, joining and the URL's components come from the `url` crate.
//! A parsed URL is kept with its serialization, which determines it; the
//! components are stated as functions of that serialization, and what this
//! library decides from them (origins and sites) is verified.
use crate::fresh::ScopeCounter;
use crate::origin::{
    known_default_port, site_of, HostModel, OpaqueOriginId, Origin, OriginModel, SiteIdentity,
    UrlHost,
};
use vstd::prelude::*;

verus! {

#[verifier::external_type_specification]
#[verifier::external_body]
pub struct ExUrl(url::Url);

#[verifier::external_type_specification]
#[verifier::external_body]
pub struct ExUrlParseError(url::ParseError);

#[derive(Clone, Copy, Debug, PartialEq, Eq, Structural)]
pub enum UrlErrorKind {
    EmptyHost,
    InvalidInternationalDomainName,
    InvalidPort,
    InvalidIpv4Address,
    InvalidIpv6Address,
    InvalidDomainCharacter,
    RelativeWithoutBase,
    RelativeWithCannotBeABaseBase,
    CannotSetHostOnCannotBeABaseUrl,
    Overflow,
    IdentitySpaceExhausted,
    Other,
}

#[derive(Clone, Debug, PartialEq, Eq)]
pub struct UrlError {
    pub kind: UrlErrorKind,
    pub message: String,
}

impl UrlError {
    fn new(kind: UrlErrorKind, message: &str) -> (r: Self)
        ensures
            r.kind == kind,
            r.message@ == message@,
    {
        UrlError { kind, message: message.to_owned() }
    }

    /// The error for a refusal of the URL parser: its kind, and the
    /// parser's description of it.
    fn from_parse_error(parts: (UrlErrorKind, String)) -> (r: Self)
        ensures
            r.kind == parts.0,
            r.message == parts.1,
    {
        let (kind, message) = parts;
        UrlError { kind, message }
    }

    /// The error's message.
    pub fn to_string(&self) -> (r: String)
        ensures
            r@ == self.message@,
    {
        self.message.clone()
    }
}

/// The characters of a URL's serialization before its first `:`: its scheme.
pub open spec fn scheme_part(s: Seq<char>) -> Seq<char>
    decreases s.len(),
{
    if s.len() == 0 || s[0] == ':' {
        seq![]
    } else {
        seq![s[0]] + scheme_part(s.drop_first())
    }
}

/// A scheme part is a prefix of the serialization.
pub proof fn lemma_scheme_part_len(s: Seq<char>)
    ensures
        scheme_part(s).len() <= s.len(),
        s.take(scheme_part(s).len() as int) == scheme_part(s),
    decreases s.len(),
{
    if s.len() > 0 && s[0] != ':' {
        lemma_scheme_part_len(s.drop_first());
        assert(s.take(scheme_part(s).len() as int) =~= seq![s[0]] + s.drop_first().take(
            scheme_part(s.drop_first()).len() as int,
        ));
    } else {
        assert(s.take(0) =~= Seq::<char>::empty());
    }
}

/// Whether a `/` follows the `:` after the scheme.
pub open spec fn slash_after_scheme(s: Seq<char>) -> bool {
    let n = scheme_part(s).len() as int;
    s.len() > n + 1 && s[n + 1] == '/'
}

/// An optional string slice taken by its characters.
pub open spec fn opt_chars(o: Option<&str>) -> Option<Seq<char>> {
    match o {
        Some(t) => Some(t@),
        None => None,
    }
}

/// The serialization that the WHATWG parser of the `url` crate gives an
/// input, or `None` where it refuses the input.
pub uninterp spec fn url_parsed(input: Seq<char>) -> Option<Seq<char>>;

/// The serialization that resolving a reference against a base URL gives,
/// or `None` where the parser refuses it.
pub uninterp spec fn url_joined(base: Seq<char>, input: Seq<char>) -> Option<Seq<char>>;

/// The username of the URL with the given serialization.
pub uninterp spec fn url_username_of(s: Seq<char>) -> Seq<char>;

/// The password of the URL with the given serialization.
pub uninterp spec fn url_password_of(s: Seq<char>) -> Option<Seq<char>>;

/// The host of the URL with the given serialization.
pub uninterp spec fn url_host_of(s: Seq<char>) -> Option<HostModel>;

/// The explicit port of the URL with the given serialization.
pub uninterp spec fn url_port_of(s: Seq<char>) -> Option<u16>;

/// The path of the URL with the given serialization.
pub uninterp spec fn url_path_of(s: Seq<char>) -> Seq<char>;

/// The query of the URL with the given serialization.
pub uninterp spec fn url_query_of(s: Seq<char>) -> Option<Seq<char>>;

/// The fragment of the URL with the given serialization.
pub uninterp spec fn url_fragment_of(s: Seq<char>) -> Option<Seq<char>>;

/// The serialization of the URL with the given serialization once its
/// fragment is removed.
pub uninterp spec fn url_without_fragment_of(s: Seq<char>) -> Seq<char>;

/// The tuple origin (scheme, host, port) of the URL with the given
/// serialization, or `None` where its origin is opaque.
pub uninterp spec fn url_origin_of(s: Seq<char>) -> Option<(Seq<char>, HostModel, u16)>;

/// The kind of error that the WHATWG parser of the `url` crate refuses an
/// input with.
pub uninterp spec fn url_parse_error_of(input: Seq<char>) -> UrlErrorKind;

/// The kind of error that resolving a reference against a base URL is
/// refused with.
pub uninterp spec fn url_join_error_of(base: Seq<char>, input: Seq<char>) -> UrlErrorKind;

/// Calls `url::Url::parse` and keeps the parsed URL with a copy of its
/// serialization (`url::Url::as_str`). A `url::Url` is determined by its
/// serialization, which depends on the input alone: it is named
/// `url_parsed`. A refusal is read by `parse_error_parts`; its kind also
/// depends on the input alone and is named `url_parse_error_of`.
#[verifier::external_body]
fn url_parse(input: &str) -> (r: Result<WebUrl, (UrlErrorKind, String)>)
    ensures
        (match r {
            Ok(u) => url_parsed(input@) == Some(u@),
            Err(e) => url_parsed(input@) is None && e.0 == url_parse_error_of(input@)
                && e.0 != UrlErrorKind::IdentitySpaceExhausted && (e.0 != UrlErrorKind::Other ==> e.1@
                == url_error_text(e.0)),
        }),
{
    match url::Url::parse(input) {
        Ok(inner) => Ok(WebUrl { text: inner.as_str().to_owned(), inner }),
        Err(error) => Err(parse_error_parts(error)),
    }
}

/// Calls `url::Url::join`, resolving a reference against a base URL, and
/// keeps the result with a copy of its serialization, named `url_joined`.
/// A refusal is read by `parse_error_parts`; its kind depends on the base's
/// serialization and the reference alone and is named `url_join_error_of`.
#[verifier::external_body]
fn url_join(base: &WebUrl, input: &str) -> (r: Result<WebUrl, (UrlErrorKind, String)>)
    ensures
        (match r {
            Ok(u) => url_joined(base@, input@) == Some(u@),
            Err(e) => url_joined(base@, input@) is None && e.0 == url_join_error_of(base@, input@)
                && e.0 != UrlErrorKind::IdentitySpaceExhausted && (e.0 != UrlErrorKind::Other ==> e.1@
                == url_error_text(e.0)),
        }),
{
    match base.inner.join(input) {
        Ok(inner) => Ok(WebUrl { text: inner.as_str().to_owned(), inner }),
        Err(error) => Err(parse_error_parts(error)),
    }
}

/// Calls `Clone::clone` on a `url::Url`, which the crate documents and
/// compares by its serialization.
#[verifier::external_body]
fn url_clone(u: &WebUrl) -> (r: WebUrl)
    ensures
        r@ == u@,
{
    WebUrl { inner: u.inner.clone(), text: u.text.clone() }
}

/// Calls `url::Url::scheme`: the serialization up to its first `:` (the
/// parser writes the scheme, which holds no `:`, then a `:`).
#[verifier::external_body]
fn url_scheme(u: &WebUrl) -> (r: &str)
    ensures
        r@ == scheme_part(u@),
{
    u.inner.scheme()
}

/// Calls `url::Url::username`, named `url_username_of`.
#[verifier::external_body]
fn url_username(u: &WebUrl) -> (r: &str)
    ensures
        r@ == url_username_of(u@),
{
    u.inner.username()
}

/// Calls `url::Url::password`, named `url_password_of`.
#[verifier::external_body]
fn url_password(u: &WebUrl) -> (r: Option<&str>)
    ensures
        opt_chars(r) == url_password_of(u@),
{
    u.inner.password()
}

/// Calls `url::Url::host`, carrying a domain over as an owned string and an
/// address over as its octets; named `url_host_of`.
#[verifier::external_body]
fn url_host(u: &WebUrl) -> (r: Option<UrlHost>)
    ensures
        (match r {
            Some(h) => Some(h@),
            None => None,
        }) == url_host_of(u@),
{
    match u.inner.host()? {
        url::Host::Domain(domain) => Some(UrlHost::Domain(domain.to_owned())),
        url::Host::Ipv4(address) => Some(UrlHost::Ipv4(address.octets())),
        url::Host::Ipv6(address) => Some(UrlHost::Ipv6(address.octets())),
    }
}

/// Calls `url::Url::port`, the explicit port; named `url_port_of`.
#[verifier::external_body]
fn url_port(u: &WebUrl) -> (r: Option<u16>)
    ensures
        r == url_port_of(u@),
{
    u.inner.port()
}

/// Calls `url::Url::port_or_known_default`: the explicit port, else the
/// default port of the scheme (`http` and `ws` 80, `https` and `wss` 443,
/// `ftp` 21), else `None`.
#[verifier::external_body]
fn url_port_or_known_default(u: &WebUrl) -> (r: Option<u16>)
    ensures
        r == (match url_port_of(u@) {
            Some(p) => Some(p),
            None => known_default_port(scheme_part(u@)),
        }),
{
    u.inner.port_or_known_default()
}

/// Calls `url::Url::path`, named `url_path_of`.
#[verifier::external_body]
fn url_path(u: &WebUrl) -> (r: &str)
    ensures
        r@ == url_path_of(u@),
{
    u.inner.path()
}

/// Calls `url::Url::query`, named `url_query_of`.
#[verifier::external_body]
fn url_query(u: &WebUrl) -> (r: Option<&str>)
    ensures
        opt_chars(r) == url_query_of(u@),
{
    u.inner.query()
}

/// Calls `url::Url::fragment`, named `url_fragment_of`.
#[verifier::external_body]
fn url_fragment(u: &WebUrl) -> (r: Option<&str>)
    ensures
        opt_chars(r) == url_fragment_of(u@),
{
    u.inner.fragment()
}

/// Calls `url::Url::cannot_be_a_base`: whether the serialization does not
/// go on with `/` after the scheme's `:`.
#[verifier::external_body]
fn url_cannot_be_a_base(u: &WebUrl) -> (r: bool)
    ensures
        r == !slash_after_scheme(u@),
{
    u.inner.cannot_be_a_base()
}

/// Calls `url::Url::set_fragment` with no fragment on a copy of the URL;
/// the resulting serialization is named `url_without_fragment_of`.
#[verifier::external_body]
fn url_without_fragment(u: &WebUrl) -> (r: WebUrl)
    ensures
        r@ == url_without_fragment_of(u@),
{
    let mut inner = u.inner.clone();
    inner.set_fragment(None);
    WebUrl { text: inner.as_str().to_owned(), inner }
}

/// Calls `url::Url::origin`, carrying a tuple origin over as its scheme,
/// host and port; `None` stands for an opaque origin. Named
/// `url_origin_of`.
#[verifier::external_body]
fn url_origin(u: &WebUrl) -> (r: Option<(String, UrlHost, u16)>)
    ensures
        (match r {
            Some(t) => Some((t.0@, t.1@, t.2)),
            None => None,
        }) == url_origin_of(u@),
{
    match u.inner.origin() {
        url::Origin::Opaque(_) => None,
        url::Origin::Tuple(scheme, url::Host::Domain(d), port) => Some((scheme, UrlHost::Domain(d), port)),
        url::Origin::Tuple(scheme, url::Host::Ipv4(a), port) => Some((scheme, UrlHost::Ipv4(a.octets()), port)),
        url::Origin::Tuple(scheme, url::Host::Ipv6(a), port) => Some((scheme, UrlHost::Ipv6(a.octets()), port)),
    }
}

/// The description that the `Display` of `url::ParseError` writes for the
/// error of each kind.
pub open spec fn url_error_text(kind: UrlErrorKind) -> Seq<char> {
    match kind {
        UrlErrorKind::EmptyHost => "empty host"@,
        UrlErrorKind::InvalidInternationalDomainName => "invalid international domain name"@,
        UrlErrorKind::InvalidPort => "invalid port number"@,
        UrlErrorKind::InvalidIpv4Address => "invalid IPv4 address"@,
        UrlErrorKind::InvalidIpv6Address => "invalid IPv6 address"@,
        UrlErrorKind::InvalidDomainCharacter => "invalid domain character"@,
        UrlErrorKind::RelativeWithoutBase => "relative URL without a base"@,
        UrlErrorKind::RelativeWithCannotBeABaseBase => "relative URL with a cannot-be-a-base base"@,
        UrlErrorKind::CannotSetHostOnCannotBeABaseUrl => "a cannot-be-a-base URL doesn’t have a host to set"@,
        UrlErrorKind::Overflow => "URLs more than 4 GB are not supported"@,
        _ => Seq::empty(),
    }
}

/// Tells the variants of `url::ParseError` apart, one arm each, and calls
/// its `Display` for the description. The url crate's source writes a fixed
/// description for each variant, which `url_error_text` repeats; a variant
/// added in a later version comes out as `Other`, and nothing is stated of
/// its description. Nothing is stated of which variant a given error is.
#[verifier::external_body]
fn parse_error_parts(error: url::ParseError) -> (r: (UrlErrorKind, String))
    ensures
        r.0 != UrlErrorKind::IdentitySpaceExhausted,
        r.0 != UrlErrorKind::Other ==> r.1@ == url_error_text(r.0),
{
    let kind = match error {
        url::ParseError::EmptyHost => UrlErrorKind::EmptyHost,
        url::ParseError::IdnaError => UrlErrorKind::InvalidInternationalDomainName,
        url::ParseError::InvalidPort => UrlErrorKind::InvalidPort,
        url::ParseError::InvalidIpv4Address => UrlErrorKind::InvalidIpv4Address,
        url::ParseError::InvalidIpv6Address => UrlErrorKind::InvalidIpv6Address,
        url::ParseError::InvalidDomainCharacter => UrlErrorKind::InvalidDomainCharacter,
        url::ParseError::RelativeUrlWithoutBase => UrlErrorKind::RelativeWithoutBase,
        url::ParseError::RelativeUrlWithCannotBeABaseBase => UrlErrorKind::RelativeWithCannotBeABaseBase,
        url::ParseError::SetHostOnCannotBeABaseUrl => UrlErrorKind::CannotSetHostOnCannotBeABaseUrl,
        url::ParseError::Overflow => UrlErrorKind::Overflow,
        _ => UrlErrorKind::Other,
    };
    (kind, error.to_string())
}

/// A URL parsed by the WHATWG URL parser, kept with its serialization.
#[derive(Debug)]
pub struct WebUrl {
    inner: url::Url,
    text: String,
}

impl View for WebUrl {
    type V = Seq<char>;

    /// The URL's serialization.
    closed spec fn view(&self) -> Seq<char> {
        self.text@
    }
}

impl Clone for WebUrl {
    fn clone(&self) -> (r: Self)
        ensures
            r@ == self@,
    {
        url_clone(self)
    }
}

impl PartialEq for WebUrl {
    fn eq(&self, other: &Self) -> (r: bool) {
        self.text == other.text
    }
}

impl vstd::std_specs::cmp::PartialEqSpecImpl for WebUrl {
    open spec fn obeys_eq_spec() -> bool {
        true
    }

    open spec fn eq_spec(&self, other: &Self) -> bool {
        self@ == other@
    }
}

impl Eq for WebUrl {

}

impl std::str::FromStr for WebUrl {
    type Err = UrlError;

    fn from_str(input: &str) -> (r: Result<Self, UrlError>)
        ensures
            r is Ok <==> url_parsed(input@) is Some,
            r matches Ok(u) ==> url_parsed(input@) == Some(u@),
    {
        Self::parse(input)
    }
}

impl WebUrl {
    /// Parses an absolute URL.
    pub fn parse(input: &str) -> (r: Result<Self, UrlError>)
        ensures
            r is Ok <==> url_parsed(input@) is Some,
            r matches Ok(u) ==> url_parsed(input@) == Some(u@),
            r matches Err(e) ==> e.kind == url_parse_error_of(input@) && e.kind
                != UrlErrorKind::IdentitySpaceExhausted && (e.kind != UrlErrorKind::Other ==> e.message@
                == url_error_text(e.kind)),
    {
        match url_parse(input) {
            Ok(u) => Ok(u),
            Err(error) => Err(UrlError::from_parse_error(error)),
        }
    }

    /// Resolves a reference against a base URL.
    pub fn resolve(base: &Self, input: &str) -> (r: Result<Self, UrlError>)
        ensures
            r is Ok <==> url_joined(base@, input@) is Some,
            r matches Ok(u) ==> url_joined(base@, input@) == Some(u@),
            r matches Err(e) ==> e.kind == url_join_error_of(base@, input@) && e.kind
                != UrlErrorKind::IdentitySpaceExhausted && (e.kind != UrlErrorKind::Other ==> e.message@
                == url_error_text(e.kind)),
    {
        base.join(input)
    }

    /// Resolves a reference against this URL.
    pub fn join(&self, input: &str) -> (r: Result<Self, UrlError>)
        ensures
            r is Ok <==> url_joined(self@, input@) is Some,
            r matches Ok(u) ==> url_joined(self@, input@) == Some(u@),
            r matches Err(e) ==> e.kind == url_join_error_of(self@, input@) && e.kind
                != UrlErrorKind::IdentitySpaceExhausted && (e.kind != UrlErrorKind::Other ==> e.message@
                == url_error_text(e.kind)),
    {
        match url_join(self, input) {
            Ok(u) => Ok(u),
            Err(error) => Err(UrlError::from_parse_error(error)),
        }
    }

    /// The URL's serialization.
    pub fn as_str(&self) -> (r: &str)
        ensures
            r@ == self@,
    {
        self.text.as_str()
    }

    pub fn scheme(&self) -> (r: &str)
        ensures
            r@ == scheme_part(self@),
    {
        url_scheme(self)
    }

    pub fn username(&self) -> (r: &str)
        ensures
            r@ == url_username_of(self@),
    {
        url_username(self)
    }

    pub fn password(&self) -> (r: Option<&str>)
        ensures
            opt_chars(r) == url_password_of(self@),
    {
        url_password(self)
    }

    pub fn host(&self) -> (r: Option<UrlHost>)
        ensures
            (match r {
                Some(h) => Some(h@),
                None => None,
            }) == url_host_of(self@),
    {
        url_host(self)
    }

    pub fn port(&self) -> (r: Option<u16>)
        ensures
            r == url_port_of(self@),
    {
        url_port(self)
    }

    /// The explicit port, else the scheme's default port.
    pub fn port_or_known_default(&self) -> (r: Option<u16>)
        ensures
            r == (match url_port_of(self@) {
                Some(p) => Some(p),
                None => known_default_port(scheme_part(self@)),
            }),
    {
        url_port_or_known_default(self)
    }

    pub fn path(&self) -> (r: &str)
        ensures
            r@ == url_path_of(self@),
    {
        url_path(self)
    }

    pub fn query(&self) -> (r: Option<&str>)
        ensures
            opt_chars(r) == url_query_of(self@),
    {
        url_query(self)
    }

    pub fn fragment(&self) -> (r: Option<&str>)
        ensures
            opt_chars(r) == url_fragment_of(self@),
    {
        url_fragment(self)
    }

    /// Whether the URL has no `/` after its scheme, so that no reference can
    /// be resolved against it.
    pub fn cannot_be_a_base(&self) -> (r: bool)
        ensures
            r == !slash_after_scheme(self@),
    {
        url_cannot_be_a_base(self)
    }

    /// A copy of this URL without its fragment; this URL is unchanged.
    pub fn without_fragment(&self) -> (r: Self)
        ensures
            r@ == url_without_fragment_of(self@),
    {
        url_without_fragment(self)
    }

    /// The URL's origin: its scheme, host and effective port, or an opaque
    /// origin whose identity is the next value of `opaque_ids`, so that it
    /// equals only itself and its copies.
    pub fn origin(&self, opaque_ids: &mut ScopeCounter) -> (r: Result<Origin, UrlError>)
        requires
            old(opaque_ids).spec_next() >= 1,
        ensures
            (match url_origin_of(self@) {
                Some(t) => r matches Ok(o) && o@ == (OriginModel::Tuple {
                    scheme: t.0,
                    host: t.1,
                    port: t.2,
                }) && *final(opaque_ids) == *old(opaque_ids),
                None => {
                    &&& (r is Err) <==> old(opaque_ids).spec_next() == u64::MAX
                    &&& r is Err ==> *final(opaque_ids) == *old(opaque_ids)
                    &&& r is Ok ==> final(opaque_ids).spec_next() == old(opaque_ids).spec_next() + 1
                    &&& r matches Ok(o) ==> o@ == OriginModel::Opaque(old(opaque_ids).spec_next())
                    &&& r matches Err(e) ==> e.kind == UrlErrorKind::IdentitySpaceExhausted
                },
            }),
    {
        match url_origin(self) {
            Some((scheme, host, port)) => Ok(Origin::Tuple { scheme, host, port }),
            None => match opaque_ids.draw() {
                Some(v) => match OpaqueOriginId::new(v) {
                    Some(id) => Ok(Origin::Opaque(id)),
                    None => Err(
                        UrlError::new(
                            UrlErrorKind::IdentitySpaceExhausted,
                            "opaque origin identity space is exhausted",
                        ),
                    ),
                },
                None => Err(
                    UrlError::new(
                        UrlErrorKind::IdentitySpaceExhausted,
                        "opaque origin identity space is exhausted",
                    ),
                ),
            },
        }
    }

    /// The URL's schemeful site: the site of its origin.
    pub fn site_identity(&self, opaque_ids: &mut ScopeCounter) -> (r: Result<SiteIdentity, UrlError>)
        requires
            old(opaque_ids).spec_next() >= 1,
        ensures
            (match url_origin_of(self@) {
                Some(t) => r matches Ok(s) && s@ == site_of(
                    OriginModel::Tuple { scheme: t.0, host: t.1, port: t.2 },
                ) && *final(opaque_ids) == *old(opaque_ids),
                None => {
                    &&& (r is Err) <==> old(opaque_ids).spec_next() == u64::MAX
                    &&& r is Err ==> *final(opaque_ids) == *old(opaque_ids)
                    &&& r is Ok ==> final(opaque_ids).spec_next() == old(opaque_ids).spec_next() + 1
                    &&& r matches Ok(s) ==> s@ == site_of(OriginModel::Opaque(old(opaque_ids).spec_next()))
                    &&& r matches Err(e) ==> e.kind == UrlErrorKind::IdentitySpaceExhausted
                },
            }),
    {
        match self.origin(opaque_ids) {
            Ok(origin) => Ok(origin.site()),
            Err(e) => Err(e),
        }
    }
}

} // verus!
