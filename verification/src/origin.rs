//! Origins and sites: hosts, tuple and opaque origins, their identity and the
//! canonical order in which persistent storage lists them.
use crate::order::{
    bytes_order, compare_bytes, flip, int_order, lemma_bytes_order_equal, lemma_bytes_order_flip,
    lemma_bytes_order_trans, then_order, Order,
};
use crate::text::{
    decimal, hex, lemma_encode_injective, push_char, push_decimal, push_hex, push_str, str_eq,
    string_from_utf8,
};
use vstd::prelude::*;
use vstd::utf8::{
    decode_utf8, decode_utf8_encode_utf8, encode_utf8, encode_utf8_decode_utf8, valid_utf8,
};

verus! {

/// A URL host: a domain name or an IP address given by its octets.
#[derive(Debug, PartialEq, Eq, Hash)]
pub enum UrlHost {
    Domain(String),
    Ipv4([u8; 4]),
    Ipv6([u8; 16]),
}

/// What a host is, as values.
pub enum HostModel {
    Domain(Seq<char>),
    Ipv4(Seq<u8>),
    Ipv6(Seq<u8>),
}

impl View for UrlHost {
    type V = HostModel;

    open spec fn view(&self) -> HostModel {
        match self {
            UrlHost::Domain(d) => HostModel::Domain(d@),
            UrlHost::Ipv4(a) => HostModel::Ipv4(a@),
            UrlHost::Ipv6(a) => HostModel::Ipv6(a@),
        }
    }
}

impl Clone for UrlHost {
    fn clone(&self) -> (r: Self)
        ensures
            r == *self,
    {
        match self {
            UrlHost::Domain(d) => UrlHost::Domain(d.clone()),
            UrlHost::Ipv4(a) => UrlHost::Ipv4(*a),
            UrlHost::Ipv6(a) => UrlHost::Ipv6(*a),
        }
    }
}

/// The identity of an opaque origin; never zero.
#[derive(Clone, Copy, Debug, PartialEq, Eq, PartialOrd, Ord, Hash)]
pub struct OpaqueOriginId {
    value: u64,
}

impl OpaqueOriginId {
    #[verifier::type_invariant]
    spec fn nonzero(self) -> bool {
        self.value != 0
    }

    pub closed spec fn spec_get(self) -> u64 {
        self.value
    }

    /// The identity with the given value, if it is non-zero.
    pub fn new(value: u64) -> (r: Option<Self>)
        ensures
            value == 0 ==> r is None,
            value != 0 ==> (r matches Some(id) && id.spec_get() == value),
    {
        if value == 0 {
            None
        } else {
            Some(OpaqueOriginId { value })
        }
    }

    pub fn get(self) -> (r: u64)
        ensures
            r == self.spec_get(),
            r != 0,
    {
        proof {
            use_type_invariant(&self);
        }
        self.value
    }
}

/// The origin of a URL: a scheme, host and effective port, or an opaque
/// identity that equals only itself.
#[derive(Debug, PartialEq, Eq, Hash)]
pub enum Origin {
    Tuple { scheme: String, host: UrlHost, port: u16 },
    Opaque(OpaqueOriginId),
}

/// What an origin is, as values.
pub enum OriginModel {
    Tuple { scheme: Seq<char>, host: HostModel, port: u16 },
    Opaque(u64),
}

impl View for Origin {
    type V = OriginModel;

    open spec fn view(&self) -> OriginModel {
        match self {
            Origin::Tuple { scheme, host, port } => OriginModel::Tuple {
                scheme: scheme@,
                host: host@,
                port: *port,
            },
            Origin::Opaque(id) => OriginModel::Opaque(id.spec_get()),
        }
    }
}

impl Clone for Origin {
    fn clone(&self) -> (r: Self)
        ensures
            r == *self,
    {
        match self {
            Origin::Tuple { scheme, host, port } => Origin::Tuple {
                scheme: scheme.clone(),
                host: host.clone(),
                port: *port,
            },
            Origin::Opaque(id) => Origin::Opaque(*id),
        }
    }
}

impl Origin {
    pub fn is_opaque(&self) -> (r: bool)
        ensures
            r == (self@ is Opaque),
    {
        match self {
            Origin::Opaque(_) => true,
            Origin::Tuple { .. } => false,
        }
    }

    /// Whether two origins are the same origin: equal scheme, host and port,
    /// or the same opaque identity.
    pub fn same_origin(&self, other: &Self) -> (r: bool)
        ensures
            r == (self@ == other@),
    {
        let r = compare_origins(self, other);
        proof {
            lemma_origin_order_equal(self@, other@);
        }
        match r {
            Order::Equal => true,
            _ => false,
        }
    }
}

/// The rank of a host kind in the canonical order: domains, then IPv4, then
/// IPv6.
pub open spec fn host_rank(h: HostModel) -> int {
    match h {
        HostModel::Domain(_) => 0,
        HostModel::Ipv4(_) => 1,
        HostModel::Ipv6(_) => 2,
    }
}

/// The bytes that order a host within its kind.
pub open spec fn host_bytes(h: HostModel) -> Seq<u8> {
    match h {
        HostModel::Domain(d) => encode_utf8(d),
        HostModel::Ipv4(a) => a,
        HostModel::Ipv6(a) => a,
    }
}

/// The canonical order of hosts: by kind, then by UTF-8 bytes or octets.
pub open spec fn host_order(a: HostModel, b: HostModel) -> Order {
    then_order(int_order(host_rank(a), host_rank(b)), bytes_order(host_bytes(a), host_bytes(b)))
}

/// The canonical order of origins: tuple origins by scheme bytes, host and
/// port, before opaque origins, which go by identity.
pub open spec fn origin_order(a: OriginModel, b: OriginModel) -> Order {
    match (a, b) {
        (
            OriginModel::Tuple { scheme: sa, host: ha, port: pa },
            OriginModel::Tuple { scheme: sb, host: hb, port: pb },
        ) => then_order(
            bytes_order(encode_utf8(sa), encode_utf8(sb)),
            then_order(host_order(ha, hb), int_order(pa as int, pb as int)),
        ),
        (OriginModel::Tuple { .. }, OriginModel::Opaque(_)) => Order::Less,
        (OriginModel::Opaque(_), OriginModel::Tuple { .. }) => Order::Greater,
        (OriginModel::Opaque(x), OriginModel::Opaque(y)) => int_order(x as int, y as int),
    }
}


pub(crate) proof fn lemma_host_order(a: HostModel, b: HostModel, c: HostModel)
    ensures
        (host_order(a, b) == Order::Equal) <==> (a == b),
        host_order(b, a) == flip(host_order(a, b)),
        host_order(a, b) == Order::Less && host_order(b, c) == Order::Less ==> host_order(a, c)
            == Order::Less,
{
    lemma_bytes_order_equal(host_bytes(a), host_bytes(b));
    lemma_bytes_order_flip(host_bytes(a), host_bytes(b));
    if bytes_order(host_bytes(a), host_bytes(b)) == Order::Less && bytes_order(
        host_bytes(b),
        host_bytes(c),
    ) == Order::Less {
        lemma_bytes_order_trans(host_bytes(a), host_bytes(b), host_bytes(c));
    }
    lemma_bytes_order_equal(host_bytes(b), host_bytes(c));
    lemma_bytes_order_equal(host_bytes(a), host_bytes(c));
    if let (HostModel::Domain(x), HostModel::Domain(y)) = (a, b) {
        lemma_encode_injective(x, y);
    }
}

/// The canonical order is `Equal` exactly on equal origins.
pub proof fn lemma_origin_order_equal(a: OriginModel, b: OriginModel)
    ensures
        (origin_order(a, b) == Order::Equal) <==> (a == b),
{
    if let (
        OriginModel::Tuple { scheme: sa, host: ha, port: pa },
        OriginModel::Tuple { scheme: sb, host: hb, port: pb },
    ) = (a, b) {
        lemma_bytes_order_equal(encode_utf8(sa), encode_utf8(sb));
        lemma_encode_injective(sa, sb);
        lemma_host_order(ha, hb, hb);
    }
}

/// Swapping the operands flips the canonical order.
pub proof fn lemma_origin_order_flip(a: OriginModel, b: OriginModel)
    ensures
        origin_order(b, a) == flip(origin_order(a, b)),
{
    if let (
        OriginModel::Tuple { scheme: sa, host: ha, port: pa },
        OriginModel::Tuple { scheme: sb, host: hb, port: pb },
    ) = (a, b) {
        lemma_bytes_order_flip(encode_utf8(sa), encode_utf8(sb));
        lemma_host_order(ha, hb, hb);
    }
}

/// The canonical order is transitive.
pub proof fn lemma_origin_order_trans(a: OriginModel, b: OriginModel, c: OriginModel)
    requires
        origin_order(a, b) == Order::Less,
        origin_order(b, c) == Order::Less,
    ensures
        origin_order(a, c) == Order::Less,
{
    if let (
        OriginModel::Tuple { scheme: sa, host: ha, port: pa },
        OriginModel::Tuple { scheme: sb, host: hb, port: pb },
        OriginModel::Tuple { scheme: sc, host: hc, port: pc },
    ) = (a, b, c) {
        let (ea, eb, ec) = (encode_utf8(sa), encode_utf8(sb), encode_utf8(sc));
        lemma_bytes_order_equal(ea, eb);
        lemma_bytes_order_equal(eb, ec);
        lemma_bytes_order_equal(ea, ec);
        if bytes_order(ea, eb) == Order::Less && bytes_order(eb, ec) == Order::Less {
            lemma_bytes_order_trans(ea, eb, ec);
        }
        lemma_host_order(ha, hb, hc);
        lemma_host_order(ha, hc, hc);
        lemma_host_order(hb, hc, hc);
    }
}

pub(crate) fn compare_hosts(a: &UrlHost, b: &UrlHost) -> (r: Order)
    ensures
        r == host_order(a@, b@),
{
    match (a, b) {
        (UrlHost::Domain(x), UrlHost::Domain(y)) => compare_bytes(
            x.as_str().as_bytes(),
            y.as_str().as_bytes(),
        ),
        (UrlHost::Ipv4(x), UrlHost::Ipv4(y)) => compare_bytes(x, y),
        (UrlHost::Ipv6(x), UrlHost::Ipv6(y)) => compare_bytes(x, y),
        (UrlHost::Domain(_), _) => Order::Less,
        (_, UrlHost::Domain(_)) => Order::Greater,
        (UrlHost::Ipv4(_), _) => Order::Less,
        (_, UrlHost::Ipv4(_)) => Order::Greater,
    }
}

fn compare_ports(a: u16, b: u16) -> (r: Order)
    ensures
        r == int_order(a as int, b as int),
{
    if a < b {
        Order::Less
    } else if a == b {
        Order::Equal
    } else {
        Order::Greater
    }
}

/// Compares two origins in the canonical order.
pub fn compare_origins(a: &Origin, b: &Origin) -> (r: Order)
    ensures
        r == origin_order(a@, b@),
{
    match (a, b) {
        (
            Origin::Tuple { scheme: sa, host: ha, port: pa },
            Origin::Tuple { scheme: sb, host: hb, port: pb },
        ) => {
            let first = compare_bytes(sa.as_str().as_bytes(), sb.as_str().as_bytes());
            match first {
                Order::Equal => {
                    let second = compare_hosts(ha, hb);
                    match second {
                        Order::Equal => compare_ports(*pa, *pb),
                        _ => second,
                    }
                },
                _ => first,
            }
        },
        (Origin::Tuple { .. }, Origin::Opaque(_)) => Order::Less,
        (Origin::Opaque(_), Origin::Tuple { .. }) => Order::Greater,
        (Origin::Opaque(x), Origin::Opaque(y)) => {
            let (u, v) = (x.get(), y.get());
            if u < v {
                Order::Less
            } else if u == v {
                Order::Equal
            } else {
                Order::Greater
            }
        },
    }
}


/// A schemeful site: a scheme and a registrable host, or the opaque identity
/// of an opaque origin.
#[derive(Debug, PartialEq, Eq, Hash)]
pub enum SiteIdentity {
    Tuple { scheme: String, host: UrlHost },
    Opaque(OpaqueOriginId),
}

/// What a site is, as values.
pub enum SiteModel {
    Tuple { scheme: Seq<char>, host: HostModel },
    Opaque(u64),
}

impl View for SiteIdentity {
    type V = SiteModel;

    open spec fn view(&self) -> SiteModel {
        match self {
            SiteIdentity::Tuple { scheme, host } => SiteModel::Tuple { scheme: scheme@, host: host@ },
            SiteIdentity::Opaque(id) => SiteModel::Opaque(id.spec_get()),
        }
    }
}

impl Clone for SiteIdentity {
    fn clone(&self) -> (r: Self)
        ensures
            r == *self,
    {
        match self {
            SiteIdentity::Tuple { scheme, host } => SiteIdentity::Tuple {
                scheme: scheme.clone(),
                host: host.clone(),
            },
            SiteIdentity::Opaque(id) => SiteIdentity::Opaque(*id),
        }
    }
}

impl SiteIdentity {
    pub fn is_opaque(&self) -> (r: bool)
        ensures
            r == (self@ is Opaque),
    {
        match self {
            SiteIdentity::Opaque(_) => true,
            SiteIdentity::Tuple { .. } => false,
        }
    }

    /// Whether two sites are the same site: equal scheme and host, or the
    /// same opaque identity.
    pub fn same_site(&self, other: &Self) -> (r: bool)
        ensures
            r == (self@ == other@),
    {
        match (self, other) {
            (SiteIdentity::Tuple { scheme: sa, host: ha }, SiteIdentity::Tuple { scheme: sb, host: hb }) => {
                if *sa != *sb {
                    return false;
                }
                let c = compare_hosts(ha, hb);
                proof {
                    lemma_host_order(ha@, hb@, hb@);
                }
                match c {
                    Order::Equal => true,
                    _ => false,
                }
            },
            (SiteIdentity::Opaque(x), SiteIdentity::Opaque(y)) => x.get() == y.get(),
            _ => false,
        }
    }
}


/// The registrable domain that the public suffix list gives for a name, as
/// bytes, if it gives one.
pub uninterp spec fn registrable_domain_of(name: Seq<u8>) -> Option<Seq<u8>>;

/// Calls `psl::domain`, the registrable domain of a name under the public
/// suffix list, carried over as its bytes. The result depends on the name
/// alone and is named `registrable_domain_of`.
#[verifier::external_body]
fn psl_registrable_domain(name: &[u8]) -> (r: Option<Vec<u8>>)
    ensures
        (match r {
            Some(v) => Some(v@),
            None => None::<Seq<u8>>,
        }) == registrable_domain_of(name@),
{
    psl::domain(name).map(|domain| domain.as_bytes().to_vec())
}

/// The host that stands for a host's site: a domain's registrable domain
/// when the public suffix list gives one in UTF-8, otherwise the host itself.
pub open spec fn site_host_of(h: HostModel) -> HostModel {
    match h {
        HostModel::Domain(d) => match registrable_domain_of(encode_utf8(d)) {
            Some(b) => if valid_utf8(b) {
                HostModel::Domain(decode_utf8(b))
            } else {
                h
            },
            None => h,
        },
        _ => h,
    }
}

/// The schemeful site of an origin.
pub open spec fn site_of(o: OriginModel) -> SiteModel {
    match o {
        OriginModel::Tuple { scheme, host, .. } => SiteModel::Tuple { scheme, host: site_host_of(host) },
        OriginModel::Opaque(id) => SiteModel::Opaque(id),
    }
}

/// The host that stands for a host's site.
pub fn site_host(host: &UrlHost) -> (r: UrlHost)
    ensures
        r@ == site_host_of(host@),
{
    match host {
        UrlHost::Domain(domain) => match psl_registrable_domain(domain.as_str().as_bytes()) {
            Some(bytes) => {
                let ghost raw = bytes@;
                match string_from_utf8(bytes) {
                    Some(registrable) => {
                        proof {
                            decode_utf8_encode_utf8(raw);
                            encode_utf8_decode_utf8(registrable@);
                        }
                        UrlHost::Domain(registrable)
                    },
                    None => UrlHost::Domain(domain.clone()),
                }
            },
            None => UrlHost::Domain(domain.clone()),
        },
        UrlHost::Ipv4(a) => UrlHost::Ipv4(*a),
        UrlHost::Ipv6(a) => UrlHost::Ipv6(*a),
    }
}

impl Origin {
    /// The origin's schemeful site: scheme and registrable host for a tuple
    /// origin, the same opaque identity for an opaque one.
    pub fn site(&self) -> (r: SiteIdentity)
        ensures
            r@ == site_of(self@),
    {
        match self {
            Origin::Tuple { scheme, host, .. } => SiteIdentity::Tuple {
                scheme: scheme.clone(),
                host: site_host(host),
            },
            Origin::Opaque(id) => SiteIdentity::Opaque(*id),
        }
    }
}


/// The dotted-decimal form of an IPv4 address given by its four octets.
pub open spec fn ipv4_text(o: Seq<u8>) -> Seq<char> {
    decimal(o[0] as nat) + seq!['.'] + decimal(o[1] as nat) + seq!['.'] + decimal(o[2] as nat)
        + seq!['.'] + decimal(o[3] as nat)
}

/// The sixteen-bit groups of an IPv6 address given by its sixteen octets.
pub open spec fn ipv6_segments(o: Seq<u8>) -> Seq<u16> {
    Seq::new(8, |i: int| (o[2 * i] as nat * 256 + o[2 * i + 1] as nat) as u16)
}

/// Whether an IPv6 address is an IPv4-mapped one, `::ffff:a.b.c.d`.
pub open spec fn is_ipv4_mapped(o: Seq<u8>) -> bool {
    &&& forall|i: int| 0 <= i < 10 ==> o[i] == 0
    &&& o[10] == 0xff
    &&& o[11] == 0xff
}

/// The number of zero groups in a row from index `i` on.
pub open spec fn zero_run(s: Seq<u16>, i: int) -> nat
    decreases s.len() - i,
{
    if 0 <= i < s.len() && s[i] == 0 {
        1 + zero_run(s, i + 1)
    } else {
        0
    }
}

/// The longest run of zero groups that starts at or after index `i`, as its
/// start and length; of equally long runs, the first.
pub open spec fn longest_zero_run(s: Seq<u16>, i: int) -> (int, nat)
    decreases s.len() - i,
{
    if i >= s.len() {
        (s.len() as int, 0)
    } else {
        let rest = longest_zero_run(s, i + 1);
        if zero_run(s, i) >= rest.1 {
            (i, zero_run(s, i))
        } else {
            rest
        }
    }
}

/// Groups in lowercase hexadecimal, separated by colons.
pub open spec fn hex_groups(s: Seq<u16>) -> Seq<char>
    decreases s.len(),
{
    if s.len() == 0 {
        seq![]
    } else if s.len() == 1 {
        hex(s[0] as nat)
    } else {
        hex_groups(s.drop_last()) + seq![':'] + hex(s.last() as nat)
    }
}

/// The text of an IPv6 address: an IPv4-mapped address as `::ffff:` and its
/// dotted-decimal IPv4 part; otherwise its groups in lowercase hexadecimal,
/// with the longest run of two or more zero groups (the first, of equally
/// long ones) written as `::`.
pub open spec fn ipv6_text(o: Seq<u8>) -> Seq<char> {
    if is_ipv4_mapped(o) {
        seq![':', ':', 'f', 'f', 'f', 'f', ':'] + ipv4_text(o.subrange(12, 16))
    } else {
        let s = ipv6_segments(o);
        let run = longest_zero_run(s, 0);
        if run.1 > 1 {
            hex_groups(s.subrange(0, run.0)) + seq![':', ':'] + hex_groups(
                s.subrange(run.0 + run.1, 8),
            )
        } else {
            hex_groups(s)
        }
    }
}

/// The text of a host: a domain as it is, an IPv4 address in dotted decimal,
/// an IPv6 address in brackets.
pub open spec fn host_text(h: HostModel) -> Seq<char> {
    match h {
        HostModel::Domain(d) => d,
        HostModel::Ipv4(o) => ipv4_text(o),
        HostModel::Ipv6(o) => seq!['['] + ipv6_text(o) + seq![']'],
    }
}

/// The port that a scheme uses when a URL names none.
pub open spec fn known_default_port(scheme: Seq<char>) -> Option<u16> {
    if scheme == seq!['f', 't', 'p'] {
        Some(21u16)
    } else if scheme == seq!['h', 't', 't', 'p'] || scheme == seq!['w', 's'] {
        Some(80u16)
    } else if scheme == seq!['h', 't', 't', 'p', 's'] || scheme == seq!['w', 's', 's'] {
        Some(443u16)
    } else {
        None
    }
}

/// The ASCII serialization of an origin: `null` for an opaque origin,
/// otherwise `scheme://host`, followed by `:port` unless the port is the
/// scheme's default.
pub open spec fn origin_text(o: OriginModel) -> Seq<char> {
    match o {
        OriginModel::Opaque(_) => seq!['n', 'u', 'l', 'l'],
        OriginModel::Tuple { scheme, host, port } => scheme + seq![':', '/', '/'] + host_text(host)
            + if known_default_port(scheme) == Some(port) {
            seq![]
        } else {
            seq![':'] + decimal(port as nat)
        },
    }
}

/// The ASCII serialization of a site: `null` for an opaque site, otherwise
/// `scheme://host`.
pub open spec fn site_text(s: SiteModel) -> Seq<char> {
    match s {
        SiteModel::Opaque(_) => seq!['n', 'u', 'l', 'l'],
        SiteModel::Tuple { scheme, host } => scheme + seq![':', '/', '/'] + host_text(host),
    }
}

fn push_ipv4(out: &mut String, o: &[u8])
    requires
        o@.len() == 4,
    ensures
        final(out)@ == old(out)@ + ipv4_text(o@),
{
    let ghost start = out@;
    push_decimal(out, o[0] as usize);
    push_char(out, '.');
    push_decimal(out, o[1] as usize);
    push_char(out, '.');
    push_decimal(out, o[2] as usize);
    push_char(out, '.');
    push_decimal(out, o[3] as usize);
    assert(out@ =~= start + ipv4_text(o@));
}

fn push_hex_groups(out: &mut String, groups: &Vec<u16>, from: usize, to: usize)
    requires
        from <= to <= groups@.len(),
    ensures
        final(out)@ == old(out)@ + hex_groups(groups@.subrange(from as int, to as int)),
{
    let ghost start = out@;
    let mut k = from;
    assert(groups@.subrange(from as int, from as int) =~= Seq::<u16>::empty());
    assert(start + Seq::<char>::empty() =~= start);
    while k < to
        invariant
            from <= k <= to <= groups@.len(),
            out@ == start + hex_groups(groups@.subrange(from as int, k as int)),
        decreases to - k,
    {
        let ghost before = out@;
        let ghost done = groups@.subrange(from as int, k as int);
        let ghost next = groups@.subrange(from as int, k + 1);
        assert(next.drop_last() =~= done);
        assert(next.last() == groups@[k as int]);
        if k > from {
            push_char(out, ':');
            push_hex(out, groups[k]);
            assert(out@ =~= start + (hex_groups(done) + seq![':'] + hex(groups@[k as int] as nat)));
        } else {
            push_hex(out, groups[k]);
            assert(out@ =~= start + hex(groups@[k as int] as nat));
        }
        k = k + 1;
    }
}

fn push_ipv6(out: &mut String, o: &[u8; 16])
    ensures
        final(out)@ == old(out)@ + ipv6_text(o@),
{
    let ghost start = out@;
    let mut leading_zero = true;
    let mut i: usize = 0;
    while i < 10
        invariant
            i <= 10,
            o@.len() == 16,
            leading_zero == (forall|j: int| 0 <= j < i ==> o@[j] == 0),
        decreases 10 - i,
    {
        if o[i] != 0 {
            leading_zero = false;
        }
        i = i + 1;
    }
    if leading_zero && o[10] == 0xff && o[11] == 0xff {
        push_char(out, ':');
        push_char(out, ':');
        push_char(out, 'f');
        push_char(out, 'f');
        push_char(out, 'f');
        push_char(out, 'f');
        push_char(out, ':');
        let ghost mid = out@;
        push_ipv4(out, &o[12..16]);
        assert(o@.subrange(12, 16) =~= o@.subrange(12, 16));
        assert(out@ =~= start + ipv6_text(o@));
        return;
    }
    let ghost s = ipv6_segments(o@);
    let mut groups: Vec<u16> = Vec::new();
    let mut k: usize = 0;
    while k < 8
        invariant
            k <= 8,
            o@.len() == 16,
            s == ipv6_segments(o@),
            groups@ == s.take(k as int),
        decreases 8 - k,
    {
        let g = (o[2 * k] as u16) * 256 + (o[2 * k + 1] as u16);
        groups.push(g);
        k = k + 1;
        assert(groups@ =~= s.take(k as int));
    }
    assert(groups@ =~= s);
    let mut best_start: usize = 8;
    let mut best_len: usize = 0;
    let mut run: usize = 0;
    let mut i: usize = 8;
    while i > 0
        invariant
            i <= 8,
            groups@ == s,
            s.len() == 8,
            run as nat == zero_run(s, i as int),
            (best_start as int, best_len as nat) == longest_zero_run(s, i as int),
            run <= 8 - i,
            best_len <= 8 - i,
            i <= best_start <= 8,
            best_start + best_len <= 8,
        decreases i,
    {
        i = i - 1;
        if groups[i] == 0 {
            run = run + 1;
        } else {
            run = 0;
        }
        if run >= best_len {
            best_start = i;
            best_len = run;
        }
        proof {
            assert(zero_run(s, i as int) == if s[i as int] == 0 {
                1 + zero_run(s, i + 1)
            } else {
                0
            });
        }
    }
    if best_len > 1 {
        push_hex_groups(out, &groups, 0, best_start);
        push_char(out, ':');
        push_char(out, ':');
        push_hex_groups(out, &groups, best_start + best_len, 8);
    } else {
        push_hex_groups(out, &groups, 0, 8);
        assert(s.subrange(0, 8) =~= s);
    }
    assert(out@ =~= start + ipv6_text(o@));
}

impl UrlHost {
    /// The host's text: a domain as it is, an IPv4 address in dotted
    /// decimal, an IPv6 address in brackets.
    pub fn to_string(&self) -> (r: String)
        ensures
            r@ == host_text(self@),
    {
        let mut out = String::new();
        push_host(&mut out, self);
        out
    }
}

fn push_host(out: &mut String, host: &UrlHost)
    ensures
        final(out)@ == old(out)@ + host_text(host@),
{
    let ghost start = out@;
    match host {
        UrlHost::Domain(d) => push_str(out, d.as_str()),
        UrlHost::Ipv4(a) => push_ipv4(out, a),
        UrlHost::Ipv6(a) => {
            push_char(out, '[');
            push_ipv6(out, a);
            push_char(out, ']');
            assert(out@ =~= start + host_text(host@));
        },
    }
}

/// The port that a scheme uses when a URL names none.
pub fn default_port_for(scheme: &str) -> (r: Option<u16>)
    ensures
        r == known_default_port(scheme@),
{
    proof {
        reveal_strlit("ftp");
        reveal_strlit("http");
        reveal_strlit("ws");
        reveal_strlit("https");
        reveal_strlit("wss");
        assert("ftp"@ =~= seq!['f', 't', 'p']);
        assert("http"@ =~= seq!['h', 't', 't', 'p']);
        assert("ws"@ =~= seq!['w', 's']);
        assert("https"@ =~= seq!['h', 't', 't', 'p', 's']);
        assert("wss"@ =~= seq!['w', 's', 's']);
    }
    if str_eq(scheme, "ftp") {
        Some(21)
    } else if str_eq(scheme, "http") || str_eq(scheme, "ws") {
        Some(80)
    } else if str_eq(scheme, "https") || str_eq(scheme, "wss") {
        Some(443)
    } else {
        None
    }
}

fn push_scheme_and_host(out: &mut String, scheme: &String, host: &UrlHost)
    ensures
        final(out)@ == old(out)@ + (scheme@ + seq![':', '/', '/'] + host_text(host@)),
{
    let ghost start = out@;
    push_str(out, scheme.as_str());
    push_char(out, ':');
    push_char(out, '/');
    push_char(out, '/');
    push_host(out, host);
    assert(out@ =~= start + (scheme@ + seq![':', '/', '/'] + host_text(host@)));
}

fn null_text() -> (r: String)
    ensures
        r@ == seq!['n', 'u', 'l', 'l'],
{
    let mut out = String::new();
    push_char(&mut out, 'n');
    push_char(&mut out, 'u');
    push_char(&mut out, 'l');
    push_char(&mut out, 'l');
    assert(out@ =~= seq!['n', 'u', 'l', 'l']);
    out
}

impl Origin {
    /// The ASCII serialization: `null` for an opaque origin, otherwise
    /// `scheme://host`, with `:port` unless the port is the scheme's default.
    pub fn ascii_serialization(&self) -> (r: String)
        ensures
            r@ == origin_text(self@),
    {
        match self {
            Origin::Opaque(_) => null_text(),
            Origin::Tuple { scheme, host, port } => {
                let mut out = String::new();
                push_scheme_and_host(&mut out, scheme, host);
                let ghost head = out@;
                if default_port_for(scheme.as_str()) != Some(*port) {
                    push_char(&mut out, ':');
                    push_decimal(&mut out, *port as usize);
                    assert(out@ =~= head + (seq![':'] + decimal(*port as nat)));
                } else {
                    assert(out@ =~= head + Seq::<char>::empty());
                }
                out
            },
        }
    }
}

impl SiteIdentity {
    /// The ASCII serialization: `null` for an opaque site, otherwise
    /// `scheme://host`.
    pub fn ascii_serialization(&self) -> (r: String)
        ensures
            r@ == site_text(self@),
    {
        match self {
            SiteIdentity::Opaque(_) => null_text(),
            SiteIdentity::Tuple { scheme, host } => {
                let mut out = String::new();
                push_scheme_and_host(&mut out, scheme, host);
                out
            },
        }
    }
}

} // verus!
