//! WebSocket protocol values: limits, subprotocol lists, close intents, the
//! connection lifecycle and bounded messages.
use crate::text::{
    copy_bytes, push_char, push_str, size_message, size_text, str_eq, utf8_byte_len, utf8_len,
};
use crate::origin::Origin;
use crate::web_url::{
    lemma_scheme_part_len, scheme_part, url_fragment_of, url_parsed, url_path_of, url_query_of,
    UrlError, WebUrl,
};
use vstd::prelude::*;
use vstd::utf8::{encode_utf8, is_ascii_chars, is_ascii_chars_encode_utf8};

verus! {

pub const DEFAULT_MAX_WEBSOCKET_URL_BYTES: usize = 65536;

pub const DEFAULT_MAX_WEBSOCKET_SUBPROTOCOLS: usize = 32;

pub const DEFAULT_MAX_WEBSOCKET_SUBPROTOCOL_BYTES: usize = 256;

pub const DEFAULT_MAX_WEBSOCKET_MESSAGE_BYTES: usize = 16777216;

pub const MAX_WEBSOCKET_CLOSE_REASON_BYTES: usize = 123;

#[derive(Clone, Copy, Debug, PartialEq, Eq, Structural)]
pub struct WebSocketLimits {
    pub max_url_bytes: usize,
    pub max_subprotocols: usize,
    pub max_subprotocol_bytes: usize,
    pub max_message_bytes: usize,
}

impl WebSocketLimits {
    pub open spec fn spec_is_valid(self) -> bool {
        self.max_url_bytes > 0 && self.max_subprotocols > 0 && self.max_subprotocol_bytes > 0
            && self.max_message_bytes > 0
    }

    /// All limits are non-zero.
    #[verifier::when_used_as_spec(spec_is_valid)]
    pub fn is_valid(self) -> (r: bool)
        ensures
            r == self.spec_is_valid(),
    {
        self.max_url_bytes > 0 && self.max_subprotocols > 0 && self.max_subprotocol_bytes > 0
            && self.max_message_bytes > 0
    }
}

impl Default for WebSocketLimits {
    fn default() -> (r: Self)
        ensures
            r == (WebSocketLimits {
                max_url_bytes: DEFAULT_MAX_WEBSOCKET_URL_BYTES,
                max_subprotocols: DEFAULT_MAX_WEBSOCKET_SUBPROTOCOLS,
                max_subprotocol_bytes: DEFAULT_MAX_WEBSOCKET_SUBPROTOCOL_BYTES,
                max_message_bytes: DEFAULT_MAX_WEBSOCKET_MESSAGE_BYTES,
            }),
    {
        WebSocketLimits {
            max_url_bytes: DEFAULT_MAX_WEBSOCKET_URL_BYTES,
            max_subprotocols: DEFAULT_MAX_WEBSOCKET_SUBPROTOCOLS,
            max_subprotocol_bytes: DEFAULT_MAX_WEBSOCKET_SUBPROTOCOL_BYTES,
            max_message_bytes: DEFAULT_MAX_WEBSOCKET_MESSAGE_BYTES,
        }
    }
}

#[derive(Clone, Copy, Debug, PartialEq, Eq, Structural)]
pub enum WebSocketErrorKind {
    InvalidLimits,
    InvalidUrl,
    InvalidScheme,
    FragmentNotAllowed,
    UrlLimitExceeded,
    SubprotocolCountLimitExceeded,
    SubprotocolBytesLimitExceeded,
    InvalidSubprotocol,
    DuplicateSubprotocol,
    MessageLimitExceeded,
}

#[derive(Clone, Debug, PartialEq, Eq)]
pub struct WebSocketError {
    pub kind: WebSocketErrorKind,
    pub message: String,
}

impl WebSocketError {
    pub(crate) fn new(kind: WebSocketErrorKind, message: String) -> (r: Self)
        ensures
            r.kind == kind,
            r.message@ == message@,
    {
        WebSocketError { kind, message }
    }

    /// The error's message.
    pub fn to_string(&self) -> (r: String)
        ensures
            r@ == self.message@,
    {
        self.message.clone()
    }
}

fn invalid_limits_error() -> (r: WebSocketError)
    ensures
        r.kind == WebSocketErrorKind::InvalidLimits,
        r.message@ == "WebSocket limits must all be non-zero"@,
{
    WebSocketError::new(
        WebSocketErrorKind::InvalidLimits,
        "WebSocket limits must all be non-zero".to_owned(),
    )
}

/// A byte that may appear in an HTTP token (RFC 9110 `tchar`).
pub open spec fn is_http_token_byte(b: u8) -> bool {
    ||| b == 33
    ||| 35 <= b <= 39
    ||| b == 42
    ||| b == 43
    ||| b == 45
    ||| b == 46
    ||| 48 <= b <= 57
    ||| 65 <= b <= 90
    ||| 94 <= b <= 122
    ||| b == 124
    ||| b == 126
}

fn http_token_byte(b: u8) -> (r: bool)
    ensures
        r == is_http_token_byte(b),
{
    b == 33 || (35 <= b && b <= 39) || b == 42 || b == 43 || b == 45 || b == 46 || (48 <= b && b
        <= 57) || (65 <= b && b <= 90) || (94 <= b && b <= 122) || b == 124 || b == 126
}

/// A non-empty string whose UTF-8 bytes are all HTTP token bytes.
pub open spec fn is_http_token(s: Seq<char>) -> bool {
    &&& s.len() > 0
    &&& forall|i: int|
        0 <= i < encode_utf8(s).len() ==> is_http_token_byte(#[trigger] encode_utf8(s)[i])
}

/// A character of an RFC 9110 token (`tchar`): one of
/// `! # $ % & ' * + - . ^ _ ` | ~`, an ASCII digit or an ASCII letter.
pub open spec fn is_tchar(c: char) -> bool {
    ||| c == '!' || c == '#' || c == '$' || c == '%' || c == '&' || c == '\''
    ||| c == '*' || c == '+' || c == '-' || c == '.' || c == '^' || c == '_'
    ||| c == '`' || c == '|' || c == '~'
    ||| '0' <= c <= '9'
    ||| 'a' <= c <= 'z'
    ||| 'A' <= c <= 'Z'
}

/// A non-empty string of RFC 9110 `tchar`s is an HTTP token.
pub proof fn lemma_tchars_make_a_token(value: Seq<char>)
    requires
        value.len() > 0,
        forall|i: int| 0 <= i < value.len() ==> is_tchar(#[trigger] value[i]),
    ensures
        is_http_token(value),
{
    assert(is_ascii_chars(value)) by {
        assert forall|i: int| 0 <= i < value.len() implies '\0' <= #[trigger] value[i] <= '\u{7f}' by {
            assert(is_tchar(value[i]));
        }
    }
    is_ascii_chars_encode_utf8(value);
    assert forall|i: int| 0 <= i < encode_utf8(value).len() implies is_http_token_byte(
        #[trigger] encode_utf8(value)[i],
    ) by {
        assert(is_tchar(value[i]));
        assert(value[i] as u8 == encode_utf8(value)[i]);
    }
}

/// A subprotocol made of RFC 9110 `tchar`s, non-empty and within the byte
/// limit, is accepted.
pub proof fn lemma_tchar_subprotocol_accepted(value: Seq<char>, limits: WebSocketLimits)
    requires
        value.len() > 0,
        forall|i: int| 0 <= i < value.len() ==> is_tchar(#[trigger] value[i]),
        utf8_len(value) <= limits.max_subprotocol_bytes,
    ensures
        subprotocol_problem(value, limits) is None,
{
    lemma_tchars_make_a_token(value);
}

/// A list of distinct subprotocols, each a non-empty string of RFC 9110
/// `tchar`s within the byte limit, is accepted as a whole.
pub proof fn lemma_tchar_subprotocol_list_accepted(values: Seq<Seq<char>>, limits: WebSocketLimits)
    requires
        forall|k: int| 0 <= k < values.len() ==> (#[trigger] values[k]).len() > 0 && utf8_len(values[k])
            <= limits.max_subprotocol_bytes && forall|i: int| 0 <= i < values[k].len() ==> is_tchar(
            #[trigger] values[k][i],
        ),
        forall|a: int, b: int| 0 <= a < b < values.len() ==> values[a] != values[b],
    ensures
        subprotocol_list_problem(values, limits) is None,
    decreases values.len(),
{
    if values.len() > 0 {
        let rest = values.drop_last();
        assert forall|k: int| 0 <= k < rest.len() implies (#[trigger] rest[k]).len() > 0 && utf8_len(rest[k])
            <= limits.max_subprotocol_bytes && forall|i: int| 0 <= i < rest[k].len() ==> is_tchar(
            #[trigger] rest[k][i],
        ) by {
            assert(rest[k] == values[k]);
        }
        lemma_tchar_subprotocol_list_accepted(rest, limits);
        let last = values[values.len() - 1];
        assert(values.last() == last);
        if rest.contains(last) {
            let a = choose|a: int| 0 <= a < rest.len() && rest[a] == last;
            assert(values[a] == values[values.len() - 1]);
        }
        lemma_tchar_subprotocol_accepted(last, limits);
    }
}

/// Why a single subprotocol is refused, if it is.
pub open spec fn subprotocol_problem(value: Seq<char>, limits: WebSocketLimits) -> Option<
    WebSocketErrorKind,
> {
    if utf8_len(value) > limits.max_subprotocol_bytes {
        Some(WebSocketErrorKind::SubprotocolBytesLimitExceeded)
    } else if !is_http_token(value) {
        Some(WebSocketErrorKind::InvalidSubprotocol)
    } else {
        None
    }
}

/// Why a list of subprotocols is refused, checking them in order: each one
/// must not repeat an earlier one (exactly, case included) and must itself be
/// acceptable.
pub open spec fn subprotocol_list_problem(values: Seq<Seq<char>>, limits: WebSocketLimits) -> Option<
    WebSocketErrorKind,
>
    decreases values.len(),
{
    if values.len() == 0 {
        None
    } else {
        match subprotocol_list_problem(values.drop_last(), limits) {
            Some(kind) => Some(kind),
            None => if values.drop_last().contains(values.last()) {
                Some(WebSocketErrorKind::DuplicateSubprotocol)
            } else {
                subprotocol_problem(values.last(), limits)
            },
        }
    }
}

#[derive(Clone, Debug, PartialEq, Eq)]
pub struct WebSocketSubprotocol {
    value: String,
}

impl WebSocketSubprotocol {
    pub closed spec fn spec_value(&self) -> Seq<char> {
        self.value@
    }

    pub(crate) fn parse(value: &str, limits: WebSocketLimits) -> (r: Result<Self, WebSocketError>)
        ensures
            match subprotocol_problem(value@, limits) {
                Some(kind) => r matches Err(e) && e.kind == kind,
                None => r matches Ok(p) && p.spec_value() == value@,
            },
    {
        let bytes_len = utf8_byte_len(value);
        if bytes_len > limits.max_subprotocol_bytes {
            return Err(
                WebSocketError::new(
                    WebSocketErrorKind::SubprotocolBytesLimitExceeded,
                    size_message("WebSocket subprotocol", bytes_len, limits.max_subprotocol_bytes),
                ),
            );
        }
        let bytes = value.as_bytes();
        let empty = value.is_empty();
        let mut all_token = true;
        let mut i: usize = 0;
        while i < bytes.len()
            invariant
                bytes@ == encode_utf8(value@),
                0 <= i <= bytes@.len(),
                all_token == forall|k: int| 0 <= k < i ==> is_http_token_byte(#[trigger] bytes@[k]),
            decreases bytes@.len() - i,
        {
            if !http_token_byte(bytes[i]) {
                all_token = false;
            }
            i = i + 1;
        }
        if empty || !all_token {
            return Err(
                WebSocketError::new(
                    WebSocketErrorKind::InvalidSubprotocol,
                    "WebSocket subprotocol must be a non-empty HTTP token".to_owned(),
                ),
            );
        }
        Ok(WebSocketSubprotocol { value: value.to_owned() })
    }

    pub fn as_str(&self) -> (r: &str)
        ensures
            r@ == self.spec_value(),
    {
        self.value.as_str()
    }
}

#[derive(Clone, Debug, PartialEq, Eq)]
pub struct WebSocketProtocols {
    values: Vec<WebSocketSubprotocol>,
}

impl View for WebSocketProtocols {
    type V = Seq<Seq<char>>;

    closed spec fn view(&self) -> Seq<Seq<char>> {
        self.values@.map_values(|p: WebSocketSubprotocol| p.spec_value())
    }
}

/// The character sequences of a slice of string slices.
pub open spec fn str_views(values: Seq<&str>) -> Seq<Seq<char>> {
    values.map_values(|s: &str| s@)
}

impl WebSocketProtocols {
    /// Validates the requested subprotocols, keeping their order.
    pub fn try_new(values: &[&str], limits: WebSocketLimits) -> (r: Result<Self, WebSocketError>)
        ensures
            !limits.spec_is_valid() ==> (r matches Err(e) && e.kind
                == WebSocketErrorKind::InvalidLimits),
            limits.spec_is_valid() && values@.len() > limits.max_subprotocols ==> (r matches Err(e)
                && e.kind == WebSocketErrorKind::SubprotocolCountLimitExceeded),
            limits.spec_is_valid() && values@.len() <= limits.max_subprotocols ==> match subprotocol_list_problem(
                str_views(values@),
                limits,
            ) {
                Some(kind) => r matches Err(e) && e.kind == kind,
                None => r matches Ok(p) && p@ == str_views(values@),
            },
    {
        if !limits.is_valid() {
            return Err(invalid_limits_error());
        }
        if values.len() > limits.max_subprotocols {
            return Err(
                WebSocketError::new(
                    WebSocketErrorKind::SubprotocolCountLimitExceeded,
                    size_message(
                        "WebSocket handshake subprotocol list",
                        values.len(),
                        limits.max_subprotocols,
                    ),
                ),
            );
        }
        let ghost all = str_views(values@);
        let mut protocols: Vec<WebSocketSubprotocol> = Vec::new();
        let mut i: usize = 0;
        while i < values.len()
            invariant
                all == str_views(values@),
                limits.spec_is_valid(),
                values@.len() <= limits.max_subprotocols,
                0 <= i <= values@.len(),
                protocols@.map_values(|p: WebSocketSubprotocol| p.spec_value()) == all.take(
                    i as int,
                ),
                subprotocol_list_problem(all.take(i as int), limits) is None,
            decreases values@.len() - i,
        {
            let value = values[i];
            let owned = value.to_owned();
            let mut j: usize = 0;
            let ghost prefix = all.take(i as int);
            while j < protocols.len()
                invariant
                    0 <= j <= protocols@.len(),
                    0 <= i < values@.len(),
                    limits.spec_is_valid(),
                    values@.len() <= limits.max_subprotocols,
                    subprotocol_list_problem(prefix, limits) is None,
                    all == str_views(values@),
                    prefix == all.take(i as int),
                    value == values@[i as int],
                    owned@ == value@,
                    value@ == all[i as int],
                    protocols@.map_values(|p: WebSocketSubprotocol| p.spec_value()) == prefix,
                    forall|k: int| 0 <= k < j ==> prefix[k] != value@,
                decreases protocols@.len() - j,
            {
                if protocols[j].value == owned {
                    proof {
                        assert(prefix[j as int] == value@);
                        let next = all.take(i + 1);
                        assert(next.drop_last() =~= prefix);
                        assert(next.last() == value@);
                        assert(prefix.contains(value@));
                        lemma_problem_persists(all, limits, (i + 1) as int);
                        assert(all.take(all.len() as int) =~= all);
                    }
                    return Err(
                        WebSocketError::new(
                            WebSocketErrorKind::DuplicateSubprotocol,
                            "duplicate WebSocket subprotocol".to_owned(),
                        ),
                    );
                }
                j = j + 1;
            }
            proof {
                let next = all.take(i + 1);
                assert(next.drop_last() =~= prefix);
                assert(next.last() == value@);
                assert(!prefix.contains(value@));
            }
            let parsed = WebSocketSubprotocol::parse(value, limits);
            match parsed {
                Err(e) => {
                    proof {
                        lemma_problem_persists(all, limits, (i + 1) as int);
                        assert(all.take(all.len() as int) =~= all);
                    }
                    return Err(e);
                },
                Ok(p) => {
                    protocols.push(p);
                    proof {
                        assert(protocols@.map_values(|p: WebSocketSubprotocol| p.spec_value())
                            =~= all.take(i + 1));
                    }
                },
            }
            i = i + 1;
        }
        proof {
            assert(all.take(values@.len() as int) =~= all);
        }
        Ok(WebSocketProtocols { values: protocols })
    }

    pub fn len(&self) -> (r: usize)
        ensures
            r == self@.len(),
    {
        self.values.len()
    }

    pub fn is_empty(&self) -> (r: bool)
        ensures
            r == (self@.len() == 0),
    {
        self.values.len() == 0
    }

    /// The subprotocols in the order they were requested.
    pub fn iter(&self) -> (r: std::slice::Iter<'_, WebSocketSubprotocol>)
        ensures
            vstd::std_specs::slice::into_iter_elts(r).map_values(|p: WebSocketSubprotocol| p.spec_value())
                == self@,
    {
        let r = self.values.as_slice().iter();
        proof {
            broadcast use vstd::std_specs::slice::axiom_spec_slice_iter;
            assert(vstd::std_specs::slice::into_iter_elts(r) =~= self.values@);
        }
        r
    }

    /// The subprotocol at a position of the list.
    pub fn get(&self, index: usize) -> (r: Option<&WebSocketSubprotocol>)
        ensures
            index < self@.len() ==> (r matches Some(p) && p.spec_value() == self@[index as int]),
            index >= self@.len() ==> r is None,
    {
        if index < self.values.len() {
            Some(&self.values[index])
        } else {
            None
        }
    }
}

/// Once a prefix of the list is refused, every longer prefix is refused for
/// the same reason.
proof fn lemma_problem_persists(all: Seq<Seq<char>>, limits: WebSocketLimits, n: int)
    requires
        0 <= n <= all.len(),
    ensures
        forall|m: int|
            n <= m <= all.len() ==> subprotocol_list_problem(all.take(m), limits)
                == subprotocol_list_problem(all.take(n), limits) || subprotocol_list_problem(
                all.take(n),
                limits,
            ) is None,
    decreases all.len() - n,
{
    if n < all.len() {
        lemma_problem_persists(all, limits, n + 1);
        assert(all.take(n + 1).drop_last() =~= all.take(n));
    }
}

/// The scheme that a WebSocket URL takes for a URL of the given scheme:
/// `ws` and `wss` stay, `http` becomes `ws`, `https` becomes `wss`.
pub open spec fn websocket_scheme_for(scheme: Seq<char>) -> Option<Seq<char>> {
    if scheme == seq!['w', 's'] || scheme == seq!['h', 't', 't', 'p'] {
        Some(seq!['w', 's'])
    } else if scheme == seq!['w', 's', 's'] || scheme == seq!['h', 't', 't', 'p', 's'] {
        Some(seq!['w', 's', 's'])
    } else {
        None
    }
}

/// The serialization of a URL whose scheme is replaced by `target`: the
/// parser's reading of `target` followed by everything from the URL's `:` on.
pub open spec fn with_scheme(url: Seq<char>, target: Seq<char>) -> Option<Seq<char>> {
    url_parsed(target + url.skip(scheme_part(url).len() as int))
}

/// The WebSocket URL that a parsed URL gives, or why it is refused: limits
/// first, then the source's size, a fragment, the scheme (an `http` or
/// `https` URL is re-parsed with `ws` or `wss`), and the canonical size.
pub open spec fn websocket_url_outcome(url: Seq<char>, limits: WebSocketLimits) -> Result<
    Seq<char>,
    WebSocketErrorKind,
> {
    let scheme = scheme_part(url);
    if !limits.spec_is_valid() {
        Err(WebSocketErrorKind::InvalidLimits)
    } else if utf8_len(url) > limits.max_url_bytes {
        Err(WebSocketErrorKind::UrlLimitExceeded)
    } else if url_fragment_of(url) is Some {
        Err(WebSocketErrorKind::FragmentNotAllowed)
    } else {
        match websocket_scheme_for(scheme) {
            None => Err(WebSocketErrorKind::InvalidScheme),
            Some(target) => {
                let normalized = if target == scheme {
                    Some(url)
                } else {
                    with_scheme(url, target)
                };
                match normalized {
                    None => Err(WebSocketErrorKind::InvalidUrl),
                    Some(n) => if utf8_len(n) > limits.max_url_bytes {
                        Err(WebSocketErrorKind::UrlLimitExceeded)
                    } else {
                        Ok(n)
                    },
                }
            },
        }
    }
}

/// The WebSocket URL that an input gives, or why it is refused: limits
/// first, then the input's size, then the URL parser, then the checks on
/// the parsed URL.
pub open spec fn websocket_input_outcome(input: Seq<char>, limits: WebSocketLimits) -> Result<
    Seq<char>,
    WebSocketErrorKind,
> {
    if !limits.spec_is_valid() {
        Err(WebSocketErrorKind::InvalidLimits)
    } else if utf8_len(input) > limits.max_url_bytes {
        Err(WebSocketErrorKind::UrlLimitExceeded)
    } else {
        match url_parsed(input) {
            None => Err(WebSocketErrorKind::InvalidUrl),
            Some(u) => websocket_url_outcome(u, limits),
        }
    }
}

/// Why a requested list of subprotocols is refused, if it is: too many,
/// then the first problem in the list.
pub open spec fn protocols_problem(values: Seq<Seq<char>>, limits: WebSocketLimits) -> Option<
    WebSocketErrorKind,
> {
    if !limits.spec_is_valid() {
        Some(WebSocketErrorKind::InvalidLimits)
    } else if values.len() > limits.max_subprotocols {
        Some(WebSocketErrorKind::SubprotocolCountLimitExceeded)
    } else {
        subprotocol_list_problem(values, limits)
    }
}

/// A `ws` or `wss` URL within the size limit, without a fragment.
#[derive(Debug)]
pub struct WebSocketUrl {
    url: WebUrl,
}

impl View for WebSocketUrl {
    type V = Seq<char>;

    /// The URL's serialization.
    closed spec fn view(&self) -> Seq<char> {
        self.url@
    }
}

impl Clone for WebSocketUrl {
    fn clone(&self) -> (r: Self)
        ensures
            r@ == self@,
    {
        WebSocketUrl { url: self.url.clone() }
    }
}

impl PartialEq for WebSocketUrl {
    fn eq(&self, other: &Self) -> (r: bool) {
        str_eq(self.url.as_str(), other.url.as_str())
    }
}

impl vstd::std_specs::cmp::PartialEqSpecImpl for WebSocketUrl {
    open spec fn obeys_eq_spec() -> bool {
        true
    }

    open spec fn eq_spec(&self, other: &Self) -> bool {
        self@ == other@
    }
}

impl Eq for WebSocketUrl {

}

fn url_limit_error(what: &str, bytes: usize, limit: usize) -> (r: WebSocketError)
    ensures
        r.kind == WebSocketErrorKind::UrlLimitExceeded,
        r.message@ == size_text(what@, bytes as nat, limit as nat),
{
    WebSocketError::new(WebSocketErrorKind::UrlLimitExceeded, size_message(what, bytes, limit))
}

fn invalid_url_error(context: &str, error: UrlError) -> (r: WebSocketError)
    ensures
        r.kind == WebSocketErrorKind::InvalidUrl,
        r.message@ == context@ + error.message@,
{
    let mut message = String::new();
    push_str(&mut message, context);
    push_str(&mut message, error.message.as_str());
    proof {
        assert(Seq::<char>::empty() + context@ + error.message@ =~= context@ + error.message@);
    }
    WebSocketError::new(WebSocketErrorKind::InvalidUrl, message)
}

/// Re-parses a URL with its scheme replaced by `target`.
fn rewrite_scheme(url: &WebUrl, target: &str) -> (r: Result<WebUrl, WebSocketError>)
    ensures
        (match with_scheme(url@, target@) {
            Some(n) => r matches Ok(u) && u@ == n,
            None => r matches Err(e) && e.kind == WebSocketErrorKind::InvalidUrl,
        }),
{
    let serialized = url.as_str();
    let scheme = url.scheme();
    proof {
        lemma_scheme_part_len(url@);
    }
    let rest = serialized.substring_char(scheme.unicode_len(), serialized.unicode_len());
    let mut rewritten = String::new();
    push_str(&mut rewritten, target);
    push_str(&mut rewritten, rest);
    proof {
        assert(rest@ =~= url@.skip(scheme_part(url@).len() as int));
        assert(rewritten@ =~= target@ + url@.skip(scheme_part(url@).len() as int));
    }
    match WebUrl::parse(rewritten.as_str()) {
        Ok(u) => Ok(u),
        Err(error) => Err(invalid_url_error("failed to normalize WebSocket URL scheme: ", error)),
    }
}

impl WebSocketUrl {
    /// Parses and checks a WebSocket URL; `http` and `https` URLs are given
    /// the `ws` and `wss` schemes.
    pub fn parse(input: &str, limits: WebSocketLimits) -> (r: Result<Self, WebSocketError>)
        ensures
            (match websocket_input_outcome(input@, limits) {
                Ok(n) => r matches Ok(w) && w@ == n,
                Err(kind) => r matches Err(e) && e.kind == kind,
            }),
    {
        if !limits.is_valid() {
            return Err(invalid_limits_error());
        }
        let len = utf8_byte_len(input);
        if len > limits.max_url_bytes {
            return Err(url_limit_error("WebSocket URL", len, limits.max_url_bytes));
        }
        match WebUrl::parse(input) {
            Ok(url) => Self::from_web_url(url, limits),
            Err(error) => Err(invalid_url_error("invalid WebSocket URL: ", error)),
        }
    }

    /// Checks a parsed URL as a WebSocket URL: its size before and after the
    /// scheme is rewritten, that it has no fragment, and its scheme.
    pub fn from_web_url(url: WebUrl, limits: WebSocketLimits) -> (r: Result<Self, WebSocketError>)
        ensures
            (match websocket_url_outcome(url@, limits) {
                Ok(n) => r matches Ok(w) && w@ == n,
                Err(kind) => r matches Err(e) && e.kind == kind,
            }),
    {
        proof {
            reveal_strlit("ws");
            reveal_strlit("wss");
            reveal_strlit("http");
            reveal_strlit("https");
            assert("ws"@ =~= seq!['w', 's']);
            assert("wss"@ =~= seq!['w', 's', 's']);
            assert("http"@ =~= seq!['h', 't', 't', 'p']);
            assert("https"@ =~= seq!['h', 't', 't', 'p', 's']);
        }
        if !limits.is_valid() {
            return Err(invalid_limits_error());
        }
        let source_len = utf8_byte_len(url.as_str());
        if source_len > limits.max_url_bytes {
            return Err(url_limit_error("source WebSocket URL", source_len, limits.max_url_bytes));
        }
        if url.fragment().is_some() {
            return Err(
                WebSocketError::new(
                    WebSocketErrorKind::FragmentNotAllowed,
                    "WebSocket URLs must not contain a fragment".to_owned(),
                ),
            );
        }
        let scheme = url.scheme();
        let normalized = if str_eq(scheme, "ws") || str_eq(scheme, "wss") {
            url
        } else if str_eq(scheme, "http") {
            match rewrite_scheme(&url, "ws") {
                Ok(u) => u,
                Err(e) => return Err(e),
            }
        } else if str_eq(scheme, "https") {
            match rewrite_scheme(&url, "wss") {
                Ok(u) => u,
                Err(e) => return Err(e),
            }
        } else {
            let mut message = String::new();
            push_str(&mut message, "unsupported WebSocket URL scheme \"");
            push_str(&mut message, scheme);
            push_char(&mut message, '"');
            return Err(WebSocketError::new(WebSocketErrorKind::InvalidScheme, message));
        };
        let canonical_len = utf8_byte_len(normalized.as_str());
        if canonical_len > limits.max_url_bytes {
            return Err(
                url_limit_error("canonical WebSocket URL", canonical_len, limits.max_url_bytes),
            );
        }
        Ok(WebSocketUrl { url: normalized })
    }

    pub fn as_web_url(&self) -> (r: &WebUrl)
        ensures
            r@ == self@,
    {
        &self.url
    }

    /// The URL's serialization.
    pub fn as_str(&self) -> (r: &str)
        ensures
            r@ == self@,
    {
        self.url.as_str()
    }

    /// Whether the URL's scheme is `wss`.
    pub fn is_secure(&self) -> (r: bool)
        ensures
            r == (scheme_part(self@) == seq!['w', 's', 's']),
    {
        proof {
            reveal_strlit("wss");
            assert("wss"@ =~= seq!['w', 's', 's']);
        }
        str_eq(self.url.scheme(), "wss")
    }

    /// The resource name sent in the handshake: the path (`/` when it is
    /// empty), then `?` and the query when there is one.
    pub fn resource_name(&self) -> (r: String)
        ensures
            r@ == (if url_path_of(self@).len() == 0 {
                seq!['/']
            } else {
                url_path_of(self@)
            }) + match url_query_of(self@) {
                Some(q) => seq!['?'] + q,
                None => seq![],
            },
    {
        let path = self.url.path();
        let mut out = String::new();
        if path.unicode_len() == 0 {
            push_char(&mut out, '/');
        } else {
            push_str(&mut out, path);
        }
        let ghost head = out@;
        match self.url.query() {
            Some(query) => {
                push_char(&mut out, '?');
                push_str(&mut out, query);
                assert(out@ =~= head + (seq!['?'] + query@));
            },
            None => {
                assert(out@ =~= head + Seq::<char>::empty());
            },
        }
        out
    }
}

/// What a WebSocket handshake asks for: a checked URL and a checked list of
/// subprotocols.
#[derive(Clone, Debug)]
pub struct WebSocketHandshakeIntent {
    url: WebSocketUrl,
    protocols: WebSocketProtocols,
}

impl WebSocketHandshakeIntent {
    pub closed spec fn spec_url(&self) -> Seq<char> {
        self.url@
    }

    pub closed spec fn spec_protocols(&self) -> Seq<Seq<char>> {
        self.protocols@
    }

    /// Checks the URL, then the subprotocols.
    pub fn try_new(url: &str, protocols: &[&str], limits: WebSocketLimits) -> (r: Result<
        Self,
        WebSocketError,
    >)
        ensures
            (match websocket_input_outcome(url@, limits) {
                Err(kind) => r matches Err(e) && e.kind == kind,
                Ok(n) => match protocols_problem(str_views(protocols@), limits) {
                    Some(kind) => r matches Err(e) && e.kind == kind,
                    None => r matches Ok(h) && h.spec_url() == n && h.spec_protocols()
                        == str_views(protocols@),
                },
            }),
    {
        if !limits.is_valid() {
            return Err(invalid_limits_error());
        }
        let url = match WebSocketUrl::parse(url, limits) {
            Ok(u) => u,
            Err(e) => return Err(e),
        };
        match WebSocketProtocols::try_new(protocols, limits) {
            Ok(protocols) => Ok(WebSocketHandshakeIntent { url, protocols }),
            Err(e) => Err(e),
        }
    }

    /// Checks an already checked URL against these limits, then the
    /// subprotocols.
    pub fn from_url(url: WebSocketUrl, protocols: &[&str], limits: WebSocketLimits) -> (r: Result<
        Self,
        WebSocketError,
    >)
        ensures
            !limits.spec_is_valid() ==> (r matches Err(e) && e.kind
                == WebSocketErrorKind::InvalidLimits),
            limits.spec_is_valid() && utf8_len(url@) > limits.max_url_bytes ==> (r matches Err(e)
                && e.kind == WebSocketErrorKind::UrlLimitExceeded),
            limits.spec_is_valid() && utf8_len(url@) <= limits.max_url_bytes ==> match protocols_problem(
                str_views(protocols@),
                limits,
            ) {
                Some(kind) => r matches Err(e) && e.kind == kind,
                None => r matches Ok(h) && h.spec_url() == url@ && h.spec_protocols() == str_views(
                    protocols@,
                ),
            },
    {
        if !limits.is_valid() {
            return Err(invalid_limits_error());
        }
        let len = utf8_byte_len(url.as_str());
        if len > limits.max_url_bytes {
            return Err(url_limit_error("canonical WebSocket URL", len, limits.max_url_bytes));
        }
        match WebSocketProtocols::try_new(protocols, limits) {
            Ok(protocols) => Ok(WebSocketHandshakeIntent { url, protocols }),
            Err(e) => Err(e),
        }
    }

    pub fn url(&self) -> (r: &WebSocketUrl)
        ensures
            r@ == self.spec_url(),
    {
        &self.url
    }

    pub fn protocols(&self) -> (r: &WebSocketProtocols)
        ensures
            r@ == self.spec_protocols(),
    {
        &self.protocols
    }
}

#[derive(Clone, Copy, Debug, PartialEq, Eq, PartialOrd, Ord, Hash, Structural)]
pub struct WebSocketTransportTicket(u64);

impl WebSocketTransportTicket {
    pub closed spec fn spec_get(self) -> u64 {
        self.0
    }

    /// Wraps a non-zero transport ticket value.
    pub fn new(value: u64) -> (r: Self)
        requires
            value != 0,
        ensures
            r.spec_get() == value,
    {
        WebSocketTransportTicket(value)
    }

    pub fn get(self) -> (r: u64)
        ensures
            r == self.spec_get(),
    {
        self.0
    }
}

#[derive(Clone, Copy, Debug, PartialEq, Eq, Structural)]
pub enum WebSocketTransportErrorKind {
    InvalidTicket,
    Backend,
}

#[derive(Clone, Debug, PartialEq, Eq)]
pub struct WebSocketTransportError {
    pub kind: WebSocketTransportErrorKind,
    pub message: String,
}

impl WebSocketTransportError {
    /// The error's message.
    pub fn to_string(&self) -> (r: String)
        ensures
            r@ == self.message@,
    {
        self.message.clone()
    }

    pub fn new(kind: WebSocketTransportErrorKind, message: &str) -> (r: Self)
        ensures
            r.kind == kind,
            r.message@ == message@,
    {
        WebSocketTransportError { kind, message: message.to_owned() }
    }
}

#[derive(Clone, Copy, Debug, PartialEq, Eq, Structural)]
pub struct WebSocketCloseLimits {
    pub max_reason_bytes: usize,
}

impl WebSocketCloseLimits {
    pub open spec fn spec_is_valid(self) -> bool {
        0 < self.max_reason_bytes <= MAX_WEBSOCKET_CLOSE_REASON_BYTES
    }

    /// The reason limit lies between 1 and 123 bytes.
    #[verifier::when_used_as_spec(spec_is_valid)]
    pub fn is_valid(self) -> (r: bool)
        ensures
            r == self.spec_is_valid(),
    {
        self.max_reason_bytes > 0 && self.max_reason_bytes <= MAX_WEBSOCKET_CLOSE_REASON_BYTES
    }
}

impl Default for WebSocketCloseLimits {
    fn default() -> (r: Self)
        ensures
            r.max_reason_bytes == MAX_WEBSOCKET_CLOSE_REASON_BYTES,
    {
        WebSocketCloseLimits { max_reason_bytes: MAX_WEBSOCKET_CLOSE_REASON_BYTES }
    }
}

#[derive(Clone, Copy, Debug, PartialEq, Eq, Structural)]
pub enum WebSocketCloseErrorKind {
    InvalidLimits,
    InvalidCode,
    ReasonRequiresCode,
    ReasonLimitExceeded,
}

#[derive(Clone, Debug, PartialEq, Eq)]
pub struct WebSocketCloseError {
    pub kind: WebSocketCloseErrorKind,
    pub message: String,
}

impl WebSocketCloseError {
    /// The error's message.
    pub fn to_string(&self) -> (r: String)
        ensures
            r@ == self.message@,
    {
        self.message.clone()
    }
}

fn close_error(kind: WebSocketCloseErrorKind, message: String) -> (r: WebSocketCloseError)
    ensures
        r.kind == kind,
        r.message == message,
{
    WebSocketCloseError { kind, message }
}

/// A close code that a script may send: 1000, or 3000 through 4999.
pub open spec fn is_allowed_close_code(code: u16) -> bool {
    code == 1000 || (3000 <= code <= 4999)
}

/// Why a close request is refused, checked in order, if it is.
pub open spec fn close_problem(code: Option<u16>, reason: Seq<char>, limits: WebSocketCloseLimits) -> Option<
    WebSocketCloseErrorKind,
> {
    if !limits.spec_is_valid() {
        Some(WebSocketCloseErrorKind::InvalidLimits)
    } else if code is None && reason.len() > 0 {
        Some(WebSocketCloseErrorKind::ReasonRequiresCode)
    } else if code matches Some(c) && !is_allowed_close_code(c) {
        Some(WebSocketCloseErrorKind::InvalidCode)
    } else if utf8_len(reason) > limits.max_reason_bytes {
        Some(WebSocketCloseErrorKind::ReasonLimitExceeded)
    } else {
        None
    }
}

#[derive(Clone, Debug, PartialEq, Eq)]
pub struct WebSocketCloseIntent {
    code: Option<u16>,
    reason: String,
}

impl WebSocketCloseIntent {
    pub closed spec fn spec_code(&self) -> Option<u16> {
        self.code
    }

    pub closed spec fn spec_reason(&self) -> Seq<char> {
        self.reason@
    }

    /// Validates a local close request before anything is copied.
    pub fn try_new(code: Option<u16>, reason: &str, limits: WebSocketCloseLimits) -> (r: Result<
        Self,
        WebSocketCloseError,
    >)
        ensures
            match close_problem(code, reason@, limits) {
                Some(kind) => r matches Err(e) && e.kind == kind,
                None => r matches Ok(c) && c.spec_code() == code && c.spec_reason() == reason@,
            },
    {
        if !limits.is_valid() {
            return Err(
                close_error(
                    WebSocketCloseErrorKind::InvalidLimits,
                    "WebSocket close reason limit must be between 1 and 123 bytes".to_owned(),
                ),
            );
        }
        if code.is_none() && !reason.is_empty() {
            return Err(
                close_error(
                    WebSocketCloseErrorKind::ReasonRequiresCode,
                    "WebSocket close reason requires an explicit close code".to_owned(),
                ),
            );
        }
        if let Some(c) = code {
            if c != 1000 && !(3000 <= c && c <= 4999) {
                return Err(
                    close_error(
                        WebSocketCloseErrorKind::InvalidCode,
                        "WebSocket local close code is not allowed".to_owned(),
                    ),
                );
            }
        }
        let reason_len = utf8_byte_len(reason);
        if reason_len > limits.max_reason_bytes {
            return Err(
                close_error(
                    WebSocketCloseErrorKind::ReasonLimitExceeded,
                    size_message("WebSocket close reason", reason_len, limits.max_reason_bytes),
                ),
            );
        }
        Ok(WebSocketCloseIntent { code, reason: reason.to_owned() })
    }

    /// A close request with neither code nor reason.
    pub fn empty() -> (r: Self)
        ensures
            r.spec_code() is None,
            r.spec_reason() == Seq::<char>::empty(),
    {
        WebSocketCloseIntent { code: None, reason: String::new() }
    }

    pub fn code(&self) -> (r: Option<u16>)
        ensures
            r == self.spec_code(),
    {
        self.code
    }

    pub fn reason(&self) -> (r: &str)
        ensures
            r@ == self.spec_reason(),
    {
        self.reason.as_str()
    }
}

#[derive(Clone, Copy, Debug, PartialEq, Eq, Structural)]
pub enum WebSocketTransportCloseStart {
    Started,
    Backpressure,
}

#[derive(Clone, Copy, Debug, PartialEq, Eq, Structural)]
pub enum WebSocketTransportClosePoll {
    Pending,
    Closed,
}

#[derive(Clone, Copy, Debug, PartialEq, Eq, Structural)]
pub enum WebSocketTransportSend {
    Accepted,
    Backpressure,
}

#[derive(Clone, Debug, PartialEq, Eq)]
pub enum WebSocketTransportReceive {
    Pending,
    Message(WebSocketMessage),
}

/// The `readyState` of a WebSocket: CONNECTING (0), OPEN (1), CLOSING (2)
/// and CLOSED (3).

/// The transport that carries a WebSocket connection, implemented by the
/// embedder: it starts a handshake for a client origin and then sends,
/// receives and closes by ticket.
pub trait WebSocketTransport {
    fn start(&mut self, handshake: WebSocketHandshakeIntent, client_origin: Origin) -> Result<
        WebSocketTransportTicket,
        WebSocketTransportError,
    >;

    fn send(&mut self, ticket: WebSocketTransportTicket, message: &WebSocketMessage) -> Result<
        WebSocketTransportSend,
        WebSocketTransportError,
    >;

    fn receive(&mut self, ticket: WebSocketTransportTicket, max_message_bytes: usize) -> Result<
        WebSocketTransportReceive,
        WebSocketTransportError,
    >;

    fn begin_close(&mut self, ticket: WebSocketTransportTicket, close: &WebSocketCloseIntent) -> Result<
        WebSocketTransportCloseStart,
        WebSocketTransportError,
    >;

    fn poll_close(&mut self, ticket: WebSocketTransportTicket) -> Result<
        WebSocketTransportClosePoll,
        WebSocketTransportError,
    >;

    fn abort(&mut self, ticket: WebSocketTransportTicket) -> Result<(), WebSocketTransportError>;
}

#[derive(Clone, Copy, Debug, Default, PartialEq, Eq, Structural)]
pub enum WebSocketReadyState {
    #[default]
    Connecting,
    Open,
    Closing,
    Closed,
}

impl WebSocketReadyState {
    pub open spec fn spec_as_u8(self) -> u8 {
        match self {
            WebSocketReadyState::Connecting => 0,
            WebSocketReadyState::Open => 1,
            WebSocketReadyState::Closing => 2,
            WebSocketReadyState::Closed => 3,
        }
    }

    /// The numeric `readyState` value.
    pub fn as_u8(self) -> (r: u8)
        ensures
            r == self.spec_as_u8(),
    {
        match self {
            WebSocketReadyState::Connecting => 0,
            WebSocketReadyState::Open => 1,
            WebSocketReadyState::Closing => 2,
            WebSocketReadyState::Closed => 3,
        }
    }

    /// The state after the connection opens, if that transition is allowed.
    pub open spec fn after_open(self) -> Option<WebSocketReadyState> {
        match self {
            WebSocketReadyState::Connecting => Some(WebSocketReadyState::Open),
            WebSocketReadyState::Open => Some(WebSocketReadyState::Open),
            _ => None,
        }
    }

    /// The state after closing starts, if that transition is allowed.
    pub open spec fn after_begin_closing(self) -> Option<WebSocketReadyState> {
        match self {
            WebSocketReadyState::Closed => None,
            _ => Some(WebSocketReadyState::Closing),
        }
    }
}

#[derive(Clone, Copy, Debug, PartialEq, Eq, Structural)]
pub enum WebSocketLifecycleErrorKind {
    InvalidTransition,
}

#[derive(Clone, Debug, PartialEq, Eq)]
pub struct WebSocketLifecycleError {
    pub kind: WebSocketLifecycleErrorKind,
    pub message: String,
}

impl WebSocketLifecycleError {
    /// The error's message.
    pub fn to_string(&self) -> (r: String)
        ensures
            r@ == self.message@,
    {
        self.message.clone()
    }

    fn invalid_transition() -> (r: Self)
        ensures
            r.kind == WebSocketLifecycleErrorKind::InvalidTransition,
            r.message@ == "invalid WebSocket lifecycle transition"@,
    {
        WebSocketLifecycleError {
            kind: WebSocketLifecycleErrorKind::InvalidTransition,
            message: "invalid WebSocket lifecycle transition".to_owned(),
        }
    }
}

/// The lifecycle of one WebSocket connection.
#[derive(Clone, Debug, PartialEq, Eq)]
pub struct WebSocketLifecycle {
    state: WebSocketReadyState,
}

impl View for WebSocketLifecycle {
    type V = WebSocketReadyState;

    closed spec fn view(&self) -> WebSocketReadyState {
        self.state
    }
}

impl WebSocketLifecycle {
    pub fn new() -> (r: Self)
        ensures
            r@ == WebSocketReadyState::Connecting,
    {
        WebSocketLifecycle { state: WebSocketReadyState::Connecting }
    }

    pub fn state(&self) -> (r: WebSocketReadyState)
        ensures
            r == self@,
    {
        self.state
    }

    /// CONNECTING becomes OPEN; OPEN stays OPEN; later states refuse.
    pub fn mark_open(&mut self) -> (r: Result<(), WebSocketLifecycleError>)
        ensures
            match old(self)@.after_open() {
                Some(next) => r is Ok && final(self)@ == next,
                None => r matches Err(e) && e.kind == WebSocketLifecycleErrorKind::InvalidTransition
                    && final(self)@ == old(self)@,
            },
    {
        match self.state {
            WebSocketReadyState::Connecting => {
                self.state = WebSocketReadyState::Open;
                Ok(())
            },
            WebSocketReadyState::Open => Ok(()),
            _ => Err(WebSocketLifecycleError::invalid_transition()),
        }
    }

    /// CONNECTING and OPEN become CLOSING; CLOSING stays; CLOSED refuses.
    pub fn begin_closing(&mut self) -> (r: Result<(), WebSocketLifecycleError>)
        ensures
            match old(self)@.after_begin_closing() {
                Some(next) => r is Ok && final(self)@ == next,
                None => r matches Err(e) && e.kind == WebSocketLifecycleErrorKind::InvalidTransition
                    && final(self)@ == old(self)@,
            },
    {
        match self.state {
            WebSocketReadyState::Closed => Err(WebSocketLifecycleError::invalid_transition()),
            _ => {
                self.state = WebSocketReadyState::Closing;
                Ok(())
            },
        }
    }

    /// Every state may close; CLOSED is terminal.
    pub fn mark_closed(&mut self) -> (r: Result<(), WebSocketLifecycleError>)
        ensures
            r is Ok,
            final(self)@ == WebSocketReadyState::Closed,
    {
        self.state = WebSocketReadyState::Closed;
        Ok(())
    }
}

impl Default for WebSocketLifecycle {
    fn default() -> (r: Self)
        ensures
            r@ == WebSocketReadyState::Connecting,
    {
        Self::new()
    }
}

/// Once closed, a connection never leaves CLOSED: opening and starting to
/// close are refused, and closing again keeps it closed.
pub proof fn lemma_closed_is_terminal()
    ensures
        WebSocketReadyState::Closed.after_open() is None,
        WebSocketReadyState::Closed.after_begin_closing() is None,
{
}

/// The lifecycle only moves forward through CONNECTING, OPEN, CLOSING and
/// CLOSED: every allowed transition keeps or raises the `readyState` value.
pub proof fn lemma_lifecycle_is_monotone(s: WebSocketReadyState)
    ensures
        s.after_open() matches Some(n) ==> s.spec_as_u8() <= n.spec_as_u8(),
        s.after_begin_closing() matches Some(n) ==> s.spec_as_u8() <= n.spec_as_u8(),
        s.spec_as_u8() <= WebSocketReadyState::Closed.spec_as_u8(),
{
}

#[derive(Clone, Copy, Debug, PartialEq, Eq, Structural)]
pub enum WebSocketMessageKind {
    Text,
    Binary,
}

#[derive(Clone, Debug, PartialEq, Eq)]
enum WebSocketMessagePayload {
    Text(String),
    Binary(Vec<u8>),
}

/// A text or binary WebSocket message.
#[derive(Clone, Debug, PartialEq, Eq)]
pub struct WebSocketMessage {
    payload: WebSocketMessagePayload,
}

impl WebSocketMessage {
    pub closed spec fn spec_kind(&self) -> WebSocketMessageKind {
        match self.payload {
            WebSocketMessagePayload::Text(_) => WebSocketMessageKind::Text,
            WebSocketMessagePayload::Binary(_) => WebSocketMessageKind::Binary,
        }
    }

    /// The text of a text message.
    pub closed spec fn spec_text(&self) -> Option<Seq<char>> {
        match self.payload {
            WebSocketMessagePayload::Text(v) => Some(v@),
            WebSocketMessagePayload::Binary(_) => None,
        }
    }

    /// The bytes of a binary message.
    pub closed spec fn spec_binary(&self) -> Option<Seq<u8>> {
        match self.payload {
            WebSocketMessagePayload::Text(_) => None,
            WebSocketMessagePayload::Binary(v) => Some(v@),
        }
    }

    /// The payload size in bytes: UTF-8 bytes for text.
    pub closed spec fn spec_len(&self) -> nat {
        match self.payload {
            WebSocketMessagePayload::Text(v) => utf8_len(v@),
            WebSocketMessagePayload::Binary(v) => v@.len(),
        }
    }

    /// Copies a text message whose UTF-8 size is within the message limit.
    pub fn text(value: &str, limits: WebSocketLimits) -> (r: Result<Self, WebSocketError>)
        ensures
            !limits.spec_is_valid() ==> (r matches Err(e) && e.kind
                == WebSocketErrorKind::InvalidLimits),
            limits.spec_is_valid() && utf8_len(value@) > limits.max_message_bytes ==> (r matches Err(
                e,
            ) && e.kind == WebSocketErrorKind::MessageLimitExceeded),
            limits.spec_is_valid() && utf8_len(value@) <= limits.max_message_bytes ==> (r matches Ok(
                m,
            ) && m.spec_text() == Some(value@) && m.spec_len() == utf8_len(value@)),
    {
        if !limits.is_valid() {
            return Err(invalid_limits_error());
        }
        let len = utf8_byte_len(value);
        if len > limits.max_message_bytes {
            return Err(
                WebSocketError::new(
                    WebSocketErrorKind::MessageLimitExceeded,
                    size_message("WebSocket message", len, limits.max_message_bytes),
                ),
            );
        }
        Ok(WebSocketMessage { payload: WebSocketMessagePayload::Text(value.to_owned()) })
    }

    /// Copies a binary message whose size is within the message limit.
    pub fn binary(value: &[u8], limits: WebSocketLimits) -> (r: Result<Self, WebSocketError>)
        ensures
            !limits.spec_is_valid() ==> (r matches Err(e) && e.kind
                == WebSocketErrorKind::InvalidLimits),
            limits.spec_is_valid() && value@.len() > limits.max_message_bytes ==> (r matches Err(e)
                && e.kind == WebSocketErrorKind::MessageLimitExceeded),
            limits.spec_is_valid() && value@.len() <= limits.max_message_bytes ==> (r matches Ok(m)
                && m.spec_binary() == Some(value@) && m.spec_len() == value@.len()),
    {
        if !limits.is_valid() {
            return Err(invalid_limits_error());
        }
        if value.len() > limits.max_message_bytes {
            return Err(
                WebSocketError::new(
                    WebSocketErrorKind::MessageLimitExceeded,
                    size_message("WebSocket message", value.len(), limits.max_message_bytes),
                ),
            );
        }
        let copy = copy_bytes(value);
        Ok(WebSocketMessage { payload: WebSocketMessagePayload::Binary(copy) })
    }

    pub fn kind(&self) -> (r: WebSocketMessageKind)
        ensures
            r == self.spec_kind(),
    {
        match &self.payload {
            WebSocketMessagePayload::Text(_) => WebSocketMessageKind::Text,
            WebSocketMessagePayload::Binary(_) => WebSocketMessageKind::Binary,
        }
    }

    pub fn len(&self) -> (r: usize)
        ensures
            r == self.spec_len(),
    {
        match &self.payload {
            WebSocketMessagePayload::Text(value) => utf8_byte_len(value.as_str()),
            WebSocketMessagePayload::Binary(value) => value.len(),
        }
    }

    pub fn is_empty(&self) -> (r: bool)
        ensures
            r == (self.spec_len() == 0),
    {
        self.len() == 0
    }

    pub fn as_text(&self) -> (r: Option<&str>)
        ensures
            match self.spec_text() {
                Some(t) => r matches Some(s) && s@ == t,
                None => r is None,
            },
    {
        match &self.payload {
            WebSocketMessagePayload::Text(value) => Some(value.as_str()),
            WebSocketMessagePayload::Binary(_) => None,
        }
    }

    pub fn as_binary(&self) -> (r: Option<&[u8]>)
        ensures
            match self.spec_binary() {
                Some(b) => r matches Some(s) && s@ == b,
                None => r is None,
            },
    {
        match &self.payload {
            WebSocketMessagePayload::Text(_) => None,
            WebSocketMessagePayload::Binary(value) => Some(value.as_slice()),
        }
    }

    /// Every message has exactly one kind: text messages expose text and no
    /// bytes, binary messages bytes and no text.
    pub proof fn lemma_kind_matches_payload(&self)
        ensures
            self.spec_kind() == WebSocketMessageKind::Text <==> self.spec_text() is Some,
            self.spec_kind() == WebSocketMessageKind::Binary <==> self.spec_binary() is Some,
            self.spec_text() is Some <==> self.spec_binary() is None,
    {
    }
}

} // verus!
