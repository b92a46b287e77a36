//! Names of Windows local IPC endpoints and the errors of the Windows IPC
//! transport. A name is a short local token: one to
//! `DEFAULT_MAX_WINDOWS_IPC_ENDPOINT_BYTES` ASCII letters, digits, dots,
//! underscores and hyphens, so it can never address a path or a remote
//! host.
use crate::text::{decimal, push_decimal, push_str, utf8_byte_len, utf8_len};
use vstd::prelude::*;

verus! {

/// The longest endpoint name, in bytes.
pub const DEFAULT_MAX_WINDOWS_IPC_ENDPOINT_BYTES: usize = 128;

/// The errors of the Windows IPC transport that this library raises or
/// carries.
#[derive(Clone, Copy, Debug, PartialEq, Eq, Structural)]
pub enum WindowsIpcErrorKind {
    UnsupportedTarget,
    InvalidEndpointName,
    UnknownSiteProcess,
    InvalidEnvelopeDirection,
    Io,
}

#[derive(Clone, Debug, PartialEq, Eq)]
pub struct WindowsIpcError {
    pub kind: WindowsIpcErrorKind,
    pub message: String,
}

impl WindowsIpcError {
    /// The error's message.
    pub fn to_string(&self) -> (r: String)
        ensures
            r@ == self.message@,
    {
        self.message.clone()
    }
}

/// A character an endpoint name may hold.
pub open spec fn endpoint_char(c: char) -> bool {
    ||| 'a' <= c <= 'z'
    ||| 'A' <= c <= 'Z'
    ||| '0' <= c <= '9'
    ||| c == '.'
    ||| c == '_'
    ||| c == '-'
}

/// A valid endpoint name.
pub open spec fn valid_endpoint_name(s: Seq<char>) -> bool {
    &&& s.len() > 0
    &&& utf8_len(s) <= DEFAULT_MAX_WINDOWS_IPC_ENDPOINT_BYTES
    &&& forall|i: int| 0 <= i < s.len() ==> endpoint_char(#[trigger] s[i])
}

fn is_endpoint_char(c: char) -> (r: bool)
    ensures
        r == endpoint_char(c),
{
    ('a' <= c && c <= 'z') || ('A' <= c && c <= 'Z') || ('0' <= c && c <= '9') || c == '.' || c
        == '_' || c == '-'
}

/// A validated local endpoint name.
#[derive(Clone, Debug, PartialEq, Eq)]
pub struct WindowsIpcEndpointName {
    value: String,
}

impl View for WindowsIpcEndpointName {
    type V = Seq<char>;

    closed spec fn view(&self) -> Seq<char> {
        self.value@
    }
}

impl WindowsIpcEndpointName {
    /// The name `value`; refused with `InvalidEndpointName` when it is
    /// empty, longer than the limit or holds any other character.
    pub fn try_new(value: &str) -> (r: Result<Self, WindowsIpcError>)
        ensures
            valid_endpoint_name(value@) <==> r is Ok,
            r matches Ok(name) ==> name@ == value@,
            r matches Err(e) ==> e.kind == WindowsIpcErrorKind::InvalidEndpointName && e.message@
                == "Windows IPC endpoint names must be 1..="@ + decimal(
                DEFAULT_MAX_WINDOWS_IPC_ENDPOINT_BYTES as nat,
            ) + " ASCII [A-Za-z0-9._-] bytes"@,
    {
        let mut all_allowed = true;
        broadcast use vstd::string::axiom_spec_iter;
        for c in it: value.chars()
            invariant
                it.seq() == value@,
                all_allowed <==> forall|i: int|
                    0 <= i < it.index() ==> endpoint_char(#[trigger] value@[i]),
        {
            if !is_endpoint_char(c) {
                all_allowed = false;
            }
        }
        let valid = value.unicode_len() > 0 && utf8_byte_len(value)
            <= DEFAULT_MAX_WINDOWS_IPC_ENDPOINT_BYTES && all_allowed;
        if !valid {
            let mut message = "Windows IPC endpoint names must be 1..=".to_owned();
            push_decimal(&mut message, DEFAULT_MAX_WINDOWS_IPC_ENDPOINT_BYTES);
            push_str(&mut message, " ASCII [A-Za-z0-9._-] bytes");
            return Err(WindowsIpcError { kind: WindowsIpcErrorKind::InvalidEndpointName, message });
        }
        Ok(WindowsIpcEndpointName { value: value.to_owned() })
    }

    pub fn as_str(&self) -> (r: &str)
        ensures
            r@ == self@,
    {
        self.value.as_str()
    }
}

} // verus!
