//! Windows platform values: the clipboard service's limits and the text it
//! hands to the system clipboard, and the media backend's session limits.
//! Whether the build targets Windows is the embedder's to say; the system
//! clipboard itself is reached by the embedder.
use crate::platform::{clipboard_error_text, ClipboardError, ClipboardLimits, ClipboardText};
use crate::text::push_str;
use crate::text::utf8_len;
use vstd::prelude::*;

verus! {

/// Why the Windows platform host could not be built.
#[derive(Clone, Copy, Debug, PartialEq, Eq, Structural)]
pub enum WindowsPlatformError {
    UnsupportedTarget,
    Clipboard(ClipboardError),
}

impl WindowsPlatformError {
    /// The error's description.
    pub fn to_string(&self) -> (r: String)
        ensures
            r@ == match *self {
                WindowsPlatformError::UnsupportedTarget => "Windows platform host is unavailable on this target"@,
                WindowsPlatformError::Clipboard(e) => "Windows clipboard initialization failed: "@
                    + clipboard_error_text(e),
            },
    {
        match self {
            WindowsPlatformError::UnsupportedTarget => "Windows platform host is unavailable on this target".to_owned(),
            WindowsPlatformError::Clipboard(e) => {
                let mut out = "Windows clipboard initialization failed: ".to_owned();
                let text = e.to_string();
                push_str(&mut out, text.as_str());
                out
            },
        }
    }
}

impl From<ClipboardError> for WindowsPlatformError {
    fn from(error: ClipboardError) -> (r: Self) {
        WindowsPlatformError::Clipboard(error)
    }
}

impl vstd::std_specs::convert::FromSpecImpl<ClipboardError> for WindowsPlatformError {
    open spec fn obeys_from_spec() -> bool {
        true
    }

    open spec fn from_spec(error: ClipboardError) -> Self {
        WindowsPlatformError::Clipboard(error)
    }
}

/// The Windows system font service. Font lookup itself goes through the
/// system font source of the embedder.
#[derive(Clone, Copy, Debug, Default, PartialEq, Eq, Structural)]
pub struct WindowsFontService {}

impl WindowsFontService {
    pub fn new() -> (r: Self)
        ensures
            r == (WindowsFontService {}),
    {
        WindowsFontService {}
    }
}

/// The Windows clipboard service's configuration.
#[derive(Clone, Copy, Debug, PartialEq, Eq, Structural)]
pub struct WindowsClipboardService {
    limits: ClipboardLimits,
}

impl WindowsClipboardService {
    pub closed spec fn spec_limits(self) -> ClipboardLimits {
        self.limits
    }

    /// A service with the limits, on a Windows target: refused with
    /// `InvalidLimits` for invalid limits whatever the target, then with
    /// `UnsupportedTarget` off Windows.
    pub fn try_new(limits: ClipboardLimits, windows_target: bool) -> (r: Result<Self, ClipboardError>)
        ensures
            !limits.spec_is_valid() ==> r == Err::<Self, ClipboardError>(
                ClipboardError::InvalidLimits,
            ),
            limits.spec_is_valid() && !windows_target ==> r == Err::<Self, ClipboardError>(
                ClipboardError::UnsupportedTarget,
            ),
            limits.spec_is_valid() && windows_target ==> (r matches Ok(s) && s.spec_limits()
                == limits),
    {
        if !limits.is_valid() {
            return Err(ClipboardError::InvalidLimits);
        }
        if !windows_target {
            return Err(ClipboardError::UnsupportedTarget);
        }
        Ok(WindowsClipboardService { limits })
    }

    /// A service with the default limits.
    pub fn with_default_limits(windows_target: bool) -> (r: Result<Self, ClipboardError>)
        ensures
            !windows_target ==> r == Err::<Self, ClipboardError>(ClipboardError::UnsupportedTarget),
            windows_target ==> (r matches Ok(s) && s.spec_limits() == ClipboardLimits {
                max_text_bytes: crate::platform::DEFAULT_MAX_CLIPBOARD_TEXT_BYTES,
            }),
    {
        Self::try_new(ClipboardLimits::default(), windows_target)
    }

    pub fn limits(&self) -> (r: ClipboardLimits)
        ensures
            r == self.spec_limits(),
    {
        self.limits
    }

    /// The text a write hands to the system clipboard: the given text,
    /// checked again against this service's own limit, since it may have
    /// been made under a larger one.
    pub fn text_for_write(&self, text: &ClipboardText) -> (r: Result<ClipboardText, ClipboardError>)
        requires
            self.spec_limits().spec_is_valid(),
        ensures
            utf8_len(text@) > self.spec_limits().max_text_bytes ==> r == Err::<
                ClipboardText,
                ClipboardError,
            >(ClipboardError::TextLimitExceeded {
                bytes: utf8_len(text@) as usize,
                limit: self.spec_limits().max_text_bytes,
            }),
            utf8_len(text@) <= self.spec_limits().max_text_bytes ==> (r matches Ok(t) && t@
                == text@),
    {
        ClipboardText::try_new(text.as_str(), self.limits)
    }
}

pub const DEFAULT_MAX_WINDOWS_MEDIA_DEMUX_SESSIONS: usize = 64;

pub const DEFAULT_MAX_WINDOWS_MEDIA_DECODER_SESSIONS: usize = 64;

pub const DEFAULT_MAX_WINDOWS_MEDIA_OUTPUT_SESSIONS: usize = 64;

#[derive(Clone, Copy, Debug, PartialEq, Eq, Structural)]
pub enum WindowsMediaBackendError {
    UnsupportedTarget,
    InvalidLimits,
}

impl WindowsMediaBackendError {
    /// The error's description.
    pub fn to_string(&self) -> (r: String)
        ensures
            r@ == match *self {
                WindowsMediaBackendError::UnsupportedTarget => "Windows media backend is unavailable on this target"@,
                WindowsMediaBackendError::InvalidLimits => "Windows media limits must be non-zero"@,
            },
    {
        match self {
            WindowsMediaBackendError::UnsupportedTarget => "Windows media backend is unavailable on this target".to_owned(),
            WindowsMediaBackendError::InvalidLimits => "Windows media limits must be non-zero".to_owned(),
        }
    }
}

/// How many media sessions of each kind the backend keeps at once; never
/// zero.
#[derive(Clone, Copy, Debug, PartialEq, Eq, Structural)]
pub struct WindowsMediaLimits {
    max_demux_sessions: usize,
    max_decoder_sessions: usize,
    max_output_sessions: usize,
}

impl WindowsMediaLimits {
    #[verifier::type_invariant]
    spec fn non_zero(self) -> bool {
        self.max_demux_sessions > 0 && self.max_decoder_sessions > 0 && self.max_output_sessions
            > 0
    }

    pub closed spec fn spec_demux(self) -> usize {
        self.max_demux_sessions
    }

    pub closed spec fn spec_decoder(self) -> usize {
        self.max_decoder_sessions
    }

    pub closed spec fn spec_output(self) -> usize {
        self.max_output_sessions
    }

    /// The limits; refused with `InvalidLimits` when any is zero.
    pub fn try_new(
        max_demux_sessions: usize,
        max_decoder_sessions: usize,
        max_output_sessions: usize,
    ) -> (r: Result<Self, WindowsMediaBackendError>)
        ensures
            (max_demux_sessions > 0 && max_decoder_sessions > 0 && max_output_sessions > 0) <==> r is Ok,
            r matches Err(e) ==> e == WindowsMediaBackendError::InvalidLimits,
            r matches Ok(l) ==> l.spec_demux() == max_demux_sessions && l.spec_decoder()
                == max_decoder_sessions && l.spec_output() == max_output_sessions,
    {
        if max_demux_sessions == 0 || max_decoder_sessions == 0 || max_output_sessions == 0 {
            return Err(WindowsMediaBackendError::InvalidLimits);
        }
        Ok(WindowsMediaLimits { max_demux_sessions, max_decoder_sessions, max_output_sessions })
    }

    pub fn max_demux_sessions(self) -> (r: usize)
        ensures
            r == self.spec_demux(),
            r > 0,
    {
        proof {
            use_type_invariant(&self);
        }
        self.max_demux_sessions
    }

    pub fn max_decoder_sessions(self) -> (r: usize)
        ensures
            r == self.spec_decoder(),
            r > 0,
    {
        proof {
            use_type_invariant(&self);
        }
        self.max_decoder_sessions
    }

    pub fn max_output_sessions(self) -> (r: usize)
        ensures
            r == self.spec_output(),
            r > 0,
    {
        proof {
            use_type_invariant(&self);
        }
        self.max_output_sessions
    }
}

impl Default for WindowsMediaLimits {
    fn default() -> (r: Self)
        ensures
            r.spec_demux() == DEFAULT_MAX_WINDOWS_MEDIA_DEMUX_SESSIONS,
            r.spec_decoder() == DEFAULT_MAX_WINDOWS_MEDIA_DECODER_SESSIONS,
            r.spec_output() == DEFAULT_MAX_WINDOWS_MEDIA_OUTPUT_SESSIONS,
    {
        WindowsMediaLimits {
            max_demux_sessions: DEFAULT_MAX_WINDOWS_MEDIA_DEMUX_SESSIONS,
            max_decoder_sessions: DEFAULT_MAX_WINDOWS_MEDIA_DECODER_SESSIONS,
            max_output_sessions: DEFAULT_MAX_WINDOWS_MEDIA_OUTPUT_SESSIONS,
        }
    }
}

/// How many media sessions of each kind are open.
#[derive(Clone, Copy, Debug, Default, PartialEq, Eq, Structural)]
pub struct WindowsMediaBackendSnapshot {
    demux_sessions: usize,
    decoder_sessions: usize,
    output_sessions: usize,
}

impl WindowsMediaBackendSnapshot {
    pub closed spec fn spec_counts(self) -> (usize, usize, usize) {
        (self.demux_sessions, self.decoder_sessions, self.output_sessions)
    }

    pub fn demux_sessions(self) -> (r: usize)
        ensures
            r == self.spec_counts().0,
    {
        self.demux_sessions
    }

    pub fn decoder_sessions(self) -> (r: usize)
        ensures
            r == self.spec_counts().1,
    {
        self.decoder_sessions
    }

    pub fn output_sessions(self) -> (r: usize)
        ensures
            r == self.spec_counts().2,
    {
        self.output_sessions
    }
}

} // verus!
