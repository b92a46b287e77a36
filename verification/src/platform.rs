//! Platform service values: capabilities, clipboard text and input events.
use crate::text::{decimal, is_blank, push_decimal, push_str, str_is_blank, utf8_byte_len, utf8_len};
use vstd::prelude::*;

verus! {

#[derive(Clone, Copy, Debug, PartialEq, Eq, PartialOrd, Ord, Hash, Structural)]
pub enum PlatformService {
    WindowEvents,
    FontText,
    InputIme,
    Accessibility,
    SandboxProcess,
    GpuCompositor,
}

#[derive(Clone, Copy, Debug, Default, PartialEq, Eq, Structural)]
pub struct PlatformCapabilities {
    pub window_events: bool,
    pub font_text: bool,
    pub input_ime: bool,
    pub accessibility: bool,
    pub sandbox_process: bool,
    pub gpu_compositor: bool,
}

impl PlatformCapabilities {
    pub open spec fn spec_supports(self, service: PlatformService) -> bool {
        match service {
            PlatformService::WindowEvents => self.window_events,
            PlatformService::FontText => self.font_text,
            PlatformService::InputIme => self.input_ime,
            PlatformService::Accessibility => self.accessibility,
            PlatformService::SandboxProcess => self.sandbox_process,
            PlatformService::GpuCompositor => self.gpu_compositor,
        }
    }

    /// No platform service at all.
    pub fn none() -> (r: Self)
        ensures
            forall|s: PlatformService| !(#[trigger] r.spec_supports(s)),
    {
        PlatformCapabilities {
            window_events: false,
            font_text: false,
            input_ime: false,
            accessibility: false,
            sandbox_process: false,
            gpu_compositor: false,
        }
    }

    /// Whether the service is available.
    pub fn supports(self, service: PlatformService) -> (r: bool)
        ensures
            r == self.spec_supports(service),
    {
        match service {
            PlatformService::WindowEvents => self.window_events,
            PlatformService::FontText => self.font_text,
            PlatformService::InputIme => self.input_ime,
            PlatformService::Accessibility => self.accessibility,
            PlatformService::SandboxProcess => self.sandbox_process,
            PlatformService::GpuCompositor => self.gpu_compositor,
        }
    }
}

#[derive(Clone, Debug, PartialEq, Eq)]
pub enum PlatformFontFamily {
    Named(String),
    Serif,
    SansSerif,
    Monospace,
    Cursive,
    Fantasy,
}

#[derive(Clone, Copy, Debug, Default, PartialEq, Eq, Structural)]
pub enum PlatformFontStyle {
    #[default]
    Normal,
    Italic,
    Oblique,
}

/// A host that embeds the engine and may offer platform services.
pub trait PlatformHost {
    fn name(&self) -> &'static str;

    fn capabilities(&self) -> PlatformCapabilities;
}

/// The host that offers no platform service.
#[derive(Clone, Copy, Debug, Default, PartialEq, Eq, Structural)]
pub struct NullPlatformHost;

impl PlatformHost for NullPlatformHost {
    fn name(&self) -> (r: &'static str)
        ensures
            r@ == "none"@,
    {
        "none"
    }

    fn capabilities(&self) -> (r: PlatformCapabilities)
        ensures
            forall|s: PlatformService| !(#[trigger] r.spec_supports(s)),
    {
        PlatformCapabilities::none()
    }
}

impl NullPlatformHost {
    /// The capabilities of the null host: none.
    pub fn offered_capabilities(&self) -> (r: PlatformCapabilities)
        ensures
            forall|s: PlatformService| !(#[trigger] r.spec_supports(s)),
    {
        PlatformCapabilities::none()
    }
}

// ----- clipboard ------------------------------------------------------------
pub const DEFAULT_MAX_CLIPBOARD_TEXT_BYTES: usize = 4194304;

#[derive(Clone, Copy, Debug, PartialEq, Eq, Structural)]
pub struct ClipboardLimits {
    pub max_text_bytes: usize,
}

impl ClipboardLimits {
    pub open spec fn spec_is_valid(self) -> bool {
        self.max_text_bytes > 0
    }

    #[verifier::when_used_as_spec(spec_is_valid)]
    pub fn is_valid(self) -> (r: bool)
        ensures
            r == self.spec_is_valid(),
    {
        self.max_text_bytes > 0
    }
}

impl Default for ClipboardLimits {
    fn default() -> (r: Self)
        ensures
            r.max_text_bytes == DEFAULT_MAX_CLIPBOARD_TEXT_BYTES,
    {
        ClipboardLimits { max_text_bytes: DEFAULT_MAX_CLIPBOARD_TEXT_BYTES }
    }
}

#[derive(Clone, Copy, Debug, PartialEq, Eq, Structural)]
pub enum ClipboardError {
    UnsupportedTarget,
    InvalidLimits,
    TextLimitExceeded { bytes: usize, limit: usize },
    Busy,
    InvalidData,
    BackendFailure,
}

/// The description of a clipboard error.
pub open spec fn clipboard_error_text(e: ClipboardError) -> Seq<char> {
    match e {
        ClipboardError::UnsupportedTarget => "clipboard is unavailable on this target"@,
        ClipboardError::InvalidLimits => "clipboard limits must be non-zero"@,
        ClipboardError::TextLimitExceeded { bytes, limit } => "clipboard text requires "@ + decimal(
            bytes as nat,
        ) + " bytes; limit is "@ + decimal(limit as nat),
        ClipboardError::Busy => "clipboard is currently unavailable"@,
        ClipboardError::InvalidData => "clipboard data is invalid"@,
        ClipboardError::BackendFailure => "clipboard backend failed"@,
    }
}

/// `"<prefix><a><middle><b>"` with both numbers in decimal.
fn two_numbers(prefix: &str, a: usize, middle: &str, b: usize) -> (r: String)
    ensures
        r@ == prefix@ + decimal(a as nat) + middle@ + decimal(b as nat),
{
    let mut out = prefix.to_owned();
    push_decimal(&mut out, a);
    push_str(&mut out, middle);
    push_decimal(&mut out, b);
    out
}

impl ClipboardError {
    /// The error's description.
    pub fn to_string(&self) -> (r: String)
        ensures
            r@ == clipboard_error_text(*self),
    {
        match self {
            ClipboardError::UnsupportedTarget => "clipboard is unavailable on this target".to_owned(),
            ClipboardError::InvalidLimits => "clipboard limits must be non-zero".to_owned(),
            ClipboardError::TextLimitExceeded { bytes, limit } => two_numbers(
                "clipboard text requires ",
                *bytes,
                " bytes; limit is ",
                *limit,
            ),
            ClipboardError::Busy => "clipboard is currently unavailable".to_owned(),
            ClipboardError::InvalidData => "clipboard data is invalid".to_owned(),
            ClipboardError::BackendFailure => "clipboard backend failed".to_owned(),
        }
    }
}

/// Clipboard text whose UTF-8 size was within a limit when it was made.
#[derive(Clone, Debug, PartialEq, Eq)]
pub struct ClipboardText {
    text: String,
}

impl View for ClipboardText {
    type V = Seq<char>;

    closed spec fn view(&self) -> Seq<char> {
        self.text@
    }
}

impl ClipboardText {
    pub fn try_new(text: &str, limits: ClipboardLimits) -> (r: Result<Self, ClipboardError>)
        ensures
            !limits.spec_is_valid() ==> r == Err::<Self, ClipboardError>(
                ClipboardError::InvalidLimits,
            ),
            limits.spec_is_valid() && utf8_len(text@) > limits.max_text_bytes ==> r == Err::<
                Self,
                ClipboardError,
            >(ClipboardError::TextLimitExceeded {
                bytes: utf8_len(text@) as usize,
                limit: limits.max_text_bytes,
            }),
            limits.spec_is_valid() && utf8_len(text@) <= limits.max_text_bytes ==> (r matches Ok(t)
                && t@ == text@),
    {
        if !limits.is_valid() {
            return Err(ClipboardError::InvalidLimits);
        }
        let bytes = utf8_byte_len(text);
        if bytes > limits.max_text_bytes {
            return Err(ClipboardError::TextLimitExceeded { bytes, limit: limits.max_text_bytes });
        }
        Ok(ClipboardText { text: text.to_owned() })
    }

    pub fn as_str(&self) -> (r: &str)
        ensures
            r@ == self@,
    {
        self.text.as_str()
    }

    pub fn into_string(self) -> (r: String)
        ensures
            r@ == self@,
    {
        self.text
    }
}

/// A system clipboard. Platforms implement it.
pub trait PlatformClipboardService {
    fn limits(&self) -> ClipboardLimits {
        ClipboardLimits::default()
    }

    fn read_text(&self) -> Result<Option<ClipboardText>, ClipboardError>;

    fn write_text(&self, text: &ClipboardText) -> Result<(), ClipboardError>;
}

// ----- input ----------------------------------------------------------------
pub const DEFAULT_MAX_INPUT_EVENTS: usize = 4096;

pub const DEFAULT_MAX_INPUT_TEXT_BYTES: usize = 1048576;

#[derive(Clone, Copy, Debug, PartialEq, Eq, Structural)]
pub struct InputLimits {
    pub max_queued_events: usize,
    pub max_text_bytes: usize,
}

impl InputLimits {
    pub open spec fn spec_is_valid(self) -> bool {
        self.max_queued_events > 0 && self.max_text_bytes > 0
    }

    #[verifier::when_used_as_spec(spec_is_valid)]
    pub fn is_valid(self) -> (r: bool)
        ensures
            r == self.spec_is_valid(),
    {
        self.max_queued_events > 0 && self.max_text_bytes > 0
    }
}

impl Default for InputLimits {
    fn default() -> (r: Self)
        ensures
            r.max_queued_events == DEFAULT_MAX_INPUT_EVENTS,
            r.max_text_bytes == DEFAULT_MAX_INPUT_TEXT_BYTES,
    {
        InputLimits {
            max_queued_events: DEFAULT_MAX_INPUT_EVENTS,
            max_text_bytes: DEFAULT_MAX_INPUT_TEXT_BYTES,
        }
    }
}

#[derive(Clone, Copy, Debug, Default, PartialEq, Eq, Structural)]
pub struct ModifierState {
    pub shift: bool,
    pub control: bool,
    pub alt: bool,
    pub meta: bool,
    pub caps_lock: bool,
    pub num_lock: bool,
}

#[derive(Clone, Copy, Debug, PartialEq, Eq, Structural)]
pub enum KeyState {
    Pressed,
    Released,
}

#[derive(Clone, Copy, Debug, PartialEq, Eq, Structural)]
pub enum PlatformInputError {
    UnsupportedTarget,
    InvalidLimits,
    QueueLimitExceeded { events: usize, limit: usize },
    TextLimitExceeded { bytes: usize, limit: usize },
    EmptyKeyCode,
    EmptyKeyValue,
    InvalidCoordinate,
    InvalidRectangle,
    InvalidPressure,
    InvalidWheelDelta,
    InvalidTextRange,
    BackendFailure,
}

/// The description of an input error.
pub open spec fn input_error_text(e: PlatformInputError) -> Seq<char> {
    match e {
        PlatformInputError::UnsupportedTarget => "platform input is unavailable on this target"@,
        PlatformInputError::InvalidLimits => "platform input limits must be non-zero"@,
        PlatformInputError::QueueLimitExceeded { events, limit } =>
            "platform input queue would contain "@ + decimal(events as nat) + " events; limit is "@
            + decimal(limit as nat),
        PlatformInputError::TextLimitExceeded { bytes, limit } => "platform input text requires "@
            + decimal(bytes as nat) + " bytes; limit is "@ + decimal(limit as nat),
        PlatformInputError::EmptyKeyCode => "physical key code must not be empty"@,
        PlatformInputError::EmptyKeyValue => "key value must not be empty"@,
        PlatformInputError::InvalidCoordinate => "input coordinates must be finite"@,
        PlatformInputError::InvalidRectangle => "input rectangle must be finite and non-negative"@,
        PlatformInputError::InvalidPressure => "pointer pressure must be finite and within 0..=1"@,
        PlatformInputError::InvalidWheelDelta => "wheel deltas must be finite"@,
        PlatformInputError::InvalidTextRange => "text range start must not exceed end"@,
        PlatformInputError::BackendFailure => "platform input backend failed"@,
    }
}

impl PlatformInputError {
    /// The error's description.
    pub fn to_string(&self) -> (r: String)
        ensures
            r@ == input_error_text(*self),
    {
        match self {
            PlatformInputError::UnsupportedTarget => "platform input is unavailable on this target".to_owned(),
            PlatformInputError::InvalidLimits => "platform input limits must be non-zero".to_owned(),
            PlatformInputError::QueueLimitExceeded { events, limit } => two_numbers(
                "platform input queue would contain ",
                *events,
                " events; limit is ",
                *limit,
            ),
            PlatformInputError::TextLimitExceeded { bytes, limit } => two_numbers(
                "platform input text requires ",
                *bytes,
                " bytes; limit is ",
                *limit,
            ),
            PlatformInputError::EmptyKeyCode => "physical key code must not be empty".to_owned(),
            PlatformInputError::EmptyKeyValue => "key value must not be empty".to_owned(),
            PlatformInputError::InvalidCoordinate => "input coordinates must be finite".to_owned(),
            PlatformInputError::InvalidRectangle => "input rectangle must be finite and non-negative".to_owned(),
            PlatformInputError::InvalidPressure => "pointer pressure must be finite and within 0..=1".to_owned(),
            PlatformInputError::InvalidWheelDelta => "wheel deltas must be finite".to_owned(),
            PlatformInputError::InvalidTextRange => "text range start must not exceed end".to_owned(),
            PlatformInputError::BackendFailure => "platform input backend failed".to_owned(),
        }
    }
}

#[derive(Clone, Debug, PartialEq, Eq, Hash)]
pub enum PhysicalKey {
    Code(String),
    Unidentified,
}

impl PhysicalKey {
    pub open spec fn spec_code(&self) -> Option<Seq<char>> {
        match self {
            PhysicalKey::Code(c) => Some(c@),
            PhysicalKey::Unidentified => None,
        }
    }

    /// A physical key code; a code that is empty after trimming white space
    /// is refused.
    pub fn code(value: &str) -> (r: Result<Self, PlatformInputError>)
        ensures
            is_blank(value@) ==> r == Err::<Self, PlatformInputError>(
                PlatformInputError::EmptyKeyCode,
            ),
            !is_blank(value@) ==> (r matches Ok(k) && k.spec_code() == Some(value@)),
    {
        if str_is_blank(value) {
            return Err(PlatformInputError::EmptyKeyCode);
        }
        Ok(PhysicalKey::Code(value.to_owned()))
    }
}

#[derive(Clone, Debug, PartialEq, Eq)]
pub enum KeyValue {
    Character(String),
    Named(String),
    Dead,
    Unidentified,
}

impl KeyValue {
    pub open spec fn spec_character(&self) -> Option<Seq<char>> {
        match self {
            KeyValue::Character(c) => Some(c@),
            _ => None,
        }
    }

    pub open spec fn spec_named(&self) -> Option<Seq<char>> {
        match self {
            KeyValue::Named(c) => Some(c@),
            _ => None,
        }
    }

    /// A character key value; the empty string is refused (white space is a
    /// character).
    pub fn character(value: &str) -> (r: Result<Self, PlatformInputError>)
        ensures
            value@.len() == 0 ==> r == Err::<Self, PlatformInputError>(
                PlatformInputError::EmptyKeyValue,
            ),
            value@.len() > 0 ==> (r matches Ok(k) && k.spec_character() == Some(value@)),
    {
        if value.is_empty() {
            return Err(PlatformInputError::EmptyKeyValue);
        }
        Ok(KeyValue::Character(value.to_owned()))
    }

    /// A named key value; a name that is empty after trimming is refused.
    pub fn named(value: &str) -> (r: Result<Self, PlatformInputError>)
        ensures
            is_blank(value@) ==> r == Err::<Self, PlatformInputError>(
                PlatformInputError::EmptyKeyValue,
            ),
            !is_blank(value@) ==> (r matches Ok(k) && k.spec_named() == Some(value@)),
    {
        if str_is_blank(value) {
            return Err(PlatformInputError::EmptyKeyValue);
        }
        Ok(KeyValue::Named(value.to_owned()))
    }
}

#[derive(Clone, Debug, PartialEq, Eq)]
pub struct KeyboardInputEvent {
    pub state: KeyState,
    pub physical_key: PhysicalKey,
    pub key: KeyValue,
    pub repeat: bool,
    pub modifiers: ModifierState,
}

#[derive(Clone, Copy, Debug, PartialEq, Eq, Structural)]
pub enum PointerKind {
    Mouse,
    Touch,
    Pen,
}

#[derive(Clone, Copy, Debug, PartialEq, Eq, Structural)]
pub enum PointerAction {
    Move,
    Down,
    Up,
    Enter,
    Leave,
    Cancel,
}

#[derive(Clone, Copy, Debug, PartialEq, Eq, Structural)]
pub enum PointerButton {
    Primary,
    Auxiliary,
    Secondary,
    Back,
    Forward,
    Other(u16),
}

/// The set of pressed pointer buttons, one bit per button.
#[derive(Clone, Copy, Debug, Default, PartialEq, Eq, Structural)]
pub struct PointerButtons(u16);

impl PointerButtons {
    pub const PRIMARY: u16 = 1;

    pub const SECONDARY: u16 = 2;

    pub const AUXILIARY: u16 = 4;

    pub const BACK: u16 = 8;

    pub const FORWARD: u16 = 16;

    pub closed spec fn spec_bits(self) -> u16 {
        self.0
    }

    pub fn from_bits(bits: u16) -> (r: Self)
        ensures
            r.spec_bits() == bits,
    {
        PointerButtons(bits)
    }

    pub fn bits(self) -> (r: u16)
        ensures
            r == self.spec_bits(),
    {
        self.0
    }

    /// Whether every bit of `bits` is set.
    pub fn contains(self, bits: u16) -> (r: bool)
        ensures
            r == (self.spec_bits() & bits == bits),
    {
        self.0 & bits == bits
    }
}

#[derive(Clone, Copy, Debug, PartialEq, Eq, Structural)]
pub enum WheelDeltaMode {
    Pixel,
    Line,
    Page,
}

#[derive(Clone, Copy, Debug, PartialEq, Eq, Structural)]
pub struct TextRange {
    pub start: usize,
    pub end: usize,
}

impl TextRange {
    /// A range from `start` to `end`; reversed ranges are refused.
    pub fn try_new(start: usize, end: usize) -> (r: Result<Self, PlatformInputError>)
        ensures
            start > end ==> r == Err::<Self, PlatformInputError>(
                PlatformInputError::InvalidTextRange,
            ),
            start <= end ==> r == Ok::<Self, PlatformInputError>(TextRange { start, end }),
    {
        if start > end {
            return Err(PlatformInputError::InvalidTextRange);
        }
        Ok(TextRange { start, end })
    }
}

#[derive(Clone, Debug, PartialEq, Eq)]
pub enum TextInputEvent {
    CompositionStart,
    CompositionUpdate { text: String, selection: Option<TextRange> },
    CompositionEnd { text: String },
    Commit { text: String },
}

} // verus!
