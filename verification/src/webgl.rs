//! WebGL semantic ownership: contexts bound to canvas surfaces, and the
//! buffers and textures each context owns, under per-context and global
//! budgets.
//!
//! Identities are scoped to their registry and never reused. A resource
//! belongs to exactly one live context and can only be destroyed through
//! it. Losing a context retires every resource it owns and leaves it unable
//! to create more; destroying it does the same and hands back its canvas
//! lease. The canvas registry that grants and takes back leases is the
//! embedder's: a registry stores the surface and lease values it is given.
use crate::fresh::ScopeCounter;
use crate::keyed::{
    dropped_weight, index_of_key, key_at, keyed_map, keys_distinct, lemma_index_of_key,
    lemma_keyed_map_at, lemma_keyed_map_filter, lemma_keyed_map_insert, lemma_keyed_map_len,
    lemma_keyed_map_remove, lemma_keyed_map_update, lemma_weight_sum_filter,
    lemma_weight_sum_member, lemma_weight_sum_pointwise, lemma_weight_sum_le, lemma_weight_sum_push,
    lemma_weight_sum_remove, lemma_weight_sum_zero, weight_sum,
};
use vstd::prelude::*;

verus! {

pub const DEFAULT_MAX_WEBGL_CONTEXTS: usize = 64;

pub const DEFAULT_MAX_WEBGL_RESOURCES_PER_CONTEXT: usize = 1024;

pub const DEFAULT_MAX_WEBGL_RESOURCES: usize = 4096;

pub const DEFAULT_MAX_WEBGL_BUFFER_BYTES: u64 = 67108864;

pub const DEFAULT_MAX_TOTAL_WEBGL_BUFFER_BYTES: u64 = 268435456;

pub const DEFAULT_MAX_WEBGL_TEXTURE_DIMENSION: u32 = 8192;

pub const DEFAULT_MAX_WEBGL_TEXTURE_PIXELS: u64 = 16777216;

pub const DEFAULT_MAX_TOTAL_WEBGL_TEXTURE_PIXELS: u64 = 67108864;

/// The budgets of a WebGL registry.
#[derive(Clone, Copy, Debug, PartialEq, Eq, Structural)]
pub struct WebGlLimits {
    pub max_contexts: usize,
    pub max_resources_per_context: usize,
    pub max_resources: usize,
    pub max_buffer_bytes: u64,
    pub max_total_buffer_bytes: u64,
    pub max_texture_dimension: u32,
    pub max_texture_pixels: u64,
    pub max_total_texture_pixels: u64,
}

impl WebGlLimits {
    /// Every budget is non-zero and each per-item budget fits in its total.
    pub open spec fn spec_is_valid(self) -> bool {
        &&& self.max_contexts > 0
        &&& self.max_resources_per_context > 0
        &&& self.max_resources > 0
        &&& self.max_resources_per_context <= self.max_resources
        &&& self.max_buffer_bytes > 0
        &&& self.max_total_buffer_bytes >= self.max_buffer_bytes
        &&& self.max_texture_dimension > 0
        &&& self.max_texture_pixels > 0
        &&& self.max_total_texture_pixels >= self.max_texture_pixels
    }

    pub fn is_valid(self) -> (r: bool)
        ensures
            r == self.spec_is_valid(),
    {
        self.max_contexts > 0 && self.max_resources_per_context > 0 && self.max_resources > 0
            && self.max_resources_per_context <= self.max_resources && self.max_buffer_bytes > 0
            && self.max_total_buffer_bytes >= self.max_buffer_bytes && self.max_texture_dimension
            > 0 && self.max_texture_pixels > 0 && self.max_total_texture_pixels
            >= self.max_texture_pixels
    }
}

impl Default for WebGlLimits {
    fn default() -> (r: Self)
        ensures
            r == (WebGlLimits {
                max_contexts: DEFAULT_MAX_WEBGL_CONTEXTS,
                max_resources_per_context: DEFAULT_MAX_WEBGL_RESOURCES_PER_CONTEXT,
                max_resources: DEFAULT_MAX_WEBGL_RESOURCES,
                max_buffer_bytes: DEFAULT_MAX_WEBGL_BUFFER_BYTES,
                max_total_buffer_bytes: DEFAULT_MAX_TOTAL_WEBGL_BUFFER_BYTES,
                max_texture_dimension: DEFAULT_MAX_WEBGL_TEXTURE_DIMENSION,
                max_texture_pixels: DEFAULT_MAX_WEBGL_TEXTURE_PIXELS,
                max_total_texture_pixels: DEFAULT_MAX_TOTAL_WEBGL_TEXTURE_PIXELS,
            }),
    {
        WebGlLimits {
            max_contexts: DEFAULT_MAX_WEBGL_CONTEXTS,
            max_resources_per_context: DEFAULT_MAX_WEBGL_RESOURCES_PER_CONTEXT,
            max_resources: DEFAULT_MAX_WEBGL_RESOURCES,
            max_buffer_bytes: DEFAULT_MAX_WEBGL_BUFFER_BYTES,
            max_total_buffer_bytes: DEFAULT_MAX_TOTAL_WEBGL_BUFFER_BYTES,
            max_texture_dimension: DEFAULT_MAX_WEBGL_TEXTURE_DIMENSION,
            max_texture_pixels: DEFAULT_MAX_WEBGL_TEXTURE_PIXELS,
            max_total_texture_pixels: DEFAULT_MAX_TOTAL_WEBGL_TEXTURE_PIXELS,
        }
    }
}

/// The identity of a WebGL context: its registry's scope and its serial.
#[derive(Clone, Copy, Debug, PartialEq, Eq, PartialOrd, Ord, Hash, Structural)]
pub struct WebGlContextId {
    scope: u64,
    serial: u64,
}

impl WebGlContextId {
    pub closed spec fn spec_scope(self) -> u64 {
        self.scope
    }

    pub closed spec fn spec_serial(self) -> u64 {
        self.serial
    }

    pub fn scope(self) -> (r: u64)
        ensures
            r == self.spec_scope(),
    {
        self.scope
    }

    pub fn serial(self) -> (r: u64)
        ensures
            r == self.spec_serial(),
    {
        self.serial
    }
}

/// The identity of a WebGL buffer: its registry's scope and its serial.
#[derive(Clone, Copy, Debug, PartialEq, Eq, PartialOrd, Ord, Hash, Structural)]
pub struct WebGlBufferId {
    scope: u64,
    serial: u64,
}

impl WebGlBufferId {
    pub closed spec fn spec_scope(self) -> u64 {
        self.scope
    }

    pub closed spec fn spec_serial(self) -> u64 {
        self.serial
    }

    pub fn scope(self) -> (r: u64)
        ensures
            r == self.spec_scope(),
    {
        self.scope
    }

    pub fn serial(self) -> (r: u64)
        ensures
            r == self.spec_serial(),
    {
        self.serial
    }
}

/// The identity of a WebGL texture: its registry's scope and its serial.
#[derive(Clone, Copy, Debug, PartialEq, Eq, PartialOrd, Ord, Hash, Structural)]
pub struct WebGlTextureId {
    scope: u64,
    serial: u64,
}

impl WebGlTextureId {
    pub closed spec fn spec_scope(self) -> u64 {
        self.scope
    }

    pub closed spec fn spec_serial(self) -> u64 {
        self.serial
    }

    pub fn scope(self) -> (r: u64)
        ensures
            r == self.spec_scope(),
    {
        self.scope
    }

    pub fn serial(self) -> (r: u64)
        ensures
            r == self.spec_serial(),
    {
        self.serial
    }
}

#[derive(Clone, Copy, Debug, PartialEq, Eq, Structural)]
pub enum WebGlContextState {
    Active,
    Lost(WebGlContextLossReason),
}

#[derive(Clone, Copy, Debug, PartialEq, Eq, Structural)]
pub enum WebGlContextLossReason {
    Explicit,
    ResourcePressure,
    BackendUnavailable,
    DeviceReset,
}

/// What a registry reports of a context.
#[derive(Clone, Copy, Debug, PartialEq, Eq)]
pub struct WebGlContextView<S> {
    id: WebGlContextId,
    surface: S,
    state: WebGlContextState,
    resource_count: usize,
    buffer_bytes: u64,
    texture_pixels: u64,
}

impl<S: Copy> WebGlContextView<S> {
    pub closed spec fn spec_id(self) -> WebGlContextId {
        self.id
    }

    pub closed spec fn spec_surface(self) -> S {
        self.surface
    }

    pub closed spec fn spec_state(self) -> WebGlContextState {
        self.state
    }

    pub closed spec fn spec_resource_count(self) -> usize {
        self.resource_count
    }

    pub closed spec fn spec_buffer_bytes(self) -> u64 {
        self.buffer_bytes
    }

    pub closed spec fn spec_texture_pixels(self) -> u64 {
        self.texture_pixels
    }

    pub fn id(self) -> (r: WebGlContextId)
        ensures
            r == self.spec_id(),
    {
        self.id
    }

    pub fn surface(self) -> (r: S)
        ensures
            r == self.spec_surface(),
    {
        self.surface
    }

    pub fn state(self) -> (r: WebGlContextState)
        ensures
            r == self.spec_state(),
    {
        self.state
    }

    pub fn resource_count(self) -> (r: usize)
        ensures
            r == self.spec_resource_count(),
    {
        self.resource_count
    }

    pub fn buffer_bytes(self) -> (r: u64)
        ensures
            r == self.spec_buffer_bytes(),
    {
        self.buffer_bytes
    }

    pub fn texture_pixels(self) -> (r: u64)
        ensures
            r == self.spec_texture_pixels(),
    {
        self.texture_pixels
    }
}

/// What a registry reports of a buffer.
#[derive(Clone, Copy, Debug, PartialEq, Eq, Structural)]
pub struct WebGlBufferView {
    id: WebGlBufferId,
    context: WebGlContextId,
    bytes: u64,
}

impl WebGlBufferView {
    pub closed spec fn spec_id(self) -> WebGlBufferId {
        self.id
    }

    pub closed spec fn spec_context(self) -> WebGlContextId {
        self.context
    }

    pub closed spec fn spec_bytes(self) -> u64 {
        self.bytes
    }

    pub fn id(self) -> (r: WebGlBufferId)
        ensures
            r == self.spec_id(),
    {
        self.id
    }

    pub fn context(self) -> (r: WebGlContextId)
        ensures
            r == self.spec_context(),
    {
        self.context
    }

    pub fn bytes(self) -> (r: u64)
        ensures
            r == self.spec_bytes(),
    {
        self.bytes
    }
}

/// What a registry reports of a texture.
#[derive(Clone, Copy, Debug, PartialEq, Eq, Structural)]
pub struct WebGlTextureView {
    id: WebGlTextureId,
    context: WebGlContextId,
    width: u32,
    height: u32,
    pixels: u64,
}

impl WebGlTextureView {
    pub closed spec fn spec_id(self) -> WebGlTextureId {
        self.id
    }

    pub closed spec fn spec_context(self) -> WebGlContextId {
        self.context
    }

    pub closed spec fn spec_width(self) -> u32 {
        self.width
    }

    pub closed spec fn spec_height(self) -> u32 {
        self.height
    }

    pub closed spec fn spec_pixels(self) -> u64 {
        self.pixels
    }

    pub fn id(self) -> (r: WebGlTextureId)
        ensures
            r == self.spec_id(),
    {
        self.id
    }

    pub fn context(self) -> (r: WebGlContextId)
        ensures
            r == self.spec_context(),
    {
        self.context
    }

    pub fn width(self) -> (r: u32)
        ensures
            r == self.spec_width(),
    {
        self.width
    }

    pub fn height(self) -> (r: u32)
        ensures
            r == self.spec_height(),
    {
        self.height
    }

    pub fn pixels(self) -> (r: u64)
        ensures
            r == self.spec_pixels(),
    {
        self.pixels
    }
}

/// Why a WebGL operation was refused.
#[derive(Clone, Copy, Debug, PartialEq, Eq, Structural)]
pub enum WebGlError {
    InvalidLimits,
    RegistryScopeExhausted,
    ContextIdentitySpaceExhausted,
    BufferIdentitySpaceExhausted,
    TextureIdentitySpaceExhausted,
    ContextLimitExceeded { contexts: usize, limit: usize },
    ResourceLimitExceeded { resources: usize, limit: usize },
    ContextResourceLimitExceeded { resources: usize, limit: usize },
    InvalidBufferSize,
    BufferByteLimitExceeded { bytes: u64, limit: u64 },
    TotalBufferByteOverflow,
    TotalBufferByteLimitExceeded { bytes: u64, limit: u64 },
    InvalidTextureDimensions,
    TextureDimensionLimitExceeded { dimension: u32, limit: u32 },
    TexturePixelLimitExceeded { pixels: u64, limit: u64 },
    TotalTexturePixelOverflow,
    TotalTexturePixelLimitExceeded { pixels: u64, limit: u64 },
    UnknownContext(WebGlContextId),
    UnknownBuffer(WebGlBufferId),
    UnknownTexture(WebGlTextureId),
    ContextLost(WebGlContextId),
    ForeignBuffer { buffer: WebGlBufferId, context: WebGlContextId },
    ForeignTexture { texture: WebGlTextureId, context: WebGlContextId },
    InconsistentState,
}

struct ContextRecord<S, L> {
    serial: u64,
    surface: S,
    lease: L,
    state: WebGlContextState,
    resource_count: usize,
    buffer_bytes: u64,
    texture_pixels: u64,
}

#[derive(Clone, Copy)]
struct BufferRecord {
    serial: u64,
    context: u64,
    bytes: u64,
}

#[derive(Clone, Copy)]
struct TextureRecord {
    serial: u64,
    context: u64,
    width: u32,
    height: u32,
    pixels: u64,
}

/// A context as the registry's contracts see it.
pub struct ContextModel<S, L> {
    pub surface: S,
    pub lease: L,
    pub state: WebGlContextState,
    pub resource_count: usize,
    pub buffer_bytes: u64,
    pub texture_pixels: u64,
}

/// A buffer: the serial of its context and its size.
pub struct BufferModel {
    pub context: u64,
    pub bytes: u64,
}

/// A texture: the serial of its context, its size and its pixel count.
pub struct TextureModel {
    pub context: u64,
    pub width: u32,
    pub height: u32,
    pub pixels: u64,
}

spec fn ctx_serial<S, L>() -> spec_fn(ContextRecord<S, L>) -> u64 {
    |c: ContextRecord<S, L>| c.serial
}

spec fn ctx_model<S, L>() -> spec_fn(ContextRecord<S, L>) -> ContextModel<S, L> {
    |c: ContextRecord<S, L>|
        ContextModel {
            surface: c.surface,
            lease: c.lease,
            state: c.state,
            resource_count: c.resource_count,
            buffer_bytes: c.buffer_bytes,
            texture_pixels: c.texture_pixels,
        }
}

spec fn buf_serial() -> spec_fn(BufferRecord) -> u64 {
    |b: BufferRecord| b.serial
}

spec fn buf_model() -> spec_fn(BufferRecord) -> BufferModel {
    |b: BufferRecord| BufferModel { context: b.context, bytes: b.bytes }
}

spec fn tex_serial() -> spec_fn(TextureRecord) -> u64 {
    |t: TextureRecord| t.serial
}

spec fn tex_model() -> spec_fn(TextureRecord) -> TextureModel {
    |t: TextureRecord|
        TextureModel { context: t.context, width: t.width, height: t.height, pixels: t.pixels }
}

spec fn buf_bytes() -> spec_fn(BufferRecord) -> nat {
    |b: BufferRecord| b.bytes as nat
}

spec fn buf_bytes_of(c: u64) -> spec_fn(BufferRecord) -> nat {
    |b: BufferRecord| if b.context == c {
        b.bytes as nat
    } else {
        0nat
    }
}

spec fn buf_count_of(c: u64) -> spec_fn(BufferRecord) -> nat {
    |b: BufferRecord| if b.context == c {
        1nat
    } else {
        0nat
    }
}

spec fn tex_pixels() -> spec_fn(TextureRecord) -> nat {
    |t: TextureRecord| t.pixels as nat
}

spec fn tex_pixels_of(c: u64) -> spec_fn(TextureRecord) -> nat {
    |t: TextureRecord| if t.context == c {
        t.pixels as nat
    } else {
        0nat
    }
}

spec fn tex_count_of(c: u64) -> spec_fn(TextureRecord) -> nat {
    |t: TextureRecord| if t.context == c {
        1nat
    } else {
        0nat
    }
}

spec fn buf_kept(c: u64) -> spec_fn(BufferRecord) -> bool {
    |b: BufferRecord| b.context != c
}

spec fn tex_kept(c: u64) -> spec_fn(TextureRecord) -> bool {
    |t: TextureRecord| t.context != c
}

/// A serial handed out by a counter whose next value is `next`; a counter
/// at zero has handed out every serial.
pub open spec fn issued(next: u64, serial: u64) -> bool {
    serial >= 1 && (next == 0 || serial < next)
}

/// The counter after handing out `next`.
pub open spec fn advance(next: u64) -> u64 {
    if next == u64::MAX {
        0
    } else {
        (next + 1) as u64
    }
}

/// A context with its counters replaced.
pub open spec fn with_counters<S, L>(
    m: ContextModel<S, L>,
    resource_count: int,
    buffer_bytes: int,
    texture_pixels: int,
) -> ContextModel<S, L> {
    ContextModel {
        surface: m.surface,
        lease: m.lease,
        state: m.state,
        resource_count: resource_count as usize,
        buffer_bytes: buffer_bytes as u64,
        texture_pixels: texture_pixels as u64,
    }
}

/// A registry of WebGL contexts and the resources they own.
pub struct WebGlRegistry<S, L> {
    limits: WebGlLimits,
    scope: u64,
    next_context: u64,
    next_buffer: u64,
    next_texture: u64,
    contexts: Vec<ContextRecord<S, L>>,
    buffers: Vec<BufferRecord>,
    textures: Vec<TextureRecord>,
    total_buffer_bytes: u64,
    total_texture_pixels: u64,
}

impl<S: Copy, L: Copy> WebGlRegistry<S, L> {
    spec fn context_ok(&self, c: ContextRecord<S, L>) -> bool {
        &&& issued(self.next_context, c.serial)
        &&& c.resource_count == weight_sum(self.buffers@, buf_count_of(c.serial)) + weight_sum(
            self.textures@,
            tex_count_of(c.serial),
        )
        &&& c.buffer_bytes == weight_sum(self.buffers@, buf_bytes_of(c.serial))
        &&& c.texture_pixels == weight_sum(self.textures@, tex_pixels_of(c.serial))
        &&& c.resource_count <= self.limits.max_resources_per_context
        &&& (c.state is Lost ==> c.resource_count == 0)
    }

    spec fn buffer_ok(&self, b: BufferRecord) -> bool {
        &&& issued(self.next_buffer, b.serial)
        &&& key_at(self.contexts@, ctx_serial(), b.context)
        &&& 0 < b.bytes <= self.limits.max_buffer_bytes
    }

    spec fn texture_ok(&self, t: TextureRecord) -> bool {
        &&& issued(self.next_texture, t.serial)
        &&& key_at(self.contexts@, ctx_serial(), t.context)
        &&& 0 < t.width <= self.limits.max_texture_dimension
        &&& 0 < t.height <= self.limits.max_texture_dimension
        &&& t.pixels == t.width * t.height
        &&& t.pixels <= self.limits.max_texture_pixels
    }

    /// The registry's invariant: valid limits and scope; distinct serials,
    /// each handed out by its counter; every resource owned by a present
    /// context; each context's counters are the sums over the resources it
    /// owns and a lost context owns none; totals are the sums over all
    /// resources; every budget holds.
    pub closed spec fn wf(&self) -> bool {
        &&& self.limits.spec_is_valid()
        &&& self.scope != 0
        &&& keys_distinct(self.contexts@, ctx_serial())
        &&& keys_distinct(self.buffers@, buf_serial())
        &&& keys_distinct(self.textures@, tex_serial())
        &&& self.contexts@.len() <= self.limits.max_contexts
        &&& self.buffers@.len() + self.textures@.len() <= self.limits.max_resources
        &&& self.total_buffer_bytes == weight_sum(self.buffers@, buf_bytes())
        &&& self.total_buffer_bytes <= self.limits.max_total_buffer_bytes
        &&& self.total_texture_pixels == weight_sum(self.textures@, tex_pixels())
        &&& self.total_texture_pixels <= self.limits.max_total_texture_pixels
        &&& forall|k: int|
            0 <= k < self.contexts@.len() ==> self.context_ok(#[trigger] self.contexts@[k])
        &&& forall|i: int|
            0 <= i < self.buffers@.len() ==> self.buffer_ok(#[trigger] self.buffers@[i])
        &&& forall|i: int|
            0 <= i < self.textures@.len() ==> self.texture_ok(#[trigger] self.textures@[i])
    }

    /// The contexts, by serial.
    pub closed spec fn spec_contexts(&self) -> Map<u64, ContextModel<S, L>> {
        keyed_map(self.contexts@, ctx_serial(), ctx_model())
    }

    /// The buffers, by serial.
    pub closed spec fn spec_buffers(&self) -> Map<u64, BufferModel> {
        keyed_map(self.buffers@, buf_serial(), buf_model())
    }

    /// The textures, by serial.
    pub closed spec fn spec_textures(&self) -> Map<u64, TextureModel> {
        keyed_map(self.textures@, tex_serial(), tex_model())
    }

    pub closed spec fn spec_limits(&self) -> WebGlLimits {
        self.limits
    }

    /// The scope every identity of this registry carries.
    pub closed spec fn spec_scope(&self) -> u64 {
        self.scope
    }

    pub closed spec fn spec_next_context(&self) -> u64 {
        self.next_context
    }

    pub closed spec fn spec_next_buffer(&self) -> u64 {
        self.next_buffer
    }

    pub closed spec fn spec_next_texture(&self) -> u64 {
        self.next_texture
    }

    pub closed spec fn spec_total_buffer_bytes(&self) -> u64 {
        self.total_buffer_bytes
    }

    pub closed spec fn spec_total_texture_pixels(&self) -> u64 {
        self.total_texture_pixels
    }

    /// Nothing that a caller can observe differs.
    pub open spec fn same_state(&self, other: &Self) -> bool {
        &&& self.spec_contexts() == other.spec_contexts()
        &&& self.spec_buffers() == other.spec_buffers()
        &&& self.spec_textures() == other.spec_textures()
        &&& self.spec_limits() == other.spec_limits()
        &&& self.spec_scope() == other.spec_scope()
        &&& self.spec_next_context() == other.spec_next_context()
        &&& self.spec_next_buffer() == other.spec_next_buffer()
        &&& self.spec_next_texture() == other.spec_next_texture()
        &&& self.spec_total_buffer_bytes() == other.spec_total_buffer_bytes()
        &&& self.spec_total_texture_pixels() == other.spec_total_texture_pixels()
    }

    /// The context is one of this registry's present contexts.
    pub open spec fn has_context(&self, context: WebGlContextId) -> bool {
        context.spec_scope() == self.spec_scope() && self.spec_contexts().contains_key(
            context.spec_serial(),
        )
    }

    /// Why a new context would be refused before any lease is taken.
    pub open spec fn context_capacity_refusal(&self) -> Option<WebGlError> {
        let next = self.spec_contexts().len() + 1;
        if next > usize::MAX {
            Some(
                WebGlError::ContextLimitExceeded {
                    contexts: usize::MAX,
                    limit: self.spec_limits().max_contexts,
                },
            )
        } else if next > self.spec_limits().max_contexts {
            Some(
                WebGlError::ContextLimitExceeded {
                    contexts: next as usize,
                    limit: self.spec_limits().max_contexts,
                },
            )
        } else {
            None
        }
    }

    /// Why creating a context would be refused.
    pub open spec fn create_context_refusal(&self) -> Option<WebGlError> {
        if self.context_capacity_refusal() is Some {
            self.context_capacity_refusal()
        } else if self.spec_next_context() == 0 {
            Some(WebGlError::ContextIdentitySpaceExhausted)
        } else {
            None
        }
    }

    /// Why a context cannot take new resources: it is unknown or lost.
    pub open spec fn active_refusal(&self, context: WebGlContextId) -> Option<WebGlError> {
        if !self.has_context(context) {
            Some(WebGlError::UnknownContext(context))
        } else if self.spec_contexts()[context.spec_serial()].state is Lost {
            Some(WebGlError::ContextLost(context))
        } else {
            None
        }
    }

    /// Why a present context cannot own one more resource.
    pub open spec fn capacity_refusal(&self, context: WebGlContextId) -> Option<WebGlError> {
        let owned = self.spec_contexts()[context.spec_serial()].resource_count;
        let current = self.spec_buffers().len() + self.spec_textures().len();
        if owned + 1 > usize::MAX {
            Some(
                WebGlError::ContextResourceLimitExceeded {
                    resources: usize::MAX,
                    limit: self.spec_limits().max_resources_per_context,
                },
            )
        } else if owned + 1 > self.spec_limits().max_resources_per_context {
            Some(
                WebGlError::ContextResourceLimitExceeded {
                    resources: (owned + 1) as usize,
                    limit: self.spec_limits().max_resources_per_context,
                },
            )
        } else if current + 1 > usize::MAX {
            Some(
                WebGlError::ResourceLimitExceeded {
                    resources: usize::MAX,
                    limit: self.spec_limits().max_resources,
                },
            )
        } else if current + 1 > self.spec_limits().max_resources {
            Some(
                WebGlError::ResourceLimitExceeded {
                    resources: (current + 1) as usize,
                    limit: self.spec_limits().max_resources,
                },
            )
        } else {
            None
        }
    }

    /// Why creating a buffer of `bytes` bytes for `context` would be
    /// refused.
    pub open spec fn buffer_refusal(&self, context: WebGlContextId, bytes: u64) -> Option<
        WebGlError,
    > {
        let next_total = self.spec_total_buffer_bytes() + bytes;
        if bytes == 0 {
            Some(WebGlError::InvalidBufferSize)
        } else if bytes > self.spec_limits().max_buffer_bytes {
            Some(
                WebGlError::BufferByteLimitExceeded {
                    bytes,
                    limit: self.spec_limits().max_buffer_bytes,
                },
            )
        } else if self.active_refusal(context) is Some {
            self.active_refusal(context)
        } else if self.capacity_refusal(context) is Some {
            self.capacity_refusal(context)
        } else if next_total > u64::MAX {
            Some(WebGlError::TotalBufferByteOverflow)
        } else if next_total > self.spec_limits().max_total_buffer_bytes {
            Some(
                WebGlError::TotalBufferByteLimitExceeded {
                    bytes: next_total as u64,
                    limit: self.spec_limits().max_total_buffer_bytes,
                },
            )
        } else if self.spec_next_buffer() == 0 {
            Some(WebGlError::BufferIdentitySpaceExhausted)
        } else {
            None
        }
    }

    /// Why creating a `width` by `height` texture for `context` would be
    /// refused.
    pub open spec fn texture_refusal(&self, context: WebGlContextId, width: u32, height: u32) -> Option<
        WebGlError,
    > {
        let dimension = if width >= height {
            width
        } else {
            height
        };
        let pixels = width * height;
        let next_total = self.spec_total_texture_pixels() + pixels;
        if width == 0 || height == 0 {
            Some(WebGlError::InvalidTextureDimensions)
        } else if dimension > self.spec_limits().max_texture_dimension {
            Some(
                WebGlError::TextureDimensionLimitExceeded {
                    dimension,
                    limit: self.spec_limits().max_texture_dimension,
                },
            )
        } else if pixels > self.spec_limits().max_texture_pixels {
            Some(
                WebGlError::TexturePixelLimitExceeded {
                    pixels: pixels as u64,
                    limit: self.spec_limits().max_texture_pixels,
                },
            )
        } else if self.active_refusal(context) is Some {
            self.active_refusal(context)
        } else if self.capacity_refusal(context) is Some {
            self.capacity_refusal(context)
        } else if next_total > u64::MAX {
            Some(WebGlError::TotalTexturePixelOverflow)
        } else if next_total > self.spec_limits().max_total_texture_pixels {
            Some(
                WebGlError::TotalTexturePixelLimitExceeded {
                    pixels: next_total as u64,
                    limit: self.spec_limits().max_total_texture_pixels,
                },
            )
        } else if self.spec_next_texture() == 0 {
            Some(WebGlError::TextureIdentitySpaceExhausted)
        } else {
            None
        }
    }


    proof fn lemma_lens(&self)
        requires
            self.wf(),
        ensures
            self.spec_contexts().dom().finite(),
            self.spec_contexts().len() == self.contexts@.len(),
            self.spec_buffers().dom().finite(),
            self.spec_buffers().len() == self.buffers@.len(),
            self.spec_textures().dom().finite(),
            self.spec_textures().len() == self.textures@.len(),
    {
        lemma_keyed_map_len(self.contexts@, ctx_serial(), ctx_model());
        lemma_keyed_map_len(self.buffers@, buf_serial(), buf_model());
        lemma_keyed_map_len(self.textures@, tex_serial(), tex_model());
    }

    fn find_context(&self, serial: u64) -> (r: Option<usize>)
        requires
            self.wf(),
        ensures
            r is Some <==> self.spec_contexts().contains_key(serial),
            r matches Some(j) ==> {
                &&& j < self.contexts@.len()
                &&& self.contexts@[j as int].serial == serial
                &&& self.spec_contexts()[serial] == ctx_model()(self.contexts@[j as int])
            },
    {
        let mut i: usize = 0;
        while i < self.contexts.len()
            invariant
                0 <= i <= self.contexts@.len(),
                self.wf(),
                forall|j: int| 0 <= j < i ==> #[trigger] self.contexts@[j].serial != serial,
            decreases self.contexts@.len() - i,
        {
            if self.contexts[i].serial == serial {
                proof {
                    lemma_keyed_map_at(self.contexts@, ctx_serial(), ctx_model(), i as int);
                }
                return Some(i);
            }
            i = i + 1;
        }
        proof {
            if key_at(self.contexts@, ctx_serial(), serial) {
                let j = choose|j: int|
                    0 <= j < self.contexts@.len() && ctx_serial()(self.contexts@[j]) == serial;
                assert(self.contexts@[j].serial != serial);
            }
        }
        None
    }

    fn find_buffer(&self, serial: u64) -> (r: Option<usize>)
        requires
            self.wf(),
        ensures
            r is Some <==> self.spec_buffers().contains_key(serial),
            r matches Some(j) ==> {
                &&& j < self.buffers@.len()
                &&& self.buffers@[j as int].serial == serial
                &&& self.spec_buffers()[serial] == buf_model()(self.buffers@[j as int])
            },
    {
        let mut i: usize = 0;
        while i < self.buffers.len()
            invariant
                0 <= i <= self.buffers@.len(),
                self.wf(),
                forall|j: int| 0 <= j < i ==> #[trigger] self.buffers@[j].serial != serial,
            decreases self.buffers@.len() - i,
        {
            if self.buffers[i].serial == serial {
                proof {
                    lemma_keyed_map_at(self.buffers@, buf_serial(), buf_model(), i as int);
                }
                return Some(i);
            }
            i = i + 1;
        }
        proof {
            if key_at(self.buffers@, buf_serial(), serial) {
                let j = choose|j: int|
                    0 <= j < self.buffers@.len() && buf_serial()(self.buffers@[j]) == serial;
                assert(self.buffers@[j].serial != serial);
            }
        }
        None
    }

    fn find_texture(&self, serial: u64) -> (r: Option<usize>)
        requires
            self.wf(),
        ensures
            r is Some <==> self.spec_textures().contains_key(serial),
            r matches Some(j) ==> {
                &&& j < self.textures@.len()
                &&& self.textures@[j as int].serial == serial
                &&& self.spec_textures()[serial] == tex_model()(self.textures@[j as int])
            },
    {
        let mut i: usize = 0;
        while i < self.textures.len()
            invariant
                0 <= i <= self.textures@.len(),
                self.wf(),
                forall|j: int| 0 <= j < i ==> #[trigger] self.textures@[j].serial != serial,
            decreases self.textures@.len() - i,
        {
            if self.textures[i].serial == serial {
                proof {
                    lemma_keyed_map_at(self.textures@, tex_serial(), tex_model(), i as int);
                }
                return Some(i);
            }
            i = i + 1;
        }
        proof {
            if key_at(self.textures@, tex_serial(), serial) {
                let j = choose|j: int|
                    0 <= j < self.textures@.len() && tex_serial()(self.textures@[j]) == serial;
                assert(self.textures@[j].serial != serial);
            }
        }
        None
    }

    /// An empty registry with the given limits and the next scope of
    /// `scopes`; refused with `InvalidLimits` for invalid limits (drawing
    /// nothing), and with `RegistryScopeExhausted` once the counter is spent.
    pub fn try_new(limits: WebGlLimits, scopes: &mut ScopeCounter) -> (r: Result<Self, WebGlError>)
        requires
            old(scopes).spec_next() >= 1,
        ensures
            !limits.spec_is_valid() ==> r == Err::<Self, WebGlError>(WebGlError::InvalidLimits),
            limits.spec_is_valid() ==> ((r is Err) <==> old(scopes).spec_next() == u64::MAX),
            limits.spec_is_valid() && r is Err ==> r == Err::<Self, WebGlError>(
                WebGlError::RegistryScopeExhausted,
            ),
            r is Err ==> *final(scopes) == *old(scopes),
            r is Ok ==> final(scopes).spec_next() == old(scopes).spec_next() + 1,
            r matches Ok(registry) ==> {
                &&& registry.wf()
                &&& registry.spec_limits() == limits
                &&& registry.spec_scope() == old(scopes).spec_next()
                &&& registry.spec_scope() != 0
                &&& registry.spec_contexts() == Map::<u64, ContextModel<S, L>>::empty()
                &&& registry.spec_buffers() == Map::<u64, BufferModel>::empty()
                &&& registry.spec_textures() == Map::<u64, TextureModel>::empty()
                &&& registry.spec_next_context() == 1
                &&& registry.spec_next_buffer() == 1
                &&& registry.spec_next_texture() == 1
                &&& registry.spec_total_buffer_bytes() == 0
                &&& registry.spec_total_texture_pixels() == 0
            },
    {
        if !limits.is_valid() {
            return Err(WebGlError::InvalidLimits);
        }
        let scope = match scopes.draw() {
            Some(s) => s,
            None => {
                return Err(WebGlError::RegistryScopeExhausted);
            },
        };
        let registry = WebGlRegistry {
            limits,
            scope,
            next_context: 1,
            next_buffer: 1,
            next_texture: 1,
            contexts: Vec::new(),
            buffers: Vec::new(),
            textures: Vec::new(),
            total_buffer_bytes: 0,
            total_texture_pixels: 0,
        };
        proof {
            assert(registry.spec_contexts() =~= Map::<u64, ContextModel<S, L>>::empty());
            assert(registry.spec_buffers() =~= Map::<u64, BufferModel>::empty());
            assert(registry.spec_textures() =~= Map::<u64, TextureModel>::empty());
        }
        Ok(registry)
    }

    pub fn limits(&self) -> (r: WebGlLimits)
        ensures
            r == self.spec_limits(),
    {
        self.limits
    }

    pub fn context_count(&self) -> (r: usize)
        requires
            self.wf(),
        ensures
            r == self.spec_contexts().len(),
    {
        proof {
            self.lemma_lens();
        }
        self.contexts.len()
    }

    /// The number of buffers and textures.
    pub fn resource_count(&self) -> (r: usize)
        requires
            self.wf(),
        ensures
            r == self.spec_buffers().len() + self.spec_textures().len(),
    {
        proof {
            self.lemma_lens();
        }
        self.buffers.len() + self.textures.len()
    }

    pub fn total_buffer_bytes(&self) -> (r: u64)
        ensures
            r == self.spec_total_buffer_bytes(),
    {
        self.total_buffer_bytes
    }

    pub fn total_texture_pixels(&self) -> (r: u64)
        ensures
            r == self.spec_total_texture_pixels(),
    {
        self.total_texture_pixels
    }

    /// The view of a present context, or `None`.
    pub fn context(&self, id: WebGlContextId) -> (r: Option<WebGlContextView<S>>)
        requires
            self.wf(),
        ensures
            r is Some <==> self.has_context(id),
            r matches Some(view) ==> {
                let m = self.spec_contexts()[id.spec_serial()];
                &&& view.spec_id() == id
                &&& view.spec_surface() == m.surface
                &&& view.spec_state() == m.state
                &&& view.spec_resource_count() == m.resource_count
                &&& view.spec_buffer_bytes() == m.buffer_bytes
                &&& view.spec_texture_pixels() == m.texture_pixels
            },
    {
        if id.scope != self.scope {
            return None;
        }
        match self.find_context(id.serial) {
            None => None,
            Some(j) => {
                let c = &self.contexts[j];
                Some(
                    WebGlContextView {
                        id,
                        surface: c.surface,
                        state: c.state,
                        resource_count: c.resource_count,
                        buffer_bytes: c.buffer_bytes,
                        texture_pixels: c.texture_pixels,
                    },
                )
            },
        }
    }

    /// The canvas lease a present context holds, or `None`.
    pub fn lease(&self, id: WebGlContextId) -> (r: Option<L>)
        requires
            self.wf(),
        ensures
            r is Some <==> self.has_context(id),
            r matches Some(lease) ==> lease == self.spec_contexts()[id.spec_serial()].lease,
    {
        if id.scope != self.scope {
            return None;
        }
        match self.find_context(id.serial) {
            None => None,
            Some(j) => Some(self.contexts[j].lease),
        }
    }

    /// The view of a present buffer, or `None`.
    pub fn buffer(&self, id: WebGlBufferId) -> (r: Option<WebGlBufferView>)
        requires
            self.wf(),
        ensures
            r is Some <==> (id.spec_scope() == self.spec_scope() && self.spec_buffers().contains_key(
                id.spec_serial(),
            )),
            r matches Some(view) ==> {
                let m = self.spec_buffers()[id.spec_serial()];
                &&& view.spec_id() == id
                &&& view.spec_context().spec_scope() == self.spec_scope()
                &&& view.spec_context().spec_serial() == m.context
                &&& view.spec_bytes() == m.bytes
            },
    {
        if id.scope != self.scope {
            return None;
        }
        match self.find_buffer(id.serial) {
            None => None,
            Some(j) => {
                let b = self.buffers[j];
                Some(
                    WebGlBufferView {
                        id,
                        context: WebGlContextId { scope: self.scope, serial: b.context },
                        bytes: b.bytes,
                    },
                )
            },
        }
    }

    /// The view of a present texture, or `None`.
    pub fn texture(&self, id: WebGlTextureId) -> (r: Option<WebGlTextureView>)
        requires
            self.wf(),
        ensures
            r is Some <==> (id.spec_scope() == self.spec_scope()
                && self.spec_textures().contains_key(id.spec_serial())),
            r matches Some(view) ==> {
                let m = self.spec_textures()[id.spec_serial()];
                &&& view.spec_id() == id
                &&& view.spec_context().spec_scope() == self.spec_scope()
                &&& view.spec_context().spec_serial() == m.context
                &&& view.spec_width() == m.width
                &&& view.spec_height() == m.height
                &&& view.spec_pixels() == m.pixels
            },
    {
        if id.scope != self.scope {
            return None;
        }
        match self.find_texture(id.serial) {
            None => None,
            Some(j) => {
                let t = self.textures[j];
                Some(
                    WebGlTextureView {
                        id,
                        context: WebGlContextId { scope: self.scope, serial: t.context },
                        width: t.width,
                        height: t.height,
                        pixels: t.pixels,
                    },
                )
            },
        }
    }
}

impl<S: Copy, L: Copy> WebGlRegistry<S, L> {
    /// Checks, before a canvas lease is taken, that one more context fits.
    pub fn check_context_capacity(&self) -> (r: Result<(), WebGlError>)
        requires
            self.wf(),
        ensures
            self.context_capacity_refusal() is None <==> r is Ok,
            r matches Err(e) ==> self.context_capacity_refusal() == Some(e),
    {
        proof {
            self.lemma_lens();
        }
        let count = self.contexts.len();
        if count == usize::MAX {
            return Err(
                WebGlError::ContextLimitExceeded {
                    contexts: usize::MAX,
                    limit: self.limits.max_contexts,
                },
            );
        }
        let next = count + 1;
        if next > self.limits.max_contexts {
            return Err(WebGlError::ContextLimitExceeded { contexts: next, limit: self.limits.max_contexts });
        }
        Ok(())
    }

    /// Registers an active context for `surface`, holding the canvas
    /// `lease` the embedder took for it; refused when the context budget is
    /// spent or context identities are exhausted, leaving the registry as it
    /// was (the embedder then gives the lease back).
    pub fn create_context(&mut self, surface: S, lease: L) -> (r: Result<WebGlContextId, WebGlError>)
        requires
            old(self).wf(),
        ensures
            final(self).wf(),
            old(self).create_context_refusal() is None <==> r is Ok,
            r matches Err(e) ==> old(self).create_context_refusal() == Some(e) && final(self).same_state(old(self)),
            r matches Ok(id) ==> {
                &&& id.spec_scope() == old(self).spec_scope()
                &&& id.spec_serial() == old(self).spec_next_context()
                &&& !old(self).spec_contexts().contains_key(id.spec_serial())
                &&& final(self).spec_contexts() == old(self).spec_contexts().insert(
                    id.spec_serial(),
                    ContextModel {
                        surface,
                        lease,
                        state: WebGlContextState::Active,
                        resource_count: 0,
                        buffer_bytes: 0,
                        texture_pixels: 0,
                    },
                )
                &&& final(self).spec_buffers() == old(self).spec_buffers()
                &&& final(self).spec_textures() == old(self).spec_textures()
                &&& final(self).spec_next_context() == advance(old(self).spec_next_context())
                &&& final(self).spec_next_buffer() == old(self).spec_next_buffer()
                &&& final(self).spec_next_texture() == old(self).spec_next_texture()
                &&& final(self).spec_total_buffer_bytes() == old(self).spec_total_buffer_bytes()
                &&& final(self).spec_total_texture_pixels() == old(self).spec_total_texture_pixels()
                &&& final(self).spec_limits() == old(self).spec_limits()
                &&& final(self).spec_scope() == old(self).spec_scope()
            },
    {
        proof {
            self.lemma_lens();
        }
        match self.check_context_capacity() {
            Err(e) => return Err(e),
            Ok(()) => {},
        }
        if self.next_context == 0 {
            return Err(WebGlError::ContextIdentitySpaceExhausted);
        }
        let serial = self.next_context;
        let record = ContextRecord {
            serial,
            surface,
            lease,
            state: WebGlContextState::Active,
            resource_count: 0,
            buffer_bytes: 0,
            texture_pixels: 0,
        };
        proof {
            let cs = self.contexts@;
            if key_at(cs, ctx_serial(), serial) {
                let j = choose|j: int| 0 <= j < cs.len() && ctx_serial()(cs[j]) == serial;
                assert(self.context_ok(cs[j]));
            }
            lemma_keyed_map_insert(cs, ctx_serial(), ctx_model(), cs.len() as int, record);
            assert(cs.insert(cs.len() as int, record) =~= cs.push(record));
            assert forall|i: int| 0 <= i < self.buffers@.len() implies #[trigger] buf_count_of(
                serial,
            )(self.buffers@[i]) == 0 && buf_bytes_of(serial)(self.buffers@[i]) == 0 by {
                assert(self.buffer_ok(self.buffers@[i]));
            }
            assert forall|i: int| 0 <= i < self.textures@.len() implies #[trigger] tex_count_of(
                serial,
            )(self.textures@[i]) == 0 && tex_pixels_of(serial)(self.textures@[i]) == 0 by {
                assert(self.texture_ok(self.textures@[i]));
            }
            lemma_weight_sum_zero(self.buffers@, buf_count_of(serial));
            lemma_weight_sum_zero(self.buffers@, buf_bytes_of(serial));
            lemma_weight_sum_zero(self.textures@, tex_count_of(serial));
            lemma_weight_sum_zero(self.textures@, tex_pixels_of(serial));
        }
        self.next_context = if serial == u64::MAX {
            0
        } else {
            serial + 1
        };
        self.contexts.push(record);
        proof {
            let o = old(self);
            assert forall|k: int| 0 <= k < self.contexts@.len() implies self.context_ok(
                #[trigger] self.contexts@[k],
            ) by {
                if k < o.contexts@.len() {
                    assert(self.contexts@[k] == o.contexts@[k]);
                    assert(o.context_ok(o.contexts@[k]));
                }
            }
            assert forall|i: int| 0 <= i < self.buffers@.len() implies self.buffer_ok(
                #[trigger] self.buffers@[i],
            ) by {
                assert(o.buffer_ok(o.buffers@[i]));
                let j = choose|j: int|
                    0 <= j < o.contexts@.len() && ctx_serial()(o.contexts@[j])
                        == self.buffers@[i].context;
                assert(self.contexts@[j] == o.contexts@[j]);
            }
            assert forall|i: int| 0 <= i < self.textures@.len() implies self.texture_ok(
                #[trigger] self.textures@[i],
            ) by {
                assert(o.texture_ok(o.textures@[i]));
                let j = choose|j: int|
                    0 <= j < o.contexts@.len() && ctx_serial()(o.contexts@[j])
                        == self.textures@[i].context;
                assert(self.contexts@[j] == o.contexts@[j]);
            }
        }
        Ok(WebGlContextId { scope: self.scope, serial })
    }

    /// The position of a present, active context.
    fn require_active_context(&self, context: WebGlContextId) -> (r: Result<usize, WebGlError>)
        requires
            self.wf(),
        ensures
            self.active_refusal(context) is None <==> r is Ok,
            r matches Err(e) ==> self.active_refusal(context) == Some(e),
            r matches Ok(j) ==> {
                &&& j < self.contexts@.len()
                &&& self.contexts@[j as int].serial == context.spec_serial()
                &&& self.spec_contexts()[context.spec_serial()] == ctx_model()(
                    self.contexts@[j as int],
                )
            },
    {
        if context.scope != self.scope {
            return Err(WebGlError::UnknownContext(context));
        }
        match self.find_context(context.serial) {
            None => Err(WebGlError::UnknownContext(context)),
            Some(j) => match self.contexts[j].state {
                WebGlContextState::Active => Ok(j),
                WebGlContextState::Lost(_) => Err(WebGlError::ContextLost(context)),
            },
        }
    }

    /// Checks that the context at `j` and the registry can own one more
    /// resource.
    fn check_resource_capacity(&self, j: usize, context: WebGlContextId) -> (r: Result<
        (),
        WebGlError,
    >)
        requires
            self.wf(),
            j < self.contexts@.len(),
            self.contexts@[j as int].serial == context.spec_serial(),
            self.spec_contexts()[context.spec_serial()] == ctx_model()(self.contexts@[j as int]),
        ensures
            self.capacity_refusal(context) is None <==> r is Ok,
            r matches Err(e) ==> self.capacity_refusal(context) == Some(e),
    {
        proof {
            self.lemma_lens();
        }
        let owned = self.contexts[j].resource_count;
        if owned == usize::MAX {
            return Err(
                WebGlError::ContextResourceLimitExceeded {
                    resources: usize::MAX,
                    limit: self.limits.max_resources_per_context,
                },
            );
        }
        let context_next = owned + 1;
        if context_next > self.limits.max_resources_per_context {
            return Err(
                WebGlError::ContextResourceLimitExceeded {
                    resources: context_next,
                    limit: self.limits.max_resources_per_context,
                },
            );
        }
        let buffers = self.buffers.len();
        let textures = self.textures.len();
        let current = match buffers.checked_add(textures) {
            None => {
                return Err(
                    WebGlError::ResourceLimitExceeded {
                        resources: usize::MAX,
                        limit: self.limits.max_resources,
                    },
                );
            },
            Some(current) => current,
        };
        if current == usize::MAX {
            return Err(
                WebGlError::ResourceLimitExceeded {
                    resources: usize::MAX,
                    limit: self.limits.max_resources,
                },
            );
        }
        let total_next = current + 1;
        if total_next > self.limits.max_resources {
            return Err(
                WebGlError::ResourceLimitExceeded {
                    resources: total_next,
                    limit: self.limits.max_resources,
                },
            );
        }
        Ok(())
    }
}

impl<S: Copy, L: Copy> WebGlRegistry<S, L> {
    /// Creates a buffer of `bytes` bytes owned by `context`; refused for an
    /// empty or oversized buffer, an unknown or lost context, a spent
    /// per-context or global resource budget, a spent byte budget, or
    /// exhausted buffer identities, leaving the registry as it was.
    pub fn create_buffer(&mut self, context: WebGlContextId, bytes: u64) -> (r: Result<
        WebGlBufferId,
        WebGlError,
    >)
        requires
            old(self).wf(),
        ensures
            final(self).wf(),
            old(self).buffer_refusal(context, bytes) is None <==> r is Ok,
            r matches Err(e) ==> old(self).buffer_refusal(context, bytes) == Some(e) && final(self).same_state(old(self)),
            r matches Ok(id) ==> {
                let c = context.spec_serial();
                let owner = old(self).spec_contexts()[c];
                &&& id.spec_scope() == old(self).spec_scope()
                &&& id.spec_serial() == old(self).spec_next_buffer()
                &&& !old(self).spec_buffers().contains_key(id.spec_serial())
                &&& final(self).spec_buffers() == old(self).spec_buffers().insert(
                    id.spec_serial(),
                    BufferModel { context: c, bytes },
                )
                &&& final(self).spec_contexts() == old(self).spec_contexts().insert(
                    c,
                    with_counters(
                        owner,
                        owner.resource_count + 1,
                        owner.buffer_bytes + bytes,
                        owner.texture_pixels as int,
                    ),
                )
                &&& final(self).spec_textures() == old(self).spec_textures()
                &&& final(self).spec_total_buffer_bytes() == old(self).spec_total_buffer_bytes()
                    + bytes
                &&& final(self).spec_total_texture_pixels() == old(self).spec_total_texture_pixels()
                &&& final(self).spec_next_buffer() == advance(old(self).spec_next_buffer())
                &&& final(self).spec_next_context() == old(self).spec_next_context()
                &&& final(self).spec_next_texture() == old(self).spec_next_texture()
                &&& final(self).spec_limits() == old(self).spec_limits()
                &&& final(self).spec_scope() == old(self).spec_scope()
            },
    {
        proof {
            self.lemma_lens();
        }
        if bytes == 0 {
            return Err(WebGlError::InvalidBufferSize);
        }
        if bytes > self.limits.max_buffer_bytes {
            return Err(
                WebGlError::BufferByteLimitExceeded { bytes, limit: self.limits.max_buffer_bytes },
            );
        }
        let j = match self.require_active_context(context) {
            Err(e) => return Err(e),
            Ok(j) => j,
        };
        match self.check_resource_capacity(j, context) {
            Err(e) => return Err(e),
            Ok(()) => {},
        }
        let next_total = match self.total_buffer_bytes.checked_add(bytes) {
            None => return Err(WebGlError::TotalBufferByteOverflow),
            Some(total) => total,
        };
        if next_total > self.limits.max_total_buffer_bytes {
            return Err(
                WebGlError::TotalBufferByteLimitExceeded {
                    bytes: next_total,
                    limit: self.limits.max_total_buffer_bytes,
                },
            );
        }
        if self.next_buffer == 0 {
            return Err(WebGlError::BufferIdentitySpaceExhausted);
        }
        let c = context.serial;
        proof {
            assert(self.context_ok(self.contexts@[j as int]));
            assert forall|i: int| 0 <= i < self.buffers@.len() implies #[trigger] buf_bytes_of(c)(
                self.buffers@[i],
            ) <= buf_bytes()(self.buffers@[i]) by {}
            lemma_weight_sum_le(self.buffers@, buf_bytes_of(c), buf_bytes());
        }
        let serial = self.next_buffer;
        let e = BufferRecord { serial, context: c, bytes };
        let owner = &self.contexts[j];
        let updated = ContextRecord {
            serial: owner.serial,
            surface: owner.surface,
            lease: owner.lease,
            state: owner.state,
            resource_count: owner.resource_count + 1,
            buffer_bytes: owner.buffer_bytes + bytes,
            texture_pixels: owner.texture_pixels,
        };
        proof {
            let bs = self.buffers@;
            if key_at(bs, buf_serial(), serial) {
                let i = choose|i: int| 0 <= i < bs.len() && buf_serial()(bs[i]) == serial;
                assert(self.buffer_ok(bs[i]));
            }
            lemma_keyed_map_insert(bs, buf_serial(), buf_model(), bs.len() as int, e);
            assert(bs.insert(bs.len() as int, e) =~= bs.push(e));
            lemma_keyed_map_update(self.contexts@, ctx_serial(), ctx_model(), j as int, updated);
        }
        self.next_buffer = if serial == u64::MAX {
            0
        } else {
            serial + 1
        };
        self.contexts.set(j, updated);
        self.buffers.push(e);
        self.total_buffer_bytes = next_total;
        proof {
            let o = old(self);
            lemma_weight_sum_push(o.buffers@, buf_bytes(), e);
            assert forall|k: int| 0 <= k < self.contexts@.len() implies self.context_ok(
                #[trigger] self.contexts@[k],
            ) by {
                let ck = self.contexts@[k].serial;
                lemma_weight_sum_push(o.buffers@, buf_count_of(ck), e);
                lemma_weight_sum_push(o.buffers@, buf_bytes_of(ck), e);
                assert(o.context_ok(o.contexts@[k]));
                if k != j {
                    assert(self.contexts@[k] == o.contexts@[k]);
                    assert(ck != c);
                }
            }
            assert forall|s2: u64| key_at(o.contexts@, ctx_serial(), s2) implies key_at(
                self.contexts@,
                ctx_serial(),
                s2,
            ) by {
                let k = choose|k: int| 0 <= k < o.contexts@.len() && ctx_serial()(o.contexts@[k]) == s2;
                assert(self.contexts@[k].serial == o.contexts@[k].serial);
            }
            assert forall|i: int| 0 <= i < self.buffers@.len() implies self.buffer_ok(
                #[trigger] self.buffers@[i],
            ) by {
                if i < o.buffers@.len() {
                    assert(self.buffers@[i] == o.buffers@[i]);
                    assert(o.buffer_ok(o.buffers@[i]));
                } else {
                    assert(self.buffers@[i] == e);
                    assert(ctx_serial()(self.contexts@[j as int]) == c);
                }
            }
            assert forall|i: int| 0 <= i < self.textures@.len() implies self.texture_ok(
                #[trigger] self.textures@[i],
            ) by {
                assert(o.texture_ok(o.textures@[i]));
            }
        }
        Ok(WebGlBufferId { scope: self.scope, serial })
    }
}

impl<S: Copy, L: Copy> WebGlRegistry<S, L> {
    /// Creates a `width` by `height` texture owned by `context`; refused for
    /// an empty or oversized texture, an unknown or lost context, a spent
    /// per-context or global resource budget, a spent pixel budget, or
    /// exhausted texture identities, leaving the registry as it was.
    pub fn create_texture(&mut self, context: WebGlContextId, width: u32, height: u32) -> (r: Result<
        WebGlTextureId,
        WebGlError,
    >)
        requires
            old(self).wf(),
        ensures
            final(self).wf(),
            old(self).texture_refusal(context, width, height) is None <==> r is Ok,
            r matches Err(e) ==> old(self).texture_refusal(context, width, height) == Some(e)
                && final(self).same_state(old(self)),
            r matches Ok(id) ==> {
                let c = context.spec_serial();
                let owner = old(self).spec_contexts()[c];
                let pixels = width * height;
                &&& id.spec_scope() == old(self).spec_scope()
                &&& id.spec_serial() == old(self).spec_next_texture()
                &&& !old(self).spec_textures().contains_key(id.spec_serial())
                &&& final(self).spec_textures() == old(self).spec_textures().insert(
                    id.spec_serial(),
                    TextureModel { context: c, width, height, pixels: pixels as u64 },
                )
                &&& final(self).spec_contexts() == old(self).spec_contexts().insert(
                    c,
                    with_counters(
                        owner,
                        owner.resource_count + 1,
                        owner.buffer_bytes as int,
                        owner.texture_pixels + pixels,
                    ),
                )
                &&& final(self).spec_buffers() == old(self).spec_buffers()
                &&& final(self).spec_total_texture_pixels() == old(self).spec_total_texture_pixels()
                    + pixels
                &&& final(self).spec_total_buffer_bytes() == old(self).spec_total_buffer_bytes()
                &&& final(self).spec_next_texture() == advance(old(self).spec_next_texture())
                &&& final(self).spec_next_context() == old(self).spec_next_context()
                &&& final(self).spec_next_buffer() == old(self).spec_next_buffer()
                &&& final(self).spec_limits() == old(self).spec_limits()
                &&& final(self).spec_scope() == old(self).spec_scope()
            },
    {
        proof {
            self.lemma_lens();
        }
        if width == 0 || height == 0 {
            return Err(WebGlError::InvalidTextureDimensions);
        }
        let dimension = if width >= height {
            width
        } else {
            height
        };
        if dimension > self.limits.max_texture_dimension {
            return Err(
                WebGlError::TextureDimensionLimitExceeded {
                    dimension,
                    limit: self.limits.max_texture_dimension,
                },
            );
        }
        assert((width as nat) * (height as nat) <= 0xffff_ffffnat * 0xffff_ffffnat) by (nonlinear_arith);
        let pixels: u64 = (width as u64) * (height as u64);
        if pixels > self.limits.max_texture_pixels {
            return Err(
                WebGlError::TexturePixelLimitExceeded {
                    pixels,
                    limit: self.limits.max_texture_pixels,
                },
            );
        }
        let j = match self.require_active_context(context) {
            Err(e) => return Err(e),
            Ok(j) => j,
        };
        match self.check_resource_capacity(j, context) {
            Err(e) => return Err(e),
            Ok(()) => {},
        }
        let next_total = match self.total_texture_pixels.checked_add(pixels) {
            None => return Err(WebGlError::TotalTexturePixelOverflow),
            Some(total) => total,
        };
        if next_total > self.limits.max_total_texture_pixels {
            return Err(
                WebGlError::TotalTexturePixelLimitExceeded {
                    pixels: next_total,
                    limit: self.limits.max_total_texture_pixels,
                },
            );
        }
        if self.next_texture == 0 {
            return Err(WebGlError::TextureIdentitySpaceExhausted);
        }
        let c = context.serial;
        proof {
            assert(self.context_ok(self.contexts@[j as int]));
            assert forall|i: int| 0 <= i < self.textures@.len() implies #[trigger] tex_pixels_of(c)(
                self.textures@[i],
            ) <= tex_pixels()(self.textures@[i]) by {}
            lemma_weight_sum_le(self.textures@, tex_pixels_of(c), tex_pixels());
        }
        let serial = self.next_texture;
        let e = TextureRecord { serial, context: c, width, height, pixels };
        let owner = &self.contexts[j];
        let updated = ContextRecord {
            serial: owner.serial,
            surface: owner.surface,
            lease: owner.lease,
            state: owner.state,
            resource_count: owner.resource_count + 1,
            buffer_bytes: owner.buffer_bytes,
            texture_pixels: owner.texture_pixels + pixels,
        };
        proof {
            let ts = self.textures@;
            if key_at(ts, tex_serial(), serial) {
                let i = choose|i: int| 0 <= i < ts.len() && tex_serial()(ts[i]) == serial;
                assert(self.texture_ok(ts[i]));
            }
            lemma_keyed_map_insert(ts, tex_serial(), tex_model(), ts.len() as int, e);
            assert(ts.insert(ts.len() as int, e) =~= ts.push(e));
            lemma_keyed_map_update(self.contexts@, ctx_serial(), ctx_model(), j as int, updated);
        }
        self.next_texture = if serial == u64::MAX {
            0
        } else {
            serial + 1
        };
        self.contexts.set(j, updated);
        self.textures.push(e);
        self.total_texture_pixels = next_total;
        proof {
            let o = old(self);
            lemma_weight_sum_push(o.textures@, tex_pixels(), e);
            assert forall|k: int| 0 <= k < self.contexts@.len() implies self.context_ok(
                #[trigger] self.contexts@[k],
            ) by {
                let ck = self.contexts@[k].serial;
                lemma_weight_sum_push(o.textures@, tex_count_of(ck), e);
                lemma_weight_sum_push(o.textures@, tex_pixels_of(ck), e);
                assert(o.context_ok(o.contexts@[k]));
                if k != j {
                    assert(self.contexts@[k] == o.contexts@[k]);
                    assert(ck != c);
                }
            }
            assert forall|s2: u64| key_at(o.contexts@, ctx_serial(), s2) implies key_at(
                self.contexts@,
                ctx_serial(),
                s2,
            ) by {
                let k = choose|k: int| 0 <= k < o.contexts@.len() && ctx_serial()(o.contexts@[k]) == s2;
                assert(self.contexts@[k].serial == o.contexts@[k].serial);
            }
            assert forall|i: int| 0 <= i < self.textures@.len() implies self.texture_ok(
                #[trigger] self.textures@[i],
            ) by {
                if i < o.textures@.len() {
                    assert(self.textures@[i] == o.textures@[i]);
                    assert(o.texture_ok(o.textures@[i]));
                } else {
                    assert(self.textures@[i] == e);
                    assert(ctx_serial()(self.contexts@[j as int]) == c);
                }
            }
            assert forall|i: int| 0 <= i < self.buffers@.len() implies self.buffer_ok(
                #[trigger] self.buffers@[i],
            ) by {
                assert(o.buffer_ok(o.buffers@[i]));
            }
        }
        Ok(WebGlTextureId { scope: self.scope, serial })
    }
}

impl<S: Copy, L: Copy> WebGlRegistry<S, L> {
    /// Why destroying `buffer` through `context` would be refused: the
    /// buffer is unknown, or another context owns it.
    pub open spec fn destroy_buffer_refusal(&self, context: WebGlContextId, buffer: WebGlBufferId) -> Option<
        WebGlError,
    > {
        if !(buffer.spec_scope() == self.spec_scope() && self.spec_buffers().contains_key(
            buffer.spec_serial(),
        )) {
            Some(WebGlError::UnknownBuffer(buffer))
        } else if !(context.spec_scope() == self.spec_scope()
            && self.spec_buffers()[buffer.spec_serial()].context == context.spec_serial()) {
            Some(WebGlError::ForeignBuffer { buffer, context })
        } else {
            None
        }
    }

    /// Why destroying `texture` through `context` would be refused: the
    /// texture is unknown, or another context owns it.
    pub open spec fn destroy_texture_refusal(
        &self,
        context: WebGlContextId,
        texture: WebGlTextureId,
    ) -> Option<WebGlError> {
        if !(texture.spec_scope() == self.spec_scope() && self.spec_textures().contains_key(
            texture.spec_serial(),
        )) {
            Some(WebGlError::UnknownTexture(texture))
        } else if !(context.spec_scope() == self.spec_scope()
            && self.spec_textures()[texture.spec_serial()].context == context.spec_serial()) {
            Some(WebGlError::ForeignTexture { texture, context })
        } else {
            None
        }
    }

    /// Destroys a buffer through the context that owns it, releasing its
    /// bytes; refused for an unknown buffer or one owned by another context,
    /// leaving the registry as it was.
    pub fn destroy_buffer(&mut self, context: WebGlContextId, buffer: WebGlBufferId) -> (r: Result<
        (),
        WebGlError,
    >)
        requires
            old(self).wf(),
        ensures
            final(self).wf(),
            old(self).destroy_buffer_refusal(context, buffer) is None <==> r is Ok,
            r matches Err(e) ==> old(self).destroy_buffer_refusal(context, buffer) == Some(e)
                && final(self).same_state(old(self)),
            r is Ok ==> {
                let c = context.spec_serial();
                let owner = old(self).spec_contexts()[c];
                let b = old(self).spec_buffers()[buffer.spec_serial()];
                &&& old(self).spec_contexts().contains_key(c)
                &&& final(self).spec_buffers() == old(self).spec_buffers().remove(
                    buffer.spec_serial(),
                )
                &&& final(self).spec_contexts() == old(self).spec_contexts().insert(
                    c,
                    with_counters(
                        owner,
                        owner.resource_count - 1,
                        owner.buffer_bytes - b.bytes,
                        owner.texture_pixels as int,
                    ),
                )
                &&& final(self).spec_textures() == old(self).spec_textures()
                &&& final(self).spec_total_buffer_bytes() == old(self).spec_total_buffer_bytes()
                    - b.bytes
                &&& final(self).spec_total_texture_pixels() == old(self).spec_total_texture_pixels()
                &&& final(self).spec_next_context() == old(self).spec_next_context()
                &&& final(self).spec_next_buffer() == old(self).spec_next_buffer()
                &&& final(self).spec_next_texture() == old(self).spec_next_texture()
                &&& final(self).spec_limits() == old(self).spec_limits()
                &&& final(self).spec_scope() == old(self).spec_scope()
            },
    {
        if buffer.scope != self.scope {
            return Err(WebGlError::UnknownBuffer(buffer));
        }
        let i = match self.find_buffer(buffer.serial) {
            None => return Err(WebGlError::UnknownBuffer(buffer)),
            Some(i) => i,
        };
        let record = self.buffers[i];
        if context.scope != self.scope || record.context != context.serial {
            return Err(WebGlError::ForeignBuffer { buffer, context });
        }
        let c = record.context;
        proof {
            assert(self.buffer_ok(self.buffers@[i as int]));
        }
        let j = match self.find_context(c) {
            None => return Err(WebGlError::InconsistentState),
            Some(j) => j,
        };
        proof {
            let bs = self.buffers@;
            assert(self.context_ok(self.contexts@[j as int]));
            lemma_weight_sum_member(bs, buf_count_of(c), i as int);
            lemma_weight_sum_member(bs, buf_bytes_of(c), i as int);
            lemma_weight_sum_member(bs, buf_bytes(), i as int);
        }
        let owner = &self.contexts[j];
        let updated = ContextRecord {
            serial: owner.serial,
            surface: owner.surface,
            lease: owner.lease,
            state: owner.state,
            resource_count: owner.resource_count - 1,
            buffer_bytes: owner.buffer_bytes - record.bytes,
            texture_pixels: owner.texture_pixels,
        };
        proof {
            lemma_keyed_map_remove(self.buffers@, buf_serial(), buf_model(), i as int);
            lemma_keyed_map_update(self.contexts@, ctx_serial(), ctx_model(), j as int, updated);
        }
        self.buffers.remove(i);
        self.contexts.set(j, updated);
        self.total_buffer_bytes = self.total_buffer_bytes - record.bytes;
        proof {
            let o = old(self);
            lemma_weight_sum_remove(o.buffers@, buf_bytes(), i as int);
            assert forall|k: int| 0 <= k < self.contexts@.len() implies self.context_ok(
                #[trigger] self.contexts@[k],
            ) by {
                let ck = self.contexts@[k].serial;
                lemma_weight_sum_remove(o.buffers@, buf_count_of(ck), i as int);
                lemma_weight_sum_remove(o.buffers@, buf_bytes_of(ck), i as int);
                assert(o.context_ok(o.contexts@[k]));
                if k != j {
                    assert(self.contexts@[k] == o.contexts@[k]);
                    assert(ck != c);
                }
            }
            assert forall|s2: u64| key_at(o.contexts@, ctx_serial(), s2) implies key_at(
                self.contexts@,
                ctx_serial(),
                s2,
            ) by {
                let k = choose|k: int| 0 <= k < o.contexts@.len() && ctx_serial()(o.contexts@[k]) == s2;
                assert(self.contexts@[k].serial == o.contexts@[k].serial);
            }
            assert forall|a: int| 0 <= a < self.buffers@.len() implies self.buffer_ok(
                #[trigger] self.buffers@[a],
            ) by {
                if a < i {
                    assert(self.buffers@[a] == o.buffers@[a]);
                    assert(o.buffer_ok(o.buffers@[a]));
                } else {
                    assert(self.buffers@[a] == o.buffers@[a + 1]);
                    assert(o.buffer_ok(o.buffers@[a + 1]));
                }
            }
            assert forall|a: int| 0 <= a < self.textures@.len() implies self.texture_ok(
                #[trigger] self.textures@[a],
            ) by {
                assert(o.texture_ok(o.textures@[a]));
            }
        }
        Ok(())
    }

    /// Destroys a texture through the context that owns it, releasing its
    /// pixels; refused for an unknown texture or one owned by another
    /// context, leaving the registry as it was.
    pub fn destroy_texture(&mut self, context: WebGlContextId, texture: WebGlTextureId) -> (r: Result<
        (),
        WebGlError,
    >)
        requires
            old(self).wf(),
        ensures
            final(self).wf(),
            old(self).destroy_texture_refusal(context, texture) is None <==> r is Ok,
            r matches Err(e) ==> old(self).destroy_texture_refusal(context, texture) == Some(e)
                && final(self).same_state(old(self)),
            r is Ok ==> {
                let c = context.spec_serial();
                let owner = old(self).spec_contexts()[c];
                let t = old(self).spec_textures()[texture.spec_serial()];
                &&& old(self).spec_contexts().contains_key(c)
                &&& final(self).spec_textures() == old(self).spec_textures().remove(
                    texture.spec_serial(),
                )
                &&& final(self).spec_contexts() == old(self).spec_contexts().insert(
                    c,
                    with_counters(
                        owner,
                        owner.resource_count - 1,
                        owner.buffer_bytes as int,
                        owner.texture_pixels - t.pixels,
                    ),
                )
                &&& final(self).spec_buffers() == old(self).spec_buffers()
                &&& final(self).spec_total_texture_pixels() == old(self).spec_total_texture_pixels()
                    - t.pixels
                &&& final(self).spec_total_buffer_bytes() == old(self).spec_total_buffer_bytes()
                &&& final(self).spec_next_context() == old(self).spec_next_context()
                &&& final(self).spec_next_buffer() == old(self).spec_next_buffer()
                &&& final(self).spec_next_texture() == old(self).spec_next_texture()
                &&& final(self).spec_limits() == old(self).spec_limits()
                &&& final(self).spec_scope() == old(self).spec_scope()
            },
    {
        if texture.scope != self.scope {
            return Err(WebGlError::UnknownTexture(texture));
        }
        let i = match self.find_texture(texture.serial) {
            None => return Err(WebGlError::UnknownTexture(texture)),
            Some(i) => i,
        };
        let record = self.textures[i];
        if context.scope != self.scope || record.context != context.serial {
            return Err(WebGlError::ForeignTexture { texture, context });
        }
        let c = record.context;
        proof {
            assert(self.texture_ok(self.textures@[i as int]));
        }
        let j = match self.find_context(c) {
            None => return Err(WebGlError::InconsistentState),
            Some(j) => j,
        };
        proof {
            let ts = self.textures@;
            assert(self.context_ok(self.contexts@[j as int]));
            lemma_weight_sum_member(ts, tex_count_of(c), i as int);
            lemma_weight_sum_member(ts, tex_pixels_of(c), i as int);
            lemma_weight_sum_member(ts, tex_pixels(), i as int);
        }
        let owner = &self.contexts[j];
        let updated = ContextRecord {
            serial: owner.serial,
            surface: owner.surface,
            lease: owner.lease,
            state: owner.state,
            resource_count: owner.resource_count - 1,
            buffer_bytes: owner.buffer_bytes,
            texture_pixels: owner.texture_pixels - record.pixels,
        };
        proof {
            lemma_keyed_map_remove(self.textures@, tex_serial(), tex_model(), i as int);
            lemma_keyed_map_update(self.contexts@, ctx_serial(), ctx_model(), j as int, updated);
        }
        self.textures.remove(i);
        self.contexts.set(j, updated);
        self.total_texture_pixels = self.total_texture_pixels - record.pixels;
        proof {
            let o = old(self);
            lemma_weight_sum_remove(o.textures@, tex_pixels(), i as int);
            assert forall|k: int| 0 <= k < self.contexts@.len() implies self.context_ok(
                #[trigger] self.contexts@[k],
            ) by {
                let ck = self.contexts@[k].serial;
                lemma_weight_sum_remove(o.textures@, tex_count_of(ck), i as int);
                lemma_weight_sum_remove(o.textures@, tex_pixels_of(ck), i as int);
                assert(o.context_ok(o.contexts@[k]));
                if k != j {
                    assert(self.contexts@[k] == o.contexts@[k]);
                    assert(ck != c);
                }
            }
            assert forall|s2: u64| key_at(o.contexts@, ctx_serial(), s2) implies key_at(
                self.contexts@,
                ctx_serial(),
                s2,
            ) by {
                let k = choose|k: int| 0 <= k < o.contexts@.len() && ctx_serial()(o.contexts@[k]) == s2;
                assert(self.contexts@[k].serial == o.contexts@[k].serial);
            }
            assert forall|a: int| 0 <= a < self.textures@.len() implies self.texture_ok(
                #[trigger] self.textures@[a],
            ) by {
                if a < i {
                    assert(self.textures@[a] == o.textures@[a]);
                    assert(o.texture_ok(o.textures@[a]));
                } else {
                    assert(self.textures@[a] == o.textures@[a + 1]);
                    assert(o.texture_ok(o.textures@[a + 1]));
                }
            }
            assert forall|a: int| 0 <= a < self.buffers@.len() implies self.buffer_ok(
                #[trigger] self.buffers@[a],
            ) by {
                assert(o.buffer_ok(o.buffers@[a]));
            }
        }
        Ok(())
    }
}

/// The buffers that do not belong to context `c`.
fn buffers_kept(buffers: &Vec<BufferRecord>, c: u64) -> (r: Vec<BufferRecord>)
    ensures
        r@ == buffers@.filter(buf_kept(c)),
{
    let mut r: Vec<BufferRecord> = Vec::new();
    let mut i: usize = 0;
    while i < buffers.len()
        invariant
            0 <= i <= buffers@.len(),
            r@ == buffers@.take(i as int).filter(buf_kept(c)),
        decreases buffers@.len() - i,
    {
        let b = buffers[i];
        proof {
            reveal(Seq::filter);
            assert(buffers@.take(i + 1).drop_last() =~= buffers@.take(i as int));
            assert(buffers@.take(i + 1).last() == b);
        }
        if b.context != c {
            r.push(b);
        }
        i = i + 1;
    }
    proof {
        assert(buffers@.take(buffers@.len() as int) =~= buffers@);
    }
    r
}

/// The textures that do not belong to context `c`.
fn textures_kept(textures: &Vec<TextureRecord>, c: u64) -> (r: Vec<TextureRecord>)
    ensures
        r@ == textures@.filter(tex_kept(c)),
{
    let mut r: Vec<TextureRecord> = Vec::new();
    let mut i: usize = 0;
    while i < textures.len()
        invariant
            0 <= i <= textures@.len(),
            r@ == textures@.take(i as int).filter(tex_kept(c)),
        decreases textures@.len() - i,
    {
        let t = textures[i];
        proof {
            reveal(Seq::filter);
            assert(textures@.take(i + 1).drop_last() =~= textures@.take(i as int));
            assert(textures@.take(i + 1).last() == t);
        }
        if t.context != c {
            r.push(t);
        }
        i = i + 1;
    }
    proof {
        assert(textures@.take(textures@.len() as int) =~= textures@);
    }
    r
}

/// The buffers of `m` that context `c` does not own.
pub open spec fn buffers_without(m: Map<u64, BufferModel>, c: u64) -> Map<u64, BufferModel> {
    m.restrict(Set::new(|k: u64| m[k].context != c))
}

/// The textures of `m` that context `c` does not own.
pub open spec fn textures_without(m: Map<u64, TextureModel>, c: u64) -> Map<u64, TextureModel> {
    m.restrict(Set::new(|k: u64| m[k].context != c))
}

impl<S: Copy, L: Copy> WebGlRegistry<S, L> {
    /// Retires every resource of the context at `j`, releasing its bytes
    /// and pixels and zeroing its counters.
    fn retire_resources(&mut self, j: usize)
        requires
            old(self).wf(),
            j < old(self).contexts@.len(),
        ensures
            final(self).wf(),
            ({
                let o = old(self).contexts@[j as int];
                final(self).contexts@ == old(self).contexts@.update(
                    j as int,
                    ContextRecord {
                        serial: o.serial,
                        surface: o.surface,
                        lease: o.lease,
                        state: o.state,
                        resource_count: 0,
                        buffer_bytes: 0,
                        texture_pixels: 0,
                    },
                )
            }),
            final(self).spec_buffers() == buffers_without(
                old(self).spec_buffers(),
                old(self).contexts@[j as int].serial,
            ),
            final(self).spec_textures() == textures_without(
                old(self).spec_textures(),
                old(self).contexts@[j as int].serial,
            ),
            final(self).spec_total_buffer_bytes() == old(self).spec_total_buffer_bytes() - old(self).contexts@[j as int].buffer_bytes,
            final(self).spec_total_texture_pixels() == old(self).spec_total_texture_pixels() - old(self).contexts@[j as int].texture_pixels,
            final(self).spec_next_context() == old(self).spec_next_context(),
            final(self).spec_next_buffer() == old(self).spec_next_buffer(),
            final(self).spec_next_texture() == old(self).spec_next_texture(),
            final(self).spec_limits() == old(self).spec_limits(),
            final(self).spec_scope() == old(self).spec_scope(),
    {
        let c = self.contexts[j].serial;
        let kept_buffers = buffers_kept(&self.buffers, c);
        let kept_textures = textures_kept(&self.textures, c);
        let owner = &self.contexts[j];
        let released_bytes = owner.buffer_bytes;
        let released_pixels = owner.texture_pixels;
        let updated = ContextRecord {
            serial: owner.serial,
            surface: owner.surface,
            lease: owner.lease,
            state: owner.state,
            resource_count: 0,
            buffer_bytes: 0,
            texture_pixels: 0,
        };
        proof {
            let bs = self.buffers@;
            let ts = self.textures@;
            assert(self.context_ok(self.contexts@[j as int]));
            lemma_weight_sum_filter(bs, buf_kept(c), buf_bytes());
            lemma_weight_sum_pointwise(bs, dropped_weight(buf_kept(c), buf_bytes()), buf_bytes_of(c));
            lemma_weight_sum_filter(ts, tex_kept(c), tex_pixels());
            lemma_weight_sum_pointwise(ts, dropped_weight(tex_kept(c), tex_pixels()), tex_pixels_of(c));
        }
        self.buffers = kept_buffers;
        self.textures = kept_textures;
        self.contexts.set(j, updated);
        self.total_buffer_bytes = self.total_buffer_bytes - released_bytes;
        self.total_texture_pixels = self.total_texture_pixels - released_pixels;
        proof {
            let o = old(self);
            let bs = o.buffers@;
            let ts = o.textures@;
            bs.lemma_filter_len(buf_kept(c));
            ts.lemma_filter_len(tex_kept(c));
            lemma_keyed_map_filter(bs, buf_kept(c), buf_serial(), buf_model());
            lemma_keyed_map_filter(ts, tex_kept(c), tex_serial(), tex_model());
            lemma_keyed_map_update(o.contexts@, ctx_serial(), ctx_model(), j as int, updated);
            assert forall|k: int| 0 <= k < self.contexts@.len() implies self.context_ok(
                #[trigger] self.contexts@[k],
            ) by {
                let ck = self.contexts@[k].serial;
                assert(o.context_ok(o.contexts@[k]));
                lemma_weight_sum_filter(bs, buf_kept(c), buf_count_of(ck));
                lemma_weight_sum_filter(bs, buf_kept(c), buf_bytes_of(ck));
                lemma_weight_sum_filter(ts, tex_kept(c), tex_count_of(ck));
                lemma_weight_sum_filter(ts, tex_kept(c), tex_pixels_of(ck));
                if k == j {
                    lemma_weight_sum_pointwise(bs, dropped_weight(buf_kept(c), buf_count_of(c)), buf_count_of(c));
                    lemma_weight_sum_pointwise(bs, dropped_weight(buf_kept(c), buf_bytes_of(c)), buf_bytes_of(c));
                    lemma_weight_sum_pointwise(ts, dropped_weight(tex_kept(c), tex_count_of(c)), tex_count_of(c));
                    lemma_weight_sum_pointwise(ts, dropped_weight(tex_kept(c), tex_pixels_of(c)), tex_pixels_of(c));
                } else {
                    assert(self.contexts@[k] == o.contexts@[k]);
                    assert(ck != c);
                    assert forall|i: int| 0 <= i < bs.len() implies #[trigger] dropped_weight(
                        buf_kept(c),
                        buf_count_of(ck),
                    )(bs[i]) == 0 && dropped_weight(buf_kept(c), buf_bytes_of(ck))(bs[i]) == 0 by {}
                    assert forall|i: int| 0 <= i < ts.len() implies #[trigger] dropped_weight(
                        tex_kept(c),
                        tex_count_of(ck),
                    )(ts[i]) == 0 && dropped_weight(tex_kept(c), tex_pixels_of(ck))(ts[i]) == 0 by {}
                    lemma_weight_sum_zero(bs, dropped_weight(buf_kept(c), buf_count_of(ck)));
                    lemma_weight_sum_zero(bs, dropped_weight(buf_kept(c), buf_bytes_of(ck)));
                    lemma_weight_sum_zero(ts, dropped_weight(tex_kept(c), tex_count_of(ck)));
                    lemma_weight_sum_zero(ts, dropped_weight(tex_kept(c), tex_pixels_of(ck)));
                }
            }
            assert forall|s2: u64| key_at(o.contexts@, ctx_serial(), s2) implies key_at(
                self.contexts@,
                ctx_serial(),
                s2,
            ) by {
                let k = choose|k: int| 0 <= k < o.contexts@.len() && ctx_serial()(o.contexts@[k]) == s2;
                assert(self.contexts@[k].serial == o.contexts@[k].serial);
            }
            assert forall|a: int| 0 <= a < self.buffers@.len() implies self.buffer_ok(
                #[trigger] self.buffers@[a],
            ) by {
                let x = self.buffers@[a];
                assert(bs.filter(buf_kept(c)).contains(x));
                bs.lemma_filter_contains_rev(buf_kept(c), x);
                let i = choose|i: int| 0 <= i < bs.len() && bs[i] == x;
                assert(o.buffer_ok(bs[i]));
            }
            assert forall|a: int| 0 <= a < self.textures@.len() implies self.texture_ok(
                #[trigger] self.textures@[a],
            ) by {
                let x = self.textures@[a];
                assert(ts.filter(tex_kept(c)).contains(x));
                ts.lemma_filter_contains_rev(tex_kept(c), x);
                let i = choose|i: int| 0 <= i < ts.len() && ts[i] == x;
                assert(o.texture_ok(ts[i]));
            }
            assert forall|k: u64| #[trigger] self.spec_buffers().contains_key(k) <==> buffers_without(
                o.spec_buffers(),
                c,
            ).contains_key(k) by {
                if o.spec_buffers().contains_key(k) {
                    let i = index_of_key(bs, buf_serial(), k);
                    lemma_index_of_key(bs, buf_serial(), choose|i: int| 0 <= i < bs.len() && buf_serial()(bs[i]) == k);
                }
            }
            assert(self.spec_buffers() =~= buffers_without(o.spec_buffers(), c));
            assert forall|k: u64| #[trigger] self.spec_textures().contains_key(k) <==> textures_without(
                o.spec_textures(),
                c,
            ).contains_key(k) by {
                if o.spec_textures().contains_key(k) {
                    lemma_index_of_key(ts, tex_serial(), choose|i: int| 0 <= i < ts.len() && tex_serial()(ts[i]) == k);
                }
            }
            assert(self.spec_textures() =~= textures_without(o.spec_textures(), c));
        }
    }
}

impl<S: Copy, L: Copy> WebGlRegistry<S, L> {
    /// Marks an active context lost for `reason`, retiring every resource it
    /// owns; `Ok(false)` for a context that was already lost, which changes
    /// nothing; refused with `UnknownContext` for a context this registry
    /// does not hold.
    pub fn lose_context(&mut self, context: WebGlContextId, reason: WebGlContextLossReason) -> (r: Result<
        bool,
        WebGlError,
    >)
        requires
            old(self).wf(),
        ensures
            final(self).wf(),
            old(self).has_context(context) <==> r is Ok,
            r matches Err(e) ==> e == WebGlError::UnknownContext(context) && final(self).same_state(
                old(self),
            ),
            r == Ok::<bool, WebGlError>(false) ==> old(self).spec_contexts()[context.spec_serial()].state is Lost
                && final(self).same_state(old(self)),
            r == Ok::<bool, WebGlError>(true) ==> {
                let c = context.spec_serial();
                let owner = old(self).spec_contexts()[c];
                &&& owner.state is Active
                &&& final(self).spec_contexts() == old(self).spec_contexts().insert(
                    c,
                    ContextModel {
                        surface: owner.surface,
                        lease: owner.lease,
                        state: WebGlContextState::Lost(reason),
                        resource_count: 0,
                        buffer_bytes: 0,
                        texture_pixels: 0,
                    },
                )
                &&& final(self).spec_buffers() == buffers_without(old(self).spec_buffers(), c)
                &&& final(self).spec_textures() == textures_without(old(self).spec_textures(), c)
                &&& final(self).spec_total_buffer_bytes() == old(self).spec_total_buffer_bytes()
                    - owner.buffer_bytes
                &&& final(self).spec_total_texture_pixels() == old(self).spec_total_texture_pixels()
                    - owner.texture_pixels
                &&& final(self).spec_next_context() == old(self).spec_next_context()
                &&& final(self).spec_next_buffer() == old(self).spec_next_buffer()
                &&& final(self).spec_next_texture() == old(self).spec_next_texture()
                &&& final(self).spec_limits() == old(self).spec_limits()
                &&& final(self).spec_scope() == old(self).spec_scope()
            },
    {
        if context.scope != self.scope {
            return Err(WebGlError::UnknownContext(context));
        }
        let j = match self.find_context(context.serial) {
            None => return Err(WebGlError::UnknownContext(context)),
            Some(j) => j,
        };
        match self.contexts[j].state {
            WebGlContextState::Lost(_) => return Ok(false),
            WebGlContextState::Active => {},
        }
        self.retire_resources(j);
        let current = &self.contexts[j];
        let lost = ContextRecord {
            serial: current.serial,
            surface: current.surface,
            lease: current.lease,
            state: WebGlContextState::Lost(reason),
            resource_count: 0,
            buffer_bytes: 0,
            texture_pixels: 0,
        };
        proof {
            let mid = self.contexts@;
            lemma_keyed_map_update(mid, ctx_serial(), ctx_model(), j as int, lost);
            lemma_keyed_map_update(
                old(self).contexts@,
                ctx_serial(),
                ctx_model(),
                j as int,
                mid[j as int],
            );
        }
        let ghost before = *self;
        self.contexts.set(j, lost);
        proof {
            assert forall|k: int| 0 <= k < self.contexts@.len() implies self.context_ok(
                #[trigger] self.contexts@[k],
            ) by {
                assert(before.context_ok(before.contexts@[k]));
            }
            assert forall|s2: u64| key_at(before.contexts@, ctx_serial(), s2) implies key_at(
                self.contexts@,
                ctx_serial(),
                s2,
            ) by {
                let k = choose|k: int|
                    0 <= k < before.contexts@.len() && ctx_serial()(before.contexts@[k]) == s2;
                assert(self.contexts@[k].serial == before.contexts@[k].serial);
            }
            assert forall|a: int| 0 <= a < self.buffers@.len() implies self.buffer_ok(
                #[trigger] self.buffers@[a],
            ) by {
                assert(before.buffer_ok(before.buffers@[a]));
            }
            assert forall|a: int| 0 <= a < self.textures@.len() implies self.texture_ok(
                #[trigger] self.textures@[a],
            ) by {
                assert(before.texture_ok(before.textures@[a]));
            }
        }
        Ok(true)
    }

    /// Destroys a context: retires every resource it owns, forgets it, and
    /// hands back the canvas lease it held for the embedder to release;
    /// refused with `UnknownContext` for a context this registry does not
    /// hold.
    pub fn destroy_context(&mut self, context: WebGlContextId) -> (r: Result<L, WebGlError>)
        requires
            old(self).wf(),
        ensures
            final(self).wf(),
            old(self).has_context(context) <==> r is Ok,
            r matches Err(e) ==> e == WebGlError::UnknownContext(context) && final(self).same_state(
                old(self),
            ),
            r matches Ok(lease) ==> {
                let c = context.spec_serial();
                let owner = old(self).spec_contexts()[c];
                &&& lease == owner.lease
                &&& final(self).spec_contexts() == old(self).spec_contexts().remove(c)
                &&& final(self).spec_buffers() == buffers_without(old(self).spec_buffers(), c)
                &&& final(self).spec_textures() == textures_without(old(self).spec_textures(), c)
                &&& final(self).spec_total_buffer_bytes() == old(self).spec_total_buffer_bytes()
                    - owner.buffer_bytes
                &&& final(self).spec_total_texture_pixels() == old(self).spec_total_texture_pixels()
                    - owner.texture_pixels
                &&& final(self).spec_next_context() == old(self).spec_next_context()
                &&& final(self).spec_next_buffer() == old(self).spec_next_buffer()
                &&& final(self).spec_next_texture() == old(self).spec_next_texture()
                &&& final(self).spec_limits() == old(self).spec_limits()
                &&& final(self).spec_scope() == old(self).spec_scope()
            },
    {
        if context.scope != self.scope {
            return Err(WebGlError::UnknownContext(context));
        }
        let j = match self.find_context(context.serial) {
            None => return Err(WebGlError::UnknownContext(context)),
            Some(j) => j,
        };
        self.retire_resources(j);
        let c = context.serial;
        proof {
            let mid = self.contexts@;
            lemma_keyed_map_update(
                old(self).contexts@,
                ctx_serial(),
                ctx_model(),
                j as int,
                mid[j as int],
            );
            lemma_keyed_map_remove(mid, ctx_serial(), ctx_model(), j as int);
            assert(old(self).spec_contexts().insert(c, ctx_model()(mid[j as int])).remove(c)
                =~= old(self).spec_contexts().remove(c));
        }
        let ghost before = *self;
        let removed = self.contexts.remove(j);
        proof {
            assert forall|k: int| 0 <= k < self.contexts@.len() implies self.context_ok(
                #[trigger] self.contexts@[k],
            ) by {
                if k < j {
                    assert(self.contexts@[k] == before.contexts@[k]);
                    assert(before.context_ok(before.contexts@[k]));
                } else {
                    assert(self.contexts@[k] == before.contexts@[k + 1]);
                    assert(before.context_ok(before.contexts@[k + 1]));
                }
            }
            assert forall|s2: u64| key_at(before.contexts@, ctx_serial(), s2) && s2 != c implies key_at(
                self.contexts@,
                ctx_serial(),
                s2,
            ) by {
                let k = choose|k: int|
                    0 <= k < before.contexts@.len() && ctx_serial()(before.contexts@[k]) == s2;
                if k < j {
                    assert(self.contexts@[k] == before.contexts@[k]);
                } else {
                    assert(k != j);
                    assert(self.contexts@[k - 1] == before.contexts@[k]);
                }
            }
            assert forall|a: int| 0 <= a < self.buffers@.len() implies self.buffer_ok(
                #[trigger] self.buffers@[a],
            ) by {
                assert(before.buffer_ok(before.buffers@[a]));
                lemma_keyed_map_at(before.buffers@, buf_serial(), buf_model(), a);
            }
            assert forall|a: int| 0 <= a < self.textures@.len() implies self.texture_ok(
                #[trigger] self.textures@[a],
            ) by {
                assert(before.texture_ok(before.textures@[a]));
                lemma_keyed_map_at(before.textures@, tex_serial(), tex_model(), a);
            }
        }
        Ok(removed.lease)
    }
}

/// Whatever happened to a registry: every buffer and texture belongs to one
/// of its present contexts; a lost context owns nothing; each context's
/// resource count is within its budget; the registry's resource, byte and
/// pixel totals are within theirs; and every identity it holds lies among
/// those its counters have handed out, so none is handed out twice.
pub proof fn lemma_registry_consistent<S: Copy, L: Copy>(registry: &WebGlRegistry<S, L>)
    requires
        registry.wf(),
    ensures
        registry.spec_contexts().len() <= registry.spec_limits().max_contexts,
        registry.spec_buffers().len() + registry.spec_textures().len()
            <= registry.spec_limits().max_resources,
        registry.spec_total_buffer_bytes() <= registry.spec_limits().max_total_buffer_bytes,
        registry.spec_total_texture_pixels() <= registry.spec_limits().max_total_texture_pixels,
        forall|b: u64| #[trigger]
            registry.spec_buffers().contains_key(b) ==> {
                &&& registry.spec_contexts().contains_key(registry.spec_buffers()[b].context)
                &&& registry.spec_contexts()[registry.spec_buffers()[b].context].state is Active
                &&& issued(registry.spec_next_buffer(), b)
            },
        forall|t: u64| #[trigger]
            registry.spec_textures().contains_key(t) ==> {
                &&& registry.spec_contexts().contains_key(registry.spec_textures()[t].context)
                &&& registry.spec_contexts()[registry.spec_textures()[t].context].state is Active
                &&& issued(registry.spec_next_texture(), t)
            },
        forall|c: u64| #[trigger]
            registry.spec_contexts().contains_key(c) ==> {
                &&& issued(registry.spec_next_context(), c)
                &&& registry.spec_contexts()[c].resource_count
                    <= registry.spec_limits().max_resources_per_context
                &&& (registry.spec_contexts()[c].state is Lost ==> registry.spec_contexts()[c].resource_count == 0)
            },
{
    registry.lemma_lens();
    let cs = registry.contexts@;
    let bs = registry.buffers@;
    let ts = registry.textures@;
    assert forall|b: u64| #[trigger] registry.spec_buffers().contains_key(b) implies {
        &&& registry.spec_contexts().contains_key(registry.spec_buffers()[b].context)
        &&& registry.spec_contexts()[registry.spec_buffers()[b].context].state is Active
        &&& issued(registry.spec_next_buffer(), b)
    } by {
        let i = choose|i: int| 0 <= i < bs.len() && buf_serial()(bs[i]) == b;
        lemma_keyed_map_at(bs, buf_serial(), buf_model(), i);
        assert(registry.buffer_ok(bs[i]));
        let c = bs[i].context;
        let k = choose|k: int| 0 <= k < cs.len() && ctx_serial()(cs[k]) == c;
        lemma_keyed_map_at(cs, ctx_serial(), ctx_model(), k);
        assert(registry.context_ok(cs[k]));
        lemma_weight_sum_member(bs, buf_count_of(c), i);
    }
    assert forall|t: u64| #[trigger] registry.spec_textures().contains_key(t) implies {
        &&& registry.spec_contexts().contains_key(registry.spec_textures()[t].context)
        &&& registry.spec_contexts()[registry.spec_textures()[t].context].state is Active
        &&& issued(registry.spec_next_texture(), t)
    } by {
        let i = choose|i: int| 0 <= i < ts.len() && tex_serial()(ts[i]) == t;
        lemma_keyed_map_at(ts, tex_serial(), tex_model(), i);
        assert(registry.texture_ok(ts[i]));
        let c = ts[i].context;
        let k = choose|k: int| 0 <= k < cs.len() && ctx_serial()(cs[k]) == c;
        lemma_keyed_map_at(cs, ctx_serial(), ctx_model(), k);
        assert(registry.context_ok(cs[k]));
        lemma_weight_sum_member(ts, tex_count_of(c), i);
    }
    assert forall|c: u64| #[trigger] registry.spec_contexts().contains_key(c) implies {
        &&& issued(registry.spec_next_context(), c)
        &&& registry.spec_contexts()[c].resource_count
            <= registry.spec_limits().max_resources_per_context
        &&& (registry.spec_contexts()[c].state is Lost ==> registry.spec_contexts()[c].resource_count == 0)
    } by {
        let k = choose|k: int| 0 <= k < cs.len() && ctx_serial()(cs[k]) == c;
        lemma_keyed_map_at(cs, ctx_serial(), ctx_model(), k);
        assert(registry.context_ok(cs[k]));
    }
}

} // verus!
