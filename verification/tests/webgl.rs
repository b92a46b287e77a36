use rarog::fresh::ScopeCounter;
use rarog::webgl::{
    WebGlContextId, WebGlContextLossReason, WebGlContextState, WebGlError, WebGlLimits,
    WebGlRegistry,
};

// A canvas stand-in for these tests: each surface holds at most one
// external (WebGL) context lease or one 2D context.
#[derive(Debug, PartialEq, Eq)]
enum CanvasFailure {
    UnknownSurface,
    SurfaceBusy,
    UnknownLease,
}

#[derive(Default)]
struct Canvas {
    leased: Vec<bool>,
    two_d: Vec<bool>,
}

impl Canvas {
    fn create_surface(&mut self) -> u64 {
        self.leased.push(false);
        self.two_d.push(false);
        (self.leased.len() - 1) as u64
    }
    fn acquire_external_context(&mut self, surface: u64) -> Result<u64, CanvasFailure> {
        let i = surface as usize;
        if i >= self.leased.len() {
            return Err(CanvasFailure::UnknownSurface);
        }
        if self.leased[i] || self.two_d[i] {
            return Err(CanvasFailure::SurfaceBusy);
        }
        self.leased[i] = true;
        Ok(surface)
    }
    fn external_context(&self, surface: u64) -> Option<u64> {
        let i = surface as usize;
        (i < self.leased.len() && self.leased[i]).then_some(surface)
    }
    fn release_external_context(&mut self, lease: u64) -> Result<(), CanvasFailure> {
        let i = lease as usize;
        if i >= self.leased.len() || !self.leased[i] {
            return Err(CanvasFailure::UnknownLease);
        }
        self.leased[i] = false;
        Ok(())
    }
    fn create_2d_context(&mut self, surface: u64) -> Result<(), CanvasFailure> {
        let i = surface as usize;
        if i >= self.leased.len() {
            return Err(CanvasFailure::UnknownSurface);
        }
        if self.leased[i] || self.two_d[i] {
            return Err(CanvasFailure::SurfaceBusy);
        }
        self.two_d[i] = true;
        Ok(())
    }
}

#[derive(Debug, PartialEq)]
enum Failure {
    WebGl(WebGlError),
    Canvas(CanvasFailure),
}

type Registry = WebGlRegistry<u64, u64>;

fn create_context(webgl: &mut Registry, canvas: &mut Canvas, surface: u64) -> Result<WebGlContextId, Failure> {
    webgl.check_context_capacity().map_err(Failure::WebGl)?;
    let lease = canvas.acquire_external_context(surface).map_err(Failure::Canvas)?;
    match webgl.create_context(surface, lease) {
        Ok(id) => Ok(id),
        Err(error) => {
            canvas.release_external_context(lease).map_err(Failure::Canvas)?;
            Err(Failure::WebGl(error))
        }
    }
}

fn destroy_context(webgl: &mut Registry, canvas: &mut Canvas, context: WebGlContextId) -> Result<(), Failure> {
    let view = webgl
        .context(context)
        .ok_or(Failure::WebGl(WebGlError::UnknownContext(context)))?;
    if canvas.external_context(view.surface()) != webgl.lease(context) {
        return Err(Failure::WebGl(WebGlError::InconsistentState));
    }
    let lease = webgl.destroy_context(context).map_err(Failure::WebGl)?;
    canvas.release_external_context(lease).map_err(Failure::Canvas)
}

fn small_limits() -> WebGlLimits {
    WebGlLimits {
        max_contexts: 2,
        max_resources_per_context: 2,
        max_resources: 3,
        max_buffer_bytes: 8,
        max_total_buffer_bytes: 12,
        max_texture_dimension: 4,
        max_texture_pixels: 8,
        max_total_texture_pixels: 12,
    }
}

fn limits() -> WebGlLimits {
    WebGlLimits {
        max_contexts: 2,
        max_resources_per_context: 3,
        max_resources: 3,
        max_buffer_bytes: 8,
        max_total_buffer_bytes: 12,
        max_texture_dimension: 4,
        max_texture_pixels: 8,
        max_total_texture_pixels: 12,
    }
}

#[test]
fn context_lease_excludes_2d_and_is_released_on_destroy() {
    let mut scopes = ScopeCounter::new();
    let mut canvas = Canvas::default();
    let surface = canvas.create_surface();
    let mut webgl = Registry::try_new(small_limits(), &mut scopes).unwrap();
    let context = create_context(&mut webgl, &mut canvas, surface).unwrap();
    assert!(canvas.create_2d_context(surface).is_err());
    destroy_context(&mut webgl, &mut canvas, context).unwrap();
    assert!(canvas.create_2d_context(surface).is_ok());
}

#[test]
fn resources_are_bounded_and_context_owned() {
    let mut scopes = ScopeCounter::new();
    let mut canvas = Canvas::default();
    let a = canvas.create_surface();
    let b = canvas.create_surface();
    let mut webgl = Registry::try_new(small_limits(), &mut scopes).unwrap();
    let ca = create_context(&mut webgl, &mut canvas, a).unwrap();
    let cb = create_context(&mut webgl, &mut canvas, b).unwrap();
    let buffer = webgl.create_buffer(ca, 8).unwrap();
    let texture = webgl.create_texture(ca, 2, 2).unwrap();
    assert!(matches!(
        webgl.create_buffer(ca, 1),
        Err(WebGlError::ContextResourceLimitExceeded { .. })
    ));
    assert!(matches!(
        webgl.destroy_buffer(cb, buffer),
        Err(WebGlError::ForeignBuffer { .. })
    ));
    assert!(matches!(
        webgl.destroy_texture(cb, texture),
        Err(WebGlError::ForeignTexture { .. })
    ));
}

#[test]
fn loss_retires_resources_without_reusing_authority() {
    let mut scopes = ScopeCounter::new();
    let mut canvas = Canvas::default();
    let surface = canvas.create_surface();
    let mut webgl = Registry::try_new(small_limits(), &mut scopes).unwrap();
    let context = create_context(&mut webgl, &mut canvas, surface).unwrap();
    let buffer = webgl.create_buffer(context, 8).unwrap();
    let texture = webgl.create_texture(context, 2, 2).unwrap();
    assert!(webgl
        .lose_context(context, WebGlContextLossReason::Explicit)
        .unwrap());
    assert!(!webgl
        .lose_context(context, WebGlContextLossReason::DeviceReset)
        .unwrap());
    assert!(webgl.buffer(buffer).is_none());
    assert!(webgl.texture(texture).is_none());
    assert_eq!(webgl.total_buffer_bytes(), 0);
    assert_eq!(webgl.total_texture_pixels(), 0);
    assert!(
        matches!(webgl.create_buffer(context, 1), Err(WebGlError::ContextLost(id)) if id == context)
    );
    destroy_context(&mut webgl, &mut canvas, context).unwrap();
}

#[test]
fn scoped_ids_do_not_alias_across_registries() {
    let mut scopes = ScopeCounter::new();
    let mut canvas = Canvas::default();
    let a = canvas.create_surface();
    let b = canvas.create_surface();
    let mut first = Registry::try_new(small_limits(), &mut scopes).unwrap();
    let mut second = Registry::try_new(small_limits(), &mut scopes).unwrap();
    let first_context = create_context(&mut first, &mut canvas, a).unwrap();
    let second_context = create_context(&mut second, &mut canvas, b).unwrap();
    assert_ne!(first_context.scope(), second_context.scope());
}

#[test]
fn context_limit_recovers_without_identity_reuse() {
    let mut scopes = ScopeCounter::new();
    let mut canvas = Canvas::default();
    let a = canvas.create_surface();
    let b = canvas.create_surface();
    let c = canvas.create_surface();
    let mut webgl = Registry::try_new(limits(), &mut scopes).unwrap();

    let first = create_context(&mut webgl, &mut canvas, a).unwrap();
    let second = create_context(&mut webgl, &mut canvas, b).unwrap();
    assert!(matches!(
        create_context(&mut webgl, &mut canvas, c),
        Err(Failure::WebGl(WebGlError::ContextLimitExceeded { .. }))
    ));

    destroy_context(&mut webgl, &mut canvas, first).unwrap();
    let replacement = create_context(&mut webgl, &mut canvas, c).unwrap();
    assert_ne!(first, replacement);
    assert!(replacement.serial() > second.serial());
}

#[test]
fn global_resource_limit_recovers_after_exact_destroy() {
    let mut scopes = ScopeCounter::new();
    let mut canvas = Canvas::default();
    let a = canvas.create_surface();
    let b = canvas.create_surface();
    let mut webgl = Registry::try_new(limits(), &mut scopes).unwrap();
    let ca = create_context(&mut webgl, &mut canvas, a).unwrap();
    let cb = create_context(&mut webgl, &mut canvas, b).unwrap();

    let a_buffer = webgl.create_buffer(ca, 1).unwrap();
    let a_texture = webgl.create_texture(ca, 1, 1).unwrap();
    let b_buffer = webgl.create_buffer(cb, 1).unwrap();
    assert!(matches!(
        webgl.create_texture(cb, 1, 1),
        Err(WebGlError::ResourceLimitExceeded { .. })
    ));

    webgl.destroy_buffer(ca, a_buffer).unwrap();
    let replacement = webgl.create_texture(cb, 1, 1).unwrap();
    assert!(webgl.texture(replacement).is_some());
    assert!(webgl.texture(a_texture).is_some());
    assert!(webgl.buffer(b_buffer).is_some());
}

#[test]
fn buffer_byte_limits_are_atomic_and_capacity_recovers() {
    let mut scopes = ScopeCounter::new();
    let mut canvas = Canvas::default();
    let a = canvas.create_surface();
    let b = canvas.create_surface();
    let mut webgl = Registry::try_new(limits(), &mut scopes).unwrap();
    let ca = create_context(&mut webgl, &mut canvas, a).unwrap();
    let cb = create_context(&mut webgl, &mut canvas, b).unwrap();

    assert!(matches!(
        webgl.create_buffer(ca, 9),
        Err(WebGlError::BufferByteLimitExceeded { .. })
    ));
    assert_eq!(webgl.total_buffer_bytes(), 0);

    let eight = webgl.create_buffer(ca, 8).unwrap();
    assert!(matches!(
        webgl.create_buffer(cb, 5),
        Err(WebGlError::TotalBufferByteLimitExceeded { .. })
    ));
    assert_eq!(webgl.total_buffer_bytes(), 8);

    let four = webgl.create_buffer(cb, 4).unwrap();
    assert_eq!(webgl.total_buffer_bytes(), 12);
    webgl.destroy_buffer(ca, eight).unwrap();
    assert_eq!(webgl.total_buffer_bytes(), 4);
    let replacement = webgl.create_buffer(ca, 8).unwrap();
    assert_ne!(eight, replacement);
    assert!(webgl.buffer(four).is_some());
}

#[test]
fn texture_dimension_pixel_and_aggregate_limits_recover() {
    let mut scopes = ScopeCounter::new();
    let mut canvas = Canvas::default();
    let a = canvas.create_surface();
    let b = canvas.create_surface();
    let mut webgl = Registry::try_new(limits(), &mut scopes).unwrap();
    let ca = create_context(&mut webgl, &mut canvas, a).unwrap();
    let cb = create_context(&mut webgl, &mut canvas, b).unwrap();

    assert!(matches!(
        webgl.create_texture(ca, 5, 1),
        Err(WebGlError::TextureDimensionLimitExceeded { .. })
    ));
    assert!(matches!(
        webgl.create_texture(ca, 3, 3),
        Err(WebGlError::TexturePixelLimitExceeded { .. })
    ));
    assert_eq!(webgl.total_texture_pixels(), 0);

    let eight = webgl.create_texture(ca, 4, 2).unwrap();
    let four = webgl.create_texture(cb, 2, 2).unwrap();
    assert_eq!(webgl.total_texture_pixels(), 12);
    assert!(matches!(
        webgl.create_texture(cb, 1, 1),
        Err(WebGlError::TotalTexturePixelLimitExceeded { .. })
    ));
    assert_eq!(webgl.total_texture_pixels(), 12);

    webgl.destroy_texture(cb, four).unwrap();
    let replacement = webgl.create_texture(cb, 2, 2).unwrap();
    assert_ne!(four, replacement);
    assert!(webgl.texture(eight).is_some());
}

#[test]
fn loss_and_destroy_retire_stale_resources_and_release_canvas_lease() {
    let mut scopes = ScopeCounter::new();
    let mut canvas = Canvas::default();
    let surface = canvas.create_surface();
    let mut webgl = Registry::try_new(limits(), &mut scopes).unwrap();
    let context = create_context(&mut webgl, &mut canvas, surface).unwrap();
    let buffer = webgl.create_buffer(context, 8).unwrap();
    let texture = webgl.create_texture(context, 2, 2).unwrap();

    assert!(webgl
        .lose_context(context, WebGlContextLossReason::ResourcePressure)
        .unwrap());
    assert!(webgl.buffer(buffer).is_none());
    assert!(webgl.texture(texture).is_none());
    assert_eq!(webgl.total_buffer_bytes(), 0);
    assert_eq!(webgl.total_texture_pixels(), 0);
    assert!(matches!(
        webgl.create_texture(context, 1, 1),
        Err(WebGlError::ContextLost(id)) if id == context
    ));
    assert!(canvas.create_2d_context(surface).is_err());

    destroy_context(&mut webgl, &mut canvas, context).unwrap();
    assert!(webgl.context(context).is_none());
    assert!(matches!(
        webgl.create_buffer(context, 1),
        Err(WebGlError::UnknownContext(id)) if id == context
    ));
    assert!(canvas.create_2d_context(surface).is_ok());
}

#[test]
fn foreign_registry_context_identity_never_grants_resource_authority() {
    let mut scopes = ScopeCounter::new();
    let mut first_canvas = Canvas::default();
    let first_surface = first_canvas.create_surface();
    let mut second_canvas = Canvas::default();
    let second_surface = second_canvas.create_surface();
    let mut first = Registry::try_new(limits(), &mut scopes).unwrap();
    let mut second = Registry::try_new(limits(), &mut scopes).unwrap();
    let first_context = create_context(&mut first, &mut first_canvas, first_surface).unwrap();
    let second_context = create_context(&mut second, &mut second_canvas, second_surface).unwrap();

    assert_ne!(first_context.scope(), second_context.scope());
    assert!(matches!(
        first.create_buffer(second_context, 1),
        Err(WebGlError::UnknownContext(id)) if id == second_context
    ));
}

#[test]
fn context_views_track_counters_and_unknown_ids_are_refused() {
    let mut scopes = ScopeCounter::new();
    let mut canvas = Canvas::default();
    let surface = canvas.create_surface();
    let mut webgl = Registry::try_new(limits(), &mut scopes).unwrap();
    let context = create_context(&mut webgl, &mut canvas, surface).unwrap();
    let buffer = webgl.create_buffer(context, 5).unwrap();
    webgl.create_texture(context, 3, 2).unwrap();
    let view = webgl.context(context).unwrap();
    assert_eq!(view.surface(), surface);
    assert_eq!(view.state(), WebGlContextState::Active);
    assert_eq!(view.resource_count(), 2);
    assert_eq!(view.buffer_bytes(), 5);
    assert_eq!(view.texture_pixels(), 6);
    assert_eq!(webgl.buffer(buffer).unwrap().context(), context);
    assert_eq!(webgl.resource_count(), 2);
    assert_eq!(webgl.create_buffer(context, 0), Err(WebGlError::InvalidBufferSize));
    assert_eq!(
        webgl.create_texture(context, 0, 2),
        Err(WebGlError::InvalidTextureDimensions)
    );
    webgl.destroy_buffer(context, buffer).unwrap();
    assert_eq!(
        webgl.destroy_buffer(context, buffer),
        Err(WebGlError::UnknownBuffer(buffer))
    );
    assert_eq!(webgl.context(context).unwrap().buffer_bytes(), 0);
    assert_eq!(
        Registry::try_new(WebGlLimits { max_contexts: 0, ..limits() }, &mut scopes).err(),
        Some(WebGlError::InvalidLimits)
    );
    let lost = webgl.destroy_context(context).unwrap();
    assert_eq!(lost, surface);
    assert_eq!(webgl.context_count(), 0);
}
