//! Decoded image resources and the bounded store that hands out stable,
//! revisioned references to them.
//!
//! A resource is reserved first (pending), then resolved with a decoded image
//! (ready) or failed. Each change of a resource's image bumps its revision,
//! so a reference taken before the change no longer reaches an image. The
//! store never holds more resources than its limit, never retains more pixels
//! than its budget, and never hands out an identifier twice.
use crate::keyed::{
    key_at, keyed_map, keys_distinct, lemma_keyed_map_at, lemma_keyed_map_insert,
    lemma_keyed_map_len, lemma_keyed_map_remove, lemma_keyed_map_update, lemma_weight_sum_insert,
    lemma_weight_sum_remove, lemma_weight_sum_update, weight_sum,
};
use crate::text::{decimal, push_decimal, push_decimal_u64, push_str};
use vstd::prelude::*;

verus! {

pub const DEFAULT_MAX_IMAGE_RESOURCES: usize = 1024;

pub const DEFAULT_MAX_IMAGE_PIXELS_PER_RESOURCE: u64 = 16777216;

pub const DEFAULT_MAX_TOTAL_IMAGE_PIXELS: u64 = 67108864;

/// An RGBA colour with eight bits per channel.
#[derive(Clone, Copy, Debug, PartialEq, Eq, Structural)]
pub struct Color {
    pub r: u8,
    pub g: u8,
    pub b: u8,
    pub a: u8,
}

impl Color {
    /// Opaque black.
    pub fn black() -> (c: Color)
        ensures
            c == (Color { r: 0, g: 0, b: 0, a: 255 }),
    {
        Color { r: 0, g: 0, b: 0, a: 255 }
    }

    /// Opaque white.
    pub fn white() -> (c: Color)
        ensures
            c == (Color { r: 255, g: 255, b: 255, a: 255 }),
    {
        Color { r: 255, g: 255, b: 255, a: 255 }
    }
}

/// How many resources a store keeps, and how many pixels one image and all
/// ready images together may hold.
#[derive(Clone, Copy, Debug, PartialEq, Eq, Structural)]
pub struct ImageResourceLimits {
    pub max_resources: usize,
    pub max_pixels_per_resource: u64,
    pub max_total_pixels: u64,
}

impl ImageResourceLimits {
    /// Every limit is non-zero and one image's budget fits in the total.
    pub open spec fn spec_is_valid(self) -> bool {
        &&& self.max_resources > 0
        &&& self.max_pixels_per_resource > 0
        &&& self.max_total_pixels > 0
        &&& self.max_pixels_per_resource <= self.max_total_pixels
    }

    pub fn is_valid(self) -> (r: bool)
        ensures
            r == self.spec_is_valid(),
    {
        self.max_resources > 0 && self.max_pixels_per_resource > 0 && self.max_total_pixels > 0
            && self.max_pixels_per_resource <= self.max_total_pixels
    }
}

impl Default for ImageResourceLimits {
    fn default() -> (r: Self)
        ensures
            r == (ImageResourceLimits {
                max_resources: DEFAULT_MAX_IMAGE_RESOURCES,
                max_pixels_per_resource: DEFAULT_MAX_IMAGE_PIXELS_PER_RESOURCE,
                max_total_pixels: DEFAULT_MAX_TOTAL_IMAGE_PIXELS,
            }),
    {
        ImageResourceLimits {
            max_resources: DEFAULT_MAX_IMAGE_RESOURCES,
            max_pixels_per_resource: DEFAULT_MAX_IMAGE_PIXELS_PER_RESOURCE,
            max_total_pixels: DEFAULT_MAX_TOTAL_IMAGE_PIXELS,
        }
    }
}

/// The identity of a reserved image resource.
#[derive(Clone, Copy, Debug, PartialEq, Eq, PartialOrd, Ord, Hash, Structural)]
pub struct ImageResourceId {
    value: u64,
}

impl ImageResourceId {
    pub closed spec fn spec_get(self) -> u64 {
        self.value
    }

    pub fn get(self) -> (r: u64)
        ensures
            r == self.spec_get(),
    {
        self.value
    }
}

/// A reference to one revision of a ready image.
#[derive(Clone, Copy, Debug, PartialEq, Eq, PartialOrd, Ord, Hash, Structural)]
pub struct ImageResourceRef {
    id: ImageResourceId,
    revision: u64,
}

impl ImageResourceRef {
    pub closed spec fn spec_id(self) -> ImageResourceId {
        self.id
    }

    pub closed spec fn spec_revision(self) -> u64 {
        self.revision
    }

    pub fn id(self) -> (r: ImageResourceId)
        ensures
            r == self.spec_id(),
    {
        self.id
    }

    pub fn revision(self) -> (r: u64)
        ensures
            r == self.spec_revision(),
    {
        self.revision
    }
}

/// Where a resource stands in its lifecycle.
#[derive(Clone, Copy, Debug, PartialEq, Eq, Structural)]
pub enum ImageResourceStatus {
    Pending,
    Ready,
    Failed,
}

/// What a decoded image is: its size and its pixels, row by row.
pub struct ImageModel {
    pub width: u32,
    pub height: u32,
    pub pixels: Seq<Color>,
}

/// A decoded image: non-zero dimensions and exactly one pixel per position.
#[derive(Debug, PartialEq, Eq)]
pub struct DecodedImage {
    width: u32,
    height: u32,
    pixels: Vec<Color>,
}

impl View for DecodedImage {
    type V = ImageModel;

    closed spec fn view(&self) -> ImageModel {
        ImageModel { width: self.width, height: self.height, pixels: self.pixels@ }
    }
}

/// The number of pixels of an image of the given size.
pub open spec fn pixel_count_of(width: u32, height: u32) -> nat {
    (width as nat) * (height as nat)
}

/// The outcome of building a decoded image from its size and pixels.
pub open spec fn decoded_image_refusal(width: u32, height: u32, actual: nat) -> Option<
    ImageResourceError,
> {
    if width == 0 || height == 0 {
        Some(ImageResourceError::InvalidDimensions)
    } else if pixel_count_of(width, height) > usize::MAX {
        Some(ImageResourceError::PixelCountOverflow)
    } else if actual != pixel_count_of(width, height) {
        Some(
            ImageResourceError::PixelCountMismatch {
                expected: pixel_count_of(width, height) as u64,
                actual: actual as usize,
            },
        )
    } else {
        None
    }
}

proof fn lemma_pixel_count_bound(width: u32, height: u32)
    ensures
        pixel_count_of(width, height) <= u64::MAX,
{
    assert((width as nat) * (height as nat) <= 0xffff_ffffnat * 0xffff_ffffnat) by (nonlinear_arith);
}

impl DecodedImage {
    #[verifier::type_invariant]
    spec fn well_formed(self) -> bool {
        &&& self.width > 0
        &&& self.height > 0
        &&& self.pixels@.len() == pixel_count_of(self.width, self.height)
    }

    /// The image of the given size made of `pixels`, row by row; refused
    /// for a zero dimension, for a pixel count the machine cannot index, and
    /// for a pixel vector of the wrong length.
    pub fn try_new(width: u32, height: u32, pixels: Vec<Color>) -> (r: Result<Self, ImageResourceError>)
        ensures
            decoded_image_refusal(width, height, pixels@.len()) is None <==> r is Ok,
            r matches Err(e) ==> decoded_image_refusal(width, height, pixels@.len()) == Some(e),
            r matches Ok(image) ==> image@ == (ImageModel { width, height, pixels: pixels@ }),
    {
        if width == 0 || height == 0 {
            return Err(ImageResourceError::InvalidDimensions);
        }
        proof {
            lemma_pixel_count_bound(width, height);
        }
        let expected: u64 = (width as u64) * (height as u64);
        if expected > usize::MAX as u64 {
            return Err(ImageResourceError::PixelCountOverflow);
        }
        if pixels.len() as u64 != expected {
            return Err(ImageResourceError::PixelCountMismatch { expected, actual: pixels.len() });
        }
        Ok(DecodedImage { width, height, pixels })
    }

    pub fn width(&self) -> (r: u32)
        ensures
            r == self@.width,
    {
        self.width
    }

    pub fn height(&self) -> (r: u32)
        ensures
            r == self@.height,
    {
        self.height
    }

    /// Width times height.
    pub fn pixel_count(&self) -> (r: u64)
        ensures
            r == pixel_count_of(self@.width, self@.height),
    {
        proof {
            lemma_pixel_count_bound(self.width, self.height);
        }
        (self.width as u64) * (self.height as u64)
    }

    pub fn pixels(&self) -> (r: &[Color])
        ensures
            r@ == self@.pixels,
    {
        self.pixels.as_slice()
    }

    /// The pixel at column `x` of row `y`, or `None` outside the image.
    pub fn pixel(&self, x: u32, y: u32) -> (r: Option<Color>)
        ensures
            (x < self@.width && y < self@.height) <==> r is Some,
            r matches Some(c) ==> c == self@.pixels[(y as int) * (self@.width as int) + (x as int)],
    {
        proof {
            use_type_invariant(self);
        }
        if x >= self.width || y >= self.height {
            return None;
        }
        let w = self.width;
        let h = self.height;
        assert((y as nat) * (w as nat) + (x as nat) < (w as nat) * (h as nat)) by (nonlinear_arith)
            requires
                x < w,
                y < h,
        {
            assert((y as nat) * (w as nat) + (w as nat) == ((y as nat) + 1) * (w as nat));
            assert(((y as nat) + 1) * (w as nat) <= (h as nat) * (w as nat));
        }
        let n = self.pixels.len();
        assert(n == (w as nat) * (h as nat));
        assert((y as nat) * (w as nat) <= (y as nat) * (w as nat) + (x as nat));
        let row: usize = (y as usize) * (w as usize);
        let index: usize = row + (x as usize);
        Some(self.pixels[index])
    }
}

/// Why an image operation was refused.
#[derive(Clone, Copy, Debug, PartialEq, Eq, Structural)]
pub enum ImageResourceError {
    InvalidLimits,
    InvalidDimensions,
    PixelCountOverflow,
    PixelCountMismatch { expected: u64, actual: usize },
    ResourceLimitExceeded { resources: usize, limit: usize },
    ImagePixelLimitExceeded { pixels: u64, limit: u64 },
    TotalPixelLimitExceeded { pixels: u64, limit: u64 },
    UnknownResource(ImageResourceId),
    InvalidState(ImageResourceId),
    ResourceIdExhausted,
    RevisionExhausted(ImageResourceId),
}

/// The description of an image error.
pub open spec fn image_error_text(e: ImageResourceError) -> Seq<char> {
    match e {
        ImageResourceError::InvalidLimits => "image resource limits must be non-zero and internally consistent"@,
        ImageResourceError::InvalidDimensions => "decoded image dimensions must be non-zero"@,
        ImageResourceError::PixelCountOverflow => "decoded image pixel count does not fit the current architecture"@,
        ImageResourceError::PixelCountMismatch { expected, actual } => "decoded image requires "@
            + decimal(expected as nat) + " pixels but received "@ + decimal(actual as nat),
        ImageResourceError::ResourceLimitExceeded { resources, limit } => "image store would contain "@
            + decimal(resources as nat) + " resources; limit is "@ + decimal(limit as nat),
        ImageResourceError::ImagePixelLimitExceeded { pixels, limit } => "decoded image requires "@
            + decimal(pixels as nat) + " pixels; per-resource limit is "@ + decimal(limit as nat),
        ImageResourceError::TotalPixelLimitExceeded { pixels, limit } =>
            "decoded image store would retain "@ + decimal(pixels as nat) + " pixels; limit is "@
            + decimal(limit as nat),
        ImageResourceError::UnknownResource(id) => "unknown image resource "@ + decimal(
            id.spec_get() as nat,
        ),
        ImageResourceError::InvalidState(id) => "image resource "@ + decimal(id.spec_get() as nat)
            + " is not in the required lifecycle state"@,
        ImageResourceError::ResourceIdExhausted => "image resource identifier space is exhausted"@,
        ImageResourceError::RevisionExhausted(id) => "image resource "@ + decimal(
            id.spec_get() as nat,
        ) + " revision space is exhausted"@,
    }
}

fn text_with(prefix: &str, n: u64, suffix: &str) -> (r: String)
    ensures
        r@ == prefix@ + decimal(n as nat) + suffix@,
{
    let mut out = String::new();
    push_str(&mut out, prefix);
    push_decimal_u64(&mut out, n);
    push_str(&mut out, suffix);
    out
}

fn text_with_two(first: &str, a: u64, second: &str, b: u64) -> (r: String)
    ensures
        r@ == first@ + decimal(a as nat) + second@ + decimal(b as nat),
{
    let mut out = String::new();
    push_str(&mut out, first);
    push_decimal_u64(&mut out, a);
    push_str(&mut out, second);
    push_decimal_u64(&mut out, b);
    out
}

fn text_with_sizes(first: &str, a: usize, second: &str, b: usize) -> (r: String)
    ensures
        r@ == first@ + decimal(a as nat) + second@ + decimal(b as nat),
{
    let mut out = String::new();
    push_str(&mut out, first);
    push_decimal(&mut out, a);
    push_str(&mut out, second);
    push_decimal(&mut out, b);
    out
}

impl ImageResourceError {
    /// The error's description.
    pub fn to_string(&self) -> (r: String)
        ensures
            r@ == image_error_text(*self),
    {
        match self {
            ImageResourceError::InvalidLimits => "image resource limits must be non-zero and internally consistent".to_owned(),
            ImageResourceError::InvalidDimensions => "decoded image dimensions must be non-zero".to_owned(),
            ImageResourceError::PixelCountOverflow => "decoded image pixel count does not fit the current architecture".to_owned(),
            ImageResourceError::PixelCountMismatch { expected, actual } => {
                let mut out = text_with("decoded image requires ", *expected, " pixels but received ");
                push_decimal(&mut out, *actual);
                out
            },
            ImageResourceError::ResourceLimitExceeded { resources, limit } => text_with_sizes(
                "image store would contain ",
                *resources,
                " resources; limit is ",
                *limit,
            ),
            ImageResourceError::ImagePixelLimitExceeded { pixels, limit } => text_with_two(
                "decoded image requires ",
                *pixels,
                " pixels; per-resource limit is ",
                *limit,
            ),
            ImageResourceError::TotalPixelLimitExceeded { pixels, limit } => text_with_two(
                "decoded image store would retain ",
                *pixels,
                " pixels; limit is ",
                *limit,
            ),
            ImageResourceError::UnknownResource(id) => {
                let mut out = "unknown image resource ".to_owned();
                push_decimal_u64(&mut out, id.get());
                out
            },
            ImageResourceError::InvalidState(id) => text_with(
                "image resource ",
                id.get(),
                " is not in the required lifecycle state",
            ),
            ImageResourceError::ResourceIdExhausted => "image resource identifier space is exhausted".to_owned(),
            ImageResourceError::RevisionExhausted(id) => text_with(
                "image resource ",
                id.get(),
                " revision space is exhausted",
            ),
        }
    }
}


/// What a stored resource holds.
#[derive(Debug)]
enum StoredImageState {
    Pending,
    Ready(DecodedImage),
    Failed,
}

#[derive(Debug)]
struct ImageResourceEntry {
    id: u64,
    revision: u64,
    state: StoredImageState,
}

/// The state of a resource as the store's contracts see it.
pub enum ImageStateModel {
    Pending,
    Ready(ImageModel),
    Failed,
}

/// A resource: its revision and its state.
pub struct ImageEntryModel {
    pub revision: u64,
    pub state: ImageStateModel,
}

/// The pixels a resource retains: those of its image when it is ready.
pub open spec fn retained_pixels(m: ImageEntryModel) -> nat {
    match m.state {
        ImageStateModel::Ready(image) => pixel_count_of(image.width, image.height),
        _ => 0,
    }
}

/// The status reported for a resource.
pub open spec fn status_of(m: ImageEntryModel) -> ImageResourceStatus {
    match m.state {
        ImageStateModel::Pending => ImageResourceStatus::Pending,
        ImageStateModel::Ready(_) => ImageResourceStatus::Ready,
        ImageStateModel::Failed => ImageResourceStatus::Failed,
    }
}

spec fn state_model(s: StoredImageState) -> ImageStateModel {
    match s {
        StoredImageState::Pending => ImageStateModel::Pending,
        StoredImageState::Ready(image) => ImageStateModel::Ready(image@),
        StoredImageState::Failed => ImageStateModel::Failed,
    }
}

spec fn entry_id() -> spec_fn(ImageResourceEntry) -> u64 {
    |e: ImageResourceEntry| e.id
}

spec fn entry_model() -> spec_fn(ImageResourceEntry) -> ImageEntryModel {
    |e: ImageResourceEntry| ImageEntryModel { revision: e.revision, state: state_model(e.state) }
}

spec fn entry_pixels() -> spec_fn(ImageResourceEntry) -> nat {
    |e: ImageResourceEntry| retained_pixels(entry_model()(e))
}

/// A bounded store of image resources.
#[derive(Debug)]
pub struct ImageResourceStore {
    limits: ImageResourceLimits,
    next_id: u64,
    total_pixels: u64,
    entries: Vec<ImageResourceEntry>,
}

impl ImageResourceStore {
    /// The store's invariant: valid limits; distinct identifiers, all below
    /// the next one; the pixel total is the sum over ready images and stays
    /// within its budget; the resource count and each image stay within
    /// theirs.
    pub closed spec fn wf(&self) -> bool {
        &&& self.limits.spec_is_valid()
        &&& self.next_id >= 1
        &&& keys_distinct(self.entries@, entry_id())
        &&& forall|i: int|
            0 <= i < self.entries@.len() ==> 1 <= #[trigger] self.entries@[i].id < self.next_id
        &&& self.total_pixels == weight_sum(self.entries@, entry_pixels())
        &&& self.total_pixels <= self.limits.max_total_pixels
        &&& self.entries@.len() <= self.limits.max_resources
        &&& forall|i: int|
            0 <= i < self.entries@.len() ==> #[trigger] entry_pixels()(self.entries@[i])
                <= self.limits.max_pixels_per_resource
    }

    /// The resources, by identifier.
    pub closed spec fn spec_resources(&self) -> Map<u64, ImageEntryModel> {
        keyed_map(self.entries@, entry_id(), entry_model())
    }

    pub closed spec fn spec_limits(&self) -> ImageResourceLimits {
        self.limits
    }

    /// The identifier the next reservation receives.
    pub closed spec fn spec_next_id(&self) -> u64 {
        self.next_id
    }

    pub closed spec fn spec_total_pixels(&self) -> u64 {
        self.total_pixels
    }

    /// The ready image a reference reaches: only the current revision of a
    /// ready resource reaches one.
    pub open spec fn spec_image(&self, reference: ImageResourceRef) -> Option<ImageModel> {
        let id = reference.spec_id().spec_get();
        if self.spec_resources().contains_key(id) && self.spec_resources()[id].revision
            == reference.spec_revision() {
            match self.spec_resources()[id].state {
                ImageStateModel::Ready(image) => Some(image),
                _ => None,
            }
        } else {
            None
        }
    }

    /// Nothing that a caller can observe differs.
    pub open spec fn same_state(&self, other: &Self) -> bool {
        &&& self.spec_resources() == other.spec_resources()
        &&& self.spec_limits() == other.spec_limits()
        &&& self.spec_next_id() == other.spec_next_id()
        &&& self.spec_total_pixels() == other.spec_total_pixels()
    }

    /// Why storing an image of `new_pixels` pixels in place of one of
    /// `replacing` pixels would be refused.
    pub open spec fn pixel_refusal(&self, new_pixels: nat, replacing: nat) -> Option<
        ImageResourceError,
    > {
        let retained = if self.spec_total_pixels() >= replacing {
            self.spec_total_pixels() - replacing
        } else {
            0
        };
        if new_pixels > self.spec_limits().max_pixels_per_resource {
            Some(
                ImageResourceError::ImagePixelLimitExceeded {
                    pixels: new_pixels as u64,
                    limit: self.spec_limits().max_pixels_per_resource,
                },
            )
        } else if retained + new_pixels > u64::MAX {
            Some(ImageResourceError::PixelCountOverflow)
        } else if retained + new_pixels > self.spec_limits().max_total_pixels {
            Some(
                ImageResourceError::TotalPixelLimitExceeded {
                    pixels: (retained + new_pixels) as u64,
                    limit: self.spec_limits().max_total_pixels,
                },
            )
        } else {
            None
        }
    }

    /// Why a reservation would be refused.
    pub open spec fn reserve_refusal(&self) -> Option<ImageResourceError> {
        let resources = self.spec_resources().len() + 1;
        if resources > self.spec_limits().max_resources {
            Some(
                ImageResourceError::ResourceLimitExceeded {
                    resources: resources as usize,
                    limit: self.spec_limits().max_resources,
                },
            )
        } else if self.spec_next_id() == u64::MAX {
            Some(ImageResourceError::ResourceIdExhausted)
        } else {
            None
        }
    }

    /// Why resolving a resource with an image of `pixels` pixels would be
    /// refused.
    pub open spec fn resolve_refusal(&self, id: ImageResourceId, pixels: nat) -> Option<
        ImageResourceError,
    > {
        let key = id.spec_get();
        if !self.spec_resources().contains_key(key) {
            Some(ImageResourceError::UnknownResource(id))
        } else if !(self.spec_resources()[key].state is Pending) {
            Some(ImageResourceError::InvalidState(id))
        } else if self.spec_resources()[key].revision == u64::MAX {
            Some(ImageResourceError::RevisionExhausted(id))
        } else {
            self.pixel_refusal(pixels, 0)
        }
    }

    /// Why replacing a ready resource's image by one of `pixels` pixels
    /// would be refused.
    pub open spec fn replace_refusal(&self, id: ImageResourceId, pixels: nat) -> Option<
        ImageResourceError,
    > {
        let key = id.spec_get();
        if !self.spec_resources().contains_key(key) {
            Some(ImageResourceError::UnknownResource(id))
        } else if !(self.spec_resources()[key].state is Ready) {
            Some(ImageResourceError::InvalidState(id))
        } else if self.spec_resources()[key].revision == u64::MAX {
            Some(ImageResourceError::RevisionExhausted(id))
        } else {
            self.pixel_refusal(pixels, retained_pixels(self.spec_resources()[key]))
        }
    }

    /// Why failing a resource would be refused.
    pub open spec fn fail_refusal(&self, id: ImageResourceId) -> Option<ImageResourceError> {
        let key = id.spec_get();
        if !self.spec_resources().contains_key(key) {
            Some(ImageResourceError::UnknownResource(id))
        } else if !(self.spec_resources()[key].state is Pending) {
            Some(ImageResourceError::InvalidState(id))
        } else if self.spec_resources()[key].revision == u64::MAX {
            Some(ImageResourceError::RevisionExhausted(id))
        } else {
            None
        }
    }

    proof fn lemma_len(&self)
        requires
            self.wf(),
        ensures
            self.spec_resources().dom().finite(),
            self.spec_resources().len() == self.entries@.len(),
    {
        lemma_keyed_map_len(self.entries@, entry_id(), entry_model());
    }

    /// The position of the resource with the identifier.
    fn find(&self, id: u64) -> (r: Option<usize>)
        requires
            self.wf(),
        ensures
            r is Some <==> self.spec_resources().contains_key(id),
            r matches Some(i) ==> {
                &&& i < self.entries@.len()
                &&& self.entries@[i as int].id == id
                &&& self.spec_resources()[id] == entry_model()(self.entries@[i as int])
            },
    {
        let mut i: usize = 0;
        while i < self.entries.len()
            invariant
                0 <= i <= self.entries@.len(),
                self.wf(),
                forall|j: int| 0 <= j < i ==> #[trigger] self.entries@[j].id != id,
            decreases self.entries@.len() - i,
        {
            if self.entries[i].id == id {
                proof {
                    lemma_keyed_map_at(self.entries@, entry_id(), entry_model(), i as int);
                }
                return Some(i);
            }
            i = i + 1;
        }
        proof {
            if key_at(self.entries@, entry_id(), id) {
                let j = choose|j: int| 0 <= j < self.entries@.len() && entry_id()(self.entries@[j]) == id;
                assert(self.entries@[j].id != id);
            }
        }
        None
    }

    /// An empty store with the given limits; refused with `InvalidLimits`
    /// when they are not valid.
    pub fn try_new(limits: ImageResourceLimits) -> (r: Result<Self, ImageResourceError>)
        ensures
            limits.spec_is_valid() <==> r is Ok,
            r matches Err(e) ==> e == ImageResourceError::InvalidLimits,
            r matches Ok(store) ==> {
                &&& store.wf()
                &&& store.spec_resources() == Map::<u64, ImageEntryModel>::empty()
                &&& store.spec_limits() == limits
                &&& store.spec_next_id() == 1
                &&& store.spec_total_pixels() == 0
            },
    {
        if !limits.is_valid() {
            return Err(ImageResourceError::InvalidLimits);
        }
        let store = ImageResourceStore { limits, next_id: 1, total_pixels: 0, entries: Vec::new() };
        proof {
            assert(store.spec_resources() =~= Map::<u64, ImageEntryModel>::empty());
        }
        Ok(store)
    }

    pub fn limits(&self) -> (r: ImageResourceLimits)
        ensures
            r == self.spec_limits(),
    {
        self.limits
    }

    /// The number of resources.
    pub fn len(&self) -> (r: usize)
        requires
            self.wf(),
        ensures
            r == self.spec_resources().len(),
    {
        proof {
            self.lemma_len();
        }
        self.entries.len()
    }

    pub fn is_empty(&self) -> (r: bool)
        requires
            self.wf(),
        ensures
            r == (self.spec_resources().len() == 0),
    {
        proof {
            self.lemma_len();
        }
        self.entries.len() == 0
    }

    /// The pixels retained by ready images.
    pub fn total_pixels(&self) -> (r: u64)
        ensures
            r == self.spec_total_pixels(),
    {
        self.total_pixels
    }

    /// Reserves a new pending resource under a fresh identifier; refused
    /// when the store is full or identifiers are exhausted, leaving it as it
    /// was.
    pub fn reserve(&mut self) -> (r: Result<ImageResourceId, ImageResourceError>)
        requires
            old(self).wf(),
            old(self).spec_resources().len() < usize::MAX,
        ensures
            final(self).wf(),
            old(self).reserve_refusal() is None <==> r is Ok,
            r matches Err(e) ==> old(self).reserve_refusal() == Some(e) && final(self).same_state(
                old(self),
            ),
            r matches Ok(id) ==> {
                &&& id.spec_get() == old(self).spec_next_id()
                &&& !old(self).spec_resources().contains_key(id.spec_get())
                &&& final(self).spec_resources() == old(self).spec_resources().insert(
                    id.spec_get(),
                    ImageEntryModel { revision: 0, state: ImageStateModel::Pending },
                )
                &&& final(self).spec_next_id() == old(self).spec_next_id() + 1
                &&& final(self).spec_total_pixels() == old(self).spec_total_pixels()
                &&& final(self).spec_limits() == old(self).spec_limits()
            },
    {
        proof {
            self.lemma_len();
        }
        let count = self.entries.len();
        let resources = if count < usize::MAX {
            count + 1
        } else {
            count
        };
        if resources > self.limits.max_resources {
            return Err(
                ImageResourceError::ResourceLimitExceeded {
                    resources,
                    limit: self.limits.max_resources,
                },
            );
        }
        if self.next_id == u64::MAX {
            return Err(ImageResourceError::ResourceIdExhausted);
        }
        let id = self.next_id;
        let entry = ImageResourceEntry { id, revision: 0, state: StoredImageState::Pending };
        proof {
            let s = self.entries@;
            if key_at(s, entry_id(), id) {
                let j = choose|j: int| 0 <= j < s.len() && entry_id()(s[j]) == id;
                assert(s[j].id < self.next_id);
            }
            lemma_keyed_map_insert(s, entry_id(), entry_model(), s.len() as int, entry);
            lemma_weight_sum_insert(s, entry_pixels(), s.len() as int, entry);
            assert(s.insert(s.len() as int, entry) =~= s.push(entry));
        }
        self.next_id = id + 1;
        self.entries.push(entry);
        Ok(ImageResourceId { value: id })
    }

    /// The status of a resource, or `None` for an unknown identifier.
    pub fn status(&self, id: ImageResourceId) -> (r: Option<ImageResourceStatus>)
        requires
            self.wf(),
        ensures
            r == (if self.spec_resources().contains_key(id.spec_get()) {
                Some(status_of(self.spec_resources()[id.spec_get()]))
            } else {
                None
            }),
    {
        match self.find(id.value) {
            None => None,
            Some(i) => match &self.entries[i].state {
                StoredImageState::Pending => Some(ImageResourceStatus::Pending),
                StoredImageState::Ready(_) => Some(ImageResourceStatus::Ready),
                StoredImageState::Failed => Some(ImageResourceStatus::Failed),
            },
        }
    }

    /// The pixel total after storing `new_pixels` in place of `replacing`,
    /// or why that is refused.
    fn validate_pixels(&self, new_pixels: u64, replacing: u64) -> (r: Result<u64, ImageResourceError>)
        ensures
            self.pixel_refusal(new_pixels as nat, replacing as nat) is None <==> r is Ok,
            r matches Err(e) ==> self.pixel_refusal(new_pixels as nat, replacing as nat) == Some(e),
            r matches Ok(total) ==> total == (if self.spec_total_pixels() >= replacing {
                self.spec_total_pixels() - replacing
            } else {
                0
            }) + new_pixels,
    {
        if new_pixels > self.limits.max_pixels_per_resource {
            return Err(
                ImageResourceError::ImagePixelLimitExceeded {
                    pixels: new_pixels,
                    limit: self.limits.max_pixels_per_resource,
                },
            );
        }
        let retained = if self.total_pixels >= replacing {
            self.total_pixels - replacing
        } else {
            0
        };
        match retained.checked_add(new_pixels) {
            None => Err(ImageResourceError::PixelCountOverflow),
            Some(total) => {
                if total > self.limits.max_total_pixels {
                    Err(
                        ImageResourceError::TotalPixelLimitExceeded {
                            pixels: total,
                            limit: self.limits.max_total_pixels,
                        },
                    )
                } else {
                    Ok(total)
                }
            },
        }
    }

    /// Puts `entry` at position `i`, whose record has the same identifier,
    /// with the pixel total `total`.
    fn put_entry(&mut self, i: usize, entry: ImageResourceEntry, total: u64)
        requires
            old(self).wf(),
            i < old(self).entries@.len(),
            entry.id == old(self).entries@[i as int].id,
            total == old(self).spec_total_pixels() - entry_pixels()(old(self).entries@[i as int])
                + entry_pixels()(entry),
            total <= old(self).spec_limits().max_total_pixels,
            entry_pixels()(entry) <= old(self).spec_limits().max_pixels_per_resource,
        ensures
            final(self).wf(),
            final(self).spec_resources() == old(self).spec_resources().insert(
                entry.id,
                entry_model()(entry),
            ),
            final(self).spec_total_pixels() == total,
            final(self).spec_next_id() == old(self).spec_next_id(),
            final(self).spec_limits() == old(self).spec_limits(),
    {
        proof {
            let s = self.entries@;
            lemma_keyed_map_update(s, entry_id(), entry_model(), i as int, entry);
            lemma_weight_sum_update(s, entry_pixels(), i as int, entry);
        }
        self.entries.set(i, entry);
        self.total_pixels = total;
        proof {
            let s = self.entries@;
            assert forall|j: int| 0 <= j < s.len() implies 1 <= #[trigger] s[j].id < self.next_id by {
                assert(s[j].id == old(self).entries@[j].id);
            }
            assert forall|j: int| 0 <= j < s.len() implies #[trigger] entry_pixels()(s[j])
                <= self.limits.max_pixels_per_resource by {
                if j != i {
                    assert(s[j] == old(self).entries@[j]);
                }
            }
        }
    }

    proof fn lemma_weight_le_total(&self, i: int)
        requires
            self.wf(),
            0 <= i < self.entries@.len(),
        ensures
            entry_pixels()(self.entries@[i]) <= self.spec_total_pixels(),
    {
        lemma_weight_sum_remove(self.entries@, entry_pixels(), i);
    }

    /// Makes a pending resource ready with `image`, bumping its revision;
    /// refused for an unknown or non-pending resource, an exhausted
    /// revision, or an image over the per-resource or total pixel budget,
    /// leaving the store as it was.
    pub fn resolve(&mut self, id: ImageResourceId, image: DecodedImage) -> (r: Result<
        ImageResourceRef,
        ImageResourceError,
    >)
        requires
            old(self).wf(),
        ensures
            final(self).wf(),
            old(self).resolve_refusal(id, pixel_count_of(image@.width, image@.height)) is None
                <==> r is Ok,
            r matches Err(e) ==> old(self).resolve_refusal(
                id,
                pixel_count_of(image@.width, image@.height),
            ) == Some(e) && final(self).same_state(old(self)),
            r matches Ok(reference) ==> {
                let revision = (old(self).spec_resources()[id.spec_get()].revision + 1) as u64;
                &&& reference.spec_id() == id
                &&& reference.spec_revision() == revision
                &&& final(self).spec_resources() == old(self).spec_resources().insert(
                    id.spec_get(),
                    ImageEntryModel { revision, state: ImageStateModel::Ready(image@) },
                )
                &&& final(self).spec_total_pixels() == old(self).spec_total_pixels()
                    + pixel_count_of(image@.width, image@.height)
                &&& final(self).spec_next_id() == old(self).spec_next_id()
                &&& final(self).spec_limits() == old(self).spec_limits()
                &&& final(self).spec_image(reference) == Some(image@)
            },
    {
        let i = match self.find(id.value) {
            None => return Err(ImageResourceError::UnknownResource(id)),
            Some(i) => i,
        };
        match &self.entries[i].state {
            StoredImageState::Pending => {},
            _ => return Err(ImageResourceError::InvalidState(id)),
        }
        let revision = self.entries[i].revision;
        if revision == u64::MAX {
            return Err(ImageResourceError::RevisionExhausted(id));
        }
        let pixels = image.pixel_count();
        let total = match self.validate_pixels(pixels, 0) {
            Ok(total) => total,
            Err(e) => return Err(e),
        };
        let entry = ImageResourceEntry {
            id: id.value,
            revision: revision + 1,
            state: StoredImageState::Ready(image),
        };
        self.put_entry(i, entry, total);
        Ok(ImageResourceRef { id, revision: revision + 1 })
    }

    /// Replaces a ready resource's image, bumping its revision so earlier
    /// references no longer reach an image; refused for an unknown or
    /// non-ready resource, an exhausted revision, or an image over the
    /// budgets (counting the released old image), leaving the store as it
    /// was.
    pub fn replace_ready(&mut self, id: ImageResourceId, image: DecodedImage) -> (r: Result<
        ImageResourceRef,
        ImageResourceError,
    >)
        requires
            old(self).wf(),
        ensures
            final(self).wf(),
            old(self).replace_refusal(id, pixel_count_of(image@.width, image@.height)) is None
                <==> r is Ok,
            r matches Err(e) ==> old(self).replace_refusal(
                id,
                pixel_count_of(image@.width, image@.height),
            ) == Some(e) && final(self).same_state(old(self)),
            r matches Ok(reference) ==> {
                let before = old(self).spec_resources()[id.spec_get()];
                let revision = (before.revision + 1) as u64;
                &&& reference.spec_id() == id
                &&& reference.spec_revision() == revision
                &&& final(self).spec_resources() == old(self).spec_resources().insert(
                    id.spec_get(),
                    ImageEntryModel { revision, state: ImageStateModel::Ready(image@) },
                )
                &&& final(self).spec_total_pixels() == old(self).spec_total_pixels()
                    - retained_pixels(before) + pixel_count_of(image@.width, image@.height)
                &&& final(self).spec_next_id() == old(self).spec_next_id()
                &&& final(self).spec_limits() == old(self).spec_limits()
                &&& final(self).spec_image(reference) == Some(image@)
                &&& forall|earlier: ImageResourceRef|
                    earlier.spec_id() == id && earlier.spec_revision() <= before.revision
                        ==> #[trigger] final(self).spec_image(earlier) is None
            },
    {
        let i = match self.find(id.value) {
            None => return Err(ImageResourceError::UnknownResource(id)),
            Some(i) => i,
        };
        let old_pixels = match &self.entries[i].state {
            StoredImageState::Ready(current) => current.pixel_count(),
            _ => return Err(ImageResourceError::InvalidState(id)),
        };
        let revision = self.entries[i].revision;
        if revision == u64::MAX {
            return Err(ImageResourceError::RevisionExhausted(id));
        }
        let pixels = image.pixel_count();
        let total = match self.validate_pixels(pixels, old_pixels) {
            Ok(total) => total,
            Err(e) => return Err(e),
        };
        proof {
            self.lemma_weight_le_total(i as int);
        }
        let entry = ImageResourceEntry {
            id: id.value,
            revision: revision + 1,
            state: StoredImageState::Ready(image),
        };
        self.put_entry(i, entry, total);
        Ok(ImageResourceRef { id, revision: revision + 1 })
    }

    /// Marks a pending resource as failed, bumping its revision; refused for
    /// an unknown or non-pending resource or an exhausted revision, leaving
    /// the store as it was.
    pub fn fail(&mut self, id: ImageResourceId) -> (r: Result<(), ImageResourceError>)
        requires
            old(self).wf(),
        ensures
            final(self).wf(),
            old(self).fail_refusal(id) is None <==> r is Ok,
            r matches Err(e) ==> old(self).fail_refusal(id) == Some(e) && final(self).same_state(
                old(self),
            ),
            r is Ok ==> {
                &&& final(self).spec_resources() == old(self).spec_resources().insert(
                    id.spec_get(),
                    ImageEntryModel {
                        revision: (old(self).spec_resources()[id.spec_get()].revision + 1) as u64,
                        state: ImageStateModel::Failed,
                    },
                )
                &&& final(self).spec_total_pixels() == old(self).spec_total_pixels()
                &&& final(self).spec_next_id() == old(self).spec_next_id()
                &&& final(self).spec_limits() == old(self).spec_limits()
            },
    {
        let i = match self.find(id.value) {
            None => return Err(ImageResourceError::UnknownResource(id)),
            Some(i) => i,
        };
        match &self.entries[i].state {
            StoredImageState::Pending => {},
            _ => return Err(ImageResourceError::InvalidState(id)),
        }
        let revision = self.entries[i].revision;
        if revision == u64::MAX {
            return Err(ImageResourceError::RevisionExhausted(id));
        }
        let entry = ImageResourceEntry {
            id: id.value,
            revision: revision + 1,
            state: StoredImageState::Failed,
        };
        let total = self.total_pixels;
        self.put_entry(i, entry, total);
        Ok(())
    }

    /// The reference to a ready resource's current revision, or `None`.
    pub fn current_ref(&self, id: ImageResourceId) -> (r: Option<ImageResourceRef>)
        requires
            self.wf(),
        ensures
            r is Some <==> (self.spec_resources().contains_key(id.spec_get())
                && self.spec_resources()[id.spec_get()].state is Ready),
            r matches Some(reference) ==> reference.spec_id() == id && reference.spec_revision()
                == self.spec_resources()[id.spec_get()].revision,
    {
        match self.find(id.value) {
            None => None,
            Some(i) => match &self.entries[i].state {
                StoredImageState::Ready(_) => Some(
                    ImageResourceRef { id, revision: self.entries[i].revision },
                ),
                _ => None,
            },
        }
    }

    /// The image a reference reaches: only the current revision of a ready
    /// resource reaches one.
    pub fn image(&self, reference: ImageResourceRef) -> (r: Option<&DecodedImage>)
        requires
            self.wf(),
        ensures
            r is Some <==> self.spec_image(reference) is Some,
            r matches Some(image) ==> self.spec_image(reference) == Some(image@),
    {
        match self.find(reference.id.value) {
            None => None,
            Some(i) => {
                if self.entries[i].revision != reference.revision {
                    return None;
                }
                match &self.entries[i].state {
                    StoredImageState::Ready(image) => Some(image),
                    _ => None,
                }
            },
        }
    }

    /// Removes a resource, releasing the pixels of its image; `false` for an
    /// unknown identifier. Its identifier is never handed out again.
    pub fn remove(&mut self, id: ImageResourceId) -> (r: bool)
        requires
            old(self).wf(),
        ensures
            final(self).wf(),
            r == old(self).spec_resources().contains_key(id.spec_get()),
            final(self).spec_resources() == old(self).spec_resources().remove(id.spec_get()),
            final(self).spec_total_pixels() == old(self).spec_total_pixels() - (if r {
                retained_pixels(old(self).spec_resources()[id.spec_get()])
            } else {
                0
            }),
            final(self).spec_next_id() == old(self).spec_next_id(),
            final(self).spec_limits() == old(self).spec_limits(),
            forall|reference: ImageResourceRef|
                reference.spec_id() == id ==> #[trigger] final(self).spec_image(reference) is None,
    {
        let i = match self.find(id.value) {
            None => {
                proof {
                    assert(self.spec_resources().remove(id.spec_get()) =~= self.spec_resources());
                }
                return false;
            },
            Some(i) => i,
        };
        proof {
            let s = self.entries@;
            lemma_keyed_map_remove(s, entry_id(), entry_model(), i as int);
            lemma_weight_sum_remove(s, entry_pixels(), i as int);
        }
        let entry = self.entries.remove(i);
        let released = match &entry.state {
            StoredImageState::Ready(image) => image.pixel_count(),
            _ => 0,
        };
        self.total_pixels = self.total_pixels - released;
        proof {
            let s = self.entries@;
            let o = old(self).entries@;
            assert forall|j: int| 0 <= j < s.len() implies 1 <= #[trigger] s[j].id < self.next_id by {
                if j < i {
                    assert(s[j] == o[j]);
                } else {
                    assert(s[j] == o[j + 1]);
                }
            }
            assert forall|j: int| 0 <= j < s.len() implies #[trigger] entry_pixels()(s[j])
                <= self.limits.max_pixels_per_resource by {
                if j < i {
                    assert(s[j] == o[j]);
                } else {
                    assert(s[j] == o[j + 1]);
                }
            }
        }
        true
    }
}

impl Default for ImageResourceStore {
    fn default() -> (r: Self)
        ensures
            r.wf(),
            r.spec_resources() == Map::<u64, ImageEntryModel>::empty(),
            r.spec_limits() == (ImageResourceLimits {
                max_resources: DEFAULT_MAX_IMAGE_RESOURCES,
                max_pixels_per_resource: DEFAULT_MAX_IMAGE_PIXELS_PER_RESOURCE,
                max_total_pixels: DEFAULT_MAX_TOTAL_IMAGE_PIXELS,
            }),
            r.spec_next_id() == 1,
            r.spec_total_pixels() == 0,
    {
        let limits = ImageResourceLimits {
            max_resources: DEFAULT_MAX_IMAGE_RESOURCES,
            max_pixels_per_resource: DEFAULT_MAX_IMAGE_PIXELS_PER_RESOURCE,
            max_total_pixels: DEFAULT_MAX_TOTAL_IMAGE_PIXELS,
        };
        let store = ImageResourceStore { limits, next_id: 1, total_pixels: 0, entries: Vec::new() };
        proof {
            assert(store.spec_resources() =~= Map::<u64, ImageEntryModel>::empty());
        }
        store
    }
}

/// Whatever happened to a store, it holds no more resources than its limit,
/// retains no more pixels than its budget, keeps each image within the
/// per-resource budget, and every identifier it holds lies below the one it
/// hands out next, so no identifier is ever handed out twice.
pub proof fn lemma_store_within_limits(store: &ImageResourceStore)
    requires
        store.wf(),
    ensures
        store.spec_resources().len() <= store.spec_limits().max_resources,
        store.spec_total_pixels() <= store.spec_limits().max_total_pixels,
        forall|id: u64| #[trigger]
            store.spec_resources().contains_key(id) ==> {
                &&& 1 <= id < store.spec_next_id()
                &&& retained_pixels(store.spec_resources()[id])
                    <= store.spec_limits().max_pixels_per_resource
                &&& retained_pixels(store.spec_resources()[id]) <= store.spec_total_pixels()
            },
{
    store.lemma_len();
    assert forall|id: u64| #[trigger] store.spec_resources().contains_key(id) implies {
        &&& 1 <= id < store.spec_next_id()
        &&& retained_pixels(store.spec_resources()[id])
            <= store.spec_limits().max_pixels_per_resource
        &&& retained_pixels(store.spec_resources()[id]) <= store.spec_total_pixels()
    } by {
        let j = choose|j: int|
            0 <= j < store.entries@.len() && entry_id()(store.entries@[j]) == id;
        lemma_keyed_map_at(store.entries@, entry_id(), entry_model(), j);
        store.lemma_weight_le_total(j);
    }
}

/// Replacing a ready image counts the released old image: the replacement is
/// refused exactly when the resource is unknown, not ready or out of
/// revisions, when the new image passes the per-resource budget, or when the
/// total without the old image plus the new one passes the total budget;
/// a total refusal reports that very total (while it fits a `u64`).
pub proof fn lemma_replace_counts_released_pixels(store: &ImageResourceStore, id: ImageResourceId, pixels: nat)
    requires
        store.wf(),
    ensures
        ({
            let key = id.spec_get();
            let m = store.spec_resources()[key];
            let total = store.spec_total_pixels() - retained_pixels(m) + pixels;
            &&& store.replace_refusal(id, pixels) is None <==> {
                &&& store.spec_resources().contains_key(key)
                &&& m.state is Ready
                &&& m.revision < u64::MAX
                &&& pixels <= store.spec_limits().max_pixels_per_resource
                &&& total <= store.spec_limits().max_total_pixels
            }
            &&& store.spec_resources().contains_key(key) && m.state is Ready && m.revision < u64::MAX
                && pixels <= store.spec_limits().max_pixels_per_resource && store.spec_limits().max_total_pixels
                < total <= u64::MAX ==> store.replace_refusal(id, pixels) == Some(
                ImageResourceError::TotalPixelLimitExceeded {
                    pixels: total as u64,
                    limit: store.spec_limits().max_total_pixels,
                },
            )
        }),
{
    lemma_store_within_limits(store);
    let key = id.spec_get();
    if store.spec_resources().contains_key(key) {
        assert(retained_pixels(store.spec_resources()[key]) <= store.spec_total_pixels());
    }
}

} // verus!
