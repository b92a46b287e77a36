use rarog::resources::{
    Color, DecodedImage, ImageResourceError, ImageResourceLimits, ImageResourceStatus,
    ImageResourceStore,
};

fn image(width: u32, height: u32, color: Color) -> DecodedImage {
    DecodedImage::try_new(
        width,
        height,
        vec![color; usize::try_from(u64::from(width) * u64::from(height)).unwrap()],
    )
    .unwrap()
}

#[test]
fn decoded_image_validates_shape_and_pixel_access() {
    let image = DecodedImage::try_new(2, 1, vec![Color::black(), Color::white()]).unwrap();
    assert_eq!(image.pixel(0, 0), Some(Color::black()));
    assert_eq!(image.pixel(1, 0), Some(Color::white()));
    assert_eq!(image.pixel(2, 0), None);
    assert_eq!(
        DecodedImage::try_new(2, 2, vec![Color::black()]),
        Err(ImageResourceError::PixelCountMismatch {
            expected: 4,
            actual: 1,
        })
    );
}

#[test]
fn store_lifecycle_uses_stable_ids_and_revisioned_ready_refs() {
    let mut store = ImageResourceStore::default();
    let id = store.reserve().unwrap();
    assert_eq!(store.status(id), Some(ImageResourceStatus::Pending));
    let first = store.resolve(id, image(2, 2, Color::black())).unwrap();
    assert_eq!(first.id(), id);
    assert_eq!(first.revision(), 1);
    assert_eq!(store.status(id), Some(ImageResourceStatus::Ready));
    assert!(store.image(first).is_some());

    let second = store.replace_ready(id, image(1, 1, Color::white())).unwrap();
    assert_eq!(second.id(), id);
    assert_eq!(second.revision(), 2);
    assert!(store.image(first).is_none());
    assert_eq!(store.image(second).unwrap().pixel_count(), 1);
}

#[test]
fn store_enforces_per_image_total_and_entry_limits() {
    let limits = ImageResourceLimits {
        max_resources: 2,
        max_pixels_per_resource: 4,
        max_total_pixels: 5,
    };
    let mut store = ImageResourceStore::try_new(limits).unwrap();
    let first = store.reserve().unwrap();
    let second = store.reserve().unwrap();
    assert_eq!(
        store.reserve(),
        Err(ImageResourceError::ResourceLimitExceeded {
            resources: 3,
            limit: 2,
        })
    );
    store.resolve(first, image(2, 2, Color::black())).unwrap();
    assert_eq!(
        store.resolve(second, image(2, 1, Color::white())),
        Err(ImageResourceError::TotalPixelLimitExceeded {
            pixels: 6,
            limit: 5,
        })
    );
    assert_eq!(store.status(second), Some(ImageResourceStatus::Pending));
    assert_eq!(store.total_pixels(), 4);
}

#[test]
fn removal_releases_retained_pixel_budget_and_stale_refs() {
    let limits = ImageResourceLimits {
        max_resources: 2,
        max_pixels_per_resource: 4,
        max_total_pixels: 4,
    };
    let mut store = ImageResourceStore::try_new(limits).unwrap();
    let first = store.reserve().unwrap();
    let first_ref = store.resolve(first, image(2, 2, Color::black())).unwrap();
    assert!(store.remove(first));
    assert_eq!(store.total_pixels(), 0);
    assert!(store.image(first_ref).is_none());

    let second = store.reserve().unwrap();
    store.resolve(second, image(2, 2, Color::white())).unwrap();
    assert_eq!(store.total_pixels(), 4);
}

#[test]
fn image_store_rejects_invalid_limits_and_unknown_or_misused_resources() {
    let invalid = ImageResourceLimits {
        max_resources: 1,
        max_pixels_per_resource: 8,
        max_total_pixels: 4,
    };
    assert_eq!(
        ImageResourceStore::try_new(invalid).unwrap_err(),
        ImageResourceError::InvalidLimits
    );
    let mut store = ImageResourceStore::default();
    let id = store.reserve().unwrap();
    assert_eq!(
        store.replace_ready(id, image(1, 1, Color::black())),
        Err(ImageResourceError::InvalidState(id))
    );
    assert_eq!(store.fail(id), Ok(()));
    assert_eq!(store.status(id), Some(ImageResourceStatus::Failed));
    assert_eq!(store.fail(id), Err(ImageResourceError::InvalidState(id)));
    assert_eq!(store.current_ref(id), None);
    assert!(store.remove(id));
    assert!(!store.remove(id));
    assert_eq!(
        store.resolve(id, image(1, 1, Color::black())),
        Err(ImageResourceError::UnknownResource(id))
    );
    let next = store.reserve().unwrap();
    assert_eq!(next.get(), id.get() + 1);
}

#[test]
fn image_store_per_resource_limit_and_error_texts() {
    let limits = ImageResourceLimits {
        max_resources: 4,
        max_pixels_per_resource: 2,
        max_total_pixels: 4,
    };
    let mut store = ImageResourceStore::try_new(limits).unwrap();
    let id = store.reserve().unwrap();
    let error = store.resolve(id, image(3, 1, Color::black())).unwrap_err();
    assert_eq!(
        error,
        ImageResourceError::ImagePixelLimitExceeded { pixels: 3, limit: 2 }
    );
    assert_eq!(
        error.to_string(),
        "decoded image requires 3 pixels; per-resource limit is 2"
    );
    assert_eq!(
        ImageResourceError::UnknownResource(id).to_string(),
        format!("unknown image resource {}", id.get())
    );
    assert_eq!(
        DecodedImage::try_new(0, 3, Vec::new()).unwrap_err(),
        ImageResourceError::InvalidDimensions
    );
    assert_eq!(
        ImageResourceError::PixelCountMismatch { expected: 4, actual: 1 }.to_string(),
        "decoded image requires 4 pixels but received 1"
    );
    let rf = store.resolve(id, image(2, 1, Color::white())).unwrap();
    assert_eq!(store.current_ref(id), Some(rf));
    assert_eq!(store.len(), 1);
}
