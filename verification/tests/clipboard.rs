use cross_platform_clipboard::clipboard::{
    image_copy_size, image_dimensions, ClipboardWatcher, CopyImageError,
};
use cross_platform_clipboard::domain::StoredImage;

#[test]
fn watcher_reports_only_changes() {
    let mut watcher = ClipboardWatcher::new(Some("déjà là".to_string()));
    assert_eq!(watcher.observe_text(Some("déjà là".to_string())), None);
    assert_eq!(watcher.observe_text(Some("nouveau".to_string())), Some("nouveau".to_string()));
    assert_eq!(watcher.observe_text(None), None);
    assert_eq!(watcher.observe_text(Some("nouveau".to_string())), None);
    let mut empty = ClipboardWatcher::new(None);
    assert_eq!(empty.observe_text(Some(String::new())), None);
    assert_eq!(empty.observe_text(Some("x".to_string())), Some("x".to_string()));
}

#[test]
fn clipboard_image_sides_must_fit_u32() {
    assert_eq!(image_dimensions(3, 4), Some((3, 4)));
    if usize::BITS == 64 {
        assert_eq!(image_dimensions(1 << 40, 1), None);
    }
}

#[test]
fn stored_images_are_checked_before_copying() {
    let image = |rgba: Vec<u8>, width: i64, height: i64| StoredImage { rgba, width, height };
    assert_eq!(image_copy_size(&image(vec![0; 8], 2, 1)), Ok((2, 1)));
    assert_eq!(image_copy_size(&image(vec![0; 8], -1, 1)), Err(CopyImageError::WidthInvalid));
    assert_eq!(image_copy_size(&image(vec![0; 8], 1, -1)), Err(CopyImageError::HeightInvalid));
    assert_eq!(image_copy_size(&image(vec![0; 7], 2, 1)), Err(CopyImageError::PixelsInvalid));
    assert_eq!(
        image_copy_size(&image(vec![], i64::MAX >> 1, 16)),
        Err(CopyImageError::TooLarge)
    );
    assert_eq!(CopyImageError::PixelsInvalid.message(), "saved image pixels are invalid");
}
