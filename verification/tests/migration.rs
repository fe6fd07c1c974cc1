use cross_platform_clipboard::migration::legacy_image_update;
use std::io::Cursor;

fn png_file(width: u32, height: u32, rgba: Vec<u8>) -> Vec<u8> {
    let image = image::RgbaImage::from_raw(width, height, rgba).unwrap();
    let mut file = Cursor::new(Vec::new());
    image::DynamicImage::ImageRgba8(image)
        .write_to(&mut file, image::ImageFormat::Png)
        .unwrap();
    file.into_inner()
}

#[test]
fn migrates_legacy_image_files_into_sqlite_blobs() {
    let file = png_file(1, 1, vec![40, 50, 60, 255]);

    let (id, rgba, width, height) = legacy_image_update(1, "png", &file).unwrap();

    assert_eq!(id, 1);
    assert_eq!(rgba, vec![40, 50, 60, 255]);
    assert_eq!((width, height), (1, 1));
}

#[test]
fn the_extension_picks_the_decoder_in_any_case() {
    let file = png_file(2, 1, vec![1, 2, 3, 4, 5, 6, 7, 8]);
    let (_, rgba, width, height) = legacy_image_update(7, "PNG", &file).unwrap();
    assert_eq!((rgba, width, height), (vec![1, 2, 3, 4, 5, 6, 7, 8], 2, 1));
}

#[test]
fn undecodable_legacy_files_are_left_alone() {
    let file = png_file(1, 1, vec![40, 50, 60, 255]);
    assert!(legacy_image_update(1, "", &file).is_none());
    assert!(legacy_image_update(1, "txt", &file).is_none());
    assert!(legacy_image_update(1, "png", b"not an image").is_none());
}
