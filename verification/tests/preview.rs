use base64::Engine;
use cross_platform_clipboard::domain::StoredImage;
use cross_platform_clipboard::preview::{image_data_url, png_data_url};

#[test]
fn makes_a_png_data_url_from_stored_rgba() {
    let url = image_data_url(&StoredImage {
        rgba: vec![255, 0, 0, 255],
        width: 1,
        height: 1,
    })
    .unwrap();

    assert!(url.starts_with("data:image/png;base64,"));
}

#[test]
fn the_data_url_holds_a_png_of_the_pixels() {
    let url = image_data_url(&StoredImage { rgba: vec![1, 2, 3, 4, 5, 6, 7, 8], width: 2, height: 1 })
        .unwrap();
    let png = base64::engine::general_purpose::STANDARD
        .decode(url.trim_start_matches("data:image/png;base64,"))
        .unwrap();
    assert_eq!(&png[..8], b"\x89PNG\r\n\x1a\n");
    let decoded = image::load_from_memory(&png).unwrap().to_rgba8();
    assert_eq!(decoded.dimensions(), (2, 1));
    assert_eq!(decoded.into_raw(), vec![1, 2, 3, 4, 5, 6, 7, 8]);
}

#[test]
fn images_that_cannot_be_shown_give_no_url() {
    let missing = StoredImage { rgba: vec![1, 2, 3], width: 1, height: 1 };
    assert!(image_data_url(&missing).is_none());
    let negative = StoredImage { rgba: vec![1, 2, 3, 4], width: -1, height: 1 };
    assert!(image_data_url(&negative).is_none());
    let longer = StoredImage { rgba: vec![1, 2, 3, 4, 5], width: 1, height: 1 };
    assert!(image_data_url(&longer).is_none());
    let empty = StoredImage { rgba: vec![], width: 0, height: 3 };
    assert!(image_data_url(&empty).is_none());
}

#[test]
fn png_data_url_encodes_in_base64() {
    assert_eq!(png_data_url(b"abc"), "data:image/png;base64,YWJj");
    assert_eq!(png_data_url(b""), "data:image/png;base64,");
    assert_eq!(png_data_url(b"a"), "data:image/png;base64,YQ==");
    assert_eq!(png_data_url(b"ab"), "data:image/png;base64,YWI=");
    assert_eq!(png_data_url(&[0xfb, 0xff, 0xbf]), "data:image/png;base64,+/+/");
}
