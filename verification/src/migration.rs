use vstd::prelude::*;

verus! {

/// What the `image` crate decodes from an image file whose name has the
/// extension `extension`, as RGBA pixels: width, height and pixel bytes; none
/// when the extension names no supported format or the bytes do not decode.
pub uninterp spec fn decoded_rgba8(extension: Seq<char>, file: Seq<u8>) -> Option<(u32, u32, Seq<u8>)>;

/// Calls `image::ImageFormat::from_extension` and
/// `image::load_from_memory_with_format` (what `image::open` does with a
/// file's extension and contents), then `DynamicImage::to_rgba8`. Claimed: the
/// result is the decoded image, a function of the extension and the bytes
/// alone, and its pixels are exactly width × height × 4 bytes.
#[verifier::external_body]
fn decode_rgba8(extension: &str, file: &[u8]) -> (decoded: Option<(u32, u32, Vec<u8>)>)
    ensures
        match decoded {
            Some((w, h, px)) => {
                &&& decoded_rgba8(extension@, file@) == Some((w, h, px@))
                &&& px@.len() == w as int * h as int * 4
            },
            None => decoded_rgba8(extension@, file@) is None,
        },
{
    let format = image::ImageFormat::from_extension(extension)?;
    let rgba = image::load_from_memory_with_format(file, format).ok()?.to_rgba8();
    Some((rgba.width(), rgba.height(), rgba.into_raw()))
}

/// What a legacy image row becomes when its file is read: the row's id, the
/// decoded RGBA pixels and the image's width and height; none when the file
/// does not decode (the row is then left as it is).
pub fn legacy_image_update(id: i64, extension: &str, file: &[u8]) -> (update: Option<(i64, Vec<u8>, i64, i64)>)
    ensures
        match decoded_rgba8(extension@, file@) {
            Some((w, h, px)) => {
                &&& update matches Some((i, b, uw, uh))
                &&& i == id
                &&& b@ == px
                &&& uw == w as i64
                &&& uh == h as i64
                &&& b@.len() == w as int * h as int * 4
            },
            None => update is None,
        },
{
    match decode_rgba8(extension, file) {
        Some((width, height, rgba)) => Some((id, rgba, width as i64, height as i64)),
        None => None,
    }
}

} // verus!
