use crate::domain::StoredImage;
use base64::Engine;
use std::io::Cursor;
use vstd::prelude::*;

verus! {

/// The PNG file that the `image` crate writes for `width` × `height` RGBA
/// pixels.
pub uninterp spec fn png_file(width: u32, height: u32, rgba: Seq<u8>) -> Seq<u8>;

/// The digit for `n` (`n < 64`) in the standard Base64 alphabet of RFC 4648:
/// `A-Z`, `a-z`, `0-9`, `+`, `/`.
pub open spec fn base64_digit(n: int) -> char {
    if n < 26 {
        (65 + n) as char
    } else if n < 52 {
        (71 + n) as char
    } else if n < 62 {
        (n - 4) as char
    } else if n == 62 {
        '+'
    } else {
        '/'
    }
}

/// The standard Base64 text of `data` (RFC 4648, with `=` padding): each
/// three bytes become four digits of six bits each, most significant first;
/// a last group of one or two bytes is padded with zero bits and `=`.
pub open spec fn base64_standard(data: Seq<u8>) -> Seq<char>
    decreases data.len(),
{
    if data.len() == 0 {
        Seq::empty()
    } else if data.len() == 1 {
        seq![base64_digit((data[0] as int) / 4), base64_digit(((data[0] as int) % 4) * 16), '=', '=']
    } else if data.len() == 2 {
        seq![
            base64_digit((data[0] as int) / 4),
            base64_digit(((data[0] as int) % 4) * 16 + (data[1] as int) / 16),
            base64_digit(((data[1] as int) % 16) * 4),
            '=',
        ]
    } else {
        seq![
            base64_digit((data[0] as int) / 4),
            base64_digit(((data[0] as int) % 4) * 16 + (data[1] as int) / 16),
            base64_digit(((data[1] as int) % 16) * 4 + (data[2] as int) / 64),
            base64_digit((data[2] as int) % 64),
        ] + base64_standard(data.skip(3))
    }
}

/// Calls `image::RgbaImage::from_raw` on the pixels (which, with exactly
/// width × height × 4 bytes, gives an image) and `DynamicImage::write_to` with
/// `ImageFormat::Png`, whose PNG encoder panics on any other length (left out
/// by `requires`). Claimed: when writing succeeds, the bytes are the PNG file
/// of these pixels, a function of the arguments alone, and like every `Vec` of
/// bytes it holds at most `isize::MAX` of them; writing to memory fails only
/// for a zero width or height (the `png` crate refuses those).
#[verifier::external_body]
fn encode_png(width: u32, height: u32, rgba: Vec<u8>) -> (png: Option<Vec<u8>>)
    requires
        width as int * height as int * 4 == rgba@.len(),
    ensures
        png matches Some(bytes) ==> bytes@ == png_file(width, height, rgba@) && bytes@.len()
            <= isize::MAX,
        width > 0 && height > 0 ==> png is Some,
{
    let image = image::RgbaImage::from_raw(width, height, rgba)?;
    let mut png = Cursor::new(Vec::new());
    image::DynamicImage::ImageRgba8(image).write_to(&mut png, image::ImageFormat::Png).ok()?;
    Some(png.into_inner())
}

/// Calls `base64::engine::general_purpose::STANDARD.encode`, which panics when
/// the encoded length overflows a `usize` (left out by `requires`). Claimed:
/// the result is the standard, padded Base64 text of `data` as
/// `base64_standard` states it.
#[verifier::external_body]
fn encode_base64(data: &[u8]) -> (text: String)
    requires
        data@.len() / 3 * 4 + 4 <= usize::MAX,
    ensures
        text@ == base64_standard(data@),
{
    base64::engine::general_purpose::STANDARD.encode(data)
}

/// The data URL of a PNG file.
pub open spec fn png_url(png: Seq<u8>) -> Seq<char> {
    "data:image/png;base64,"@ + base64_standard(png)
}

/// The data URL that shows the PNG file `png`.
pub fn png_data_url(png: &[u8]) -> (url: String)
    requires
        png@.len() / 3 * 4 + 4 <= usize::MAX,
    ensures
        url@ == png_url(png@),
{
    let mut url = String::from_str("data:image/png;base64,");
    let encoded = encode_base64(png);
    url.append(encoded.as_str());
    url
}

/// Whether a stored image can be turned into pixels: both sides fit in a `u32`
/// and there are exactly width × height × 4 bytes, a number that fits in a
/// `usize`.
pub open spec fn previewable(image: crate::domain::ImageView) -> bool {
    &&& 0 <= image.width <= u32::MAX
    &&& 0 <= image.height <= u32::MAX
    &&& image.width * image.height * 4 <= usize::MAX
    &&& image.width * image.height * 4 == image.rgba.len()
}

fn side_as_u32(side: i64) -> (r: Option<u32>)
    ensures
        match r {
            Some(n) => n == side,
            None => side < 0 || side > u32::MAX,
        },
{
    if side < 0 || side > 0xffff_ffffi64 {
        None
    } else {
        Some(side as u32)
    }
}

/// A data URL with the PNG file of a stored image, for showing it. There is
/// none when the image cannot be turned into pixels or a side is zero (no PNG
/// file has one).
pub fn image_data_url(image: &StoredImage) -> (url: Option<String>)
    ensures
        url matches Some(u) ==> {
            &&& previewable(image@)
            &&& u@ == png_url(png_file(image.width as u32, image.height as u32, image.rgba@))
        },
        !previewable(image@) ==> url is None,
        previewable(image@) && image.width > 0 && image.height > 0 ==> url is Some,
{
    let width = side_as_u32(image.width)?;
    let height = side_as_u32(image.height)?;
    let pixels = (width as usize).checked_mul(height as usize)?;
    let needed = pixels.checked_mul(4)?;
    if needed != image.rgba.len() {
        return None;
    }
    let rgba = image.rgba.clone();
    assert(rgba@ =~= image.rgba@);
    let png = encode_png(width, height, rgba)?;
    assert(png@.len() / 3 * 4 + 4 <= usize::MAX);
    Some(png_data_url(png.as_slice()))
}

} // verus!
