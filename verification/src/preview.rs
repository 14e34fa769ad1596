//! Preview images of mods: which formats are accepted, what they are
//! served as, and the size limits a preview must keep.
use vstd::prelude::*;
use crate::error::{msg, AppError};

verus! {

/// The largest preview file that is read, in bytes.
pub const MAX_PREVIEW_BYTES: u64 = 16777216;
/// The largest width or height of a preview.
pub const MAX_PREVIEW_DIMENSION: u32 = 8192;
/// The largest number of pixels of a preview.
pub const MAX_PREVIEW_PIXELS: u64 = 40000000;

/// An image format as far as previews tell them apart.
#[derive(Debug, Clone, Copy, PartialEq, Eq, Structural)]
pub enum PreviewFormat {
    Png,
    Jpeg,
    WebP,
    Gif,
    /// A format the image library knows that previews do not accept.
    Other,
}

/// How an accepted preview is served.
#[derive(Debug, Clone, PartialEq, Eq)]
pub struct PreviewImageInfo {
    pub media_type: String,
    pub extension: String,
}

/// The format `image::guess_format` reports for `bytes`, `None` when it
/// recognises none.
pub uninterp spec fn spec_image_format(bytes: Seq<u8>) -> Option<PreviewFormat>;

/// The dimensions `ImageReader::into_dimensions` reads from `bytes` decoded
/// as `format`, `None` when they cannot be read.
pub uninterp spec fn spec_image_dimensions(bytes: Seq<u8>, format: PreviewFormat) -> Option<(u32, u32)>;

pub open spec fn has_prefix(bytes: Seq<u8>, prefix: Seq<u8>) -> bool {
    prefix.len() <= bytes.len() && bytes.subrange(0, prefix.len() as int) == prefix
}

/// The accepted format whose signature starts `bytes`: the signatures that
/// the image library checks first, in its order.
pub open spec fn supported_signature(bytes: Seq<u8>) -> Option<PreviewFormat> {
    if has_prefix(bytes, seq![0x89u8, 0x50u8, 0x4eu8, 0x47u8, 0x0du8, 0x0au8, 0x1au8, 0x0au8]) {
        Some(PreviewFormat::Png)
    } else if has_prefix(bytes, seq![0xffu8, 0xd8u8, 0xffu8]) {
        Some(PreviewFormat::Jpeg)
    } else if has_prefix(bytes, seq![0x47u8, 0x49u8, 0x46u8, 0x38u8, 0x39u8, 0x61u8]) || has_prefix(
        bytes,
        seq![0x47u8, 0x49u8, 0x46u8, 0x38u8, 0x37u8, 0x61u8],
    ) {
        Some(PreviewFormat::Gif)
    } else if bytes.len() >= 12 && bytes.subrange(0, 4) == seq![0x52u8, 0x49u8, 0x46u8, 0x46u8]
        && bytes.subrange(8, 12) == seq![0x57u8, 0x45u8, 0x42u8, 0x50u8] {
        Some(PreviewFormat::WebP)
    } else {
        None
    }
}

/// `image::guess_format`: the format that the leading bytes announce. Its
/// table checks the PNG, JPEG, GIF and WebP signatures before any other, so
/// a buffer with one of them is that format, and no other buffer is one of
/// these four. Which other format, if any, it reports is left to the name.
#[verifier::external_body]
fn guess_image_format(bytes: &[u8]) -> (r: Option<PreviewFormat>)
    ensures
        r == spec_image_format(bytes@),
        supported_signature(bytes@) is Some ==> r == supported_signature(bytes@),
        r matches Some(f) ==> (f != PreviewFormat::Other ==> supported_signature(bytes@) == Some(f)),
{
    match image::guess_format(bytes) {
        Ok(image::ImageFormat::Png) => Some(PreviewFormat::Png),
        Ok(image::ImageFormat::Jpeg) => Some(PreviewFormat::Jpeg),
        Ok(image::ImageFormat::WebP) => Some(PreviewFormat::WebP),
        Ok(image::ImageFormat::Gif) => Some(PreviewFormat::Gif),
        Ok(_) => Some(PreviewFormat::Other),
        Err(_) => None,
    }
}

/// `ImageReader::with_format(..).into_dimensions()`: the width and height
/// that decoding the header of `bytes` as `format` gives, or `None` when it
/// fails.
#[verifier::external_body]
fn image_dimensions(bytes: &[u8], format: PreviewFormat) -> (r: Option<(u32, u32)>)
    requires
        format != PreviewFormat::Other,
    ensures
        r == spec_image_dimensions(bytes@, format),
{
    let f = match format {
        PreviewFormat::Png => image::ImageFormat::Png,
        PreviewFormat::Jpeg => image::ImageFormat::Jpeg,
        PreviewFormat::WebP => image::ImageFormat::WebP,
        _ => image::ImageFormat::Gif,
    };
    image::ImageReader::with_format(std::io::Cursor::new(bytes), f).into_dimensions().ok()
}

pub open spec fn media_type_of(format: PreviewFormat) -> Seq<char> {
    match format {
        PreviewFormat::Png => "image/png"@,
        PreviewFormat::Jpeg => "image/jpeg"@,
        PreviewFormat::WebP => "image/webp"@,
        _ => "image/gif"@,
    }
}

pub open spec fn extension_of(format: PreviewFormat) -> Seq<char> {
    match format {
        PreviewFormat::Png => "png"@,
        PreviewFormat::Jpeg => "jpg"@,
        PreviewFormat::WebP => "webp"@,
        _ => "gif"@,
    }
}

/// Dimensions a preview may have: neither is 0 or above
/// `MAX_PREVIEW_DIMENSION`, and there are at most `MAX_PREVIEW_PIXELS`
/// pixels.
pub open spec fn dimensions_ok(width: u32, height: u32) -> bool {
    &&& width != 0 && height != 0
    &&& width <= MAX_PREVIEW_DIMENSION && height <= MAX_PREVIEW_DIMENSION
    &&& width * height <= MAX_PREVIEW_PIXELS
}

/// An image is accepted as a preview: PNG, JPEG, WebP or GIF, with
/// readable dimensions that keep the limits.
pub open spec fn preview_accepted(format: Option<PreviewFormat>, dims: Option<(u32, u32)>) -> bool {
    &&& format matches Some(f) && f != PreviewFormat::Other
    &&& dims matches Some(d) && dimensions_ok(d.0, d.1)
}

/// Decides on an image from its guessed format and the dimensions decoding
/// gave: the media type and extension of an accepted one, a `ModPreview`
/// error otherwise.
pub fn check_preview(format: Option<PreviewFormat>, dims: Option<(u32, u32)>) -> (r: Result<
    PreviewImageInfo,
    AppError,
>)
    ensures
        r is Ok <==> preview_accepted(format, dims),
        r matches Ok(info) ==> info.media_type@ == media_type_of(format->0) && info.extension@
            == extension_of(format->0),
        r matches Err(e) ==> e is ModPreview,
{
    let f = match format {
        Some(f) => f,
        None => return Err(AppError::ModPreview(msg("仅支持 PNG、JPG、WebP 或 GIF 图片。"))),
    };
    let info = match f {
        PreviewFormat::Png => PreviewImageInfo { media_type: msg("image/png"), extension: msg("png") },
        PreviewFormat::Jpeg => PreviewImageInfo { media_type: msg("image/jpeg"), extension: msg("jpg") },
        PreviewFormat::WebP => PreviewImageInfo { media_type: msg("image/webp"), extension: msg("webp") },
        PreviewFormat::Gif => PreviewImageInfo { media_type: msg("image/gif"), extension: msg("gif") },
        PreviewFormat::Other => {
            return Err(AppError::ModPreview(msg("仅支持 PNG、JPG、WebP 或 GIF 图片。")));
        },
    };
    let (width, height) = match dims {
        Some(d) => d,
        None => return Err(AppError::ModPreview(msg("图片内容损坏或无法读取尺寸。"))),
    };
    proof {
        let w = width as int;
        let h = height as int;
        assert(0 <= w * h <= 0xffff_ffff * 0xffff_ffff) by (nonlinear_arith)
            requires
                0 <= w <= 0xffff_ffff,
                0 <= h <= 0xffff_ffff,
        ;
    }
    let pixels: u64 = (width as u64) * (height as u64);
    if width == 0 || height == 0 || width > MAX_PREVIEW_DIMENSION || height > MAX_PREVIEW_DIMENSION || pixels
        > MAX_PREVIEW_PIXELS {
        return Err(AppError::ModPreview(msg("图片尺寸超出限制；宽高不能超过 8192，总像素不能超过 40000000。")));
    }
    Ok(info)
}

/// The dimensions to check for `bytes`: read only for an accepted format.
pub open spec fn preview_dims(bytes: Seq<u8>) -> Option<(u32, u32)> {
    match spec_image_format(bytes) {
        Some(f) => if f != PreviewFormat::Other {
            spec_image_dimensions(bytes, f)
        } else {
            None
        },
        None => None,
    }
}

/// Inspects the bytes of a candidate preview: guesses their format, reads
/// the dimensions of an accepted one, and decides as `check_preview` does.
pub fn inspect_preview_bytes(bytes: &[u8]) -> (r: Result<PreviewImageInfo, AppError>)
    ensures
        r is Ok <==> preview_accepted(spec_image_format(bytes@), preview_dims(bytes@)),
        r matches Ok(info) ==> info.media_type@ == media_type_of(spec_image_format(bytes@)->0)
            && info.extension@ == extension_of(spec_image_format(bytes@)->0),
        r matches Err(e) ==> e is ModPreview,
        supported_signature(bytes@) is None ==> r is Err,
{
    let format = guess_image_format(bytes);
    let dims = match format {
        Some(f) => if f != PreviewFormat::Other {
            image_dimensions(bytes, f)
        } else {
            None
        },
        None => None,
    };
    check_preview(format, dims)
}

} // verus!
