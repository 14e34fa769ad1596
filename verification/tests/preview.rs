use aemm::error::AppError;
use aemm::preview::{check_preview, inspect_preview_bytes, PreviewFormat};
use base64::Engine;

const ONE_PIXEL_PNG: &str = "iVBORw0KGgoAAAANSUhEUgAAAAEAAAABCAQAAAC1HAwCAAAAC0lEQVR42mNk+A8AAQUBAScY42YAAAAASUVORK5CYII=";

#[test]
fn accepts_only_supported_decodable_preview_images() {
    let png = base64::engine::general_purpose::STANDARD.decode(ONE_PIXEL_PNG).unwrap();
    let info = inspect_preview_bytes(&png).unwrap();
    assert_eq!(info.media_type, "image/png");
    assert_eq!(info.extension, "png");
    assert!(inspect_preview_bytes(b"<svg onload='bad'>").is_err());
    assert!(inspect_preview_bytes(b"\x89PNG\r\n\x1a\nbroken").is_err());
}

#[test]
fn preview_formats_map_to_media_types() {
    let gif = check_preview(Some(PreviewFormat::Gif), Some((10, 10))).unwrap();
    assert_eq!((gif.media_type.as_str(), gif.extension.as_str()), ("image/gif", "gif"));
    let jpeg = check_preview(Some(PreviewFormat::Jpeg), Some((1, 1))).unwrap();
    assert_eq!((jpeg.media_type.as_str(), jpeg.extension.as_str()), ("image/jpeg", "jpg"));
    let webp = check_preview(Some(PreviewFormat::WebP), Some((8192, 4882))).unwrap();
    assert_eq!((webp.media_type.as_str(), webp.extension.as_str()), ("image/webp", "webp"));
}

#[test]
fn preview_limits_are_enforced() {
    assert!(matches!(check_preview(None, Some((1, 1))), Err(AppError::ModPreview(_))));
    assert!(matches!(check_preview(Some(PreviewFormat::Other), Some((1, 1))), Err(AppError::ModPreview(_))));
    assert!(matches!(check_preview(Some(PreviewFormat::Png), None), Err(AppError::ModPreview(_))));
    assert!(matches!(check_preview(Some(PreviewFormat::Png), Some((0, 5))), Err(AppError::ModPreview(_))));
    assert!(matches!(check_preview(Some(PreviewFormat::Png), Some((8193, 1))), Err(AppError::ModPreview(_))));
    assert!(matches!(check_preview(Some(PreviewFormat::Png), Some((8192, 8192))), Err(AppError::ModPreview(_))));
    assert!(check_preview(Some(PreviewFormat::Png), Some((8000, 5000))).is_ok());
    assert!(check_preview(Some(PreviewFormat::Png), Some((8000, 5001))).is_err());
}

#[test]
fn unsupported_image_formats_are_refused() {
    // A BMP header: a format the image library knows, which previews refuse.
    assert!(matches!(inspect_preview_bytes(b"BM\x00\x00\x00\x00"), Err(AppError::ModPreview(_))));
    assert!(inspect_preview_bytes(b"").is_err());
}
