//! Turning the bytes of an icon file into pixels: raster images are decoded and
//! scaled with the `image` crate; vector images are left to the caller.
use vstd::prelude::*;
use crate::icons::{is_svg_path, half_block_image_string, spec_half_block_image};
use crate::paths::spec_extension;
use crate::text::{chars_of, spec_to_lowercase};

verus! {

/// What `image` gives for the bytes `data` of the file at `path`, decoded in the format
/// that the path's extension names (as `image::open` does) and resized to exactly
/// `w` x `h` with the Lanczos filter, as RGBA: `(width, height, bytes)`, or `None` when
/// the extension names no format or the bytes are not an image of that format.
pub uninterp spec fn spec_decode_rgba_exact(path: Seq<char>, data: Seq<u8>, w: u32, h: u32) -> Option<(u32, u32, Seq<u8>)>;

/// Likewise, resized with the Lanczos filter to the largest size with the image's
/// aspect ratio that fits `w` x `h`, as RGBA.
pub uninterp spec fn spec_decode_rgba_fit(path: Seq<char>, data: Seq<u8>, w: u32, h: u32) -> Option<(u32, u32, Seq<u8>)>;

/// Likewise, resized to exactly `w` x `h` with the Lanczos filter, as RGB.
pub uninterp spec fn spec_decode_rgb_exact(path: Seq<char>, data: Seq<u8>, w: u32, h: u32) -> Option<(u32, u32, Seq<u8>)>;

/// Likewise, resized with the nearest-neighbour filter to the largest size with the
/// image's aspect ratio that fits `w` x `h`, as RGB.
pub uninterp spec fn spec_decode_rgb_fit_nearest(path: Seq<char>, data: Seq<u8>, w: u32, h: u32) -> Option<(u32, u32, Seq<u8>)>;

pub open spec fn opt_pixels(o: Option<(u32, u32, Vec<u8>)>) -> Option<(u32, u32, Seq<u8>)> {
    match o {
        Some((w, h, p)) => Some((w, h, p@)),
        None => None,
    }
}

/// Calls `image::ImageFormat::from_path` and `image::load_from_memory_with_format` (the
/// format the path's extension names, as `image::open` takes it), then `DynamicImage::resize_exact` with
/// `FilterType::Lanczos3` and `DynamicImage::to_rgba8`.  The result is taken to be
/// `spec_decode_rgba_exact`; as `resize_exact` documents, the image then is `w` x `h`,
/// and `to_rgba8` allocates exactly four bytes per pixel.  Nothing is promised of
/// which bytes are an image.
#[verifier::external_body]
fn decode_rgba_exact(path: &str, data: &[u8], w: u32, h: u32) -> (r: Option<(u32, u32, Vec<u8>)>)
    requires
        w * h * 16 <= isize::MAX,
    ensures
        opt_pixels(r) == spec_decode_rgba_exact(path@, data@, w, h),
        r matches Some((a, b, p)) ==> a == w && b == h && p@.len() == 4 * w * h,
{
    let format = image::ImageFormat::from_path(path).ok()?;
    let img = image::load_from_memory_with_format(data, format).ok()?;
    let rgba = img.resize_exact(w, h, image::imageops::FilterType::Lanczos3).to_rgba8();
    Some((rgba.width(), rgba.height(), rgba.into_raw()))
}

/// Calls `image::ImageFormat::from_path` and `image::load_from_memory_with_format` (the
/// format the path's extension names, as `image::open` takes it), then `DynamicImage::resize` with
/// `FilterType::Lanczos3` and `DynamicImage::to_rgba8`.  The result is taken to be
/// `spec_decode_rgba_fit`; `to_rgba8` allocates exactly four bytes per pixel.  The
/// size the image is scaled to is not stated (the crate rounds a float ratio).
#[verifier::external_body]
fn decode_rgba_fit(path: &str, data: &[u8], w: u32, h: u32) -> (r: Option<(u32, u32, Vec<u8>)>)
    requires
        w * h * 16 <= isize::MAX,
    ensures
        opt_pixels(r) == spec_decode_rgba_fit(path@, data@, w, h),
        r matches Some((a, b, p)) ==> p@.len() == 4 * a * b,
{
    let format = image::ImageFormat::from_path(path).ok()?;
    let img = image::load_from_memory_with_format(data, format).ok()?;
    let rgba = img.resize(w, h, image::imageops::FilterType::Lanczos3).to_rgba8();
    Some((rgba.width(), rgba.height(), rgba.into_raw()))
}

/// Calls `image::ImageFormat::from_path` and `image::load_from_memory_with_format` (the
/// format the path's extension names, as `image::open` takes it), then `DynamicImage::resize_exact` with
/// `FilterType::Lanczos3` and `DynamicImage::to_rgb8`.  The result is taken to be
/// `spec_decode_rgb_exact`; the image then is `w` x `h`, three bytes per pixel.
#[verifier::external_body]
fn decode_rgb_exact(path: &str, data: &[u8], w: u32, h: u32) -> (r: Option<(u32, u32, Vec<u8>)>)
    requires
        w * h * 16 <= isize::MAX,
    ensures
        opt_pixels(r) == spec_decode_rgb_exact(path@, data@, w, h),
        r matches Some((a, b, p)) ==> a == w && b == h && p@.len() == 3 * w * h,
{
    let format = image::ImageFormat::from_path(path).ok()?;
    let img = image::load_from_memory_with_format(data, format).ok()?;
    let rgb = img.resize_exact(w, h, image::imageops::FilterType::Lanczos3).to_rgb8();
    Some((rgb.width(), rgb.height(), rgb.into_raw()))
}

/// Calls `image::ImageFormat::from_path` and `image::load_from_memory_with_format` (the
/// format the path's extension names, as `image::open` takes it), then `DynamicImage::resize` with
/// `FilterType::Nearest` and `DynamicImage::to_rgb8`.  The result is taken to be
/// `spec_decode_rgb_fit_nearest`; `to_rgb8` allocates exactly three bytes per pixel.
#[verifier::external_body]
fn decode_rgb_fit_nearest(path: &str, data: &[u8], w: u32, h: u32) -> (r: Option<(u32, u32, Vec<u8>)>)
    requires
        w * h * 16 <= isize::MAX,
    ensures
        opt_pixels(r) == spec_decode_rgb_fit_nearest(path@, data@, w, h),
        r matches Some((a, b, p)) ==> p@.len() == 3 * a * b,
{
    let format = image::ImageFormat::from_path(path).ok()?;
    let img = image::load_from_memory_with_format(data, format).ok()?;
    let rgb = img.resize(w, h, image::imageops::FilterType::Nearest).to_rgb8();
    Some((rgb.width(), rgb.height(), rgb.into_raw()))
}

/// What became of an icon file's bytes.
pub enum Decoded {
    /// The path has no extension: the file is not drawn.
    Skipped,
    /// A vector image (`.svg`): the caller renders it.
    Vector,
    /// A raster image, decoded and scaled: width, height and pixel bytes.
    Pixels(u32, u32, Vec<u8>),
    /// A raster image that could not be decoded.
    Failed,
}

pub open spec fn decoded_view(d: Decoded) -> Option<Option<(u32, u32, Seq<u8>)>> {
    match d {
        Decoded::Skipped => None,
        Decoded::Vector => None,
        Decoded::Pixels(w, h, p) => Some(Some((w, h, p@))),
        Decoded::Failed => Some(None),
    }
}

/// How the file at `path`, whose bytes are `data`, is turned into pixels: no
/// extension, no image; an `.svg` (any case) is a vector image; anything else is
/// decoded as a raster image by `decode`.
pub open spec fn spec_decode_kind(path: Seq<char>) -> Option<bool> {
    match spec_extension(path) {
        Some(e) => Some(spec_to_lowercase(e) == "svg"@),
        None => None,
    }
}

/// The RGBA pixels of the icon file at `path` (bytes `data`), scaled to
/// `target_size` x `target_size`: raster images are decoded here; an `.svg` file is
/// reported as a vector image for the caller to render; a path without an extension
/// gives nothing.
pub fn load_image_raw_rgba(path: &str, data: &[u8], target_size: u32) -> (r: Decoded)
    requires
        target_size * target_size * 16 <= isize::MAX,
    ensures
        spec_decode_kind(path@) is None ==> r is Skipped,
        spec_decode_kind(path@) == Some(true) ==> r is Vector,
        spec_decode_kind(path@) == Some(false) ==> decoded_view(r) == Some(spec_decode_rgba_exact(path@, data@, target_size, target_size)),
        r matches Decoded::Pixels(w, h, p) ==> w == target_size && h == target_size && p@.len() == 4 * w * h,
{
    match is_svg_path(path) {
        None => Decoded::Skipped,
        Some(true) => Decoded::Vector,
        Some(false) => match decode_rgba_exact(path, data, target_size, target_size) {
            Some((w, h, p)) => Decoded::Pixels(w, h, p),
            None => Decoded::Failed,
        },
    }
}

/// The RGB pixels of the icon file at `path` (bytes `data`) for a terminal preview:
/// raster images are scaled to `target_size` pixels wide and `target_size / 2` high,
/// twice as many columns as rows, so that 16 gives a 16 x 8 grid; `.svg` files are
/// left to the caller; a path without an extension gives nothing.
pub fn load_image_pixels(path: &str, data: &[u8], target_size: u32) -> (r: Decoded)
    requires
        target_size * target_size * 8 <= isize::MAX,
    ensures
        spec_decode_kind(path@) is None ==> r is Skipped,
        spec_decode_kind(path@) == Some(true) ==> r is Vector,
        spec_decode_kind(path@) == Some(false) ==> decoded_view(r) == Some(spec_decode_rgb_exact(path@, data@, target_size, target_size / 2)),
        r matches Decoded::Pixels(w, h, p) ==> w == target_size && h == target_size / 2 && p@.len() == 3 * w * h,
{
    let half = target_size / 2;
    assert(target_size * half * 16 <= target_size * target_size * 8) by (nonlinear_arith)
        requires
            half == target_size / 2,
    ;
    match is_svg_path(path) {
        None => Decoded::Skipped,
        Some(true) => Decoded::Vector,
        Some(false) => match decode_rgb_exact(path, data, target_size, half) {
            Some((w, h, p)) => Decoded::Pixels(w, h, p),
            None => Decoded::Failed,
        },
    }
}

/// The RGBA pixels of an app's icon: nothing for an app without id or without an
/// icon file (`icon` is the file's path and bytes); otherwise the decoded image scaled
/// to fit `target_size` square, as `(pixels, width, height)`.
pub fn load_icon_rgba(app_id: &str, icon: Option<(&str, &[u8])>, target_size: u32) -> (r: Option<(Vec<u8>, u32, u32)>)
    requires
        target_size * target_size * 16 <= isize::MAX,
    ensures
        app_id@.len() == 0 ==> r is None,
        app_id@.len() > 0 ==> match icon {
            None => r is None,
            Some((path, d)) => match spec_decode_rgba_fit(path@, d@, target_size, target_size) {
                Some((w, h, p)) => r matches Some((q, a, b)) && q@ == p && a == w && b == h,
                None => r is None,
            },
        },
        r matches Some((q, a, b)) ==> q@.len() == 4 * a * b,
{
    if chars_of(app_id).len() == 0 {
        return None;
    }
    match icon {
        None => None,
        Some((path, d)) => match decode_rgba_fit(path, d, target_size, target_size) {
            Some((w, h, p)) => Some((p, w, h)),
            None => None,
        },
    }
}

/// The terminal preview of the image file at `path` (bytes `data`): scaled to fit
/// 32 x 16 pixels with the nearest-neighbour filter and drawn with half blocks; `None`
/// if the file is not an image of the format its extension names.
pub fn terminal_preview(path: &str, data: &[u8]) -> (r: Option<String>)
    ensures
        match spec_decode_rgb_fit_nearest(path@, data@, 32, 16) {
            Some((w, h, p)) => r matches Some(s) && s@ == spec_half_block_image(p, w as int, h as int),
            None => r is None,
        },
{
    match decode_rgb_fit_nearest(path, data, 32, 16) {
        Some((w, h, p)) => Some(half_block_image_string(w, h, &p)),
        None => None,
    }
}

/// What the window monitor shows as an app's icon in the terminal: a notice when no
/// icon file was found or its pixels could not be had, else the RGB pixels
/// (`width`, `height`, bytes) drawn with half blocks.
pub fn half_block_icon_string(found: bool, pixels: Option<(u32, u32, Vec<u8>)>) -> (r: String)
    requires
        pixels matches Some((w, h, p)) ==> p@.len() == 3 * w * h,
    ensures
        !found ==> r@ == "\u{1F4C1} [No Icon Found]"@,
        found ==> r@ == (match pixels {
            Some((w, h, p)) => spec_half_block_image(p@, w as int, h as int),
            None => "\u{1F4C1} [Rasterize Error]"@,
        }),
{
    if !found {
        return String::from_str("\u{1F4C1} [No Icon Found]");
    }
    match pixels {
        Some((w, h, p)) => half_block_image_string(w, h, &p),
        None => String::from_str("\u{1F4C1} [Rasterize Error]"),
    }
}

} // verus!
