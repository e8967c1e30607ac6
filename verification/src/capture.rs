use vstd::prelude::*;

use crate::clock::{hms_dashed_text, LocalTime};
use crate::storage::{join_path, path_join};
use crate::text::{push_str, string_from_chars};

verus! {

/// Where a capture went: the thumbnail's path relative to the day folder, and its full path.
#[derive(Debug, Clone)]
pub struct CaptureResult {
    pub thumb_relative_path: String,
    pub image_path: String,
}

/// Takes the screenshots and turns them into thumbnails.
pub struct CaptureService;

/// The widest a thumbnail may be, in pixels.
pub const MAX_THUMB_WIDTH: u32 = 1280;

/// The thumbnail path of a capture taken at `now`: `thumbs/HH-MM-SS.jpg`.
pub open spec fn thumb_path_text(now: LocalTime) -> Seq<char> {
    "thumbs/"@ + hms_dashed_text(now) + ".jpg"@
}

/// The size of the thumbnail of a `width` by `height` screenshot: the screenshot's own size
/// when it is at most `MAX_THUMB_WIDTH` wide, else `MAX_THUMB_WIDTH` wide with the height
/// scaled by the same factor, rounded to the nearest pixel and at least one.
pub open spec fn thumbnail_size(width: u32, height: u32) -> (u32, u32) {
    if width <= MAX_THUMB_WIDTH {
        (width, height)
    } else {
        let h = (height as int * MAX_THUMB_WIDTH as int + width as int / 2) / width as int;
        (MAX_THUMB_WIDTH, if h < 1 { 1u32 } else { h as u32 })
    }
}

/// The RGB pixels (three bytes each, row by row) of a `width` by `height` image scaled to
/// `new_width` by `new_height` with the image crate's triangle filter.
pub uninterp spec fn resized_rgb(
    pixels: Seq<u8>,
    width: u32,
    height: u32,
    new_width: u32,
    new_height: u32,
) -> Seq<u8>;

/// `image::imageops::resize` with `FilterType::Triangle` on an RGB image buffer made from
/// the pixels by `ImageBuffer::from_raw`, which accepts them since they fill the image
/// exactly. The scaled pixels are named, not stated; the new buffer holds three bytes for
/// each of its pixels.
#[verifier::external_body]
fn resize_rgb(pixels: Vec<u8>, width: u32, height: u32, new_width: u32, new_height: u32) -> (r: Vec<
    u8,
>)
    requires
        pixels.len() == width * height * 3,
        new_width * new_height * 3 <= usize::MAX,
    ensures
        r@ == resized_rgb(pixels@, width, height, new_width, new_height),
        r.len() == new_width * new_height * 3,
{
    let image = image::ImageBuffer::<image::Rgb<u8>, Vec<u8>>::from_raw(width, height, pixels).unwrap();
    image::imageops::resize(&image, new_width, new_height, image::imageops::FilterType::Triangle).into_raw()
}

impl CaptureService {
    /// Where the capture taken at `now` goes, under the day folder `day_dir`.
    pub fn plan(day_dir: &str, now: LocalTime) -> (result: CaptureResult)
        requires
            now.wf(),
        ensures
            result.thumb_relative_path@ == thumb_path_text(now),
            result.image_path@ == path_join(day_dir@, thumb_path_text(now)),
    {
        let mut out: Vec<char> = Vec::new();
        push_str(&mut out, "thumbs/");
        push_str(&mut out, now.hms_dashed().as_str());
        push_str(&mut out, ".jpg");
        let thumb = string_from_chars(out.as_slice());
        let image_path = join_path(day_dir, thumb.as_str());
        CaptureResult { thumb_relative_path: thumb, image_path }
    }

    /// The size of the thumbnail of a `width` by `height` screenshot.
    pub fn thumbnail_dimensions(width: u32, height: u32) -> (size: (u32, u32))
        ensures
            size == thumbnail_size(width, height),
            size.0 <= MAX_THUMB_WIDTH,
            width <= MAX_THUMB_WIDTH ==> size == (width, height),
            size.1 <= height || size.1 == 1,
            width > MAX_THUMB_WIDTH ==> {
                let target = height as int * MAX_THUMB_WIDTH as int;
                ||| target - width as int / 2 <= size.1 as int * width as int <= target + width as int
                    / 2
                ||| size.1 == 1 && target + width as int / 2 < width as int
            },
    {
        if width <= MAX_THUMB_WIDTH {
            return (width, height);
        }
        let scaled: u64 = (height as u64 * 1280 + width as u64 / 2) / width as u64;
        proof {
            let w = width as int;
            let target = height as int * 1280;
            let n = target + w / 2;
            let q = scaled as int;
            assert(q == n / w);
            assert(q * w <= n && n < q * w + w) by (nonlinear_arith)
                requires
                    w > 0,
                    q == n / w,
                    n >= 0,
            ;
            assert(w / 2 * 2 <= w && w <= w / 2 * 2 + 1);
            assert(q * w >= target - w / 2);
            if q == 0 {
                assert(n < w) by (nonlinear_arith)
                    requires
                        q == 0,
                        n < q * w + w,
                ;
            }
            assert(q <= height as int) by (nonlinear_arith)
                requires
                    w > 1280,
                    q * w <= n,
                    n == height as int * 1280 + w / 2,
                    height >= 0,
                    q >= 0,
            ;
        }
        let h: u32 = if scaled < 1 { 1 } else { scaled as u32 };
        (MAX_THUMB_WIDTH, h)
    }

    /// The thumbnail of a screenshot given as RGB pixels, three bytes each, row by row: the
    /// pixels unchanged when the screenshot is at most `MAX_THUMB_WIDTH` wide, else scaled to
    /// `thumbnail_size`. Gives the pixels with their width and height.
    pub fn thumbnail_pixels(pixels: Vec<u8>, width: u32, height: u32) -> (thumb: (Vec<u8>, u32, u32))
        requires
            pixels.len() == width * height * 3,
        ensures
            (thumb.1, thumb.2) == thumbnail_size(width, height),
            thumb.1 <= MAX_THUMB_WIDTH,
            width <= MAX_THUMB_WIDTH ==> thumb.0@ == pixels@,
            width > MAX_THUMB_WIDTH ==> thumb.0@ == resized_rgb(pixels@, width, height, thumb.1, thumb.2),
            thumb.0.len() == thumb.1 * thumb.2 * 3,
    {
        let (w, h) = Self::thumbnail_dimensions(width, height);
        if width <= MAX_THUMB_WIDTH {
            return (pixels, w, h);
        }
        proof {
            if h <= height {
                assert(w as int * h as int <= width as int * height as int) by (nonlinear_arith)
                    requires
                        w <= width,
                        h <= height,
                ;
            }
            assert(w * h * 3 <= usize::MAX);
        }
        let resized = resize_rgb(pixels, width, height, w, h);
        (resized, w, h)
    }
}

} // verus!
