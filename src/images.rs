//! Fitting an image into the fixed thumbnail frame: the size to scale it to so
//! that it covers the frame, and where to crop it.
use vstd::prelude::*;

verus! {

/// The width at which thumbnails are stored.
pub const THUMBNAIL_WIDTH: u32 = 300;

/// The height at which thumbnails are stored.
pub const THUMBNAIL_HEIGHT: u32 = 169;

/// The scaled size and crop offset that make a `width` x `height` image cover a
/// `target_width` x `target_height` frame: scaled to the frame's width where
/// that covers its height (cropped evenly top and bottom), else to its height.
pub open spec fn scaled_fit(width: int, height: int, target_width: int, target_height: int) -> (
    int,
    int,
    int,
    int,
) {
    let full_width_height = target_width * height / width;
    if full_width_height >= target_height {
        (target_width, full_width_height, 0, (full_width_height - target_height) / 2)
    } else {
        (target_height * width / height, target_height, 0, 0)
    }
}

pub fn scaled_width_and_height(width: u32, height: u32, target_width: u32, target_height: u32) -> (r: (
    u32,
    u32,
    u32,
    u32,
))
    requires
        width > 0,
        height > 0,
        target_width * height <= u32::MAX,
        target_height * width <= u32::MAX,
    ensures
        (r.0 as int, r.1 as int, r.2 as int, r.3 as int) == scaled_fit(
            width as int,
            height as int,
            target_width as int,
            target_height as int,
        ),
{
    let product = target_width * height;
    let width_left_full: (u32, u32) = (target_width, product / width);
    let height_left_full: (u32, u32) = ((target_height * width) / height, target_height);
    if width_left_full.1 >= target_height {
        (width_left_full.0, width_left_full.1, 0, (width_left_full.1 - target_height) / 2)
    } else {
        (height_left_full.0, height_left_full.1, (width_left_full.0 - target_width) / 2, 0)
    }
}

} // verus!
