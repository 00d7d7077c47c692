//! What the tagger's model asks of its input: a square image of the side the
//! model declares, padded with white.

use vstd::prelude::*;
use crate::padding::{centred_origin, square_side, Padding};
use crate::pixels::{is_placed, RgbImage};

verus! {

/// The colour of the padding.
pub const WHITE: [u8; 3] = [255, 255, 255];

/// The side of the square input that a model with the declared input shape
/// (batch, height, width, channels) expects: the second dimension. A shape
/// with fewer than two dimensions, or whose second dimension is not a positive
/// number that fits 32 bits, declares none.
pub open spec fn declared_side(shape: Seq<i64>) -> Option<u32> {
    if shape.len() >= 2 && 0 < shape[1] <= u32::MAX {
        Some(shape[1] as u32)
    } else {
        None
    }
}

/// Reads the side of the model's square input from its declared input shape.
pub fn target_size(shape: &[i64]) -> (side: Option<u32>)
    ensures
        side == declared_side(shape@),
{
    if shape.len() < 2 {
        return None;
    }
    let height: i64 = shape[1];
    if 0 < height && height <= 0xffff_ffff {
        Some(height as u32)
    } else {
        None
    }
}

/// Turns a decoded image into the model's input: padded with white to the
/// square of its longer side, centred, then resampled to `target_size` where
/// the square has another side. The bytes of the result are the input tensor
/// in height, width, channel order.
pub fn preprocess(image: RgbImage, target_size: u32) -> (tensor: RgbImage)
    requires
        square_side(image.width(), image.height()) != target_size ==> {
            &&& square_side(image.width(), image.height()) * target_size * 16 <= isize::MAX
            &&& target_size * target_size * 3 <= isize::MAX
        },
    ensures
        tensor.width() == target_size,
        tensor.height() == target_size,
        tensor.raw().len() == target_size * target_size * 3,
        square_side(image.width(), image.height()) == target_size ==> is_placed(
            tensor,
            image,
            (target_size as nat, target_size as nat),
            centred_origin(image.width(), image.height()),
            WHITE,
        ),
{
    let (padded, _) = image.padding_square(WHITE);
    let (side, _) = padded.dimensions();
    if side == target_size {
        padded
    } else {
        padded.resize_lanczos3(target_size, target_size)
    }
}

} // verus!
