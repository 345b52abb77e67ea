//! The shape check of `ndarray`, through which every raw buffer enters the
//! library. Nothing in this file is proved: its contracts restate what the
//! array crate does.

use vstd::prelude::*;

verus! {

/// The error with which `ndarray` refuses a shape. It is carried, never read.
#[verifier::external_type_specification]
#[verifier::external_body]
pub struct ExShapeError(ndarray::ShapeError);

/// An axis length as it counts towards the overflow check: empty axes are skipped.
pub open spec fn axis_or_one(n: int) -> int {
    if n == 0 {
        1
    } else {
        n
    }
}

/// A buffer of `len` elements can be viewed as `height` x `width` x `channels`:
/// the three lengths multiply to `len`, and the product of those that are not
/// zero does not exceed `isize::MAX`.
pub open spec fn shape_admits(height: int, width: int, channels: int, len: int) -> bool {
    &&& height * width * channels == len
    &&& axis_or_one(height) * axis_or_one(width) * axis_or_one(channels) <= isize::MAX
}

/// `ndarray::Array3::from_shape_vec` on the row-major shape
/// `(height, width, channels)`, followed by `ArrayBase::iter`.
///
/// The constructor succeeds exactly when the shape has as many elements as the
/// vector and the product of its non-zero axis lengths stays within
/// `isize::MAX`. The array then owns the vector in row-major order, and `iter`
/// visits it in that order, so the elements come back as they went in.
#[verifier::external_body]
pub(crate) fn into_shape(height: usize, width: usize, channels: usize, data: Vec<u8>) -> (out:
    Result<Vec<u8>, ndarray::ShapeError>)
    ensures
        out is Ok <==> shape_admits(
            height as int,
            width as int,
            channels as int,
            data@.len() as int,
        ),
        out matches Ok(v) ==> v@ == data@,
{
    let array = ndarray::Array3::from_shape_vec((height, width, channels), data)?;
    Ok(array.iter().copied().collect())
}

} // verus!
