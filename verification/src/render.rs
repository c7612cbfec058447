use vstd::prelude::*;

use std::borrow::Cow;

use crate::convert::{ConvertError, conversion_result, row_byte};
use crate::frame::{PixelFormat, VideoFrame};

verus! {

/// The error type of the image decoder.
#[verifier::external_type_specification]
#[verifier::external_body]
pub struct ExImageError(image::ImageError);

/// Width and height of the canvas or of a layer's pixels.
#[derive(Debug, Clone, Copy, PartialEq, Eq, Structural)]
pub struct CanvasSize {
    pub width: u32,
    pub height: u32,
}

/// Why the compositor refused a request.
#[derive(Debug)]
pub enum RenderError {
    InvalidCanvasSize { width: u32, height: u32 },
    Image(image::ImageError),
    LayerNotFound(usize),
    InvalidFrame,
}

impl CanvasSize {
    /// The 1920 by 1080 canvas.
    pub fn full_hd() -> (size: Self)
        ensures
            size.width == 1920,
            size.height == 1080,
    {
        CanvasSize { width: 1920, height: 1080 }
    }

    /// A canvas of `width` by `height`, or the 1920 by 1080 canvas where either is zero.
    pub fn or_full_hd(width: u32, height: u32) -> (size: Self)
        ensures
            width != 0 && height != 0 ==> size.width == width && size.height == height,
            width == 0 || height == 0 ==> size.width == 1920 && size.height == 1080,
    {
        match Self::new(width, height) {
            Ok(size) => size,
            Err(_) => Self::full_hd(),
        }
    }

    /// A canvas of `width` by `height`; both must be non-zero.
    pub fn new(width: u32, height: u32) -> (result: Result<Self, RenderError>)
        ensures
            (width == 0 || height == 0) <==> result is Err,
            result matches Err(error) ==> error == (RenderError::InvalidCanvasSize { width, height }),
            result matches Ok(size) ==> size.width == width && size.height == height,
    {
        if width == 0 || height == 0 {
            return Err(RenderError::InvalidCanvasSize { width, height });
        }
        Ok(Self { width, height })
    }
}

/// A frame of `height` rows, `stride` bytes apart, that `packed_rgba` accepts.
pub open spec fn rgba_frame_valid(width: u32, height: u32, len: nat, stride: usize) -> bool {
    &&& width != 0
    &&& height != 0
    &&& stride >= width * 4
    &&& len >= stride * height
}

/// `packed` holds the `width * 4` visible bytes of each of `height` rows of `rgba`,
/// whose rows start `stride` bytes apart, one after another.
pub open spec fn is_packed_rgba(packed: Seq<u8>, width: u32, height: u32, rgba: Seq<u8>, stride: usize) -> bool {
    let row_len = width * 4;
    &&& packed.len() == row_len * height
    &&& forall|row: int, k: int|
        0 <= row < height && 0 <= k < row_len ==> #[trigger] row_byte(packed, row_len, row, k)
            == row_byte(rgba, stride as int, row, k)
}

/// The rows of an RGBA frame without their padding; rows that are already tightly
/// packed are borrowed, others are copied.
#[verifier::loop_isolation(false)]
pub fn packed_rgba<'a>(width: u32, height: u32, rgba: &'a [u8], stride: usize) -> (result: Result<
    Cow<'a, [u8]>,
    RenderError,
>)
    requires
        width * 4 <= usize::MAX,
        rgba@.len() <= isize::MAX,
    ensures
        rgba_frame_valid(width, height, rgba@.len(), stride) <==> result is Ok,
        result matches Err(error) ==> error == RenderError::InvalidFrame,
        result matches Ok(packed) ==> {
            &&& is_packed_rgba(packed@, width, height, rgba@, stride)
            &&& (packed matches Cow::Borrowed(_)) <==> stride == width * 4
        },
{
    let row_len: usize = width as usize * 4;
    let height_rows: usize = height as usize;
    let required: usize = match stride.checked_mul(height_rows) {
        Some(required) => required,
        None => usize::MAX,
    };
    let len: usize = rgba.len();
    if width == 0 || height == 0 || stride < row_len || len < required {
        return Err(RenderError::InvalidFrame);
    }
    proof {
        let (r, h, st) = (row_len as int, height as int, stride as int);
        assert(r * h <= st * h) by (nonlinear_arith)
            requires
                0 <= h,
                r <= st,
        ;
    }
    if stride == row_len {
        let packed = &rgba[0..row_len * height_rows];
        proof {
            assert forall|row: int, k: int|
                0 <= row < height && 0 <= k < row_len implies #[trigger] row_byte(packed@, row_len as int, row, k)
                    == row_byte(rgba@, stride as int, row, k) by {
                lemma_row_inside(row_len as int, row, k, height as int);
            }
        }
        return Ok(Cow::Borrowed(packed));
    }
    let mut packed: Vec<u8> = Vec::with_capacity(row_len * height_rows);
    let mut row: usize = 0;
    while row < height_rows
        invariant
            row <= height_rows,
            height_rows == height,
            row_len == width * 4,
            row_len < stride,
            stride * height_rows <= rgba@.len(),
            packed@.len() == row_len * row,
            forall|r: int, k: int|
                0 <= r < row && 0 <= k < row_len ==> #[trigger] row_byte(packed@, row_len as int, r, k)
                    == row_byte(rgba@, stride as int, r, k),
        decreases height_rows - row,
    {
        proof {
            lemma_row_inside(stride as int, row as int, 0, height_rows as int);
            lemma_mul_le(stride as int, row + 1, height_rows as int);
            lemma_mul_le(row_len as int, row + 1, height_rows as int);
            lemma_next_row_start(stride as int, row as int);
            lemma_next_row_start(row_len as int, row as int);
        }
        let start: usize = stride * row;
        let ghost before = packed@;
        packed.extend_from_slice(&rgba[start..start + row_len]);
        proof {
            assert forall|r: int, k: int|
                0 <= r < row + 1 && 0 <= k < row_len implies #[trigger] row_byte(packed@, row_len as int, r, k)
                    == row_byte(rgba@, stride as int, r, k) by {
                if r < row {
                    lemma_row_inside(row_len as int, r, k, row as int);
                    assert(row_byte(before, row_len as int, r, k) == row_byte(rgba@, stride as int, r, k));
                } else {
                    assert(packed@[row_len * row + k] == rgba@[start + k]);
                }
            }
        }
        row += 1;
    }
    Ok(Cow::Owned(packed))
}

/// A frame that `convert` produced as RGBA is tightly packed, so the compositor
/// uploads its bytes as they are: `packed_rgba` accepts it whole.
pub proof fn converted_frames_upload_unchanged(frame: VideoFrame, out: VideoFrame)
    requires
        conversion_result(frame, PixelFormat::Rgba, Ok::<VideoFrame, ConvertError>(out)),
        frame.width > 0,
        frame.height > 0,
    ensures
        rgba_frame_valid(out.width, out.height, out.data@.len(), out.stride),
        is_packed_rgba(out.data@, out.width, out.height, out.data@, out.stride),
{
}

/// Takes layer `index` out of the compositor's layer list.
pub fn remove_layer<T>(layers: &mut Vec<T>, index: usize) -> (result: Result<(), RenderError>)
    ensures
        index < old(layers)@.len() ==> result is Ok && final(layers)@ == old(layers)@.remove(index as int),
        index >= old(layers)@.len() ==> final(layers)@ == old(layers)@ && (result matches Err(error)
            && error == RenderError::LayerNotFound(index)),
{
    if index >= layers.len() {
        return Err(RenderError::LayerNotFound(index));
    }
    layers.remove(index);
    Ok(())
}

/// `a * b <= a * c` for `b <= c`.
proof fn lemma_mul_le(a: int, b: int, c: int)
    by (nonlinear_arith)
    requires
        0 <= a,
        b <= c,
    ensures
        a * b <= a * c,
{
}

/// A byte of row `row < h` lies inside `h` rows.
proof fn lemma_row_inside(pitch: int, row: int, k: int, h: int)
    by (nonlinear_arith)
    requires
        0 <= row < h,
        0 <= k < pitch,
    ensures
        0 <= pitch * row + k < pitch * h,
        pitch * row + pitch <= pitch * h,
{
}

/// The next row starts one pitch after this one.
proof fn lemma_next_row_start(pitch: int, row: int)
    by (nonlinear_arith)
    ensures
        pitch * (row + 1) == pitch * row + pitch,
{
}

} // verus!
