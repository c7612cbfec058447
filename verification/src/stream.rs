use vstd::prelude::*;

use std::time::Duration;

use crate::convert::{pool_after, row_byte};
use crate::frame::{PixelFormat, VideoFrame};
use crate::pool::FramePool;

verus! {

/// The row pitch of a stream buffer: the size of its signed stride, or four
/// bytes per pixel where it gives none.
pub open spec fn stream_stride(width: u32, signed_stride: i32) -> int {
    if signed_stride == 0 {
        width * 4
    } else if signed_stride < 0 {
        -signed_stride
    } else {
        signed_stride as int
    }
}

/// The buffer row that becomes frame row `row`: a negative stride stores the
/// picture bottom-up.
pub open spec fn stream_source_row(signed_stride: i32, height: u32, row: int) -> int {
    if signed_stride < 0 {
        height - 1 - row
    } else {
        row
    }
}

/// `frame` holds the `height` rows of the stream buffer `source` that start at
/// `offset`, top-down, each of the buffer's row pitch.
pub open spec fn is_stream_copy(
    source: Seq<u8>,
    offset: int,
    signed_stride: i32,
    width: u32,
    height: u32,
    format: PixelFormat,
    timestamp: Duration,
    frame: VideoFrame,
) -> bool {
    let stride = stream_stride(width, signed_stride);
    &&& frame.format == format
    &&& frame.width == width
    &&& frame.height == height
    &&& frame.stride == stride
    &&& frame.timestamp == timestamp
    &&& frame.data@.len() == stride * height
    &&& forall|row: int, k: int|
        0 <= row < height && 0 <= k < stride ==> #[trigger] row_byte(frame.data@, stride, row, k)
            == source[offset + stride * stream_source_row(signed_stride, height, row) + k]
}

/// A stream frame keeps the buffer's row pitch: the size of a non-zero signed
/// stride, four bytes per pixel only where the buffer gives none. Frame row `row`
/// is the buffer row starting `row` pitches after `offset`, or, for a negative
/// stride (a bottom-up buffer), the one `height - 1 - row` pitches after it.
pub proof fn stream_frame_keeps_buffer_pitch(
    source: Seq<u8>,
    offset: int,
    signed_stride: i32,
    width: u32,
    height: u32,
    format: PixelFormat,
    timestamp: Duration,
    frame: VideoFrame,
    row: int,
    k: int,
)
    requires
        is_stream_copy(source, offset, signed_stride, width, height, format, timestamp, frame),
    ensures
        signed_stride > 0 ==> frame.stride == signed_stride,
        signed_stride < 0 ==> frame.stride == -signed_stride,
        signed_stride == 0 ==> frame.stride == width * 4,
        frame.data@.len() == frame.stride * height,
        0 <= row < height && 0 <= k < frame.stride && signed_stride >= 0 ==> frame.data@[frame.stride * row + k]
            == source[offset + frame.stride * row + k],
        0 <= row < height && 0 <= k < frame.stride && signed_stride < 0 ==> frame.data@[frame.stride * row + k]
            == source[offset + frame.stride * (height - 1 - row) + k],
{
    if 0 <= row < height && 0 <= k < frame.stride {
        assert(row_byte(frame.data@, frame.stride as int, row, k) == source[offset + frame.stride
            * stream_source_row(signed_stride, height, row) + k]);
    }
}

/// Copies one buffer of a screen-capture stream into a frame with rows top-down.
/// Gives nothing when the rows, from `offset` on, do not fit in `source`.
#[verifier::loop_isolation(false)]
pub fn copy_stream_frame(
    source: &[u8],
    offset: usize,
    signed_stride: i32,
    width: u32,
    height: u32,
    format: PixelFormat,
    timestamp: Duration,
    pool: &mut FramePool,
) -> (frame: Option<VideoFrame>)
    requires
        old(pool).wf(),
        width * 4 <= usize::MAX,
        source@.len() <= isize::MAX,
    ensures
        pool_after(*old(pool), *final(pool), frame is Some),
        frame is Some <==> offset + stream_stride(width, signed_stride) * height <= source@.len(),
        frame matches Some(frame) ==> is_stream_copy(
            source@,
            offset as int,
            signed_stride,
            width,
            height,
            format,
            timestamp,
            frame,
        ),
{
    let stride: usize = if signed_stride == 0 {
        width as usize * 4
    } else if signed_stride < 0 {
        (-(signed_stride as i64)) as usize
    } else {
        signed_stride as usize
    };
    let rows: usize = height as usize;
    let required: usize = match stride.checked_mul(rows) {
        Some(required) => required,
        None => usize::MAX,
    };
    let fits: bool = match offset.checked_add(required) {
        Some(end) => end <= source.len(),
        None => false,
    };
    if !fits {
        return None;
    }
    let mut destination = pool.acquire(required);
    let mut row: usize = 0;
    while row < rows
        invariant
            row <= rows,
            destination@.len() == stride * rows,
            forall|r: int, k: int|
                0 <= r < row && 0 <= k < stride ==> #[trigger] row_byte(destination@, stride as int, r, k)
                    == source@[offset + stride * stream_source_row(signed_stride, height, r) + k],
        decreases rows - row,
    {
        let source_row: usize = if signed_stride < 0 {
            rows - 1 - row
        } else {
            row
        };
        proof {
            lemma_row_bounds(stride as int, source_row as int, rows as int);
            lemma_row_bounds(stride as int, row as int, rows as int);
        }
        let source_start: usize = offset + stride * source_row;
        let destination_start: usize = stride * row;
        let mut k: usize = 0;
        while k < stride
            invariant
                k <= stride,
                destination@.len() == stride * rows,
                forall|r: int, kk: int|
                    0 <= r < row && 0 <= kk < stride ==> #[trigger] row_byte(destination@, stride as int, r, kk)
                        == source@[offset + stride * stream_source_row(signed_stride, height, r) + kk],
                forall|kk: int|
                    0 <= kk < k ==> #[trigger] row_byte(destination@, stride as int, row as int, kk)
                        == source@[offset + stride * stream_source_row(signed_stride, height, row as int)
                        + kk],
            decreases stride - k,
        {
            let ghost before = destination@;
            destination.set(destination_start + k, source[source_start + k]);
            proof {
                assert forall|r: int, kk: int|
                    0 <= r < row && 0 <= kk < stride implies #[trigger] row_byte(destination@, stride as int, r, kk)
                        == source@[offset + stride * stream_source_row(signed_stride, height, r) + kk] by {
                    lemma_earlier(stride as int, r, kk, row as int, k as int);
                    assert(row_byte(before, stride as int, r, kk) == row_byte(destination@, stride as int, r, kk));
                }
                assert forall|kk: int| 0 <= kk < k + 1 implies #[trigger] row_byte(
                    destination@,
                    stride as int,
                    row as int,
                    kk,
                ) == source@[offset + stride * stream_source_row(signed_stride, height, row as int) + kk] by {
                    if kk < k {
                        assert(row_byte(before, stride as int, row as int, kk) == row_byte(
                            destination@,
                            stride as int,
                            row as int,
                            kk,
                        ));
                    }
                }
            }
            k += 1;
        }
        row += 1;
    }
    Some(VideoFrame { data: destination, format, width, height, stride, timestamp })
}

/// Row `row < h` of `pitch` bytes lies inside `h` rows.
proof fn lemma_row_bounds(pitch: int, row: int, h: int)
    by (nonlinear_arith)
    requires
        0 <= pitch,
        0 <= row < h,
    ensures
        0 <= pitch * row,
        pitch * row + pitch <= pitch * h,
{
}

/// A byte of an earlier row lies before every byte of a later row.
proof fn lemma_earlier(pitch: int, r: int, k: int, row: int, col: int)
    by (nonlinear_arith)
    requires
        0 <= r < row,
        0 <= k < pitch,
        0 <= col,
    ensures
        pitch * r + k < pitch * row + col,
{
}

} // verus!
