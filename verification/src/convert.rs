use vstd::prelude::*;

use crate::frame::{FrameBuffer, PixelFormat, VideoFrame, spec_packed_len};
use crate::pool::FramePool;

verus! {

broadcast use FrameBuffer::lemma_len_fits;

/// Why a frame could not be converted.
#[derive(Debug, PartialEq, Eq, Structural)]
pub enum ConvertError {
    Unsupported { from: PixelFormat, to: PixelFormat },
    Truncated,
}

// ---------------------------------------------------------------------------
// The model of frame contents.
// ---------------------------------------------------------------------------

/// Bytes per pixel of the packed layouts; 0 for the planar and compressed ones.
pub open spec fn bytes_per_pixel(format: PixelFormat) -> int {
    match format {
        PixelFormat::Rgba | PixelFormat::Bgra | PixelFormat::Rgbx | PixelFormat::Bgrx => 4,
        PixelFormat::Yuyv => 2,
        PixelFormat::Nv12 | PixelFormat::Mjpeg => 0,
    }
}

/// Byte `k` of row `row` of a buffer whose rows start `pitch` bytes apart.
pub open spec fn row_byte(bytes: Seq<u8>, pitch: int, row: int, k: int) -> u8 {
    bytes[pitch * row + k]
}

/// Byte `k` of row `row` of a frame.
pub open spec fn frame_byte(frame: VideoFrame, row: int, k: int) -> u8 {
    row_byte(frame.data@, frame.stride as int, row, k)
}

/// Byte `c` of the four-byte group `px` of row `row` of a frame.
pub open spec fn pixel_byte(frame: VideoFrame, row: int, px: int, c: int) -> u8 {
    frame.data@[frame.stride * row + 4 * px + c]
}

/// Every row of the frame holds at least `row_bytes` bytes inside its data.
pub open spec fn rows_fit(frame: VideoFrame, row_bytes: int) -> bool {
    frame.height == 0 || frame.stride * (frame.height - 1) + row_bytes <= frame.data@.len()
}

pub open spec fn is_swap_route(from: PixelFormat, to: PixelFormat) -> bool {
    (from == PixelFormat::Bgra || from == PixelFormat::Bgrx) && to == PixelFormat::Rgba
}

pub open spec fn is_opaque_route(from: PixelFormat, to: PixelFormat) -> bool {
    from == PixelFormat::Rgbx && to == PixelFormat::Rgba
}

pub open spec fn is_yuyv_route(from: PixelFormat, to: PixelFormat) -> bool {
    from == PixelFormat::Yuyv && to == PixelFormat::Rgba
}

/// Conversions that `convert` performs.
pub open spec fn conversion_defined(from: PixelFormat, to: PixelFormat) -> bool {
    ||| from == to && bytes_per_pixel(to) > 0
    ||| is_swap_route(from, to)
    ||| is_opaque_route(from, to)
    ||| is_yuyv_route(from, to)
}

/// How many bytes of each source row a conversion reads.
pub open spec fn source_row_bytes(frame: VideoFrame, to: PixelFormat) -> int {
    if frame.format == to {
        frame.width * bytes_per_pixel(to)
    } else if is_yuyv_route(frame.format, to) {
        frame.width * 2
    } else {
        frame.width * 4
    }
}

/// Bytes per output pixel of a conversion.
pub open spec fn output_bytes_per_pixel(frame: VideoFrame, to: PixelFormat) -> int {
    if frame.format == to {
        bytes_per_pixel(to)
    } else {
        4
    }
}

/// The output of a conversion of `frame` to `to` fits in `usize`.
pub open spec fn output_fits(frame: VideoFrame, to: PixelFormat) -> bool {
    let row_out = frame.width * output_bytes_per_pixel(frame, to);
    &&& row_out <= usize::MAX
    &&& row_out * frame.height <= usize::MAX
}

/// A conversion of `frame` whose source rows lie inside its data and whose output
/// size fits in `usize`.
pub open spec fn convert_fits(frame: VideoFrame, to: PixelFormat) -> bool {
    rows_fit(frame, source_row_bytes(frame, to)) && output_fits(frame, to)
}

/// The inputs on which `convert` runs to the end: those that it rejects, and the
/// others whose output fits in memory.
pub open spec fn convert_accepts(frame: VideoFrame, to: PixelFormat) -> bool {
    frame.data@.len() >= spec_packed_len(frame.stride, frame.height) && conversion_defined(
        frame.format,
        to,
    ) && rows_fit(frame, source_row_bytes(frame, to)) ==> output_fits(frame, to)
}

/// `out` describes the same picture as `frame`, in `format`, with rows `stride` apart.
pub open spec fn same_picture(out: VideoFrame, frame: VideoFrame, format: PixelFormat, stride: int) -> bool {
    &&& out.format == format
    &&& out.width == frame.width
    &&& out.height == frame.height
    &&& out.stride == stride
    &&& out.timestamp == frame.timestamp
}

/// `out` holds the visible bytes of each row of `frame`, without row padding.
pub open spec fn is_packed_copy(frame: VideoFrame, out: VideoFrame) -> bool {
    let row_len = frame.width * bytes_per_pixel(frame.format);
    &&& same_picture(out, frame, frame.format, row_len)
    &&& out.data@.len() == row_len * frame.height
    &&& forall|row: int, k: int|
        0 <= row < frame.height && 0 <= k < row_len ==> #[trigger] frame_byte(out, row, k)
            == frame_byte(frame, row, k)
}

/// The RGBA channel `c` that a four-byte source pixel gives; with `swap` the source
/// is blue-green-red, else red-green-blue. Alpha is opaque.
pub open spec fn reordered_channel(frame: VideoFrame, row: int, px: int, c: int, swap: bool) -> u8 {
    if c == 3 {
        255
    } else if swap {
        pixel_byte(frame, row, px, 2 - c)
    } else {
        pixel_byte(frame, row, px, c)
    }
}

/// `out` is the tightly packed opaque RGBA image of the four-byte frame `frame`.
pub open spec fn is_reordered(frame: VideoFrame, out: VideoFrame, swap: bool) -> bool {
    &&& same_picture(out, frame, PixelFormat::Rgba, frame.width * 4)
    &&& out.data@.len() == frame.width * 4 * frame.height
    &&& forall|row: int, px: int, c: int|
        0 <= row < frame.height && 0 <= px < frame.width && 0 <= c < 4 ==> #[trigger] pixel_byte(
            out,
            row,
            px,
            c,
        ) == reordered_channel(frame, row, px, c, swap)
}

/// Limits `x` to the byte range.
pub open spec fn clamp_byte(x: int) -> u8 {
    if x < 0 {
        0
    } else if x > 255 {
        255
    } else {
        x as u8
    }
}

/// BT.601 studio-range YUV to RGB in fixed point; channel 3 is an opaque alpha.
pub open spec fn yuv_channel(y: u8, u: u8, v: u8, c: int) -> u8 {
    let cy = y - 16;
    let d = u - 128;
    let e = v - 128;
    if c == 0 {
        clamp_byte((298 * cy + 409 * e + 128) / 256)
    } else if c == 1 {
        clamp_byte((298 * cy - 100 * d - 208 * e + 128) / 256)
    } else if c == 2 {
        clamp_byte((298 * cy + 516 * d + 128) / 256)
    } else {
        255
    }
}

/// Channel `c` of output pixel `px` of a YUYV row: each four source bytes
/// Y0 U Y1 V give two pixels; a last pixel without a partner stays zero.
pub open spec fn yuyv_channel(frame: VideoFrame, row: int, px: int, c: int) -> u8 {
    if px < 2 * (frame.width / 2) {
        let pair = px / 2;
        let y = if px % 2 == 0 {
            pixel_byte(frame, row, pair, 0)
        } else {
            pixel_byte(frame, row, pair, 2)
        };
        yuv_channel(y, pixel_byte(frame, row, pair, 1), pixel_byte(frame, row, pair, 3), c)
    } else {
        0
    }
}

/// `out` is the tightly packed RGBA image of the YUYV frame `frame`.
pub open spec fn is_yuyv_decoded(frame: VideoFrame, out: VideoFrame) -> bool {
    &&& same_picture(out, frame, PixelFormat::Rgba, frame.width * 4)
    &&& out.data@.len() == frame.width * 4 * frame.height
    &&& forall|row: int, px: int, c: int|
        0 <= row < frame.height && 0 <= px < frame.width && 0 <= c < 4 ==> #[trigger] pixel_byte(
            out,
            row,
            px,
            c,
        ) == yuyv_channel(frame, row, px, c)
}

/// What `convert` gives for `frame` and `to`, when the frame is long enough for
/// `stride * height`: `Unsupported` for a pair without a conversion, `Truncated`
/// where the rows it reads run past the data, else the converted frame.
pub open spec fn conversion_result(
    frame: VideoFrame,
    to: PixelFormat,
    result: Result<VideoFrame, ConvertError>,
) -> bool {
    if !conversion_defined(frame.format, to) {
        result == Err::<VideoFrame, ConvertError>(
            ConvertError::Unsupported { from: frame.format, to },
        )
    } else if !rows_fit(frame, source_row_bytes(frame, to)) {
        result == Err::<VideoFrame, ConvertError>(ConvertError::Truncated)
    } else if frame.format == to {
        result matches Ok(out) && is_packed_copy(frame, out)
    } else if is_swap_route(frame.format, to) {
        result matches Ok(out) && is_reordered(frame, out, true)
    } else if is_opaque_route(frame.format, to) {
        result matches Ok(out) && is_reordered(frame, out, false)
    } else {
        result matches Ok(out) && is_yuyv_decoded(frame, out)
    }
}

/// Converts `frame` to the pixel format `to`, cutting the output from `pool`.
///
/// A frame whose data is shorter than `stride * height` is `Truncated`; a format
/// pair without a conversion is `Unsupported`; a frame whose rows run past its
/// data is `Truncated` too. Converting to the frame's own
/// packed format copies it without row padding.
pub fn convert(frame: &VideoFrame, to: PixelFormat, pool: &mut FramePool) -> (result: Result<
    VideoFrame,
    ConvertError,
>)
    requires
        old(pool).wf(),
        convert_accepts(*frame, to),
    ensures
        frame.data@.len() < spec_packed_len(frame.stride, frame.height) ==> result == Err::<
            VideoFrame,
            ConvertError,
        >(ConvertError::Truncated),
        frame.data@.len() >= spec_packed_len(frame.stride, frame.height) ==> conversion_result(
            *frame,
            to,
            result,
        ),
        pool_after(*old(pool), *final(pool), result is Ok),
{
    if frame.data.len() < frame.packed_len() {
        return Err(ConvertError::Truncated);
    }
    let row_bytes: u128 = match source_row_len(frame, to) {
        Some(row_bytes) => row_bytes,
        None => {
            return Err(ConvertError::Unsupported { from: frame.format, to });
        },
    };
    if !rows_inside(frame, row_bytes) {
        return Err(ConvertError::Truncated);
    }
    if frame.format == to {
        return copy_packed(frame, pool);
    }
    match (frame.format, to) {
        (PixelFormat::Bgra, PixelFormat::Rgba) | (PixelFormat::Bgrx, PixelFormat::Rgba) => bgra_to_rgba(
            frame,
            pool,
        ),
        (PixelFormat::Rgbx, PixelFormat::Rgba) => rgbx_to_rgba(frame, pool),
        (PixelFormat::Yuyv, PixelFormat::Rgba) => yuyv_to_rgba(frame, pool),
        (from, to) => Err(ConvertError::Unsupported { from, to }),
    }
}

/// How many bytes of each source row a conversion to `to` reads, or `None`
/// where there is no such conversion.
fn source_row_len(frame: &VideoFrame, to: PixelFormat) -> (row_bytes: Option<u128>)
    ensures
        row_bytes is Some <==> conversion_defined(frame.format, to),
        row_bytes matches Some(n) ==> n == source_row_bytes(*frame, to) && n <= 0x4_0000_0000,
{
    let width: u128 = frame.width as u128;
    match (frame.format, to) {
        (PixelFormat::Rgba, PixelFormat::Rgba) | (PixelFormat::Bgra, PixelFormat::Bgra) | (
            PixelFormat::Rgbx,
            PixelFormat::Rgbx,
        ) | (PixelFormat::Bgrx, PixelFormat::Bgrx) => Some(width * 4),
        (PixelFormat::Bgra, PixelFormat::Rgba) | (PixelFormat::Bgrx, PixelFormat::Rgba) | (
            PixelFormat::Rgbx,
            PixelFormat::Rgba,
        ) => Some(width * 4),
        (PixelFormat::Yuyv, PixelFormat::Yuyv) | (PixelFormat::Yuyv, PixelFormat::Rgba) => Some(
            width * 2,
        ),
        _ => None,
    }
}

/// Whether every row of `frame` holds `row_bytes` bytes inside its data.
fn rows_inside(frame: &VideoFrame, row_bytes: u128) -> (inside: bool)
    requires
        row_bytes <= 0x4_0000_0000,
    ensures
        inside == rows_fit(*frame, row_bytes as int),
{
    let height: u128 = frame.height as u128;
    if height == 0 {
        return true;
    }
    proof {
        let stride = frame.stride as int;
        assert(stride * (height - 1) + row_bytes <= 0xffff_ffff_ffff_ffff * 0x1_0000_0000 + 0x4_0000_0000)
            by (nonlinear_arith)
            requires
                0 <= stride <= 0xffff_ffff_ffff_ffff,
                1 <= height <= 0x1_0000_0000,
                row_bytes <= 0x4_0000_0000,
        ;
    }
    (frame.stride as u128) * (height - 1) + row_bytes <= frame.data.len() as u128
}

/// Whether `convert` runs to the end on `frame` and `to`: it rejects the frame,
/// or its output fits in memory.
pub fn conversion_fits(frame: &VideoFrame, to: PixelFormat) -> (fits: bool)
    ensures
        fits == convert_accepts(*frame, to),
{
    if frame.data.len() < frame.packed_len() {
        return true;
    }
    let row_bytes: u128 = match source_row_len(frame, to) {
        Some(row_bytes) => row_bytes,
        None => {
            return true;
        },
    };
    if !rows_inside(frame, row_bytes) {
        return true;
    }
    let height: u128 = frame.height as u128;
    let output_bytes: u128 = if frame.format == to {
        row_bytes
    } else {
        frame.width as u128 * 4
    };
    proof {
        assert(output_bytes * height <= 0x1_0000_0000 * 4 * 0x1_0000_0000) by (nonlinear_arith)
            requires
                output_bytes <= 0x1_0000_0000 * 4,
                height <= 0x1_0000_0000,
        ;
    }
    let max: u128 = usize::MAX as u128;
    output_bytes <= max && output_bytes * height <= max
}

/// The pool stays sound and keeps its capacity; it gives out one buffer when
/// `acquired`, and none otherwise.
pub open spec fn pool_after(before: FramePool, after: FramePool, acquired: bool) -> bool {
    &&& after.wf()
    &&& after.spec_capacity() == before.spec_capacity()
    &&& after.spec_available() == if acquired && before.spec_available() > 0 {
        (before.spec_available() - 1) as nat
    } else {
        before.spec_available()
    }
}

/// Copies the visible bytes of each row into a tightly packed frame of the same format.
#[verifier::loop_isolation(false)]
fn copy_packed(frame: &VideoFrame, pool: &mut FramePool) -> (result: Result<VideoFrame, ConvertError>)
    requires
        old(pool).wf(),
        bytes_per_pixel(frame.format) > 0 ==> convert_fits(*frame, frame.format),
    ensures
        pool_after(*old(pool), *final(pool), result is Ok),
        conversion_result(*frame, frame.format, result),
{
    let bytes_per_pixel: usize = match frame.format {
        PixelFormat::Rgba | PixelFormat::Bgra | PixelFormat::Rgbx | PixelFormat::Bgrx => 4,
        PixelFormat::Yuyv => 2,
        _ => {
            return Err(ConvertError::Unsupported { from: frame.format, to: frame.format });
        },
    };
    let row_len: usize = frame.width as usize * bytes_per_pixel;
    let height: usize = frame.height as usize;
    assert(row_len == source_row_bytes(*frame, frame.format));
    assert(rows_fit(*frame, row_len as int));
    let mut data = pool.acquire(row_len * height);
    let mut row: usize = 0;
    while row < height
        invariant
            row <= height,
            data@.len() == row_len * height,
            forall|r: int, k: int|
                0 <= r < row && 0 <= k < row_len ==> #[trigger] row_byte(data@, row_len as int, r, k)
                    == frame_byte(*frame, r, k),
        decreases height - row,
    {
        proof {
            lemma_row_start_le(frame.stride as int, row as int, height - 1);
            lemma_row_start_le(row_len as int, row as int, height - 1);
            lemma_next_row(row_len as int, row as int);
            lemma_row_start_le(row_len as int, row + 1, height as int);
        }
        let src_start: usize = frame.stride * row;
        let dst_start: usize = row_len * row;
        let mut k: usize = 0;
        while k < row_len
            invariant
                k <= row_len,
                data@.len() == row_len * height,
                forall|r: int, kk: int|
                    0 <= r < row && 0 <= kk < row_len ==> #[trigger] row_byte(data@, row_len as int, r, kk)
                        == frame_byte(*frame, r, kk),
                forall|kk: int|
                    0 <= kk < k ==> #[trigger] row_byte(data@, row_len as int, row as int, kk)
                        == frame_byte(*frame, row as int, kk),
            decreases row_len - k,
        {
            let byte = frame.data.as_slice()[src_start + k];
            let ghost before = data@;
            data.set(dst_start + k, byte);
            proof {
                assert forall|r: int, kk: int|
                    0 <= r < row && 0 <= kk < row_len implies #[trigger] row_byte(data@, row_len as int, r, kk)
                        == frame_byte(*frame, r, kk) by {
                    lemma_earlier_row(row_len as int, r, kk, row as int, k as int);
                    assert(row_byte(before, row_len as int, r, kk) == frame_byte(*frame, r, kk));
                }
                assert forall|kk: int| 0 <= kk < k + 1 implies #[trigger] row_byte(data@, row_len as int, row as int, kk)
                        == frame_byte(*frame, row as int, kk) by {
                    if kk < k {
                        assert(row_byte(before, row_len as int, row as int, kk) == frame_byte(*frame, row as int, kk));
                    }
                }
            }
            k += 1;
        }
        row += 1;
    }
    Ok(
        VideoFrame {
            data,
            format: frame.format,
            width: frame.width,
            height: frame.height,
            stride: row_len,
            timestamp: frame.timestamp,
        },
    )
}

/// A zeroed, tightly packed RGBA frame with the picture size and time of `frame`.
fn output_frame(frame: &VideoFrame, pool: &mut FramePool) -> (output: VideoFrame)
    requires
        old(pool).wf(),
        frame.width * 4 <= usize::MAX,
        frame.width * 4 * frame.height <= usize::MAX,
    ensures
        pool_after(*old(pool), *final(pool), true),
        same_picture(output, *frame, PixelFormat::Rgba, frame.width * 4),
        output.data@.len() == frame.width * 4 * frame.height,
        forall|i: int| 0 <= i < output.data@.len() ==> #[trigger] output.data@[i] == 0,
{
    proof {
        let w = frame.width as int;
        let h = frame.height as int;
        assert(w * h * 4 == w * 4 * h && 0 <= w * h <= w * h * 4) by (nonlinear_arith)
            requires
                0 <= w,
                0 <= h,
        ;
    }
    VideoFrame {
        data: pool.acquire(frame.width as usize * frame.height as usize * 4),
        format: PixelFormat::Rgba,
        width: frame.width,
        height: frame.height,
        stride: frame.width as usize * 4,
        timestamp: frame.timestamp,
    }
}

/// Rewrites each four-byte pixel as opaque RGBA; `swap` exchanges the first and
/// third byte (blue-green-red sources).
#[verifier::loop_isolation(false)]
fn reorder_to_rgba(frame: &VideoFrame, pool: &mut FramePool, swap: bool) -> (output: VideoFrame)
    requires
        old(pool).wf(),
        rows_fit(*frame, frame.width * 4),
        frame.width * 4 <= usize::MAX,
        frame.width * 4 * frame.height <= usize::MAX,
    ensures
        pool_after(*old(pool), *final(pool), true),
        is_reordered(*frame, output, swap),
{
    let mut output = output_frame(frame, pool);
    let width: usize = frame.width as usize;
    let height: usize = frame.height as usize;
    let pitch: usize = output.stride;
    let mut row: usize = 0;
    while row < height
        invariant
            row <= height,
            same_picture(output, *frame, PixelFormat::Rgba, frame.width * 4),
            output.data@.len() == frame.width * 4 * frame.height,
            forall|r: int, p: int, c: int|
                0 <= r < row && 0 <= p < width && 0 <= c < 4 ==> #[trigger] pixel_byte(output, r, p, c)
                    == reordered_channel(*frame, r, p, c, swap),
        decreases height - row,
    {
        proof {
            lemma_row_start_le(frame.stride as int, row as int, height - 1);
            lemma_next_row(pitch as int, row as int);
            lemma_row_start_le(pitch as int, row + 1, height as int);
        }
        let src_start: usize = frame.stride * row;
        let dst_start: usize = pitch * row;
        let mut px: usize = 0;
        while px < width
            invariant
                px <= width,
                same_picture(output, *frame, PixelFormat::Rgba, frame.width * 4),
                output.data@.len() == frame.width * 4 * frame.height,
                forall|r: int, p: int, c: int|
                    0 <= r < row && 0 <= p < width && 0 <= c < 4 ==> #[trigger] pixel_byte(output, r, p, c)
                        == reordered_channel(*frame, r, p, c, swap),
                forall|p: int, c: int|
                    0 <= p < px && 0 <= c < 4 ==> #[trigger] pixel_byte(output, row as int, p, c)
                        == reordered_channel(*frame, row as int, p, c, swap),
            decreases width - px,
        {
            let source = frame.data.as_slice();
            let at: usize = src_start + 4 * px;
            let dst: usize = dst_start + 4 * px;
            let ghost before = output;
            if swap {
                output.data.set(dst, source[at + 2]);
                output.data.set(dst + 1, source[at + 1]);
                output.data.set(dst + 2, source[at]);
            } else {
                output.data.set(dst, source[at]);
                output.data.set(dst + 1, source[at + 1]);
                output.data.set(dst + 2, source[at + 2]);
            }
            output.data.set(dst + 3, 255);
            proof {
                assert forall|r: int, p: int, c: int|
                    0 <= r < row && 0 <= p < width && 0 <= c < 4 implies #[trigger] pixel_byte(output, r, p, c)
                        == reordered_channel(*frame, r, p, c, swap) by {
                    lemma_earlier_row(pitch as int, r, 4 * p + c, row as int, 4 * px);
                    assert(pixel_byte(before, r, p, c) == reordered_channel(*frame, r, p, c, swap));
                }
                assert forall|p: int, c: int|
                    0 <= p < px + 1 && 0 <= c < 4 implies #[trigger] pixel_byte(output, row as int, p, c)
                        == reordered_channel(*frame, row as int, p, c, swap) by {
                    if p < px {
                        assert(pixel_byte(before, row as int, p, c) == reordered_channel(*frame, row as int, p, c, swap));
                    }
                }
            }
            px += 1;
        }
        row += 1;
    }
    output
}

/// Converts blue-green-red frames to opaque RGBA.
fn bgra_to_rgba(frame: &VideoFrame, pool: &mut FramePool) -> (result: Result<VideoFrame, ConvertError>)
    requires
        old(pool).wf(),
        rows_fit(*frame, frame.width * 4),
        frame.width * 4 <= usize::MAX,
        frame.width * 4 * frame.height <= usize::MAX,
    ensures
        pool_after(*old(pool), *final(pool), true),
        result matches Ok(output) && is_reordered(*frame, output, true),
{
    Ok(reorder_to_rgba(frame, pool, true))
}

/// Converts red-green-blue-padding frames to opaque RGBA.
fn rgbx_to_rgba(frame: &VideoFrame, pool: &mut FramePool) -> (result: Result<VideoFrame, ConvertError>)
    requires
        old(pool).wf(),
        rows_fit(*frame, frame.width * 4),
        frame.width * 4 <= usize::MAX,
        frame.width * 4 * frame.height <= usize::MAX,
    ensures
        pool_after(*old(pool), *final(pool), true),
        result matches Ok(output) && is_reordered(*frame, output, false),
{
    Ok(reorder_to_rgba(frame, pool, false))
}

/// Limits a channel value to the byte range.
fn clamp_channel(x: i32) -> (byte: u8)
    ensures
        byte == clamp_byte(x as int),
{
    if x < 0 {
        0
    } else if x > 255 {
        255
    } else {
        x as u8
    }
}

/// One opaque RGBA pixel from a luma sample and its chroma pair.
fn yuv_to_rgba(y: u8, u: u8, v: u8) -> (rgba: [u8; 4])
    ensures
        forall|c: int| 0 <= c < 4 ==> #[trigger] rgba@[c] == yuv_channel(y, u, v, c),
{
    let c: i32 = y as i32 - 16;
    let d: i32 = u as i32 - 128;
    let e: i32 = v as i32 - 128;
    let red_sum: i32 = 298 * c + 409 * e + 128;
    let green_sum: i32 = 298 * c - 100 * d - 208 * e + 128;
    let blue_sum: i32 = 298 * c + 516 * d + 128;
    let r: i32 = red_sum >> 8;
    let g: i32 = green_sum >> 8;
    let b: i32 = blue_sum >> 8;
    assert(r as int == red_sum as int / 256) by (bit_vector)
        requires
            r == red_sum >> 8,
    ;
    assert(g as int == green_sum as int / 256) by (bit_vector)
        requires
            g == green_sum >> 8,
    ;
    assert(b as int == blue_sum as int / 256) by (bit_vector)
        requires
            b == blue_sum >> 8,
    ;
    let rgba: [u8; 4] = [clamp_channel(r), clamp_channel(g), clamp_channel(b), 255];
    assert forall|k: int| 0 <= k < 4 implies #[trigger] rgba@[k] == yuv_channel(y, u, v, k) by {
        if k == 0 {
        } else if k == 1 {
        } else if k == 2 {
        } else {
        }
    }
    rgba
}

/// Decodes YUYV rows into opaque RGBA, two pixels per four source bytes.
#[verifier::loop_isolation(false)]
#[verifier::rlimit(50)]
fn yuyv_to_rgba(frame: &VideoFrame, pool: &mut FramePool) -> (result: Result<VideoFrame, ConvertError>)
    requires
        old(pool).wf(),
        rows_fit(*frame, frame.width * 2),
        frame.width * 4 <= usize::MAX,
        frame.width * 4 * frame.height <= usize::MAX,
    ensures
        pool_after(*old(pool), *final(pool), true),
        result matches Ok(output) && is_yuyv_decoded(*frame, output),
{
    let mut output = output_frame(frame, pool);
    let width: usize = frame.width as usize;
    let height: usize = frame.height as usize;
    let pairs: usize = width / 2;
    let pitch: usize = output.stride;
    let mut row: usize = 0;
    while row < height
        invariant
            row <= height,
            same_picture(output, *frame, PixelFormat::Rgba, frame.width * 4),
            output.data@.len() == frame.width * 4 * frame.height,
            forall|r: int, p: int, c: int|
                0 <= r < row && 0 <= p < width && 0 <= c < 4 ==> #[trigger] pixel_byte(output, r, p, c)
                    == yuyv_channel(*frame, r, p, c),
            forall|i: int| pitch * row <= i < output.data@.len() ==> #[trigger] output.data@[i] == 0,
        decreases height - row,
    {
        proof {
            lemma_row_start_le(frame.stride as int, row as int, height - 1);
            lemma_next_row(pitch as int, row as int);
            lemma_row_start_le(pitch as int, row + 1, height as int);
        }
        let src_start: usize = frame.stride * row;
        let dst_start: usize = pitch * row;
        let mut pair: usize = 0;
        while pair < pairs
            invariant
                pair <= pairs,
                same_picture(output, *frame, PixelFormat::Rgba, frame.width * 4),
                output.data@.len() == frame.width * 4 * frame.height,
                forall|r: int, p: int, c: int|
                    0 <= r < row && 0 <= p < width && 0 <= c < 4 ==> #[trigger] pixel_byte(output, r, p, c)
                        == yuyv_channel(*frame, r, p, c),
                forall|p: int, c: int|
                    0 <= p < 2 * pair && 0 <= c < 4 ==> #[trigger] pixel_byte(output, row as int, p, c)
                        == yuyv_channel(*frame, row as int, p, c),
                forall|i: int| dst_start + 8 * pair <= i < output.data@.len() ==> #[trigger] output.data@[i] == 0,
            decreases pairs - pair,
        {
            let source = frame.data.as_slice();
            let at: usize = src_start + 4 * pair;
            let y0 = source[at];
            let u = source[at + 1];
            let y1 = source[at + 2];
            let v = source[at + 3];
            let first = yuv_to_rgba(y0, u, v);
            let second = yuv_to_rgba(y1, u, v);
            let dst: usize = dst_start + 8 * pair;
            let ghost before = output;
            output.data.set(dst, first[0]);
            output.data.set(dst + 1, first[1]);
            output.data.set(dst + 2, first[2]);
            output.data.set(dst + 3, first[3]);
            output.data.set(dst + 4, second[0]);
            output.data.set(dst + 5, second[1]);
            output.data.set(dst + 6, second[2]);
            output.data.set(dst + 7, second[3]);
            proof {
                assert forall|r: int, p: int, c: int|
                    0 <= r < row && 0 <= p < width && 0 <= c < 4 implies #[trigger] pixel_byte(output, r, p, c)
                        == yuyv_channel(*frame, r, p, c) by {
                    lemma_earlier_row(pitch as int, r, 4 * p + c, row as int, 8 * pair);
                    assert(pixel_byte(before, r, p, c) == yuyv_channel(*frame, r, p, c));
                }
                assert forall|p: int, c: int|
                    0 <= p < 2 * (pair + 1) && 0 <= c < 4 implies #[trigger] pixel_byte(output, row as int, p, c)
                        == yuyv_channel(*frame, row as int, p, c) by {
                    if p < 2 * pair {
                        assert(pixel_byte(before, row as int, p, c) == yuyv_channel(*frame, row as int, p, c));
                    } else if p == 2 * pair {
                        assert(first@[c] == yuv_channel(y0, u, v, c));
                    } else {
                        assert(second@[c] == yuv_channel(y1, u, v, c));
                    }
                }
            }
            pair += 1;
        }
        proof {
            assert forall|p: int, c: int|
                2 * pairs <= p < width && 0 <= c < 4 implies #[trigger] pixel_byte(output, row as int, p, c)
                    == yuyv_channel(*frame, row as int, p, c) by {
                lemma_inside_rows(pitch as int, row as int, 4 * p + c, height as int);
            }
        }
        row += 1;
    }
    Ok(output)
}

/// Each channel of a YUYV-decoded pixel is the BT.601 fixed-point sum of its
/// luma sample and the pair's chroma, cut to the byte range: a negative sum gives
/// 0, a sum above 255 gives 255, any other sum is kept; alpha is opaque. The last
/// pixel of an odd-width row, which has no chroma pair, stays zero.
pub proof fn yuyv_channels_are_clamped_bt601(frame: VideoFrame, out: VideoFrame, row: int, px: int)
    requires
        is_yuyv_decoded(frame, out),
        0 <= row < frame.height,
        0 <= px < frame.width,
    ensures
        ({
            let at = frame.stride * row + 4 * (px / 2);
            let y = if px % 2 == 0 {
                frame.data@[at] as int
            } else {
                frame.data@[at + 2] as int
            };
            let u = frame.data@[at + 1] as int;
            let v = frame.data@[at + 3] as int;
            let red = (298 * (y - 16) + 409 * (v - 128) + 128) / 256;
            let green = (298 * (y - 16) - 100 * (u - 128) - 208 * (v - 128) + 128) / 256;
            let blue = (298 * (y - 16) + 516 * (u - 128) + 128) / 256;
            let o = out.stride * row + 4 * px;
            px < 2 * (frame.width / 2) ==> {
                &&& red < 0 ==> out.data@[o] == 0
                &&& red > 255 ==> out.data@[o] == 255
                &&& 0 <= red <= 255 ==> out.data@[o] == red
                &&& green < 0 ==> out.data@[o + 1] == 0
                &&& green > 255 ==> out.data@[o + 1] == 255
                &&& 0 <= green <= 255 ==> out.data@[o + 1] == green
                &&& blue < 0 ==> out.data@[o + 2] == 0
                &&& blue > 255 ==> out.data@[o + 2] == 255
                &&& 0 <= blue <= 255 ==> out.data@[o + 2] == blue
                &&& out.data@[o + 3] == 255
            }
        }),
        px >= 2 * (frame.width / 2) ==> {
            &&& out.data@[out.stride * row + 4 * px] == 0
            &&& out.data@[out.stride * row + 4 * px + 1] == 0
            &&& out.data@[out.stride * row + 4 * px + 2] == 0
            &&& out.data@[out.stride * row + 4 * px + 3] == 0
        },
{
    assert(pixel_byte(out, row, px, 0) == yuyv_channel(frame, row, px, 0));
    assert(pixel_byte(out, row, px, 1) == yuyv_channel(frame, row, px, 1));
    assert(pixel_byte(out, row, px, 2) == yuyv_channel(frame, row, px, 2));
    assert(pixel_byte(out, row, px, 3) == yuyv_channel(frame, row, px, 3));
}

/// Pixels without chroma (U = V = 128) come out grey: red, green and blue agree.
pub proof fn neutral_chroma_is_grey(y: u8)
    ensures
        yuv_channel(y, 128, 128, 0) == yuv_channel(y, 128, 128, 1),
        yuv_channel(y, 128, 128, 1) == yuv_channel(y, 128, 128, 2),
        yuv_channel(y, 128, 128, 3) == 255,
{
}

/// Studio-range black and white (luma 16 and 235 without chroma) map to the ends
/// of the byte range.
pub proof fn studio_range_maps_to_full_range()
    ensures
        forall|c: int| 0 <= c < 3 ==> #[trigger] yuv_channel(16, 128, 128, c) == 0,
        forall|c: int| 0 <= c < 3 ==> #[trigger] yuv_channel(235, 128, 128, c) == 255,
{
}

// ---------------------------------------------------------------------------
// Offsets of row-major buffers.
// ---------------------------------------------------------------------------

/// A byte of an earlier row lies before every byte of a later row.
proof fn lemma_earlier_row(pitch: int, r: int, k: int, row: int, col: int)
    by (nonlinear_arith)
    requires
        0 <= r < row,
        0 <= k < pitch,
        0 <= col,
    ensures
        pitch * r + k < pitch * row + col,
{
}

/// A byte of row `row < h` lies inside `h` rows.
proof fn lemma_inside_rows(pitch: int, row: int, k: int, h: int)
    by (nonlinear_arith)
    requires
        0 <= row < h,
        0 <= k < pitch,
    ensures
        0 <= pitch * row + k < pitch * h,
{
}

/// Rows up to the last start no later than the last one does.
proof fn lemma_row_start_le(pitch: int, row: int, last: int)
    by (nonlinear_arith)
    requires
        0 <= pitch,
        0 <= row <= last,
    ensures
        0 <= pitch * row <= pitch * last,
{
}

/// The next row starts one pitch after this one.
proof fn lemma_next_row(pitch: int, row: int)
    by (nonlinear_arith)
    ensures
        pitch * (row + 1) == pitch * row + pitch,
{
}

} // verus!
