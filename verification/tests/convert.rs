use std::time::Duration;

use wops::{ConvertError, FramePool, PixelFormat, VideoFrame, convert};

fn frame(format: PixelFormat, data: &[u8], width: u32, stride: usize) -> VideoFrame {
    let mut pool = FramePool::new(1);
    let mut buffer = pool.acquire(data.len());
    buffer.as_mut_slice().copy_from_slice(data);
    VideoFrame {
        data: buffer,
        format,
        width,
        height: 1,
        stride,
        timestamp: Duration::ZERO,
    }
}

fn frame_rows(format: PixelFormat, data: &[u8], width: u32, height: u32, stride: usize) -> VideoFrame {
    let mut source = frame(format, data, width, stride);
    source.height = height;
    source
}

#[test]
fn converts_bgra_with_padding() {
    let source = frame(PixelFormat::Bgra, &[30, 20, 10, 99, 0, 0, 0, 0], 1, 8);
    let converted = convert(&source, PixelFormat::Rgba, &mut FramePool::new(2)).unwrap();
    assert_eq!(converted.data.as_slice(), &[10, 20, 30, 255]);
}

#[test]
fn converts_yuyv_pair() {
    let source = frame(PixelFormat::Yuyv, &[16, 128, 235, 128], 2, 4);
    let converted = convert(&source, PixelFormat::Rgba, &mut FramePool::new(2)).unwrap();
    assert_eq!(&converted.data.as_slice()[..4], &[0, 0, 0, 255]);
    assert_eq!(&converted.data.as_slice()[4..], &[255, 255, 255, 255]);
}

#[test]
fn converts_bgrx_like_bgra() {
    let source = frame(PixelFormat::Bgrx, &[1, 2, 3, 0, 4, 5, 6, 0], 2, 8);
    let converted = convert(&source, PixelFormat::Rgba, &mut FramePool::new(2)).unwrap();
    assert_eq!(converted.data.as_slice(), &[3, 2, 1, 255, 6, 5, 4, 255]);
    assert_eq!(converted.format, PixelFormat::Rgba);
    assert_eq!(converted.stride, 8);
}

#[test]
fn converts_rgbx_keeping_channel_order() {
    let source = frame_rows(PixelFormat::Rgbx, &[1, 2, 3, 7, 9, 9, 4, 5, 6, 8, 9, 9], 1, 2, 6);
    let converted = convert(&source, PixelFormat::Rgba, &mut FramePool::new(2)).unwrap();
    assert_eq!(converted.data.as_slice(), &[1, 2, 3, 255, 4, 5, 6, 255]);
    assert_eq!(converted.height, 2);
    assert_eq!(converted.stride, 4);
}

#[test]
fn yuyv_chroma_reaches_red_and_blue() {
    // Y = 128 with V at its maximum gives a saturated red, U at its maximum a saturated blue.
    let red = frame(PixelFormat::Yuyv, &[128, 128, 128, 255], 2, 4);
    let converted = convert(&red, PixelFormat::Rgba, &mut FramePool::new(2)).unwrap();
    // c = 112, e = 127: r = (33376 + 51943 + 128) >> 8 = 333 -> 255,
    // g = (33376 - 26416 + 128) >> 8 = 27, b = (33376 + 128) >> 8 = 130.
    assert_eq!(&converted.data.as_slice()[..4], &[255, 27, 130, 255]);
    let blue = frame(PixelFormat::Yuyv, &[128, 255, 128, 128], 2, 4);
    let converted = convert(&blue, PixelFormat::Rgba, &mut FramePool::new(2)).unwrap();
    // d = 127: r = 130, g = (33376 - 12700 + 128) >> 8 = 81, b = (33376 + 65532 + 128) >> 8 = 386 -> 255.
    assert_eq!(&converted.data.as_slice()[..4], &[130, 81, 255, 255]);
}

#[test]
fn yuyv_odd_width_leaves_last_pixel_blank() {
    let source = frame(PixelFormat::Yuyv, &[235, 128, 235, 128, 235, 128], 3, 6);
    let converted = convert(&source, PixelFormat::Rgba, &mut FramePool::new(2)).unwrap();
    assert_eq!(converted.data.len(), 12);
    assert_eq!(&converted.data.as_slice()[..8], &[255, 255, 255, 255, 255, 255, 255, 255]);
    assert_eq!(&converted.data.as_slice()[8..], &[0, 0, 0, 0]);
}

#[test]
fn same_format_copy_drops_row_padding() {
    let source = frame_rows(PixelFormat::Yuyv, &[1, 2, 3, 4, 77, 5, 6, 7, 8, 77], 2, 2, 5);
    let converted = convert(&source, PixelFormat::Yuyv, &mut FramePool::new(2)).unwrap();
    assert_eq!(converted.data.as_slice(), &[1, 2, 3, 4, 5, 6, 7, 8]);
    assert_eq!(converted.format, PixelFormat::Yuyv);
    assert_eq!(converted.stride, 4);
}

#[test]
fn short_frames_are_truncated() {
    let source = frame_rows(PixelFormat::Bgra, &[1, 2, 3, 4], 1, 2, 4);
    let error = convert(&source, PixelFormat::Rgba, &mut FramePool::new(2)).unwrap_err();
    assert_eq!(error, ConvertError::Truncated);
}

#[test]
fn missing_conversions_are_unsupported() {
    let source = frame(PixelFormat::Rgba, &[1, 2, 3, 4], 1, 4);
    let error = convert(&source, PixelFormat::Bgra, &mut FramePool::new(2)).unwrap_err();
    assert_eq!(
        error,
        ConvertError::Unsupported {
            from: PixelFormat::Rgba,
            to: PixelFormat::Bgra
        }
    );
    let compressed = frame(PixelFormat::Mjpeg, &[1, 2, 3, 4], 1, 4);
    let error = convert(&compressed, PixelFormat::Mjpeg, &mut FramePool::new(2)).unwrap_err();
    assert_eq!(
        error,
        ConvertError::Unsupported {
            from: PixelFormat::Mjpeg,
            to: PixelFormat::Mjpeg
        }
    );
}

#[test]
fn conversion_keeps_timestamp() {
    let mut source = frame(PixelFormat::Rgba, &[1, 2, 3, 4], 1, 4);
    source.timestamp = Duration::from_millis(40);
    let converted = convert(&source, PixelFormat::Rgba, &mut FramePool::new(2)).unwrap();
    assert_eq!(converted.timestamp, Duration::from_millis(40));
}

#[test]
fn neutral_chroma_gives_grey_pixels() {
    for y in [0u8, 16, 60, 128, 200, 235, 255] {
        let source = frame(PixelFormat::Yuyv, &[y, 128, y, 128], 2, 4);
        let converted = convert(&source, PixelFormat::Rgba, &mut FramePool::new(2)).unwrap();
        let bytes = converted.data.as_slice();
        assert_eq!(bytes[0], bytes[1]);
        assert_eq!(bytes[1], bytes[2]);
        assert_eq!(bytes[3], 255);
    }
}

#[test]
fn converted_frames_upload_without_repacking() {
    let source = frame_rows(PixelFormat::Bgra, &[1, 2, 3, 4, 0, 5, 6, 7, 8, 0], 1, 2, 5);
    let converted = convert(&source, PixelFormat::Rgba, &mut FramePool::new(2)).unwrap();
    let packed = wops::packed_rgba(
        converted.width,
        converted.height,
        converted.data.as_slice(),
        converted.stride,
    )
    .unwrap();
    assert!(matches!(packed, std::borrow::Cow::Borrowed(_)));
    assert_eq!(&*packed, converted.data.as_slice());
}

#[test]
fn rows_running_past_the_data_are_truncated() {
    // Two BGRA pixels need eight bytes per row; the data holds four.
    let source = frame(PixelFormat::Bgra, &[1, 2, 3, 4], 2, 4);
    assert_eq!(
        convert(&source, PixelFormat::Rgba, &mut FramePool::new(1)).unwrap_err(),
        ConvertError::Truncated
    );
    let yuyv = frame_rows(PixelFormat::Yuyv, &[16, 128, 16, 128, 16, 128], 4, 2, 3);
    assert_eq!(
        convert(&yuyv, PixelFormat::Yuyv, &mut FramePool::new(1)).unwrap_err(),
        ConvertError::Truncated
    );
    let unsupported = frame(PixelFormat::Nv12, &[1, 2, 3, 4], 8, 4);
    assert_eq!(
        convert(&unsupported, PixelFormat::Rgba, &mut FramePool::new(1)).unwrap_err(),
        ConvertError::Unsupported { from: PixelFormat::Nv12, to: PixelFormat::Rgba }
    );
}
