use std::path::PathBuf;
use std::time::Duration;

use wops::stream::copy_stream_frame;
use wops::webcam::{
    copy_yuyv, decode_mjpeg, interval_fps, negotiated_source_info, normalize_modes,
    push_size_modes, webcam_config, webcam_source_info,
};
use wops::{
    CaptureError, CaptureKind, FramePool, PixelFormat, WebcamDevice, WebcamMode, backend_error,
    capture_name, kind_label, portal_source_info,
};

fn mode(format: &[u8; 4], width: u32, height: u32, fps: u32) -> WebcamMode {
    WebcamMode { format: *format, width, height, fps }
}

#[test]
fn capture_names_follow_their_kind() {
    assert_eq!(kind_label(CaptureKind::Screen), "Screen");
    assert_eq!(kind_label(CaptureKind::Webcam), "Webcam");
    assert_eq!(capture_name(CaptureKind::Window), "Window Capture");
    let info = portal_source_info(CaptureKind::Screen);
    assert_eq!(info.name, "Screen Capture");
    assert_eq!((info.width, info.height, info.fps_num, info.fps_den), (0, 0, 0, 1));
}

#[test]
fn io_errors_become_backend_errors() {
    let error = std::io::Error::new(std::io::ErrorKind::NotFound, "no such device");
    match backend_error(error) {
        CaptureError::Backend(message) => assert_eq!(message, "no such device"),
        _ => panic!("expected a backend error"),
    }
}

#[test]
fn frame_intervals_give_frame_rates() {
    assert_eq!(interval_fps(1, 30), 30);
    assert_eq!(interval_fps(1001, 30000), 29);
    assert_eq!(interval_fps(0, 30), 30);
    assert_eq!(interval_fps(2, 1), 1);
}

#[test]
fn modes_are_sorted_and_deduplicated() {
    let modes = vec![
        mode(b"YUYV", 1280, 720, 10),
        mode(b"MJPG", 640, 480, 30),
        mode(b"YUYV", 640, 480, 30),
        mode(b"YUYV", 640, 480, 30),
        mode(b"MJPG", 1280, 720, 30),
        mode(b"MJPG", 640, 480, 15),
    ];
    assert_eq!(
        normalize_modes(&modes),
        vec![
            mode(b"MJPG", 640, 480, 15),
            mode(b"MJPG", 640, 480, 30),
            mode(b"YUYV", 640, 480, 30),
            mode(b"YUYV", 1280, 720, 10),
            mode(b"MJPG", 1280, 720, 30),
        ]
    );
}

#[test]
fn sizes_without_intervals_default_to_thirty_fps() {
    let mut result = Vec::new();
    push_size_modes(&mut result, *b"YUYV", 320, 240, &Vec::new());
    push_size_modes(&mut result, *b"MJPG", 640, 480, &vec![(1, 60), (1, 15)]);
    assert_eq!(
        result,
        vec![
            mode(b"YUYV", 320, 240, 30),
            mode(b"MJPG", 640, 480, 60),
            mode(b"MJPG", 640, 480, 15),
        ]
    );
}

#[test]
fn webcam_configs_cap_the_frame_rate() {
    let device = WebcamDevice { path: PathBuf::from("/dev/video0"), name: "Cam".to_owned() };
    let config = webcam_config(device.clone(), &mode(b"YUYV", 640, 480, 120));
    assert_eq!((config.width, config.height, config.fps), (640, 480, 60));
    let info = webcam_source_info(&config);
    assert_eq!(info.name, "Cam");
    assert_eq!(info.kind, CaptureKind::Webcam);
    assert_eq!((info.fps_num, info.fps_den), (60, 1));
    let negotiated = negotiated_source_info("Cam".to_owned(), 640, 480, 0, 25);
    assert_eq!((negotiated.fps_num, negotiated.fps_den), (25, 1));
}

#[test]
fn yuyv_copies_pad_short_buffers() {
    let mut pool = FramePool::new(2);
    let frame = copy_yuyv(&[1, 2, 3, 4, 5, 6], 2, 2, 0, Duration::from_millis(5), &mut pool);
    assert_eq!(frame.stride, 4);
    assert_eq!(frame.format, PixelFormat::Yuyv);
    assert_eq!(frame.data.as_slice(), &[1, 2, 3, 4, 5, 6, 0, 0]);
    let frame = copy_yuyv(&[1, 2, 3, 4, 5, 6], 1, 1, 3, Duration::ZERO, &mut pool);
    assert_eq!(frame.data.as_slice(), &[1, 2, 3]);
}

#[test]
fn mjpeg_frames_are_decoded_to_rgba() {
    let picture = image::RgbImage::from_raw(2, 2, vec![255; 12]).unwrap();
    let mut encoded = std::io::Cursor::new(Vec::new());
    picture.write_to(&mut encoded, image::ImageFormat::Jpeg).unwrap();
    let mut pool = FramePool::new(2);
    let frame = decode_mjpeg(encoded.get_ref(), Duration::from_millis(9), &mut pool).unwrap();
    assert_eq!((frame.width, frame.height, frame.stride), (2, 2, 8));
    assert_eq!(frame.format, PixelFormat::Rgba);
    assert_eq!(frame.data.len(), 16);
    assert!(frame.data.as_slice().chunks(4).all(|p| p[3] == 255 && p[0] > 240));
    assert!(decode_mjpeg(&[0, 1, 2], Duration::ZERO, &mut pool).is_err());
}

#[test]
fn stream_frames_are_copied_top_down() {
    let mut pool = FramePool::new(2);
    let source = [9, 1, 1, 1, 1, 2, 2, 2, 2];
    let frame = copy_stream_frame(&source, 1, 4, 1, 2, PixelFormat::Bgrx, Duration::ZERO, &mut pool).unwrap();
    assert_eq!(frame.data.as_slice(), &[1, 1, 1, 1, 2, 2, 2, 2]);
    let flipped = copy_stream_frame(&source, 1, -4, 1, 2, PixelFormat::Bgrx, Duration::ZERO, &mut pool).unwrap();
    assert_eq!(flipped.data.as_slice(), &[2, 2, 2, 2, 1, 1, 1, 1]);
    assert_eq!(flipped.stride, 4);
    assert!(copy_stream_frame(&source, 2, 4, 1, 2, PixelFormat::Bgrx, Duration::ZERO, &mut pool).is_none());
    let zero_stride = copy_stream_frame(&source, 1, 0, 2, 1, PixelFormat::Rgba, Duration::ZERO, &mut pool).unwrap();
    assert_eq!(zero_stride.stride, 8);
}

#[test]
fn negotiated_portal_info_keeps_a_positive_denominator() {
    let info = wops::portal_negotiated_info(CaptureKind::Window, 1280, 720, 60, 0);
    assert_eq!(info.name, "Window Capture");
    assert_eq!((info.width, info.height, info.fps_num, info.fps_den), (1280, 720, 60, 1));
    let info = wops::portal_negotiated_info(CaptureKind::Screen, 1920, 1080, 30000, 1001);
    assert_eq!(info.name, "Screen Capture");
    assert_eq!(info.fps_den, 1001);
}
