use std::borrow::Cow;
use std::io::Cursor;

use wops::{CanvasSize, RenderError, SourcePixels, packed_rgba, remove_layer};

#[test]
fn rejects_zero_sized_canvas() {
    assert!(matches!(
        CanvasSize::new(0, 1080),
        Err(RenderError::InvalidCanvasSize { .. })
    ));
}

#[test]
fn accepts_non_zero_canvas() {
    let size = CanvasSize::new(1280, 720).unwrap();
    assert_eq!(size, CanvasSize { width: 1280, height: 720 });
    assert!(matches!(
        CanvasSize::new(640, 0),
        Err(RenderError::InvalidCanvasSize { width: 640, height: 0 })
    ));
    assert_eq!(CanvasSize::full_hd(), CanvasSize { width: 1920, height: 1080 });
    assert_eq!(CanvasSize::or_full_hd(0, 720), CanvasSize { width: 1920, height: 1080 });
    assert_eq!(CanvasSize::or_full_hd(2560, 1440), CanvasSize { width: 2560, height: 1440 });
}

#[test]
fn rgba_packing_removes_row_padding() {
    let input = [1, 2, 3, 4, 99, 99, 5, 6, 7, 8, 99, 99];
    let packed = packed_rgba(1, 2, &input, 6).unwrap();
    assert_eq!(&*packed, &[1, 2, 3, 4, 5, 6, 7, 8]);
}

#[test]
fn tightly_packed_rgba_is_borrowed() {
    let input = [1, 2, 3, 4];
    assert!(matches!(
        packed_rgba(1, 1, &input, 4).unwrap(),
        Cow::Borrowed(_)
    ));
}

#[test]
fn invalid_rgba_frames_are_refused() {
    let input = [0u8; 16];
    assert!(matches!(packed_rgba(0, 1, &input, 4), Err(RenderError::InvalidFrame)));
    assert!(matches!(packed_rgba(1, 0, &input, 4), Err(RenderError::InvalidFrame)));
    assert!(matches!(packed_rgba(2, 1, &input, 4), Err(RenderError::InvalidFrame)));
    assert!(matches!(packed_rgba(1, 5, &input, 4), Err(RenderError::InvalidFrame)));
}

#[test]
fn removing_a_layer_shifts_the_rest() {
    let mut layers = vec!['a', 'b', 'c'];
    remove_layer(&mut layers, 1).unwrap();
    assert_eq!(layers, vec!['a', 'c']);
    assert!(matches!(
        remove_layer(&mut layers, 2),
        Err(RenderError::LayerNotFound(2))
    ));
    assert_eq!(layers, vec!['a', 'c']);
}

#[test]
fn color_source_is_premultiplied() {
    assert_eq!(
        SourcePixels::color([200, 100, 50, 128]).rgba,
        [100, 50, 25, 128]
    );
}

#[test]
fn opaque_and_clear_colours_premultiply_exactly() {
    assert_eq!(SourcePixels::color([8, 12, 19, 255]).rgba, [8, 12, 19, 255]);
    assert_eq!(SourcePixels::color([200, 100, 50, 0]).rgba, [0, 0, 0, 0]);
}

#[test]
fn smpte_source_has_requested_dimensions() {
    let source = SourcePixels::smpte(70, 40);
    assert_eq!(source.rgba.len(), 70 * 40 * 4);
}

#[test]
fn smpte_source_draws_bars_and_checkerboard() {
    let source = SourcePixels::smpte(70, 40);
    let pixel = |x: usize, y: usize| &source.rgba[(y * 70 + x) * 4..(y * 70 + x) * 4 + 4];
    assert_eq!(pixel(0, 0), &[191, 191, 191, 255]);
    assert_eq!(pixel(10, 0), &[191, 191, 0, 255]);
    assert_eq!(pixel(69, 30), &[0, 0, 191, 255]);
    assert_eq!(pixel(0, 31), &[225, 228, 234, 255]);
    assert_eq!(pixel(24, 31), &[24, 27, 34, 255]);
}

#[test]
fn image_source_is_decoded_and_premultiplied() {
    let picture = image::RgbaImage::from_raw(2, 1, vec![200, 100, 50, 128, 10, 20, 30, 255]).unwrap();
    let mut encoded = Cursor::new(Vec::new());
    picture.write_to(&mut encoded, image::ImageFormat::Png).unwrap();
    let pixels = SourcePixels::image(encoded.get_ref(), Some("png")).unwrap();
    assert_eq!((pixels.width, pixels.height), (2, 1));
    assert_eq!(pixels.rgba, vec![100, 50, 25, 128, 10, 20, 30, 255]);
    assert!(SourcePixels::image(encoded.get_ref(), Some("PNG")).is_ok());
    assert!(SourcePixels::image(&[1, 2, 3], Some("png")).is_err());
}

#[test]
fn image_decoder_follows_the_file_extension() {
    let picture = image::RgbaImage::from_raw(1, 1, vec![1, 2, 3, 255]).unwrap();
    let mut encoded = Cursor::new(Vec::new());
    picture.write_to(&mut encoded, image::ImageFormat::Png).unwrap();
    // A PNG file named as a JPEG, as an unknown kind, or without an extension is refused.
    assert!(SourcePixels::image(encoded.get_ref(), Some("jpg")).is_err());
    assert!(SourcePixels::image(encoded.get_ref(), Some("picture")).is_err());
    assert!(SourcePixels::image(encoded.get_ref(), None).is_err());
}

#[test]
fn premultiplied_channels_never_exceed_alpha() {
    for alpha in [0u8, 1, 64, 128, 254, 255] {
        for channel in [0u8, 1, 100, 200, 255] {
            let rgba = SourcePixels::color([channel, channel, channel, alpha]).rgba;
            assert!(rgba[0] <= alpha);
            assert_eq!(rgba[3], alpha);
        }
    }
}
