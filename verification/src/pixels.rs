use vstd::prelude::*;

verus! {

/// The picture that the image crate decodes from `bytes` with the decoder that
/// the file extension `extension` selects, as width, height and RGBA bytes, or
/// `None` where it reports an error.
pub uninterp spec fn decoded_image(bytes: Seq<u8>, extension: Seq<char>) -> Option<(u32, u32, Seq<u8>)>;

/// Decodes an encoded image as `image::open` does for a file with extension
/// `extension`: `image::ImageFormat::from_extension` picks the decoder (an
/// unknown extension is the crate's own `Unsupported` error), then
/// `image::load_from_memory_with_format` and `DynamicImage::into_rgba8`.
/// Trusted: the result is the one `decoded_image` names for the bytes and the
/// extension, and an RGBA buffer holds at least four bytes per pixel
/// (`ImageBuffer::from_raw` checks this for every buffer that the crate builds).
#[verifier::external_body]
fn decode_image(bytes: &[u8], extension: &str) -> (result: Result<(u32, u32, Vec<u8>), image::ImageError>)
    ensures
        match result {
            Ok((width, height, rgba)) => decoded_image(bytes@, extension@) == Some((width, height, rgba@))
                && width * height * 4 <= rgba@.len(),
            Err(_) => decoded_image(bytes@, extension@) is None,
        },
{
    let format = match image::ImageFormat::from_extension(extension) {
        Some(format) => format,
        None => return Err(image::ImageError::Unsupported(
            image::error::ImageFormatHint::PathExtension(extension.into()).into(),
        )),
    };
    let image = image::load_from_memory_with_format(bytes, format)?.into_rgba8();
    let (width, height) = image.dimensions();
    Ok((width, height, image.into_raw()))
}

/// Decodes through `image::ImageReader::decode` with no format given, as
/// `image::open` does for a file without an extension.
/// Trusted: the result is an error (`ImageReader::require_format` refuses a
/// reader without a format before any byte is read).
#[verifier::external_body]
fn decode_without_format(bytes: &[u8]) -> (result: Result<(u32, u32, Vec<u8>), image::ImageError>)
    ensures
        result is Err,
{
    let image = image::ImageReader::new(std::io::Cursor::new(bytes)).decode()?.into_rgba8();
    let (width, height) = image.dimensions();
    Ok((width, height, image.into_raw()))
}

/// Source pixels for a compositor layer: tightly packed, premultiplied RGBA.
pub struct SourcePixels {
    pub width: u32,
    pub height: u32,
    pub rgba: Vec<u8>,
}

/// Byte `c` of four-byte group `p`.
pub open spec fn quad(bytes: Seq<u8>, p: int, c: int) -> u8 {
    bytes[4 * p + c]
}

/// A colour channel scaled by alpha, rounded to the nearest byte.
pub open spec fn premultiplied(channel: u8, alpha: u8) -> u8 {
    ((channel * alpha + 127) / 255) as u8
}

/// `after` is `before` with the colour channels of every whole four-byte pixel
/// scaled by its alpha; alpha and trailing bytes are kept.
pub open spec fn is_premultiplied(before: Seq<u8>, after: Seq<u8>) -> bool {
    let pixels = before.len() / 4;
    &&& after.len() == before.len()
    &&& forall|p: int, c: int|
        0 <= p < pixels && 0 <= c < 3 ==> #[trigger] quad(after, p, c) == premultiplied(
            quad(before, p, c),
            quad(before, p, 3),
        )
    &&& forall|p: int| 0 <= p < pixels ==> #[trigger] quad(after, p, 3) == quad(before, p, 3)
    &&& forall|i: int| 4 * pixels <= i < before.len() ==> #[trigger] after[i] == before[i]
}

/// Byte `c` of pixel (`x`, `y`) of a tightly packed RGBA picture `width` pixels wide.
pub open spec fn image_byte(bytes: Seq<u8>, width: int, x: int, y: int, c: int) -> u8 {
    bytes[4 * (width * y + x) + c]
}

/// The colours of the test-pattern bars, left to right.
pub open spec fn bar_rgba(index: int) -> Seq<u8> {
    if index == 0 {
        seq![191u8, 191, 191, 255]
    } else if index == 1 {
        seq![191u8, 191, 0, 255]
    } else if index == 2 {
        seq![0u8, 191, 191, 255]
    } else if index == 3 {
        seq![0u8, 191, 0, 255]
    } else if index == 4 {
        seq![191u8, 0, 191, 255]
    } else if index == 5 {
        seq![191u8, 0, 0, 255]
    } else {
        seq![0u8, 0, 191, 255]
    }
}

/// The test-pattern colour at (`x`, `y`): seven vertical bars, with a 24-pixel
/// checkerboard below three quarters of the height.
pub open spec fn smpte_rgba(width: int, height: int, x: int, y: int) -> Seq<u8> {
    if y > height * 3 / 4 {
        if ((x / 24) + (y / 24)) % 2 == 0 {
            seq![24u8, 27, 34, 255]
        } else {
            seq![225u8, 228, 234, 255]
        }
    } else {
        let bar = x * 7 / width;
        bar_rgba(if bar < 6 {
            bar
        } else {
            6
        })
    }
}

/// `rgba` is the tightly packed test pattern of `width` by `height` pixels.
pub open spec fn is_smpte_pattern(width: u32, height: u32, rgba: Seq<u8>) -> bool {
    &&& rgba.len() == width * height * 4
    &&& forall|x: int, y: int, c: int|
        0 <= x < width && 0 <= y < height && 0 <= c < 4 ==> #[trigger] image_byte(rgba, width as int, x, y, c)
            == smpte_rgba(width as int, height as int, x, y)[c]
}

/// The test pattern shows the seven colour bars in their standard order, left to
/// right across the picture, bar `x * 7 / width` at column `x`: grey, yellow,
/// cyan, green, magenta, red, blue, each at 75% intensity and opaque. Below three
/// quarters of the height, a checkerboard of 24-pixel squares alternates a dark
/// and a light grey, dark where the square's column and row numbers add up to an
/// even number.
pub proof fn smpte_bars_in_standard_order(width: u32, height: u32, rgba: Seq<u8>, x: int, y: int)
    requires
        is_smpte_pattern(width, height, rgba),
        0 <= x < width,
        0 <= y < height,
    ensures
        ({
            let o = 4 * (width * y + x);
            let bar = x * 7 / (width as int);
            let pixel = rgba.subrange(o, o + 4);
            &&& y <= height * 3 / 4 && bar == 0 ==> pixel == seq![191u8, 191, 191, 255]
            &&& y <= height * 3 / 4 && bar == 1 ==> pixel == seq![191u8, 191, 0, 255]
            &&& y <= height * 3 / 4 && bar == 2 ==> pixel == seq![0u8, 191, 191, 255]
            &&& y <= height * 3 / 4 && bar == 3 ==> pixel == seq![0u8, 191, 0, 255]
            &&& y <= height * 3 / 4 && bar == 4 ==> pixel == seq![191u8, 0, 191, 255]
            &&& y <= height * 3 / 4 && bar == 5 ==> pixel == seq![191u8, 0, 0, 255]
            &&& y <= height * 3 / 4 && bar == 6 ==> pixel == seq![0u8, 0, 191, 255]
            &&& y > height * 3 / 4 && (x / 24 + y / 24) % 2 == 0 ==> pixel == seq![24u8, 27, 34, 255]
            &&& y > height * 3 / 4 && (x / 24 + y / 24) % 2 == 1 ==> pixel == seq![225u8, 228, 234, 255]
        }),
{
    let o = 4 * (width * y + x);
    let expected = smpte_rgba(width as int, height as int, x, y);
    assert(0 <= width * y + x < width * height) by (nonlinear_arith)
        requires
            0 <= x < width,
            0 <= y < height,
    ;
    assert(expected.len() == 4);
    assert(image_byte(rgba, width as int, x, y, 0) == expected[0]);
    assert(image_byte(rgba, width as int, x, y, 1) == expected[1]);
    assert(image_byte(rgba, width as int, x, y, 2) == expected[2]);
    assert(image_byte(rgba, width as int, x, y, 3) == expected[3]);
    assert(0 <= x * 7 / (width as int) <= 6) by (nonlinear_arith)
        requires
            0 <= x < width,
    ;
    assert(rgba.subrange(o, o + 4) =~= expected) by {
        assert forall|c: int| 0 <= c < 4 implies #[trigger] rgba.subrange(o, o + 4)[c] == expected[c] by {
            assert(image_byte(rgba, width as int, x, y, c) == expected[c]);
        }
    }
}

/// Scales the colour channels of each whole four-byte pixel by its alpha.
pub fn premultiply_alpha(pixels: &mut [u8])
    ensures
        is_premultiplied(old(pixels)@, final(pixels)@),
{
    let len: usize = pixels.len();
    let count: usize = len / 4;
    let mut p: usize = 0;
    while p < count
        invariant
            len == old(pixels)@.len(),
            count == old(pixels)@.len() / 4,
            p <= count,
            pixels@.len() == old(pixels)@.len(),
            forall|q: int, c: int|
                0 <= q < p && 0 <= c < 3 ==> #[trigger] quad(pixels@, q, c) == premultiplied(
                    quad(old(pixels)@, q, c),
                    quad(old(pixels)@, q, 3),
                ),
            forall|i: int| 4 * p <= i < pixels@.len() ==> #[trigger] pixels@[i] == old(pixels)@[i],
            forall|q: int| 0 <= q < p ==> #[trigger] quad(pixels@, q, 3) == quad(old(pixels)@, q, 3),
        decreases count - p,
    {
        let at: usize = 4 * p;
        let alpha: u16 = pixels[at + 3] as u16;
        let ghost before = pixels@;
        assert(pixels[at as int] * alpha + 127 <= 65152) by (nonlinear_arith)
            requires
                pixels[at as int] <= 255,
                alpha <= 255,
        ;
        assert(pixels[at + 1] * alpha + 127 <= 65152) by (nonlinear_arith)
            requires
                pixels[at + 1] <= 255,
                alpha <= 255,
        ;
        assert(pixels[at + 2] * alpha + 127 <= 65152) by (nonlinear_arith)
            requires
                pixels[at + 2] <= 255,
                alpha <= 255,
        ;
        pixels[at] = ((pixels[at] as u16 * alpha + 127) / 255) as u8;
        pixels[at + 1] = ((pixels[at + 1] as u16 * alpha + 127) / 255) as u8;
        pixels[at + 2] = ((pixels[at + 2] as u16 * alpha + 127) / 255) as u8;
        proof {
            assert forall|q: int, c: int|
                0 <= q < p + 1 && 0 <= c < 3 implies #[trigger] quad(pixels@, q, c) == premultiplied(
                    quad(old(pixels)@, q, c),
                    quad(old(pixels)@, q, 3),
                ) by {
                if q < p {
                    assert(quad(before, q, c) == quad(pixels@, q, c));
                }
            }
            assert forall|q: int| 0 <= q < p + 1 implies #[trigger] quad(pixels@, q, 3) == quad(
                old(pixels)@,
                q,
                3,
            ) by {
                if q < p {
                    assert(quad(before, q, 3) == quad(pixels@, q, 3));
                }
            }
        }
        p += 1;
    }
}

/// Premultiplied colour never exceeds its alpha, so the compositor's
/// premultiplied blending stays in range; opaque colours are kept and fully
/// transparent ones become black.
pub proof fn premultiplied_channel_within_alpha(channel: u8, alpha: u8)
    ensures
        premultiplied(channel, alpha) <= alpha,
        premultiplied(channel, 255) == channel,
        premultiplied(channel, 0) == 0,
{
    let (c, a) = (channel as int, alpha as int);
    assert((c * a + 127) / 255 <= a) by (nonlinear_arith)
        requires
            0 <= c <= 255,
            0 <= a <= 255,
    ;
    assert((c * 255 + 127) / 255 == c) by (nonlinear_arith)
        requires
            0 <= c <= 255,
    ;
    assert(0 <= (c * a + 127) / 255) by (nonlinear_arith)
        requires
            0 <= c <= 255,
            0 <= a <= 255,
    ;
}

/// One test-pattern bar colour.
fn smpte_bar(index: usize) -> (rgba: [u8; 4])
    requires
        index <= 6,
    ensures
        rgba@ == bar_rgba(index as int),
{
    let rgba: [u8; 4] = if index == 0 {
        [191, 191, 191, 255]
    } else if index == 1 {
        [191, 191, 0, 255]
    } else if index == 2 {
        [0, 191, 191, 255]
    } else if index == 3 {
        [0, 191, 0, 255]
    } else if index == 4 {
        [191, 0, 191, 255]
    } else if index == 5 {
        [191, 0, 0, 255]
    } else {
        [0, 0, 191, 255]
    };
    assert(rgba@ =~= bar_rgba(index as int));
    rgba
}

impl SourcePixels {
    /// A picture of `width` by `height` from tightly packed RGBA bytes.
    pub fn rgba(width: u32, height: u32, rgba: Vec<u8>) -> (pixels: Self)
        ensures
            pixels.width == width,
            pixels.height == height,
            pixels.rgba@ == rgba@,
    {
        SourcePixels { width, height, rgba }
    }

    /// A single premultiplied pixel of `color`.
    pub fn color(color: [u8; 4]) -> (pixels: Self)
        ensures
            pixels.width == 1,
            pixels.height == 1,
            pixels.rgba@ == seq![
                premultiplied(color[0], color[3]),
                premultiplied(color[1], color[3]),
                premultiplied(color[2], color[3]),
                color[3],
            ],
    {
        let mut rgba: Vec<u8> = vec![color[0], color[1], color[2], color[3]];
        let ghost before = rgba@;
        premultiply_alpha(rgba.as_mut_slice());
        proof {
            assert(quad(rgba@, 0, 0) == premultiplied(quad(before, 0, 0), quad(before, 0, 3)));
            assert(quad(rgba@, 0, 1) == premultiplied(quad(before, 0, 1), quad(before, 0, 3)));
            assert(quad(rgba@, 0, 2) == premultiplied(quad(before, 0, 2), quad(before, 0, 3)));
            assert(quad(rgba@, 0, 3) == quad(before, 0, 3));
            assert(rgba@ =~= seq![
                premultiplied(color[0], color[3]),
                premultiplied(color[1], color[3]),
                premultiplied(color[2], color[3]),
                color[3],
            ]);
        }
        SourcePixels { width: 1, height: 1, rgba }
    }

    /// The colour-bar test pattern at `width` by `height`.
    #[verifier::loop_isolation(false)]
    pub fn smpte(width: u32, height: u32) -> (pixels: Self)
        requires
            width * height * 4 <= u32::MAX,
        ensures
            pixels.width == width,
            pixels.height == height,
            is_smpte_pattern(width, height, pixels.rgba@),
    {
        let mut rgba: Vec<u8> = vec![0; (width * height * 4) as usize];
        let mut y: u32 = 0;
        while y < height
            invariant
                y <= height,
                rgba@.len() == width * height * 4,
                forall|px: int, py: int, c: int|
                    0 <= px < width && 0 <= py < y && 0 <= c < 4 ==> #[trigger] image_byte(
                        rgba@,
                        width as int,
                        px,
                        py,
                        c,
                    ) == smpte_rgba(width as int, height as int, px, py)[c],
            decreases height - y,
        {
            let mut x: u32 = 0;
            while x < width
                invariant
                    x <= width,
                    y < height,
                    rgba@.len() == width * height * 4,
                    forall|px: int, py: int, c: int|
                        0 <= px < width && 0 <= py < y && 0 <= c < 4 ==> #[trigger] image_byte(
                            rgba@,
                            width as int,
                            px,
                            py,
                            c,
                        ) == smpte_rgba(width as int, height as int, px, py)[c],
                    forall|px: int, c: int|
                        0 <= px < x && 0 <= c < 4 ==> #[trigger] image_byte(
                            rgba@,
                            width as int,
                            px,
                            y as int,
                            c,
                        ) == smpte_rgba(width as int, height as int, px, y as int)[c],
                decreases width - x,
            {
                proof {
                    lemma_pixel_inside(width as int, height as int, x as int, y as int);
                }
                let scaled: u64 = x as u64 * 7 / width as u64;
                let bar: usize = if scaled < 6 {
                    scaled as usize
                } else {
                    6
                };
                let mut color: [u8; 4] = smpte_bar(bar);
                if y > height * 3 / 4 {
                    let checker = ((x / 24) + (y / 24)) % 2 == 0;
                    color = if checker {
                        [24, 27, 34, 255]
                    } else {
                        [225, 228, 234, 255]
                    };
                }
                assert(color@ =~= smpte_rgba(width as int, height as int, x as int, y as int));
                let offset: usize = ((y * width + x) * 4) as usize;
                let ghost before = rgba@;
                rgba.set(offset, color[0]);
                rgba.set(offset + 1, color[1]);
                rgba.set(offset + 2, color[2]);
                rgba.set(offset + 3, color[3]);
                proof {
                    assert forall|px: int, py: int, c: int|
                        0 <= px < width && 0 <= py < y && 0 <= c < 4 implies #[trigger] image_byte(
                            rgba@,
                            width as int,
                            px,
                            py,
                            c,
                        ) == smpte_rgba(width as int, height as int, px, py)[c] by {
                        lemma_pixel_before(width as int, px, py, x as int, y as int, c);
                        assert(image_byte(before, width as int, px, py, c) == image_byte(
                            rgba@,
                            width as int,
                            px,
                            py,
                            c,
                        ));
                    }
                    assert forall|px: int, c: int|
                        0 <= px < x + 1 && 0 <= c < 4 implies #[trigger] image_byte(
                            rgba@,
                            width as int,
                            px,
                            y as int,
                            c,
                        ) == smpte_rgba(width as int, height as int, px, y as int)[c] by {
                        if px < x {
                            assert(image_byte(before, width as int, px, y as int, c) == image_byte(
                                rgba@,
                                width as int,
                                px,
                                y as int,
                                c,
                            ));
                        }
                    }
                }
                x += 1;
            }
            y += 1;
        }
        SourcePixels { width, height, rgba }
    }

    /// The premultiplied picture decoded from an image file's bytes, with the
    /// decoder that the file's extension selects; a file without an extension
    /// is an error.
    pub fn image(bytes: &[u8], extension: Option<&str>) -> (result: Result<Self, image::ImageError>)
        ensures
            result is Ok <==> (extension matches Some(ext) && decoded_image(bytes@, ext@) is Some),
            result matches Ok(pixels) ==> (extension matches Some(ext) && decoded_image(bytes@, ext@)
                matches Some((width, height, raw)) && pixels.width == width && pixels.height == height
                && is_premultiplied(raw, pixels.rgba@)),
    {
        let (width, height, mut rgba) = match extension {
            Some(extension) => decode_image(bytes, extension)?,
            None => decode_without_format(bytes)?,
        };
        premultiply_alpha(rgba.as_mut_slice());
        Ok(SourcePixels { width, height, rgba })
    }
}

/// Pixel (`x`, `y`) of a `width` by `height` picture lies inside it, and its
/// offset in bytes fits in `u32`.
proof fn lemma_pixel_inside(width: int, height: int, x: int, y: int)
    by (nonlinear_arith)
    requires
        0 <= x < width,
        0 <= y < height,
        width * height * 4 <= u32::MAX,
    ensures
        0 <= width * y + x < width * height,
        4 * (width * y + x) + 3 < width * height * 4,
        (y * width + x) * 4 == 4 * (width * y + x),
        y * width <= u32::MAX,
        y * width + x <= u32::MAX,
        (y * width + x) * 4 <= u32::MAX,
        height * 3 <= u32::MAX,
{
}

/// A pixel in an earlier row lies before every byte of a later pixel.
proof fn lemma_pixel_before(width: int, px: int, py: int, x: int, y: int, c: int)
    by (nonlinear_arith)
    requires
        0 <= px < width,
        0 <= py < y,
        0 <= x,
        0 <= c < 4,
    ensures
        4 * (width * py + px) + c < 4 * (width * y + x),
{
}

} // verus!
