use vstd::prelude::*;

use std::path::PathBuf;
use std::time::Duration;

use crate::capture::{CaptureKind, SourceInfo};
use crate::frame::{FrameBuffer, PixelFormat, VideoFrame};
use crate::pool::FramePool;
use crate::convert::pool_after;

verus! {

/// A filesystem path.
#[verifier::external_type_specification]
#[verifier::external_body]
pub struct ExPathBuf(PathBuf);

/// `PathBuf::clone`, which the derived `Clone` of `WebcamDevice` calls (Verus
/// refuses that derive without it). Trusted: the copy is the same path.
pub assume_specification[ <PathBuf as Clone>::clone ](path: &PathBuf) -> (copy: PathBuf)
    ensures
        copy == *path,
;

/// A video device node.
#[derive(Debug, Clone, PartialEq, Eq)]
pub struct WebcamDevice {
    pub path: PathBuf,
    pub name: String,
}

/// A format, size and frame rate that a webcam offers.
#[derive(Debug, Clone, Copy, PartialEq, Eq)]
pub struct WebcamMode {
    pub format: [u8; 4],
    pub width: u32,
    pub height: u32,
    pub fps: u32,
}

/// The mode a webcam capture asks for.
#[derive(Debug, Clone)]
pub struct WebcamConfig {
    pub device: WebcamDevice,
    pub width: u32,
    pub height: u32,
    pub fps: u32,
}

/// Frames per second of a frame interval of `numerator / denominator` seconds;
/// 30 where the interval is empty, and never below one.
pub open spec fn spec_interval_fps(numerator: u32, denominator: u32) -> u32 {
    let fps = if numerator > 0 {
        denominator / numerator
    } else {
        30
    };
    if fps < 1 {
        1
    } else {
        fps
    }
}

/// Frames per second of a frame interval of `numerator / denominator` seconds.
pub fn interval_fps(numerator: u32, denominator: u32) -> (fps: u32)
    ensures
        fps == spec_interval_fps(numerator, denominator),
{
    let fps: u32 = if numerator > 0 {
        denominator / numerator
    } else {
        30
    };
    if fps < 1 {
        1
    } else {
        fps
    }
}

/// The capture configuration for `mode` of `device`, at no more than 60 frames
/// per second.
pub fn webcam_config(device: WebcamDevice, mode: &WebcamMode) -> (config: WebcamConfig)
    ensures
        config.device == device,
        config.width == mode.width,
        config.height == mode.height,
        config.fps == if mode.fps < 60 {
            mode.fps
        } else {
            60
        },
{
    WebcamConfig {
        device,
        width: mode.width,
        height: mode.height,
        fps: if mode.fps < 60 {
            mode.fps
        } else {
            60
        },
    }
}

/// What a webcam capture reports before its device is opened: the requested mode.
pub fn webcam_source_info(config: &WebcamConfig) -> (info: SourceInfo)
    ensures
        info.name@ == config.device.name@,
        info.kind == CaptureKind::Webcam,
        info.width == config.width,
        info.height == config.height,
        info.fps_num == config.fps,
        info.fps_den == 1,
{
    SourceInfo {
        name: config.device.name.clone(),
        kind: CaptureKind::Webcam,
        width: config.width,
        height: config.height,
        fps_num: config.fps,
        fps_den: 1,
    }
}

/// What a webcam capture reports once the device accepted a format and a frame
/// interval of `numerator / denominator` seconds.
pub fn negotiated_source_info(name: String, width: u32, height: u32, numerator: u32, denominator: u32) -> (info:
    SourceInfo)
    ensures
        info.name == name,
        info.kind == CaptureKind::Webcam,
        info.width == width,
        info.height == height,
        info.fps_num == denominator,
        info.fps_den == if numerator < 1 {
            1
        } else {
            numerator
        },
{
    SourceInfo {
        name,
        kind: CaptureKind::Webcam,
        width,
        height,
        fps_num: denominator,
        fps_den: if numerator < 1 {
            1
        } else {
            numerator
        },
    }
}

/// The row pitch of a YUYV frame: the driver's, or two bytes per pixel where it
/// reports none.
pub open spec fn yuyv_stride(width: u32, stride: u32) -> int {
    if stride == 0 {
        width * 2
    } else {
        stride as int
    }
}

/// Copies a YUYV frame delivered by the driver; bytes missing at the end stay zero.
pub fn copy_yuyv(
    bytes: &[u8],
    width: u32,
    height: u32,
    stride: u32,
    timestamp: Duration,
    pool: &mut FramePool,
) -> (frame: VideoFrame)
    requires
        old(pool).wf(),
        width * 2 <= usize::MAX,
        yuyv_stride(width, stride) * height <= usize::MAX,
    ensures
        pool_after(*old(pool), *final(pool), true),
        frame.format == PixelFormat::Yuyv,
        frame.width == width,
        frame.height == height,
        frame.stride == yuyv_stride(width, stride),
        frame.timestamp == timestamp,
        frame.data@.len() == frame.stride * height,
        forall|i: int|
            0 <= i < frame.data@.len() ==> #[trigger] frame.data@[i] == if i < bytes@.len() {
                bytes@[i]
            } else {
                0
            },
{
    let row_pitch: usize = if stride == 0 {
        width as usize * 2
    } else {
        stride as usize
    };
    let len: usize = row_pitch * height as usize;
    let mut data = pool.acquire(len);
    let copied: usize = if len < bytes.len() {
        len
    } else {
        bytes.len()
    };
    let mut i: usize = 0;
    while i < copied
        invariant
            copied <= len,
            copied <= bytes@.len(),
            data@.len() == len,
            i <= copied,
            forall|j: int|
                0 <= j < len ==> #[trigger] data@[j] == if j < i {
                    bytes@[j]
                } else {
                    0
                },
        decreases copied - i,
    {
        data.set(i, bytes[i]);
        i += 1;
    }
    VideoFrame { data, format: PixelFormat::Yuyv, width, height, stride: row_pitch, timestamp }
}

/// The picture that the image crate decodes from JPEG `bytes`, as width, height
/// and RGBA bytes, or `None` where it reports an error.
pub uninterp spec fn decoded_jpeg(bytes: Seq<u8>) -> Option<(u32, u32, Seq<u8>)>;

/// Decodes a JPEG picture through `image::load_from_memory_with_format` and
/// `DynamicImage::into_rgba8`, keeping the error's message.
/// Trusted: the result is the one `decoded_jpeg` names for the bytes; JPEG
/// sizes are 16-bit (the decoder keeps them as `u16`), and an RGBA buffer holds
/// at least four bytes per pixel (`ImageBuffer::from_raw` checks this).
#[verifier::external_body]
fn decode_jpeg(bytes: &[u8]) -> (result: Result<(u32, u32, Vec<u8>), String>)
    ensures
        match result {
            Ok((width, height, rgba)) => decoded_jpeg(bytes@) == Some((width, height, rgba@))
                && width <= 65535 && height <= 65535 && width * height * 4 <= rgba@.len(),
            Err(_) => decoded_jpeg(bytes@) is None,
        },
{
    let image = match image::load_from_memory_with_format(bytes, image::ImageFormat::Jpeg) {
        Ok(image) => image.into_rgba8(),
        Err(error) => return Err(error.to_string()),
    };
    let (width, height) = image.dimensions();
    Ok((width, height, image.into_raw()))
}

/// An RGBA frame decoded from a motion-JPEG frame.
pub fn decode_mjpeg(bytes: &[u8], timestamp: Duration, pool: &mut FramePool) -> (result: Result<
    VideoFrame,
    String,
>)
    requires
        old(pool).wf(),
    ensures
        pool_after(*old(pool), *final(pool), result is Ok),
        result is Ok <==> decoded_jpeg(bytes@) is Some,
        result matches Ok(frame) ==> decoded_jpeg(bytes@) matches Some((width, height, rgba)) && {
            &&& frame.format == PixelFormat::Rgba
            &&& frame.width == width
            &&& frame.height == height
            &&& frame.stride == width * 4
            &&& frame.timestamp == timestamp
            &&& frame.data@ == rgba
        },
{
    let (width, height, pixels) = decode_jpeg(bytes)?;
    let mut data = pool.acquire(pixels.len());
    let mut i: usize = 0;
    while i < pixels.len()
        invariant
            data@.len() == pixels@.len(),
            i <= pixels@.len(),
            forall|j: int| 0 <= j < i ==> #[trigger] data@[j] == pixels@[j],
        decreases pixels@.len() - i,
    {
        data.set(i, pixels[i]);
        i += 1;
    }
    proof {
        assert(data@ =~= pixels@);
    }
    Ok(VideoFrame { data, format: PixelFormat::Rgba, width, height, stride: width as usize * 4, timestamp })
}

// ---------------------------------------------------------------------------
// Listing the modes of a device.
// ---------------------------------------------------------------------------

/// Modes are listed by width, then height, then frame rate.
pub open spec fn mode_key_le(a: WebcamMode, b: WebcamMode) -> bool {
    ||| a.width < b.width
    ||| a.width == b.width && a.height < b.height
    ||| a.width == b.width && a.height == b.height && a.fps <= b.fps
}

/// `m` inserted into `modes` after the last mode that does not list after it.
pub open spec fn insert_mode(modes: Seq<WebcamMode>, m: WebcamMode) -> Seq<WebcamMode>
    decreases modes.len(),
{
    if modes.len() == 0 {
        seq![m]
    } else if mode_key_le(modes.last(), m) {
        modes.push(m)
    } else {
        insert_mode(modes.drop_last(), m).push(modes.last())
    }
}

/// `modes` in listing order; modes that list alike keep their order (a stable sort).
pub open spec fn sorted_modes(modes: Seq<WebcamMode>) -> Seq<WebcamMode>
    decreases modes.len(),
{
    if modes.len() == 0 {
        modes
    } else {
        insert_mode(sorted_modes(modes.drop_last()), modes.last())
    }
}

/// `modes` with each run of equal neighbours cut to its first mode.
pub open spec fn dedup_modes(modes: Seq<WebcamMode>) -> Seq<WebcamMode>
    decreases modes.len(),
{
    if modes.len() <= 1 {
        modes
    } else if modes[modes.len() - 2] == modes.last() {
        dedup_modes(modes.drop_last())
    } else {
        dedup_modes(modes.drop_last()).push(modes.last())
    }
}

/// Every mode lists no later than every mode after it.
pub open spec fn modes_ascending(modes: Seq<WebcamMode>) -> bool {
    forall|i: int, j: int| 0 <= i < j < modes.len() ==> mode_key_le(#[trigger] modes[i], #[trigger] modes[j])
}

/// No two neighbours are the same mode.
pub open spec fn modes_distinct_neighbours(modes: Seq<WebcamMode>) -> bool {
    forall|i: int| 0 <= i < modes.len() - 1 ==> #[trigger] modes[i] != modes[i + 1]
}

/// Whether two modes agree in every field.
fn modes_equal(a: &WebcamMode, b: &WebcamMode) -> (equal: bool)
    ensures
        equal == (*a == *b),
{
    broadcast use vstd::array::axiom_array_ext_equal;

    let equal = a.format[0] == b.format[0] && a.format[1] == b.format[1] && a.format[2] == b.format[2]
        && a.format[3] == b.format[3] && a.width == b.width && a.height == b.height && a.fps == b.fps;
    proof {
        if a.format[0] == b.format[0] && a.format[1] == b.format[1] && a.format[2] == b.format[2]
            && a.format[3] == b.format[3] {
            assert(a.format@ =~= b.format@);
            assert(a.format == b.format);
        }
    }
    equal
}

/// Whether `a` lists after `b`.
fn lists_after(a: &WebcamMode, b: &WebcamMode) -> (after: bool)
    ensures
        after == !mode_key_le(*a, *b),
{
    if a.width != b.width {
        a.width > b.width
    } else if a.height != b.height {
        a.height > b.height
    } else {
        a.fps > b.fps
    }
}

/// Inserting by scanning from the end stops where `insert_mode` inserts.
proof fn lemma_insert_at(modes: Seq<WebcamMode>, m: WebcamMode, pos: int)
    requires
        0 <= pos <= modes.len(),
        forall|j: int| pos <= j < modes.len() ==> !mode_key_le(#[trigger] modes[j], m),
        pos == 0 || mode_key_le(modes[pos - 1], m),
    ensures
        insert_mode(modes, m) == modes.insert(pos, m),
    decreases modes.len(),
{
    if modes.len() == 0 {
        assert(modes.insert(pos, m) =~= seq![m]);
    } else if mode_key_le(modes.last(), m) {
        assert(pos == modes.len());
        assert(modes.insert(pos, m) =~= modes.push(m));
    } else {
        let shorter = modes.drop_last();
        lemma_insert_at(shorter, m, pos);
        assert(shorter.insert(pos, m).push(modes.last()) =~= modes.insert(pos, m));
    }
}

/// The modes in listing order, each run of equal neighbours cut to one mode
/// (a stable sort by width, height and frame rate, then a dedup).
pub fn normalize_modes(modes: &Vec<WebcamMode>) -> (normalized: Vec<WebcamMode>)
    ensures
        normalized@ == dedup_modes(sorted_modes(modes@)),
{
    let mut sorted: Vec<WebcamMode> = Vec::new();
    let mut i: usize = 0;
    while i < modes.len()
        invariant
            i <= modes@.len(),
            sorted@ == sorted_modes(modes@.take(i as int)),
        decreases modes@.len() - i,
    {
        let m = modes[i];
        let mut pos: usize = sorted.len();
        while pos > 0 && lists_after(&sorted[pos - 1], &m)
            invariant
                pos <= sorted@.len(),
                forall|j: int| pos <= j < sorted@.len() ==> !mode_key_le(#[trigger] sorted@[j], m),
            decreases pos,
        {
            pos -= 1;
        }
        proof {
            lemma_insert_at(sorted@, m, pos as int);
            assert(modes@.take(i + 1).drop_last() =~= modes@.take(i as int));
        }
        sorted.insert(pos, m);
        i += 1;
    }
    proof {
        assert(modes@.take(modes@.len() as int) =~= modes@);
    }
    let mut normalized: Vec<WebcamMode> = Vec::new();
    let mut k: usize = 0;
    while k < sorted.len()
        invariant
            k <= sorted@.len(),
            normalized@ == dedup_modes(sorted@.take(k as int)),
        decreases sorted@.len() - k,
    {
        proof {
            assert(sorted@.take(k + 1).drop_last() =~= sorted@.take(k as int));
        }
        if k == 0 || !modes_equal(&sorted[k - 1], &sorted[k]) {
            normalized.push(sorted[k]);
        }
        proof {
            if k == 0 {
                assert(sorted@.take(1) =~= seq![sorted@[0]]);
                assert(normalized@ =~= sorted@.take(1));
            }
        }
        k += 1;
    }
    proof {
        assert(sorted@.take(sorted@.len() as int) =~= sorted@);
    }
    normalized
}

/// Inserting a mode adds it and keeps the others.
proof fn lemma_insert_contains(modes: Seq<WebcamMode>, m: WebcamMode)
    ensures
        insert_mode(modes, m).len() == modes.len() + 1,
        forall|x: WebcamMode| #[trigger] insert_mode(modes, m).contains(x) <==> (x == m || modes.contains(x)),
    decreases modes.len(),
{
    broadcast use vstd::seq_lib::group_seq_properties;

    if modes.len() == 0 {
    } else if mode_key_le(modes.last(), m) {
    } else {
        let shorter = modes.drop_last();
        lemma_insert_contains(shorter, m);
        assert(modes =~= shorter.push(modes.last()));
    }
}

/// Sorting keeps exactly the modes it was given.
proof fn lemma_sorted_contains(modes: Seq<WebcamMode>)
    ensures
        sorted_modes(modes).len() == modes.len(),
        forall|x: WebcamMode| #[trigger] sorted_modes(modes).contains(x) <==> modes.contains(x),
    decreases modes.len(),
{
    broadcast use vstd::seq_lib::group_seq_properties;

    if modes.len() > 0 {
        let shorter = modes.drop_last();
        lemma_sorted_contains(shorter);
        lemma_insert_contains(sorted_modes(shorter), modes.last());
        assert(modes =~= shorter.push(modes.last()));
    }
}

/// Inserting into a listing-ordered sequence keeps it in listing order.
proof fn lemma_insert_ascending(modes: Seq<WebcamMode>, m: WebcamMode)
    requires
        modes_ascending(modes),
    ensures
        modes_ascending(insert_mode(modes, m)),
    decreases modes.len(),
{
    broadcast use vstd::seq_lib::group_seq_properties;

    if modes.len() == 0 {
    } else if mode_key_le(modes.last(), m) {
        let longer = modes.push(m);
        assert forall|i: int, j: int| 0 <= i < j < longer.len() implies mode_key_le(
            #[trigger] longer[i],
            #[trigger] longer[j],
        ) by {
            if j == modes.len() && i < modes.len() - 1 {
                assert(mode_key_le(modes[i], modes[modes.len() - 1]));
            }
        }
    } else {
        let shorter = modes.drop_last();
        let last = modes.last();
        assert(modes_ascending(shorter));
        lemma_insert_ascending(shorter, m);
        lemma_insert_contains(shorter, m);
        let inserted = insert_mode(shorter, m);
        let longer = inserted.push(last);
        assert forall|i: int, j: int| 0 <= i < j < longer.len() implies mode_key_le(
            #[trigger] longer[i],
            #[trigger] longer[j],
        ) by {
            if j == inserted.len() {
                let x = inserted[i];
                assert(inserted.contains(x));
                if x != m {
                    assert(shorter.contains(x));
                    let k = choose|k: int| 0 <= k < shorter.len() && shorter[k] == x;
                    assert(mode_key_le(modes[k], modes[modes.len() - 1]));
                }
            }
        }
    }
}

/// Sorting puts the modes in listing order.
proof fn lemma_sorted_ascending(modes: Seq<WebcamMode>)
    ensures
        modes_ascending(sorted_modes(modes)),
    decreases modes.len(),
{
    if modes.len() > 0 {
        lemma_sorted_ascending(modes.drop_last());
        lemma_insert_ascending(sorted_modes(modes.drop_last()), modes.last());
    }
}

/// Dropping repeated neighbours keeps every distinct mode and the last one.
proof fn lemma_dedup_contains(modes: Seq<WebcamMode>)
    ensures
        forall|x: WebcamMode| #[trigger] dedup_modes(modes).contains(x) <==> modes.contains(x),
        modes.len() > 0 ==> dedup_modes(modes).len() > 0 && dedup_modes(modes).last() == modes.last(),
    decreases modes.len(),
{
    broadcast use vstd::seq_lib::group_seq_properties;

    if modes.len() > 1 {
        let shorter = modes.drop_last();
        lemma_dedup_contains(shorter);
        assert(modes =~= shorter.push(modes.last()));
        if modes[modes.len() - 2] == modes.last() {
            assert(shorter.contains(modes.last()));
        }
    }
}

/// Dropping repeated neighbours keeps listing order and leaves no repeated neighbours.
proof fn lemma_dedup_ascending(modes: Seq<WebcamMode>)
    requires
        modes_ascending(modes),
    ensures
        modes_ascending(dedup_modes(modes)),
        modes_distinct_neighbours(dedup_modes(modes)),
    decreases modes.len(),
{
    broadcast use vstd::seq_lib::group_seq_properties;

    if modes.len() > 1 {
        let shorter = modes.drop_last();
        let last = modes.last();
        assert(modes_ascending(shorter));
        lemma_dedup_ascending(shorter);
        lemma_dedup_contains(shorter);
        let kept = dedup_modes(shorter);
        if modes[modes.len() - 2] != last {
            let longer = kept.push(last);
            assert forall|i: int, j: int| 0 <= i < j < longer.len() implies mode_key_le(
                #[trigger] longer[i],
                #[trigger] longer[j],
            ) by {
                if j == kept.len() {
                    let x = kept[i];
                    assert(kept.contains(x));
                    let k = choose|k: int| 0 <= k < shorter.len() && shorter[k] == x;
                    assert(mode_key_le(modes[k], modes[modes.len() - 1]));
                }
            }
            assert forall|i: int| 0 <= i < longer.len() - 1 implies #[trigger] longer[i] != longer[i + 1] by {
                if i == kept.len() - 1 {
                    assert(kept.last() == shorter.last());
                }
            }
        }
    }
}

/// The modes that `normalize_modes` lists are in order of width, height and
/// frame rate, are exactly the modes offered, and no two neighbours repeat.
pub proof fn normalized_modes_are_ordered(modes: Seq<WebcamMode>)
    ensures
        modes_ascending(dedup_modes(sorted_modes(modes))),
        modes_distinct_neighbours(dedup_modes(sorted_modes(modes))),
        forall|x: WebcamMode| #[trigger] dedup_modes(sorted_modes(modes)).contains(x) <==> modes.contains(x),
{
    lemma_sorted_ascending(modes);
    lemma_sorted_contains(modes);
    lemma_dedup_ascending(sorted_modes(modes));
    lemma_dedup_contains(sorted_modes(modes));
}

/// The modes that `normalize_modes` lists run by width, then height, then frame
/// rate: for any two positions `i < j`, mode `i` is narrower, or as wide and
/// lower, or the same size at no higher a frame rate. Every mode offered is
/// listed and nothing else.
pub proof fn normalized_modes_sorted_by_width_height_fps(modes: Seq<WebcamMode>, i: int, j: int)
    ensures
        ({
            let listed = dedup_modes(sorted_modes(modes));
            0 <= i < j < listed.len() ==> {
                ||| listed[i].width < listed[j].width
                ||| listed[i].width == listed[j].width && listed[i].height < listed[j].height
                ||| listed[i].width == listed[j].width && listed[i].height == listed[j].height
                    && listed[i].fps <= listed[j].fps
            }
        }),
        forall|x: WebcamMode| #[trigger] dedup_modes(sorted_modes(modes)).contains(x) <==> modes.contains(x),
{
    normalized_modes_are_ordered(modes);
    let listed = dedup_modes(sorted_modes(modes));
    if 0 <= i < j < listed.len() {
        assert(mode_key_le(listed[i], listed[j]));
    }
}

/// The modes offered for one format and frame size: one per frame interval,
/// or one at 30 frames per second where the device lists no interval.
pub fn push_size_modes(result: &mut Vec<WebcamMode>, format: [u8; 4], width: u32, height: u32, intervals: &Vec<(u32, u32)>)
    ensures
        intervals@.len() == 0 ==> final(result)@ == old(result)@.push(
            WebcamMode { format, width, height, fps: 30 },
        ),
        intervals@.len() > 0 ==> {
            &&& final(result)@.len() == old(result)@.len() + intervals@.len()
            &&& final(result)@.take(old(result)@.len() as int) == old(result)@
            &&& forall|j: int|
                0 <= j < intervals@.len() ==> #[trigger] final(result)@[old(result)@.len() + j] == (WebcamMode {
                    format,
                    width,
                    height,
                    fps: spec_interval_fps(intervals@[j].0, intervals@[j].1),
                })
        },
{
    if intervals.len() == 0 {
        result.push(WebcamMode { format, width, height, fps: 30 });
        return ;
    }
    let ghost start = old(result)@;
    let mut j: usize = 0;
    while j < intervals.len()
        invariant
            j <= intervals@.len(),
            result@.len() == start.len() + j,
            result@.take(start.len() as int) == start,
            forall|m: int|
                0 <= m < j ==> #[trigger] result@[start.len() + m] == (WebcamMode {
                    format,
                    width,
                    height,
                    fps: spec_interval_fps(intervals@[m].0, intervals@[m].1),
                }),
        decreases intervals@.len() - j,
    {
        let (numerator, denominator) = intervals[j];
        let ghost before = result@;
        result.push(WebcamMode { format, width, height, fps: interval_fps(numerator, denominator) });
        proof {
            assert(result@.take(start.len() as int) =~= before.take(start.len() as int));
            assert forall|m: int| 0 <= m < j + 1 implies #[trigger] result@[start.len() + m] == (WebcamMode {
                format,
                width,
                height,
                fps: spec_interval_fps(intervals@[m].0, intervals@[m].1),
            }) by {
                if m < j {
                    assert(result@[start.len() + m] == before[start.len() + m]);
                }
            }
        }
        j += 1;
    }
}

} // verus!
