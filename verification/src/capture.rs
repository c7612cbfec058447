use vstd::prelude::*;
use vstd::string::*;

verus! {

/// The error type of the operating system's I/O calls.
#[verifier::external_type_specification]
#[verifier::external_body]
pub struct ExIoError(std::io::Error);

/// What a capture backend records.
#[derive(Debug, Clone, Copy, PartialEq, Eq, Structural)]
pub enum CaptureKind {
    Screen,
    Window,
    Webcam,
}

/// The life cycle of a capture backend.
#[derive(Debug, Clone, Copy, PartialEq, Eq, Structural)]
pub enum CaptureState {
    Starting,
    Active,
    Lost,
    Stopped,
    Error,
}

/// What a capture backend reports about its stream.
#[derive(Debug, Clone, PartialEq, Eq)]
pub struct SourceInfo {
    pub name: String,
    pub kind: CaptureKind,
    pub width: u32,
    pub height: u32,
    pub fps_num: u32,
    pub fps_den: u32,
}

/// Messages from a capture backend.
#[derive(Debug, Clone, PartialEq, Eq)]
pub enum CaptureEvent {
    State(CaptureState),
    Info(SourceInfo),
    RestoreToken(String),
    Error(String),
}

/// Why a capture backend could not start.
#[derive(Debug)]
pub enum CaptureError {
    AlreadyRunning,
    Backend(String),
    Thread(std::io::Error),
}

/// The display name of a capture kind.
pub open spec fn kind_name(kind: CaptureKind) -> Seq<char> {
    match kind {
        CaptureKind::Screen => "Screen"@,
        CaptureKind::Window => "Window"@,
        CaptureKind::Webcam => "Webcam"@,
    }
}

/// The display name of a capture kind.
pub fn kind_label(kind: CaptureKind) -> (label: &'static str)
    ensures
        label@ == kind_name(kind),
{
    match kind {
        CaptureKind::Screen => "Screen",
        CaptureKind::Window => "Window",
        CaptureKind::Webcam => "Webcam",
    }
}

/// A backend failure carrying the text of an I/O error.
pub fn backend_error(error: std::io::Error) -> (result: CaptureError)
    ensures
        result matches CaptureError::Backend(message) && to_string_from_display_ensures::<
            std::io::Error,
        >(&error, message),
{
    CaptureError::Backend(error.to_string())
}

/// The name under which a screen or window capture is listed: the kind's name
/// followed by " Capture".
pub fn capture_name(kind: CaptureKind) -> (name: String)
    ensures
        name@ == kind_name(kind) + " Capture"@,
{
    String::from_str(kind_label(kind)).concat(" Capture")
}

/// What a screen or window capture reports before its stream is negotiated.
pub fn portal_source_info(kind: CaptureKind) -> (info: SourceInfo)
    ensures
        info.name@ == kind_name(kind) + " Capture"@,
        info.kind == kind,
        info.width == 0,
        info.height == 0,
        info.fps_num == 0,
        info.fps_den == 1,
{
    SourceInfo { name: capture_name(kind), kind, width: 0, height: 0, fps_num: 0, fps_den: 1 }
}

/// What a screen or window capture reports once its stream format is negotiated:
/// the negotiated size and frame rate, with a frame-rate denominator of at least 1.
pub fn portal_negotiated_info(kind: CaptureKind, width: u32, height: u32, fps_num: u32, fps_den: u32) -> (info:
    SourceInfo)
    ensures
        info.name@ == kind_name(kind) + " Capture"@,
        info.kind == kind,
        info.width == width,
        info.height == height,
        info.fps_num == fps_num,
        info.fps_den == if fps_den < 1 {
            1
        } else {
            fps_den
        },
{
    let fps_den: u32 = if fps_den < 1 {
        1
    } else {
        fps_den
    };
    SourceInfo { name: capture_name(kind), kind, width, height, fps_num, fps_den }
}

} // verus!
