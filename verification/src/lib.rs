//! Frame transport, pixel conversion, and studio bookkeeping for a Linux
//! screen-recording application, with the behaviour of each piece stated in
//! its contract.

pub mod frame;
pub mod pool;
pub mod capture;
pub mod convert;
pub mod pixels;
pub mod render;
pub mod state;
pub mod stream;
pub mod studio;
pub mod webcam;

pub use capture::{
    CaptureError, CaptureEvent, CaptureKind, CaptureState, SourceInfo, backend_error, capture_name,
    kind_label, portal_negotiated_info, portal_source_info,
};
pub use convert::{ConvertError, convert};
pub use frame::{FrameBuffer, PixelFormat, VideoFrame};
pub use pool::FramePool;
pub use pixels::SourcePixels;
pub use render::{CanvasSize, RenderError, packed_rgba, remove_layer};
pub use state::{Command, Scene, Source, SourceKind, SourceStatus, ThemePreference};
pub use webcam::{WebcamConfig, WebcamDevice, WebcamMode};
