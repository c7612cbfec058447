use vstd::prelude::*;

verus! {

/// The colour scheme of the studio window.
#[derive(Debug, Clone, Copy, Default, PartialEq, Eq, Structural)]
pub enum ThemePreference {
    #[default]
    Dark,
    Light,
}

/// One scene of the studio.
#[derive(Debug, Clone, Default, PartialEq, Eq)]
pub struct Scene {
    pub name: String,
}

/// What a studio source shows.
#[derive(Debug, Clone, Copy, Default, PartialEq, Eq, Structural)]
pub enum SourceKind {
    #[default]
    Screen,
    Window,
    Webcam,
    Image,
    Color,
}

/// How a studio source is doing.
#[derive(Debug, Clone, Copy, Default, PartialEq, Eq, Structural)]
pub enum SourceStatus {
    #[default]
    Starting,
    Active,
    Lost,
    Error,
    Stopped,
}

/// A source listed in the studio.
#[derive(Debug, Clone, Default, PartialEq, Eq)]
pub struct Source {
    pub id: u64,
    pub name: String,
    pub kind: SourceKind,
    pub status: SourceStatus,
    pub visible: bool,
}

/// Requests from the interface to the core.
#[derive(Debug, Clone, PartialEq)]
pub enum Command {
    StartRecording,
    StopRecording,
    StartStreaming,
    StopStreaming,
    AddSource { name: String },
    RemoveSource { name: String },
    Shutdown,
}

} // verus!
