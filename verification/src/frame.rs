use vstd::prelude::*;

use std::time::Duration;

verus! {

/// Pixel layouts that capture backends deliver.
#[derive(Debug, Clone, Copy, PartialEq, Eq, Structural)]
pub enum PixelFormat {
    Rgba,
    Bgra,
    Rgbx,
    Bgrx,
    Yuyv,
    Nv12,
    Mjpeg,
}

/// The bytes of one frame.
#[derive(Debug)]
pub struct FrameBuffer {
    data: Vec<u8>,
}

impl View for FrameBuffer {
    type V = Seq<u8>;

    closed spec fn view(&self) -> Seq<u8> {
        self.data@
    }
}

impl FrameBuffer {
    /// A buffer never holds more bytes than `usize` counts.
    pub broadcast proof fn lemma_len_fits(buffer: &FrameBuffer)
        ensures
            #[trigger] buffer@.len() <= usize::MAX,
    {
        assert(buffer.data.len() == buffer.data@.len());
    }

    /// Wraps `data` as a frame buffer.
    pub fn new(data: Vec<u8>) -> (buffer: Self)
        ensures
            buffer@ == data@,
    {
        FrameBuffer { data }
    }

    /// The bytes, for reading.
    pub fn as_slice(&self) -> (bytes: &[u8])
        ensures
            bytes@ == self@,
    {
        self.data.as_slice()
    }

    /// The bytes, for writing in place.
    pub fn as_mut_slice(&mut self) -> (bytes: &mut [u8])
        ensures
            bytes@ == old(self)@,
            final(bytes)@ == final(self)@,
    {
        self.data.as_mut_slice()
    }

    /// Number of bytes held.
    pub fn len(&self) -> (len: usize)
        ensures
            len == self@.len(),
    {
        self.data.len()
    }

    /// Whether no byte is held.
    pub fn is_empty(&self) -> (empty: bool)
        ensures
            empty == (self@.len() == 0),
    {
        self.len() == 0
    }

    /// Overwrites the byte at `index`.
    pub fn set(&mut self, index: usize, value: u8)
        requires
            index < old(self)@.len(),
        ensures
            final(self)@ == old(self)@.update(index as int, value),
    {
        self.data.set(index, value);
    }

    /// Gives the bytes back as a vector.
    pub fn into_vec(self) -> (data: Vec<u8>)
        ensures
            data@ == self@,
    {
        self.data
    }
}

/// One captured or converted video frame.
#[derive(Debug)]
pub struct VideoFrame {
    pub data: FrameBuffer,
    pub format: PixelFormat,
    pub width: u32,
    pub height: u32,
    /// Bytes between the first pixel of adjacent rows.
    pub stride: usize,
    pub timestamp: Duration,
}

/// `stride * height`, saturated at `usize::MAX`.
pub open spec fn spec_packed_len(stride: usize, height: u32) -> int {
    if stride * height <= usize::MAX {
        stride * height
    } else {
        usize::MAX as int
    }
}

impl VideoFrame {
    /// Bytes that `height` rows of `stride` bytes occupy, saturating at `usize::MAX`.
    pub fn packed_len(&self) -> (len: usize)
        ensures
            len == spec_packed_len(self.stride, self.height),
    {
        match self.stride.checked_mul(self.height as usize) {
            Some(len) => len,
            None => usize::MAX,
        }
    }
}

} // verus!
