# wops

The core of a Linux screen-recording studio, written in Verus. Every function in
`src/` has a contract, and Verus proves it. What Verus takes on trust is kept to
a few items, each with a doc comment that says what is assumed:

- the wrappers around the `image` crate's decoders (`decode_image` and
  `decode_without_format` in `src/pixels.rs`, `decode_jpeg` in `src/webcam.rs`) and
  the names `decoded_image` and `decoded_jpeg` for what they return;
- the contract of `PathBuf::clone` (`src/webcam.rs`);
- the declarations of the outside types `image::ImageError`, `std::io::Error` and
  `PathBuf`, which Verus sees only as opaque values.

- `src/frame.rs`, `src/pool.rs`: frame buffers and the bounded pool they come from.
- `src/convert.rs`: pixel-format conversion (BGRA/BGRx/RGBx to RGBA, YUYV to RGBA,
  packed copies), stated byte for byte.
- `src/stream.rs`, `src/webcam.rs`: turning screen-capture and webcam buffers into
  frames, webcam mode lists and frame rates, and MJPEG decoding through the `image` crate.
- `src/render.rs`, `src/pixels.rs`: canvas sizes, how RGBA rows are packed for
  upload, premultiplied alpha, the test pattern, and image decoding.
- `src/studio.rs`, `src/state.rs`, `src/capture.rs`: sources, scenes, and how capture
  events update them.
- `app/`: the program around the library (window, GPU compositor, desktop portal and
  V4L2 capture, settings on disk). Verus does not check it. Frames go back to the
  pool of the thread that filled them once the window has shown them.
- `tests/`: tests of the library.
