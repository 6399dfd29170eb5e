//! Verified core of a live audio visualizer: the bounded sample history and
//! the bookkeeping around spectral analysis.
pub mod analyzer;
pub mod circular_buffer;
pub mod dominant;
pub mod frame_timer;
