//! Verified core of a terminal audio visualizer: demultiplexing a raw
//! little-endian PCM byte stream into samples, laying out frequency bins for
//! a windowed spectral transform, peak-hold/exponential-decay smoothing of
//! successive spectra, and rendering magnitude bars as text lines.

pub mod demux;
pub mod format;
pub mod render;
pub mod smooth;
pub mod spectrum;
pub mod stream;
