//! Asset pipeline and resource core for a fixed-function renderer: the binary
//! mesh format, the scene exporter that feeds it, the loader, the resource
//! registry and the per-frame draw planner.

pub mod bytes;
pub mod model;
pub mod codec;
pub mod codec_laws;
pub mod exporter;
pub mod asset;
pub mod registry;
pub mod renderer;

