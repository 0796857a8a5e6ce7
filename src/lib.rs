//! A voxel world with exact coordinate arithmetic, visible-face extraction,
//! and a composition algebra for multi-stage render pipelines.

pub mod bound;
pub mod display;
pub mod framing;
pub mod mesh;
pub mod pipeline;
pub mod postprocess;
pub mod provider;
pub mod vox;
pub mod world;
