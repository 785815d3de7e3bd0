//! Numerical core of a block-based, motion-compensated video encoder: block
//! distortion, motion estimation and compensation over padded macroblock grids, the
//! integer stages around the block transform, and the per-picture encoding context.

pub mod c63;
pub mod dsp;
pub mod encode_context;
pub mod me;
pub mod quant;
pub mod tables;
