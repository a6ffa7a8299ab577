//! Background removal for photographs: normalising images, marshalling the
//! segmentation model's tensors, compositing the foreground over a chosen
//! background, and sequencing batches.

pub mod binary32;
pub mod codec;
pub mod commands;
pub mod compositor;
pub mod encoder;
pub mod error;
pub mod ml_engine;
pub mod normalizer;
pub mod raster;
pub mod rounding;
pub mod scaling;
