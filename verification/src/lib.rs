//! Batch image tagging: square padding geometry, tag ranking and threshold
//! selection, batch ordering and output layout, with machine-checked contracts.

pub mod batches;
pub mod config;
pub mod image_processor;
pub mod labels;
pub mod model;
pub mod ordering;
pub mod padding;
pub mod paths;
pub mod pixels;
pub mod progress_tracker;
pub mod ranking;
pub mod tag_names;
pub mod threshold;
